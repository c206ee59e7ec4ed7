use vstd::prelude::*;
use crate::lab_color::{LabBits, LabColor, lightness_key, similar};
use crate::samples::views;

verus! {

/// Centroid `i` comes before centroid `j` in the lightness order: by lighter
/// key first, and between equal keys by position, as a stable sort leaves them.
pub open spec fn before(c: Seq<LabBits>, i: int, j: int) -> bool {
    lightness_key(c[i]) < lightness_key(c[j]) || (lightness_key(c[i]) == lightness_key(c[j])
        && i < j)
}

/// Centroid `j` directly follows centroid `i` in the lightness order.
pub open spec fn is_next(c: Seq<LabBits>, i: int, j: int) -> bool {
    &&& 0 <= j < c.len()
    &&& before(c, i, j)
    &&& !(exists|m: int| 0 <= m < c.len() && #[trigger] before(c, i, m) && before(c, m, j))
}

/// Centroid `i` survives the merge: the centroid that directly follows it in
/// the lightness order, if any, is not perceptually similar to it.
pub open spec fn survives(c: Seq<LabBits>, i: int) -> bool {
    forall|j: int| #[trigger] is_next(c, i, j) ==> !similar(c[i], c[j])
}

/// The surviving centroids among the first `n`, in their original order.
pub open spec fn merged_upto(c: Seq<LabBits>, n: nat) -> Seq<LabBits>
    decreases n,
{
    if n == 0 {
        seq![]
    } else {
        let rest = merged_upto(c, (n - 1) as nat);
        if survives(c, n - 1) {
            rest.push(c[n - 1])
        } else {
            rest
        }
    }
}

/// The centroids that survive the merge, in their original order.
pub open spec fn merged(c: Seq<LabBits>) -> Seq<LabBits> {
    merged_upto(c, c.len())
}

/// Index `i` stands somewhere in `order`.
pub open spec fn lists(order: Seq<usize>, i: int) -> bool {
    exists|t: int| 0 <= t < order.len() && #[trigger] order[t] == i
}

/// `order` lists every index of `c` once, in the lightness order.
pub open spec fn is_lightness_order(c: Seq<LabBits>, order: Seq<usize>) -> bool {
    &&& order.len() == c.len()
    &&& forall|t: int| 0 <= t < order.len() ==> (#[trigger] order[t]) < c.len()
    &&& forall|s: int, t: int|
        #![trigger order[s], order[t]]
        0 <= s < t < order.len() ==> before(c, order[s] as int, order[t] as int)
    &&& forall|i: int| 0 <= i < c.len() ==> #[trigger] lists(order, i)
}

/// Compares the lightness of centroids `i` and `j`, in the order of
/// `f32::total_cmp`.
pub fn compare_lightness(c: &Vec<LabColor>, i: usize, j: usize) -> (r: core::cmp::Ordering)
    requires
        i < c.len(),
        j < c.len(),
    ensures
        (r == core::cmp::Ordering::Less) == (lightness_key(c[i as int]@) < lightness_key(c[j as int]@)),
        (r == core::cmp::Ordering::Equal) == (lightness_key(c[i as int]@) == lightness_key(c[j as int]@)),
        (r == core::cmp::Ordering::Greater) == (lightness_key(c[i as int]@) > lightness_key(c[j as int]@)),
{
    let ki = c[i].lightness_key();
    let kj = c[j].lightness_key();
    if ki < kj {
        core::cmp::Ordering::Less
    } else if ki == kj {
        core::cmp::Ordering::Equal
    } else {
        core::cmp::Ordering::Greater
    }
}

/// Relies on `Itertools::sorted_by`, which sorts with `slice::sort_by`, a
/// stable sort: the indices `0..c.len()`, taken in increasing order and
/// sorted by `compare_lightness`, come out by increasing lightness key and,
/// between equal keys, by increasing index.
#[verifier::external_body]
fn sorted_by_lightness(c: &Vec<LabColor>) -> (order: Vec<usize>)
    ensures
        is_lightness_order(views(c@), order@),
{
    itertools::Itertools::sorted_by(0..c.len(), |&i, &j| compare_lightness(c, i, j)).collect()
}

/// The indices of the centroids, stably sorted by the lightness channel in
/// the order of `f32::total_cmp`.
pub fn lightness_order(c: &Vec<LabColor>) -> (order: Vec<usize>)
    ensures
        is_lightness_order(views(c@), order@),
{
    sorted_by_lightness(c)
}

/// In the lightness order, the centroid at position `t + 1` is the one that
/// directly follows the centroid at position `t`, and the last has none.
proof fn lemma_next_in_order(c: Seq<LabBits>, order: Seq<usize>, t: int)
    requires
        is_lightness_order(c, order),
        0 <= t < order.len(),
    ensures
        t + 1 < order.len() ==> forall|j: int| #[trigger] is_next(c, order[t] as int, j) == (j
            == order[t + 1] as int),
        t + 1 == order.len() ==> forall|j: int| !#[trigger] is_next(c, order[t] as int, j),
{
    let x = order[t] as int;
    assert forall|j: int| #[trigger] is_next(c, x, j) implies t + 1 < order.len() && j == order[t
        + 1] as int by {
        assert(lists(order, j));
        let s = choose|s: int| 0 <= s < order.len() && #[trigger] order[s] == j;
        if s <= t {
            if s < t {
                assert(before(c, order[s] as int, order[t] as int));
            }
        } else if s > t + 1 {
            assert(before(c, order[t] as int, order[t + 1] as int));
            assert(before(c, order[t + 1] as int, order[s] as int));
        }
    }
    if t + 1 < order.len() {
        let y = order[t + 1] as int;
        assert(before(c, x, y));
        assert forall|m: int| 0 <= m < c.len() && #[trigger] before(c, x, m) implies !before(
            c,
            m,
            y,
        ) by {
            assert(lists(order, m));
            let u = choose|u: int| 0 <= u < order.len() && #[trigger] order[u] == m;
            if u < t {
                assert(before(c, order[u] as int, order[t] as int));
            } else if u > t + 1 {
                assert(before(c, order[t + 1] as int, order[u] as int));
            }
        }
        assert(is_next(c, x, y));
    }
}

/// For each centroid, whether it survives the merge.
pub fn survivor_flags(c: &Vec<LabColor>, order: &Vec<usize>) -> (flags: Vec<bool>)
    requires
        is_lightness_order(views(c@), order@),
    ensures
        flags.len() == c.len(),
        forall|i: int| 0 <= i < c.len() ==> flags[i] == survives(views(c@), i),
{
    let ghost cv = views(c@);
    let n = c.len();
    let mut flags: Vec<bool> = Vec::new();
    while flags.len() < n
        invariant
            flags.len() <= n,
        decreases n - flags.len(),
    {
        flags.push(false);
    }
    let mut t: usize = 0;
    while t < n
        invariant
            t <= n,
            n == c.len(),
            cv == views(c@),
            flags.len() == n,
            is_lightness_order(cv, order@),
            forall|s: int| 0 <= s < t ==> flags[#[trigger] order[s] as int] == survives(cv, order[s] as int),
        decreases n - t,
    {
        let x = order[t];
        let keep = if t + 1 == n {
            true
        } else {
            !c[x].is_similar(&c[order[t + 1]])
        };
        proof {
            lemma_next_in_order(cv, order@, t as int);
            assert(keep == survives(cv, x as int)) by {
                if t + 1 < n {
                    assert(is_next(cv, x as int, order[t + 1] as int));
                }
            }
            assert forall|s: int| 0 <= s < t implies #[trigger] order[s] != x by {
                assert(before(cv, order[s] as int, order[t as int] as int));
            }
        }
        flags.set(x, keep);
        t = t + 1;
    }
    proof {
        assert forall|i: int| 0 <= i < n implies flags[i] == survives(cv, i) by {
            assert(lists(order@, i));
            let s = choose|s: int| 0 <= s < order.len() && #[trigger] order[s] == i;
        }
    }
    flags
}

/// The centroids whose flag is set, in their original order.
pub fn restore_order(c: &Vec<LabColor>, flags: &Vec<bool>) -> (r: Vec<LabColor>)
    requires
        flags.len() == c.len(),
        forall|i: int| 0 <= i < c.len() ==> flags[i] == survives(views(c@), i),
    ensures
        views(r@) == merged(views(c@)),
{
    let ghost cv = views(c@);
    let mut out: Vec<LabColor> = Vec::new();
    let mut i: usize = 0;
    while i < c.len()
        invariant
            i <= c.len(),
            cv == views(c@),
            flags.len() == c.len(),
            forall|j: int| 0 <= j < c.len() ==> flags[j] == survives(cv, j),
            views(out@) == merged_upto(cv, i as nat),
        decreases c.len() - i,
    {
        if flags[i] {
            out.push(c[i]);
            assert(views(out@) =~= merged_upto(cv, i as nat).push(cv[i as int]));
        }
        i = i + 1;
    }
    out
}

/// Drops each centroid that is perceptually similar to the one that directly
/// follows it in lightness order, and keeps the rest in their original order.
pub fn merge_similar(c: &Vec<LabColor>) -> (r: Vec<LabColor>)
    ensures
        views(r@) == merged(views(c@)),
{
    let order = lightness_order(c);
    let flags = survivor_flags(c, &order);
    restore_order(c, &flags)
}

/// The centroid that comes last in lightness order among the first `n`.
pub open spec fn last_in_order(c: Seq<LabBits>, n: nat) -> int
    decreases n,
{
    if n <= 1 {
        0
    } else {
        let m = last_in_order(c, (n - 1) as nat);
        if before(c, m, n - 1) {
            n - 1
        } else {
            m
        }
    }
}

proof fn lemma_last_in_order(c: Seq<LabBits>, n: nat)
    requires
        1 <= n <= c.len(),
    ensures
        0 <= last_in_order(c, n) < n,
        forall|j: int| 0 <= j < n && j != last_in_order(c, n) ==> #[trigger] before(c, j, last_in_order(c, n)),
    decreases n,
{
    if n > 1 {
        lemma_last_in_order(c, (n - 1) as nat);
        let m1 = last_in_order(c, (n - 1) as nat);
        let m = last_in_order(c, n);
        assert forall|j: int| 0 <= j < n && j != m implies #[trigger] before(c, j, m) by {
            if j < n - 1 && j != m1 {
                assert(before(c, j, m1));
            }
        }
    }
}

/// The centroid that comes last in lightness order survives the merge.
proof fn lemma_last_survives(c: Seq<LabBits>)
    requires
        c.len() >= 1,
    ensures
        survives(c, last_in_order(c, c.len())),
{
    let m = last_in_order(c, c.len());
    lemma_last_in_order(c, c.len());
    assert forall|j: int| #[trigger] is_next(c, m, j) implies !similar(c[m], c[j]) by {
        if j != m {
            assert(before(c, j, m));
        }
    }
}

proof fn lemma_merged_len(c: Seq<LabBits>, n: nat, i: int)
    requires
        n <= c.len(),
    ensures
        merged_upto(c, n).len() <= n,
        0 <= i < n && survives(c, i) ==> merged_upto(c, n).len() >= 1,
    decreases n,
{
    if n > 0 {
        lemma_merged_len(c, (n - 1) as nat, i);
    }
}

/// However many centroids there are, at least one survives the merge, and
/// none is added: a palette of `c.len()` centroids keeps between one and
/// `c.len()` colours.
pub proof fn lemma_merged_size(c: Seq<LabBits>)
    requires
        c.len() >= 1,
    ensures
        1 <= merged(c).len() <= c.len(),
{
    lemma_last_in_order(c, c.len());
    lemma_last_survives(c);
    lemma_merged_len(c, c.len(), last_in_order(c, c.len()));
}

/// The positions, in increasing order, of the surviving centroids among the first `n`.
pub open spec fn survivor_indices(c: Seq<LabBits>, n: nat) -> Seq<int>
    decreases n,
{
    if n == 0 {
        seq![]
    } else {
        let rest = survivor_indices(c, (n - 1) as nat);
        if survives(c, n - 1) {
            rest.push(n - 1)
        } else {
            rest
        }
    }
}

proof fn lemma_survivor_indices(c: Seq<LabBits>, n: nat)
    requires
        n <= c.len(),
    ensures
        survivor_indices(c, n).len() == merged_upto(c, n).len(),
        forall|k: int|
            0 <= k < survivor_indices(c, n).len() ==> 0 <= #[trigger] survivor_indices(c, n)[k] < n
                && merged_upto(c, n)[k] == c[survivor_indices(c, n)[k]] && survives(
                c,
                survivor_indices(c, n)[k],
            ),
        forall|k1: int, k2: int|
            0 <= k1 < k2 < survivor_indices(c, n).len() ==> #[trigger] survivor_indices(c, n)[k1]
                < #[trigger] survivor_indices(c, n)[k2],
    decreases n,
{
    if n > 0 {
        lemma_survivor_indices(c, (n - 1) as nat);
    }
}

/// The merge keeps the centroids in their original order, not in lightness
/// order: the palette is the subsequence of `c` made of the survivors, at
/// strictly increasing positions.
pub proof fn lemma_merged_keeps_original_order(c: Seq<LabBits>)
    ensures
        ({
            let idx = survivor_indices(c, c.len());
            &&& idx.len() == merged(c).len()
            &&& forall|k: int|
                0 <= k < idx.len() ==> 0 <= #[trigger] idx[k] < c.len() && merged(c)[k] == c[idx[k]]
                    && survives(c, idx[k])
            &&& forall|k1: int, k2: int|
                0 <= k1 < k2 < idx.len() ==> #[trigger] idx[k1] < #[trigger] idx[k2]
        }),
{
    lemma_survivor_indices(c, c.len());
}

/// The centroid that comes first in lightness order among those of the first
/// `n` that come after centroid `i`, or -1 where there is none.
pub open spec fn first_after(c: Seq<LabBits>, n: nat, i: int) -> int
    decreases n,
{
    if n == 0 {
        -1
    } else {
        let m = first_after(c, (n - 1) as nat, i);
        if before(c, i, n - 1) && (m < 0 || before(c, n - 1, m)) {
            n - 1
        } else {
            m
        }
    }
}

proof fn lemma_first_after(c: Seq<LabBits>, n: nat, i: int)
    requires
        n <= c.len(),
    ensures
        -1 <= first_after(c, n, i) < n,
        first_after(c, n, i) >= 0 ==> before(c, i, first_after(c, n, i)),
        forall|j: int|
            0 <= j < n && #[trigger] before(c, i, j) && j != first_after(c, n, i) ==> first_after(c, n, i)
                >= 0 && before(c, first_after(c, n, i), j),
    decreases n,
{
    if n > 0 {
        lemma_first_after(c, (n - 1) as nat, i);
    }
}

/// Where each centroid is perceptually similar to the one that directly
/// follows it in lightness order, the merge keeps exactly one of them: the
/// last in lightness order.
pub proof fn lemma_similar_neighbours_merge_to_one(c: Seq<LabBits>)
    requires
        c.len() >= 1,
        forall|i: int, j: int| 0 <= i < c.len() && #[trigger] is_next(c, i, j) ==> similar(c[i], c[j]),
    ensures
        merged(c).len() == 1,
{
    let m = last_in_order(c, c.len());
    lemma_last_in_order(c, c.len());
    lemma_last_survives(c);
    assert forall|i: int| 0 <= i < c.len() && i != m implies !survives(c, i) by {
        lemma_first_after(c, c.len(), i);
        let r = first_after(c, c.len(), i);
        assert(before(c, i, m));
        assert(r >= 0);
        assert forall|k: int| 0 <= k < c.len() && #[trigger] before(c, i, k) implies !before(c, k, r) by {
            if k != r {
                assert(before(c, r, k));
            }
        }
        assert(is_next(c, i, r));
        assert(similar(c[i], c[r]));
    }
    lemma_survivors_are(c, c.len(), m);
}

proof fn lemma_survivors_are(c: Seq<LabBits>, n: nat, m: int)
    requires
        n <= c.len(),
        0 <= m < c.len(),
        survives(c, m),
        forall|i: int| 0 <= i < c.len() && i != m ==> !survives(c, i),
    ensures
        merged_upto(c, n).len() == if m < n { 1int } else { 0int },
    decreases n,
{
    if n > 0 {
        lemma_survivors_are(c, (n - 1) as nat, m);
    }
}

} // verus!
