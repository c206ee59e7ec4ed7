use vstd::prelude::*;
use crate::lab_color::{LabBits, LabColor, lab_eq, lab_finite, lab_of_rgb};

verus! {

/// The colours of a sequence of `LabColor`s.
pub open spec fn views(s: Seq<LabColor>) -> Seq<LabBits> {
    s.map_values(|c: LabColor| c@)
}

/// The CIELAB colours of a sequence of sRGB pixels.
pub open spec fn labs_of_pixels(p: Seq<[u8; 3]>) -> Seq<LabBits> {
    p.map_values(|x: [u8; 3]| lab_of_rgb(x@))
}

/// Sample `i` starts a run: it is the first, or differs from the one before it.
pub open spec fn starts_run(s: Seq<LabBits>, i: int) -> bool {
    i == 0 || !lab_eq(s[i - 1], s[i])
}

/// The first sample of each run of equal samples among the first `n`.
pub open spec fn dedup_upto(s: Seq<LabBits>, n: nat) -> Seq<LabBits>
    decreases n,
{
    if n == 0 {
        seq![]
    } else {
        let rest = dedup_upto(s, (n - 1) as nat);
        if starts_run(s, n - 1) {
            rest.push(s[n - 1])
        } else {
            rest
        }
    }
}

/// The sequence with each run of consecutive equal samples collapsed to its first.
pub open spec fn dedup_runs(s: Seq<LabBits>) -> Seq<LabBits> {
    dedup_upto(s, s.len())
}

/// No two colours of the sequence compare equal.
pub open spec fn pairwise_distinct(d: Seq<LabBits>) -> bool {
    forall|i: int, j: int| 0 <= i < j < d.len() ==> !lab_eq(#[trigger] d[i], #[trigger] d[j])
}

/// Some colour of `d` is `x` or compares equal to it.
pub open spec fn covered(d: Seq<LabBits>, x: LabBits) -> bool {
    exists|i: int| 0 <= i < d.len() && (#[trigger] d[i] == x || lab_eq(d[i], x))
}

/// `d` holds one colour of `s` for each colour that `s` holds: pairwise
/// distinct colours, drawn from `s`, one equal to each colour of `s`.
pub open spec fn spans(d: Seq<LabBits>, s: Seq<LabBits>) -> bool {
    &&& pairwise_distinct(d)
    &&& forall|i: int| 0 <= i < d.len() ==> s.contains(#[trigger] d[i])
    &&& forall|j: int| 0 <= j < s.len() ==> covered(d, #[trigger] s[j])
}

/// Every channel of every colour of the sequence is finite.
pub open spec fn all_finite(s: Seq<LabBits>) -> bool {
    forall|i: int| 0 <= i < s.len() ==> lab_finite(#[trigger] s[i])
}

/// The centroids `c` stand for the colours of `s` one to one: each colour of
/// `s` equals some centroid, and each centroid equals some colour of `s`.
pub open spec fn centroids_match(c: Seq<LabBits>, s: Seq<LabBits>) -> bool {
    &&& forall|j: int| 0 <= j < s.len() ==> covered(c, #[trigger] s[j])
    &&& forall|i: int| 0 <= i < c.len() ==> covered(s, #[trigger] c[i])
}

/// `d` holds pairwise distinct colours drawn from `s`, no more than `cap` of
/// them, and, unless it holds `cap`, one equal to each colour of `s`.
pub open spec fn distinct_selection(d: Seq<LabBits>, s: Seq<LabBits>, cap: nat) -> bool {
    &&& d.len() <= cap
    &&& pairwise_distinct(d)
    &&& forall|i: int| 0 <= i < d.len() ==> s.contains(#[trigger] d[i])
    &&& d.len() < cap ==> forall|j: int| 0 <= j < s.len() ==> covered(d, #[trigger] s[j])
}

/// Converts each pixel to CIELAB, in raster order, and collapses each run of
/// consecutive equal colours to its first.
pub fn samples_of_pixels(pixels: &Vec<[u8; 3]>) -> (r: Vec<LabColor>)
    ensures
        views(r@) == dedup_runs(labs_of_pixels(pixels@)),
        all_finite(views(r@)),
{
    let mut labs: Vec<LabColor> = Vec::new();
    let mut i: usize = 0;
    while i < pixels.len()
        invariant
            i <= pixels.len(),
            views(labs@) == labs_of_pixels(pixels@).take(i as int),
            all_finite(views(labs@)),
        decreases pixels.len() - i,
    {
        let c = LabColor::from_rgb(pixels[i]);
        assert(c@ == labs_of_pixels(pixels@)[i as int]);
        let ghost before = views(labs@);
        labs.push(c);
        assert(views(labs@) =~= before.push(c@));
        assert(labs_of_pixels(pixels@).take(i + 1) =~= labs_of_pixels(pixels@).take(i as int).push(c@));
        i = i + 1;
    }
    assert(labs_of_pixels(pixels@).take(i as int) =~= labs_of_pixels(pixels@));
    dedup_consecutive(&labs)
}

/// Collapses each run of consecutive equal colours to its first; colours
/// that are equal but not adjacent are all kept.
pub fn dedup_consecutive(samples: &Vec<LabColor>) -> (r: Vec<LabColor>)
    ensures
        views(r@) == dedup_runs(views(samples@)),
        all_finite(views(samples@)) ==> all_finite(views(r@)),
{
    let ghost s = views(samples@);
    let mut out: Vec<LabColor> = Vec::new();
    let mut i: usize = 0;
    while i < samples.len()
        invariant
            i <= samples.len(),
            s == views(samples@),
            views(out@) == dedup_upto(s, i as nat),
            all_finite(s) ==> all_finite(views(out@)),
        decreases samples.len() - i,
    {
        if i == 0 || !samples[i - 1].lab_eq(&samples[i]) {
            out.push(samples[i]);
            assert(views(out@) =~= dedup_upto(s, i as nat).push(s[i as int]));
        }
        i = i + 1;
    }
    out
}

/// Picks up to `cap` colours of `samples` that are pairwise distinct and,
/// unless there are `cap` of them, stand for every colour of `samples`.
pub fn distinct_colors(samples: &Vec<LabColor>, cap: usize) -> (r: Vec<LabColor>)
    ensures
        distinct_selection(views(r@), views(samples@), cap as nat),
        cap >= 1 && samples.len() > 0 ==> r.len() >= 1,
{
    let ghost s = views(samples@);
    let mut reps: Vec<LabColor> = Vec::new();
    let mut j: usize = 0;
    while j < samples.len() && reps.len() < cap
        invariant
            j <= samples.len(),
            s == views(samples@),
            reps.len() <= cap,
            pairwise_distinct(views(reps@)),
            forall|i: int| 0 <= i < reps.len() ==> s.contains(#[trigger] views(reps@)[i]),
            forall|t: int| 0 <= t < j ==> covered(views(reps@), #[trigger] s[t]),
            j > 0 ==> reps.len() >= 1,
        decreases samples.len() - j,
    {
        let x = samples[j];
        let mut found = false;
        let mut i: usize = 0;
        while i < reps.len()
            invariant
                i <= reps.len(),
                x@ == s[j as int],
                found ==> covered(views(reps@), x@),
                !found ==> forall|m: int| 0 <= m < i ==> !lab_eq(#[trigger] views(reps@)[m], x@),
            decreases reps.len() - i,
        {
            if reps[i].lab_eq(&x) {
                found = true;
                assert(lab_eq(views(reps@)[i as int], x@));
            }
            i = i + 1;
        }
        if !found {
            let ghost old_reps = views(reps@);
            reps.push(x);
            assert(views(reps@) =~= old_reps.push(x@));
            assert forall|t: int| 0 <= t < j + 1 implies covered(views(reps@), #[trigger] s[t]) by {
                if t < j {
                    let w = choose|m: int| 0 <= m < old_reps.len() && (#[trigger] old_reps[m] == s[t] || lab_eq(old_reps[m], s[t]));
                    assert(views(reps@)[w] == old_reps[w]);
                } else {
                    assert(views(reps@)[old_reps.len() as int] == x@);
                }
            }
            assert(s.contains(x@)) by {
                assert(s[j as int] == x@);
            }
        }
        j = j + 1;
    }
    reps
}

} // verus!
