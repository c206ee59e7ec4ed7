use vstd::prelude::*;
use crate::clusters::{CLUSTER_COUNT, cluster_centroids};
use crate::lab_color::{LabBits, LabColor, rgb_of_lab};
use crate::merge::{lemma_merged_size, merge_similar, merged};
use crate::lab_color::lab_eq;
use crate::samples::{
    all_finite,
    centroids_match,
    covered,
    dedup_runs,
    dedup_upto,
    distinct_selection,
    labs_of_pixels,
    samples_of_pixels,
    starts_run,
    views,
};

verus! {

/// The channels of each pixel of a sequence.
pub open spec fn rgbs(p: Seq<[u8; 3]>) -> Seq<Seq<u8>> {
    p.map_values(|x: [u8; 3]| x@)
}

/// The palette that a list of centroids gives: the survivors of the merge,
/// in their original order, each in sRGB.
pub open spec fn palette(c: Seq<LabBits>) -> Seq<Seq<u8>> {
    merged(c).map_values(|x: LabBits| rgb_of_lab(x))
}

/// `k` centroids fit the samples: there are `k` pairwise distinct colours
/// among them, and `k` is `CLUSTER_COUNT` unless that is all there are.
pub open spec fn centroid_count_fits(s: Seq<LabBits>, k: nat) -> bool {
    exists|d: Seq<LabBits>| distinct_selection(d, s, CLUSTER_COUNT as nat) && #[trigger] d.len() == k
}

/// Every two samples compare equal: the image has a single colour.
pub open spec fn one_colour(s: Seq<LabBits>) -> bool {
    forall|i: int, j: int| 0 <= i < s.len() && 0 <= j < s.len() ==> lab_eq(#[trigger] s[i], #[trigger] s[j])
}

/// Samples of a single colour fit exactly one centroid.
pub proof fn lemma_one_colour_fits_one_centroid(s: Seq<LabBits>, k: nat)
    requires
        s.len() >= 1,
        one_colour(s),
        centroid_count_fits(s, k),
    ensures
        k == 1,
{
    let d = choose|d: Seq<LabBits>| distinct_selection(d, s, CLUSTER_COUNT as nat) && #[trigger] d.len() == k;
    if d.len() == 0 {
        assert(covered(d, s[0]));
    } else if d.len() >= 2 {
        assert(s.contains(d[0]));
        assert(s.contains(d[1]));
        let a = choose|a: int| 0 <= a < s.len() && s[a] == d[0];
        let b = choose|b: int| 0 <= b < s.len() && s[b] == d[1];
        assert(lab_eq(s[a], s[b]));
        assert(!lab_eq(d[0], d[1]));
    }
}

/// `p` is a palette that the pixels `px` can give, whatever the random seed
/// of the clustering: one to `CLUSTER_COUNT` colours; finite samples; one
/// colour where the samples hold one; and the palette of as many centroids as
/// there are distinct samples (capped), which below the cap are exactly
/// those colours.
pub open spec fn palette_fits(px: Seq<[u8; 3]>, p: Seq<Seq<u8>>) -> bool {
    let s = dedup_runs(labs_of_pixels(px));
    &&& 1 <= p.len() <= CLUSTER_COUNT
    &&& all_finite(s)
    &&& one_colour(s) ==> p.len() == 1
    &&& exists|c: Seq<LabBits>|
        #[trigger] palette(c) == p && 1 <= c.len() <= CLUSTER_COUNT && centroid_count_fits(s, c.len())
            && (c.len() < CLUSTER_COUNT ==> centroids_match(c, s))
}

proof fn lemma_dedup_nonempty(s: Seq<LabBits>, n: nat)
    requires
        1 <= n <= s.len(),
    ensures
        dedup_upto(s, n).len() >= 1,
    decreases n,
{
    if n > 1 {
        lemma_dedup_nonempty(s, (n - 1) as nat);
    } else {
        assert(starts_run(s, 0));
    }
}

/// The palette of a list of centroids: drops each centroid that is
/// perceptually similar to the next lighter one, and converts the rest to
/// sRGB in their original order.
pub fn palette_of_centroids(centroids: &Vec<LabColor>) -> (r: Vec<[u8; 3]>)
    ensures
        rgbs(r@) == palette(views(centroids@)),
        centroids.len() >= 1 ==> 1 <= r.len() <= centroids.len(),
{
    let kept = merge_similar(centroids);
    let ghost m = merged(views(centroids@));
    let mut out: Vec<[u8; 3]> = Vec::new();
    let mut i: usize = 0;
    while i < kept.len()
        invariant
            i <= kept.len(),
            views(kept@) == m,
            rgbs(out@) == m.take(i as int).map_values(|x: LabBits| rgb_of_lab(x)),
        decreases kept.len() - i,
    {
        let rgb = kept[i].to_rgb();
        let ghost before = rgbs(out@);
        out.push(rgb);
        assert(rgbs(out@) =~= before.push(rgb@));
        assert(m.take(i + 1).map_values(|x: LabBits| rgb_of_lab(x)) =~= m.take(i as int).map_values(
            |x: LabBits| rgb_of_lab(x),
        ).push(rgb_of_lab(m[i as int])));
        i = i + 1;
    }
    assert(m.take(i as int) =~= m);
    proof {
        if centroids.len() >= 1 {
            lemma_merged_size(views(centroids@));
        }
    }
    out
}

/// The palette of an image given as its pixels in raster order: converts
/// them to CIELAB, collapses runs of equal colours, clusters them, and merges
/// similar centroids. Which centroids the clustering yields depends on a
/// random seed; the palette is that of some list of them whose length fits
/// the samples.
pub fn palette_of_pixels(pixels: &Vec<[u8; 3]>) -> (r: Vec<[u8; 3]>)
    ensures
        pixels.len() == 0 ==> r.len() == 0,
        pixels.len() > 0 ==> palette_fits(pixels@, rgbs(r@)),
{
    if pixels.len() == 0 {
        return Vec::new();
    }
    let samples = samples_of_pixels(pixels);
    proof {
        lemma_dedup_nonempty(labs_of_pixels(pixels@), pixels.len() as nat);
    }
    let centroids = cluster_centroids(&samples);
    let r = palette_of_centroids(&centroids);
    assert(palette(views(centroids@)) == rgbs(r@));
    assert(views(centroids@).len() == centroids.len());
    assert(views(samples@) == dedup_runs(labs_of_pixels(pixels@)));
    proof {
        let s = dedup_runs(labs_of_pixels(pixels@));
        if one_colour(s) {
            let d = choose|d: Seq<LabBits>|
                distinct_selection(d, views(samples@), CLUSTER_COUNT as nat) && #[trigger] d.len() == centroids.len();
            assert(centroid_count_fits(s, centroids.len() as nat));
            lemma_one_colour_fits_one_centroid(s, centroids.len() as nat);
        }
    }
    r
}

} // verus!
