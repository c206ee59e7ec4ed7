use vstd::prelude::*;
use crate::lab_color::{LabBits, LabColor};
use crate::samples::{
    all_finite,
    centroids_match,
    distinct_colors,
    distinct_selection,
    spans,
    views,
};

verus! {

/// Most centroids that the clustering produces.
pub const CLUSTER_COUNT: usize = 16;

/// Most rounds of reassignment that the clustering runs.
pub const MAX_ITERATIONS: usize = 1024;

/// Relies on `clustering::kmeans`: k-means with k-means++ seeding from a
/// random first sample, stopping when no sample moves or after `max_iter`
/// rounds. It returns one centroid per cluster, `k` in all, and panics on an
/// empty sample set or on `k == 0`.
/// Where the samples are finite and hold exactly `k` distinct colours, the
/// seeding takes one sample of each colour, every sample joins the centroid
/// of its own colour, and the mean of equal values is that value: the
/// centroids are the `k` colours themselves.
#[verifier::external_body]
fn kmeans(samples: &Vec<LabColor>, k: usize, max_iter: usize) -> (r: Vec<LabColor>)
    requires
        samples.len() > 0,
        k >= 1,
    ensures
        r.len() == k,
        all_finite(views(samples@)) && (exists|d: Seq<LabBits>|
            #[trigger] d.len() == k && spans(d, views(samples@))) ==> centroids_match(
            views(r@),
            views(samples@),
        ),
{
    let elems: Vec<Vec<_>> = samples.iter().map(|s| vec![s.value().l, s.value().a, s.value().b]).collect();
    let clusters = clustering::kmeans(k, &elems, max_iter);
    clusters.centroids.iter().map(|c| LabColor::from_lab(lab::Lab { l: c.0[0] as _, a: c.0[1] as _, b: c.0[2] as _ })).collect()
}

/// Clusters the samples into as many centroids as they hold distinct
/// colours, at most `CLUSTER_COUNT`, so that no centroid stands for nothing.
/// Below that cap, the centroids of finite samples are their distinct
/// colours; otherwise which centroids come out depends on a random seed.
pub fn cluster_centroids(samples: &Vec<LabColor>) -> (r: Vec<LabColor>)
    requires
        samples.len() > 0,
    ensures
        1 <= r.len() <= CLUSTER_COUNT,
        exists|d: Seq<LabBits>|
            distinct_selection(d, views(samples@), CLUSTER_COUNT as nat) && #[trigger] d.len() == r.len(),
        r.len() < CLUSTER_COUNT && all_finite(views(samples@)) ==> centroids_match(views(r@), views(samples@)),
{
    let reps = distinct_colors(samples, CLUSTER_COUNT);
    let r = kmeans(samples, reps.len(), MAX_ITERATIONS);
    assert(distinct_selection(views(reps@), views(samples@), CLUSTER_COUNT as nat) && views(reps@).len() == r.len());
    if reps.len() < CLUSTER_COUNT {
        assert(spans(views(reps@), views(samples@)));
    }
    r
}

} // verus!
