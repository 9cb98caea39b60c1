//! A whole run: rounds of assignment and update until the centroids stay
//! where they are, a cluster comes out empty, or the allowed rounds are used.

use vstd::prelude::*;
use crate::engine::{
    assign_points, check_convergence, clusters_view, group_clusters, update_centroids, KMeansData,
    KMeansError,
};
use crate::laws::lemma_clusters_partition;
use crate::model::{
    assign_spec, groups_spec, lloyd_run, lloyd_run_from, lloyd_step, step_fails, total_len,
    union_of, RunOutcome,
};
use crate::point::Point;
use crate::sampling::{chosen_from, forgy_centroids};

verus! {

/// What a run returns: the clusters, the centroids, whether the centroids
/// were found stable, and the number of rounds made.
#[derive(Debug)]
pub struct ResultKMeans {
    pub clusters: Vec<Vec<Point>>,
    pub centroids: Vec<Point>,
    pub converged: bool,
    pub iterations: usize,
}

impl ResultKMeans {
    /// The clusters as sequences of points.
    pub open spec fn groups(&self) -> Seq<Seq<Point>> {
        clusters_view(self.clusters@)
    }

    /// The result holds these centroids, reached in `rounds` rounds, and the
    /// clusters that assigning each point of `points` to the nearest of them
    /// gives.
    pub open spec fn holds(
        &self,
        points: Seq<Point>,
        centroids: Seq<Point>,
        rounds: nat,
        converged: bool,
    ) -> bool {
        &&& self.converged == converged
        &&& self.iterations == rounds
        &&& self.centroids@ == centroids
        &&& self.groups() == groups_spec(
            points,
            assign_spec(points, centroids),
            centroids.len(),
        )
    }
}

/// `r` is what the run on `points` from the centroids `init`, of at most
/// `cap` rounds, returns.
pub open spec fn run_result(
    r: Result<ResultKMeans, KMeansError>,
    points: Seq<Point>,
    init: Seq<Point>,
    cap: nat,
) -> bool {
    match lloyd_run(points, init, cap) {
        RunOutcome::Converged { centroids, rounds } => r matches Ok(res) && res.holds(
            points,
            centroids,
            rounds,
            true,
        ),
        RunOutcome::CapReached { centroids, rounds } => r matches Ok(res) && res.holds(
            points,
            centroids,
            rounds,
            false,
        ),
        RunOutcome::EmptyCluster => r matches Err(e) && e == KMeansError::EmptyCluster,
    }
}

/// What every result of a run on `points` with `k` clusters has: `k`
/// centroids, and `k` clusters that are a partition of the dataset and group
/// each point with its nearest centroid. Where the run converged, one more
/// round from the centroids gives the same centroids.
pub open spec fn sound_result(res: ResultKMeans, points: Seq<Point>, k: nat) -> bool {
    &&& res.centroids@.len() == k
    &&& res.groups().len() == k
    &&& res.groups() == groups_spec(points, assign_spec(points, res.centroids@), k)
    &&& union_of(res.groups()) == points.to_multiset()
    &&& total_len(res.groups()) == points.len()
    &&& res.converged ==> !step_fails(points, res.centroids@) && lloyd_step(
        points,
        res.centroids@,
    ) == res.centroids@
}

/// Runs the clustering of `data` from the given initial centroids, one
/// cluster for each of them, for at most `max_iterations` rounds.
///
/// A round assigns each point to its nearest centroid and takes the mean of
/// each cluster. If the means are the centroids, the run has converged. If a
/// cluster is empty, the run fails. Otherwise the means become the centroids
/// of the next round. When the rounds are used up, the result holds the
/// centroids reached and is marked as not converged.
pub fn kmeans_with_centroids(
    data: Vec<Point>,
    centroids: Vec<Point>,
    max_iterations: usize,
) -> (r: Result<ResultKMeans, KMeansError>)
    ensures
        (centroids@.len() == 0 || centroids@.len() > data@.len()) <==> (r matches Err(e) && e
            == KMeansError::InvalidK),
        1 <= centroids@.len() <= data@.len() ==> run_result(
            r,
            data@,
            centroids@,
            max_iterations as nat,
        ),
        r matches Ok(res) ==> sound_result(res, data@, centroids@.len()),
{
    let k = centroids.len();
    let ghost points = data@;
    let ghost init = centroids@;
    let mut kmeans_data = match KMeansData::new(data, k, centroids) {
        Ok(state) => state,
        Err(e) => {
            return Err(e);
        },
    };
    let mut rounds: usize = 0;
    while rounds < max_iterations
        invariant
            rounds <= max_iterations,
            kmeans_data.wf(),
            kmeans_data.points@ == points,
            kmeans_data.k == k,
            points == data@,
            init == centroids@,
            init.len() == k,
            lloyd_run(points, init, max_iterations as nat) == lloyd_run_from(
                points,
                kmeans_data.centroids@,
                (max_iterations - rounds) as nat,
                rounds as nat,
            ),
        decreases max_iterations - rounds,
    {
        let temp_assignments = assign_points(&kmeans_data);
        match update_centroids(&kmeans_data, &temp_assignments) {
            Err(e) => {
                return Err(e);
            },
            Ok(new_centroids) => {
                if check_convergence(&kmeans_data, &new_centroids) {
                    proof {
                        lemma_clusters_partition(points, temp_assignments@, k as nat);
                    }
                    let clusters = group_clusters(k, &kmeans_data, temp_assignments);
                    return Ok(
                        ResultKMeans {
                            clusters,
                            centroids: new_centroids,
                            converged: true,
                            iterations: rounds + 1,
                        },
                    );
                }
                kmeans_data.centroids = new_centroids;
            },
        }
        rounds += 1;
    }
    let temp_assignments = assign_points(&kmeans_data);
    proof {
        lemma_clusters_partition(points, temp_assignments@, k as nat);
    }
    let clusters = group_clusters(k, &kmeans_data, temp_assignments);
    Ok(
        ResultKMeans {
            clusters,
            centroids: kmeans_data.centroids,
            converged: false,
            iterations: rounds,
        },
    )
}

/// Clusters `data` into `k` clusters, from initial centroids chosen at random
/// among the points, for at most `max_iterations` rounds.
pub fn kmeans_alg(data: Vec<Point>, k: usize, max_iterations: usize) -> (r: Result<
    ResultKMeans,
    KMeansError,
>)
    ensures
        (k == 0 || k > data@.len()) <==> (r matches Err(e) && e == KMeansError::InvalidK),
        1 <= k <= data@.len() ==> exists|init: Seq<Point>|
            chosen_from(data@, k as nat, init) && #[trigger] run_result(
                r,
                data@,
                init,
                max_iterations as nat,
            ),
        r matches Ok(res) ==> sound_result(res, data@, k as nat),
{
    let centroids = match forgy_centroids(&data, k) {
        Ok(centroids) => centroids,
        Err(e) => {
            return Err(e);
        },
    };
    let r = kmeans_with_centroids(data, centroids, max_iterations);
    assert(chosen_from(data@, k as nat, centroids@) && run_result(
        r,
        data@,
        centroids@,
        max_iterations as nat,
    ));
    r
}

} // verus!
