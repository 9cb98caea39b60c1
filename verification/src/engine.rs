//! The clustering engine: assignment, centroid update, convergence test and
//! the grouping of the points into clusters.

use vstd::prelude::*;
use crate::model::{
    assign_spec, cluster_members, groups_spec, has_empty_cluster, is_nearest, lemma_mean_in_range,
    lemma_members_len, lemma_nearest_index, lemma_sum_bounds, lemma_sum_push, mean_point,
    members_upto, sum_x, sum_y, update_spec, valid_assignment,
};
use crate::point::{squared_distance, squared_distance_spec, Point};

verus! {

/// Why a run cannot be made or cannot go on.
#[derive(Clone, Copy, Debug, PartialEq, Eq, Structural)]
pub enum KMeansError {
    /// There are no clusters to make, or more clusters than points.
    InvalidK,
    /// A round left a cluster without a point, so that it has no mean.
    EmptyCluster,
}

/// The state of a run: the dataset, the number of clusters and the current
/// centroids.
#[derive(Debug)]
pub struct KMeansData {
    pub points: Vec<Point>,
    pub k: usize,
    pub centroids: Vec<Point>,
}

impl KMeansData {
    /// There is at least one cluster and at most one for each point, and each
    /// cluster has its centroid.
    pub open spec fn wf(&self) -> bool {
        &&& 1 <= self.k <= self.points@.len()
        &&& self.centroids@.len() == self.k
    }

    /// The state with the given dataset and centroids, where these make a
    /// valid state.
    pub fn new(points: Vec<Point>, k: usize, centroids: Vec<Point>) -> (r: Result<
        KMeansData,
        KMeansError,
    >)
        ensures
            match r {
                Ok(state) => {
                    &&& 1 <= k <= points@.len()
                    &&& centroids@.len() == k
                    &&& state.wf()
                    &&& state.points == points
                    &&& state.k == k
                    &&& state.centroids == centroids
                },
                Err(e) => {
                    &&& e == KMeansError::InvalidK
                    &&& (k == 0 || k > points@.len() || centroids@.len() != k)
                },
            },
    {
        if k == 0 || k > points.len() || centroids.len() != k {
            Err(KMeansError::InvalidK)
        } else {
            Ok(KMeansData { points, k, centroids })
        }
    }
}

/// `sum` divided by `n`, rounded down.
fn floor_div(sum: i128, n: usize) -> (q: i128)
    requires
        n > 0,
        -0x4000_0000_0000_0000_0000_0000_0000_0000 <= sum <= 0x4000_0000_0000_0000_0000_0000_0000_0000,
    ensures
        q == (sum as int) / (n as int),
{
    let d: u128 = n as u128;
    if sum >= 0 {
        ((sum as u128) / d) as i128
    } else {
        let a: u128 = (-sum) as u128;
        let up: u128 = (a + d - 1) / d;
        proof {
            let r = ((a + d - 1) as int) % (d as int);
            vstd::arithmetic::div_mod::lemma_fundamental_div_mod((a + d - 1) as int, d as int);
            assert(sum == d * (-up) + (d - r - 1)) by (nonlinear_arith)
                requires
                    a + d - 1 == d * up + r,
                    sum == -a,
            ;
            vstd::arithmetic::div_mod::lemma_fundamental_div_mod_converse(
                sum as int,
                d as int,
                -(up as int),
                (d - r - 1) as int,
            );
        }
        -(up as i128)
    }
}

/// The new centroid set: for each cluster the mean of the points assigned to
/// it, each coordinate rounded down. A cluster without a point has no mean,
/// and the update then fails.
pub fn update_centroids(kmeans_data: &KMeansData, temp_assignments: &Vec<usize>) -> (r: Result<
    Vec<Point>,
    KMeansError,
>)
    requires
        valid_assignment(
            temp_assignments@,
            kmeans_data.points@.len(),
            kmeans_data.k as nat,
        ),
    ensures
        match r {
            Ok(new_centroids) => {
                &&& !has_empty_cluster(
                    kmeans_data.points@,
                    temp_assignments@,
                    kmeans_data.k as nat,
                )
                &&& new_centroids@ == update_spec(
                    kmeans_data.points@,
                    temp_assignments@,
                    kmeans_data.k as nat,
                )
            },
            Err(e) => {
                &&& e == KMeansError::EmptyCluster
                &&& has_empty_cluster(kmeans_data.points@, temp_assignments@, kmeans_data.k as nat)
            },
        },
{
    let k = kmeans_data.k;
    let n = kmeans_data.points.len();
    let ghost points = kmeans_data.points@;
    let ghost assignment = temp_assignments@;
    let mut sums_x: Vec<i128> = Vec::new();
    let mut sums_y: Vec<i128> = Vec::new();
    let mut counts: Vec<usize> = Vec::new();
    let mut c: usize = 0;
    while c < k
        invariant
            c <= k,
            sums_x@.len() == c,
            sums_y@.len() == c,
            counts@.len() == c,
            forall|j: int| 0 <= j < c ==> sums_x@[j] == 0 && sums_y@[j] == 0 && counts@[j] == 0,
        decreases k - c,
    {
        sums_x.push(0);
        sums_y.push(0);
        counts.push(0);
        c += 1;
    }
    let mut i: usize = 0;
    while i < n
        invariant
            i <= n,
            n == points.len(),
            points == kmeans_data.points@,
            assignment == temp_assignments@,
            valid_assignment(assignment, n as nat, k as nat),
            sums_x@.len() == k,
            sums_y@.len() == k,
            counts@.len() == k,
            forall|j: int|
                0 <= j < k ==> {
                    let members = #[trigger] members_upto(points, assignment, j, i as nat);
                    &&& sums_x@[j] == sum_x(members)
                    &&& sums_y@[j] == sum_y(members)
                    &&& counts@[j] == members.len()
                },
        decreases n - i,
    {
        let point = kmeans_data.points[i];
        let cluster = temp_assignments[i];
        proof {
            let members = members_upto(points, assignment, cluster as int, i as nat);
            lemma_members_len(points, assignment, cluster as int, i as nat);
            lemma_sum_bounds(members);
            assert(i32::MIN * members.len() >= i32::MIN * i && i32::MAX * members.len()
                <= i32::MAX * i) by (nonlinear_arith)
                requires
                    members.len() <= i,
            ;
            lemma_sum_push(members, point);
        }
        sums_x.set(cluster, sums_x[cluster] + point.x as i128);
        sums_y.set(cluster, sums_y[cluster] + point.y as i128);
        counts.set(cluster, counts[cluster] + 1);
        i += 1;
        assert forall|j: int| 0 <= j < k implies {
            let members = #[trigger] members_upto(points, assignment, j, i as nat);
            &&& sums_x@[j] == sum_x(members)
            &&& sums_y@[j] == sum_y(members)
            &&& counts@[j] == members.len()
        } by {
            let before = members_upto(points, assignment, j, (i - 1) as nat);
            assert(sums_x@[j] == if j == cluster {
                sum_x(before) + point.x
            } else {
                sum_x(before)
            });
        }
    }
    let mut new_centroids: Vec<Point> = Vec::new();
    let mut c: usize = 0;
    while c < k
        invariant
            c <= k,
            k == kmeans_data.k,
            points == kmeans_data.points@,
            assignment == temp_assignments@,
            sums_x@.len() == k,
            sums_y@.len() == k,
            counts@.len() == k,
            new_centroids@.len() == c,
            forall|j: int|
                0 <= j < k ==> {
                    let members = #[trigger] cluster_members(points, assignment, j);
                    &&& sums_x@[j] == sum_x(members)
                    &&& sums_y@[j] == sum_y(members)
                    &&& counts@[j] == members.len()
                },
            forall|j: int|
                0 <= j < c ==> (#[trigger] cluster_members(points, assignment, j)).len() > 0
                    && new_centroids@[j] == mean_point(cluster_members(points, assignment, j)),
        decreases k - c,
    {
        let ghost members = cluster_members(points, assignment, c as int);
        if counts[c] == 0 {
            assert(members.len() == 0);
            return Err(KMeansError::EmptyCluster);
        }
        proof {
            lemma_sum_bounds(members);
            lemma_mean_in_range(sum_x(members), members.len() as int);
            lemma_mean_in_range(sum_y(members), members.len() as int);
            assert(i32::MIN * members.len() >= i32::MIN * usize::MAX && i32::MAX * members.len()
                <= i32::MAX * usize::MAX) by (nonlinear_arith)
                requires
                    members.len() <= usize::MAX,
            ;
        }
        let x = floor_div(sums_x[c], counts[c]);
        let y = floor_div(sums_y[c], counts[c]);
        new_centroids.push(Point { x: x as i32, y: y as i32 });
        c += 1;
    }
    assert(new_centroids@ =~= update_spec(points, assignment, k as nat));
    assert(!has_empty_cluster(points, assignment, k as nat));
    Ok(new_centroids)
}

/// The assignment vector: for each point the index of the centroid at the
/// least distance, the lowest index where several are equally near.
pub fn assign_points(kdata: &KMeansData) -> (temp_assignment: Vec<usize>)
    requires
        kdata.centroids@.len() > 0,
    ensures
        temp_assignment@ == assign_spec(kdata.points@, kdata.centroids@),
        valid_assignment(temp_assignment@, kdata.points@.len(), kdata.centroids@.len()),
        forall|i: int|
            0 <= i < kdata.points@.len() ==> is_nearest(
                #[trigger] kdata.points@[i],
                kdata.centroids@,
                temp_assignment@[i] as int,
            ),
{
    let n = kdata.points.len();
    let k = kdata.centroids.len();
    let mut temp_assignment: Vec<usize> = Vec::with_capacity(n);
    let mut i: usize = 0;
    while i < n
        invariant
            i <= n,
            n == kdata.points@.len(),
            k == kdata.centroids@.len(),
            k > 0,
            temp_assignment@.len() == i,
            forall|m: int|
                0 <= m < i ==> is_nearest(
                    #[trigger] kdata.points@[m],
                    kdata.centroids@,
                    temp_assignment@[m] as int,
                ),
        decreases n - i,
    {
        let point = kdata.points[i];
        let mut index: usize = 0;
        let mut min_distance = squared_distance(point, kdata.centroids[0]);
        let mut j: usize = 1;
        while j < k
            invariant
                1 <= j <= k,
                k == kdata.centroids@.len(),
                index < j,
                min_distance == squared_distance_spec(point, kdata.centroids@[index as int]),
                forall|m: int|
                    0 <= m < j ==> min_distance <= squared_distance_spec(
                        point,
                        #[trigger] kdata.centroids@[m],
                    ),
                forall|m: int|
                    0 <= m < index ==> min_distance < squared_distance_spec(
                        point,
                        #[trigger] kdata.centroids@[m],
                    ),
            decreases k - j,
        {
            let distance = squared_distance(point, kdata.centroids[j]);
            if distance < min_distance {
                min_distance = distance;
                index = j;
            }
            j += 1;
        }
        temp_assignment.push(index);
        i += 1;
    }
    proof {
        assert forall|m: int| 0 <= m < n implies temp_assignment@[m] == #[trigger] assign_spec(
            kdata.points@,
            kdata.centroids@,
        )[m] by {
            lemma_nearest_index(kdata.points@[m], kdata.centroids@);
        }
        assert(temp_assignment@ =~= assign_spec(kdata.points@, kdata.centroids@));
    }
    temp_assignment
}

/// Whether the new centroids are the current ones: as many, and each equal to
/// its counterpart in both coordinates.
pub fn check_convergence(kmeans_data: &KMeansData, new_centroids: &Vec<Point>) -> (same: bool)
    ensures
        same == (kmeans_data.centroids@ == new_centroids@),
{
    let k = kmeans_data.centroids.len();
    if new_centroids.len() != k {
        return false;
    }
    let mut c: usize = 0;
    while c < k
        invariant
            c <= k,
            k == kmeans_data.centroids@.len(),
            k == new_centroids@.len(),
            forall|j: int| 0 <= j < c ==> kmeans_data.centroids@[j] == new_centroids@[j],
        decreases k - c,
    {
        let old_centroid = kmeans_data.centroids[c];
        let new_centroid = new_centroids[c];
        if old_centroid.x != new_centroid.x || old_centroid.y != new_centroid.y {
            return false;
        }
        c += 1;
    }
    assert(kmeans_data.centroids@ =~= new_centroids@);
    true
}

/// The clusters as vectors of sequences.
pub open spec fn clusters_view(clusters: Seq<Vec<Point>>) -> Seq<Seq<Point>> {
    Seq::new(clusters.len(), |c: int| clusters[c]@)
}

/// The `k` clusters: cluster `c` holds the points assigned to `c`, in the
/// order of the dataset, and nothing else.
pub fn group_clusters(k: usize, kmeans_data: &KMeansData, assignments: Vec<usize>) -> (output: Vec<
    Vec<Point>,
>)
    requires
        valid_assignment(assignments@, kmeans_data.points@.len(), k as nat),
    ensures
        output@.len() == k,
        forall|c: int|
            0 <= c < k ==> (#[trigger] output@[c])@ == cluster_members(
                kmeans_data.points@,
                assignments@,
                c,
            ),
        clusters_view(output@) == groups_spec(kmeans_data.points@, assignments@, k as nat),
{
    let n = kmeans_data.points.len();
    let ghost points = kmeans_data.points@;
    let mut output: Vec<Vec<Point>> = Vec::new();
    let mut c: usize = 0;
    while c < k
        invariant
            c <= k,
            output@.len() == c,
            forall|j: int| 0 <= j < c ==> (#[trigger] output@[j])@.len() == 0,
        decreases k - c,
    {
        output.push(Vec::new());
        c += 1;
    }
    let mut i: usize = 0;
    while i < n
        invariant
            i <= n,
            n == points.len(),
            points == kmeans_data.points@,
            valid_assignment(assignments@, n as nat, k as nat),
            output@.len() == k,
            forall|j: int|
                0 <= j < k ==> (#[trigger] output@[j])@ == members_upto(
                    points,
                    assignments@,
                    j,
                    i as nat,
                ),
        decreases n - i,
    {
        let cluster = assignments[i];
        let point = kmeans_data.points[i];
        let ghost before = output@;
        output[cluster].push(point);
        assert(output@[cluster as int]@ == before[cluster as int]@.push(point));
        assert(forall|j: int| 0 <= j < k && j != cluster ==> output@[j] == before[j]);
        i += 1;
    }
    assert(clusters_view(output@) =~= groups_spec(points, assignments@, k as nat));
    output
}

} // verus!
