//! The mathematical model of one clustering run: which centroid a point goes
//! to, what the members of a cluster are, and what their mean is.

use vstd::multiset::Multiset;
use vstd::prelude::*;
use crate::point::{squared_distance_spec, Point};

verus! {

/// `idx` is the centroid nearest to `p`: no centroid is closer, and every
/// centroid before it is strictly farther away.
pub open spec fn is_nearest(p: Point, centroids: Seq<Point>, idx: int) -> bool {
    &&& 0 <= idx < centroids.len()
    &&& forall|j: int|
        0 <= j < centroids.len() ==> squared_distance_spec(p, centroids[idx])
            <= squared_distance_spec(p, #[trigger] centroids[j])
    &&& forall|j: int|
        0 <= j < idx ==> squared_distance_spec(p, centroids[idx]) < squared_distance_spec(
            p,
            #[trigger] centroids[j],
        )
}

/// The index of the centroid nearest to `p`, the lowest one where several are
/// equally near. Meaningful where there is at least one centroid.
pub open spec fn nearest_index(p: Point, centroids: Seq<Point>) -> int {
    choose|idx: int| is_nearest(p, centroids, idx)
}

/// The assignment vector: for each point the index of its nearest centroid.
pub open spec fn assign_spec(points: Seq<Point>, centroids: Seq<Point>) -> Seq<usize> {
    Seq::new(points.len(), |i: int| nearest_index(points[i], centroids) as usize)
}

/// `assignment` gives each of `n` points a cluster below `k`.
pub open spec fn valid_assignment(assignment: Seq<usize>, n: nat, k: nat) -> bool {
    &&& assignment.len() == n
    &&& forall|i: int| 0 <= i < n ==> (#[trigger] assignment[i]) < k
}

/// Those among the first `n` points that are assigned to cluster `c`, in the
/// order of the dataset.
pub open spec fn members_upto(
    points: Seq<Point>,
    assignment: Seq<usize>,
    c: int,
    n: nat,
) -> Seq<Point>
    decreases n,
{
    if n == 0 {
        Seq::empty()
    } else {
        let before = members_upto(points, assignment, c, (n - 1) as nat);
        if assignment[n - 1] == c {
            before.push(points[n - 1])
        } else {
            before
        }
    }
}

/// The points assigned to cluster `c`, in the order of the dataset.
pub open spec fn cluster_members(points: Seq<Point>, assignment: Seq<usize>, c: int) -> Seq<
    Point,
> {
    members_upto(points, assignment, c, points.len())
}

/// The `k` clusters that `assignment` makes of `points`.
pub open spec fn groups_spec(points: Seq<Point>, assignment: Seq<usize>, k: nat) -> Seq<
    Seq<Point>,
> {
    Seq::new(k, |c: int| cluster_members(points, assignment, c))
}

/// Some cluster below `k` has no point.
pub open spec fn has_empty_cluster(points: Seq<Point>, assignment: Seq<usize>, k: nat) -> bool {
    exists|c: int| 0 <= c < k && (#[trigger] cluster_members(points, assignment, c)).len() == 0
}

/// The sum of the first coordinates.
pub open spec fn sum_x(s: Seq<Point>) -> int
    decreases s.len(),
{
    if s.len() == 0 {
        0
    } else {
        sum_x(s.drop_last()) + s.last().x
    }
}

/// The sum of the second coordinates.
pub open spec fn sum_y(s: Seq<Point>) -> int
    decreases s.len(),
{
    if s.len() == 0 {
        0
    } else {
        sum_y(s.drop_last()) + s.last().y
    }
}

/// The mean of the points of `s`, each coordinate rounded down. Meaningful
/// where `s` is not empty.
pub open spec fn mean_point(s: Seq<Point>) -> Point {
    Point { x: (sum_x(s) / (s.len() as int)) as i32, y: (sum_y(s) / (s.len() as int)) as i32 }
}

/// The centroid set that `assignment` gives: for each cluster the mean of its
/// members. Meaningful where no cluster is empty.
pub open spec fn update_spec(points: Seq<Point>, assignment: Seq<usize>, k: nat) -> Seq<Point> {
    Seq::new(k, |c: int| mean_point(cluster_members(points, assignment, c)))
}

/// One round: assign every point to its nearest centroid, then move each
/// centroid to the mean of its cluster.
pub open spec fn lloyd_step(points: Seq<Point>, centroids: Seq<Point>) -> Seq<Point> {
    update_spec(points, assign_spec(points, centroids), centroids.len())
}

/// A round from `centroids` leaves some cluster without a point.
pub open spec fn step_fails(points: Seq<Point>, centroids: Seq<Point>) -> bool {
    has_empty_cluster(points, assign_spec(points, centroids), centroids.len())
}

/// How a run ends.
pub enum RunOutcome {
    /// A round reproduced the centroids it started from; `rounds` counts the
    /// rounds made, that one included.
    Converged { centroids: Seq<Point>, rounds: nat },
    /// The allowed rounds were used up; the centroids are those reached.
    CapReached { centroids: Seq<Point>, rounds: nat },
    /// A round left a cluster without a point.
    EmptyCluster,
}

/// The run from `centroids` with `cap` rounds left and `done` rounds behind.
pub open spec fn lloyd_run_from(
    points: Seq<Point>,
    centroids: Seq<Point>,
    cap: nat,
    done: nat,
) -> RunOutcome
    decreases cap,
{
    if cap == 0 {
        RunOutcome::CapReached { centroids, rounds: done }
    } else if step_fails(points, centroids) {
        RunOutcome::EmptyCluster
    } else if lloyd_step(points, centroids) == centroids {
        RunOutcome::Converged { centroids, rounds: done + 1 }
    } else {
        lloyd_run_from(points, lloyd_step(points, centroids), (cap - 1) as nat, done + 1)
    }
}

/// The run from the initial `centroids`, of at most `cap` rounds.
pub open spec fn lloyd_run(points: Seq<Point>, centroids: Seq<Point>, cap: nat) -> RunOutcome {
    lloyd_run_from(points, centroids, cap, 0)
}

/// The points of all the groups together, each as often as it occurs.
pub open spec fn union_of(groups: Seq<Seq<Point>>) -> Multiset<Point>
    decreases groups.len(),
{
    if groups.len() == 0 {
        Multiset::empty()
    } else {
        union_of(groups.drop_last()).add(groups.last().to_multiset())
    }
}

/// The number of points in all the groups together.
pub open spec fn total_len(groups: Seq<Seq<Point>>) -> nat
    decreases groups.len(),
{
    if groups.len() == 0 {
        0
    } else {
        total_len(groups.drop_last()) + groups.last().len()
    }
}

/// Some index below the number of centroids is nearest to `p`, and only one.
pub proof fn lemma_nearest_index(p: Point, centroids: Seq<Point>)
    requires
        centroids.len() > 0,
    ensures
        is_nearest(p, centroids, nearest_index(p, centroids)),
        forall|idx: int| is_nearest(p, centroids, idx) ==> idx == nearest_index(p, centroids),
{
    lemma_nearest_exists(p, centroids, centroids.len());
    let w = choose|idx: int| is_nearest(p, centroids.take(centroids.len() as int), idx);
    assert(centroids.take(centroids.len() as int) =~= centroids);
    assert(is_nearest(p, centroids, w));
    let best = nearest_index(p, centroids);
    assert forall|idx: int| is_nearest(p, centroids, idx) implies idx == best by {
        lemma_nearest_unique(p, centroids, idx, best);
    }
}

/// Two nearest indices are the same index.
pub proof fn lemma_nearest_unique(p: Point, centroids: Seq<Point>, a: int, b: int)
    requires
        is_nearest(p, centroids, a),
        is_nearest(p, centroids, b),
    ensures
        a == b,
{
    if a < b {
        assert(squared_distance_spec(p, centroids[b]) < squared_distance_spec(p, centroids[a]));
        assert(squared_distance_spec(p, centroids[a]) <= squared_distance_spec(p, centroids[b]));
    } else if b < a {
        assert(squared_distance_spec(p, centroids[a]) < squared_distance_spec(p, centroids[b]));
        assert(squared_distance_spec(p, centroids[b]) <= squared_distance_spec(p, centroids[a]));
    }
}

proof fn lemma_nearest_exists(p: Point, centroids: Seq<Point>, n: nat)
    requires
        0 < n <= centroids.len(),
    ensures
        exists|idx: int| is_nearest(p, centroids.take(n as int), idx),
    decreases n,
{
    let prefix = centroids.take(n as int);
    if n == 1 {
        assert(is_nearest(p, prefix, 0));
    } else {
        lemma_nearest_exists(p, centroids, (n - 1) as nat);
        let shorter = centroids.take(n - 1);
        let best = choose|idx: int| is_nearest(p, shorter, idx);
        assert forall|j: int| 0 <= j < n - 1 implies #[trigger] prefix[j] == shorter[j] by {}
        if squared_distance_spec(p, prefix[n - 1]) < squared_distance_spec(p, shorter[best]) {
            assert forall|j: int| 0 <= j < n - 1 implies squared_distance_spec(p, prefix[n - 1])
                < squared_distance_spec(p, #[trigger] prefix[j]) by {
                assert(squared_distance_spec(p, shorter[best]) <= squared_distance_spec(
                    p,
                    shorter[j],
                ));
            }
            assert(is_nearest(p, prefix, n - 1));
        } else {
            assert forall|j: int| 0 <= j < n implies squared_distance_spec(p, prefix[best])
                <= squared_distance_spec(p, #[trigger] prefix[j]) by {
                if j < n - 1 {
                    assert(squared_distance_spec(p, shorter[best]) <= squared_distance_spec(
                        p,
                        shorter[j],
                    ));
                }
            }
            assert forall|j: int| 0 <= j < best implies squared_distance_spec(p, prefix[best])
                < squared_distance_spec(p, #[trigger] prefix[j]) by {
                assert(squared_distance_spec(p, shorter[best]) < squared_distance_spec(
                    p,
                    shorter[j],
                ));
            }
            assert(is_nearest(p, prefix, best));
        }
    }
}

/// The sum of a coordinate grows by the coordinate of a point added at the end.
pub proof fn lemma_sum_push(s: Seq<Point>, p: Point)
    ensures
        sum_x(s.push(p)) == sum_x(s) + p.x,
        sum_y(s.push(p)) == sum_y(s) + p.y,
{
    assert(s.push(p).drop_last() =~= s);
}

/// The sums of the coordinates of `s` are within the bounds of a coordinate,
/// times the number of points.
pub proof fn lemma_sum_bounds(s: Seq<Point>)
    ensures
        i32::MIN * s.len() <= sum_x(s) <= i32::MAX * s.len(),
        i32::MIN * s.len() <= sum_y(s) <= i32::MAX * s.len(),
    decreases s.len(),
{
    if s.len() > 0 {
        lemma_sum_bounds(s.drop_last());
    }
}

/// No more than `n` of the first `n` points are members of a cluster.
pub proof fn lemma_members_len(points: Seq<Point>, assignment: Seq<usize>, c: int, n: nat)
    ensures
        members_upto(points, assignment, c, n).len() <= n,
    decreases n,
{
    if n > 0 {
        lemma_members_len(points, assignment, c, (n - 1) as nat);
    }
}

/// A sum within the bounds of a coordinate times `n` has a rounded-down mean
/// that is a coordinate.
pub proof fn lemma_mean_in_range(sum: int, n: int)
    by (nonlinear_arith)
    requires
        n > 0,
        i32::MIN * n <= sum <= i32::MAX * n,
    ensures
        i32::MIN <= sum / n <= i32::MAX,
        n * (sum / n) <= sum < n * (sum / n + 1),
{
}

} // verus!
