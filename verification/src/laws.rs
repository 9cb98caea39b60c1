//! What holds of the engine whatever the data: laws that relate its functions.

use vstd::multiset::Multiset;
use vstd::prelude::*;
use crate::model::{
    assign_spec, groups_spec, is_nearest, lemma_mean_in_range, lemma_nearest_index,
    lemma_sum_bounds, lloyd_run, lloyd_run_from, lloyd_step, mean_point, members_upto,
    nearest_index, step_fails, sum_x, sum_y, total_len, union_of, valid_assignment, RunOutcome,
};
use crate::point::{
    euclidean_distance_spec, lemma_floor_sqrt_exists, lemma_floor_sqrt_is,
    lemma_squared_distance_bounds, squared_distance_spec, Point,
};

verus! {

/// Groups without a point hold nothing together.
proof fn lemma_union_of_empty_groups(groups: Seq<Seq<Point>>)
    requires
        forall|c: int| 0 <= c < groups.len() ==> (#[trigger] groups[c]).len() == 0,
    ensures
        union_of(groups) == Multiset::<Point>::empty(),
        total_len(groups) == 0,
    decreases groups.len(),
{
    if groups.len() > 0 {
        lemma_union_of_empty_groups(groups.drop_last());
        assert(groups.last() =~= Seq::<Point>::empty());
        assert(groups.last().to_multiset() =~= Multiset::<Point>::empty()) by {
            broadcast use vstd::seq_lib::group_to_multiset_ensures;

            assert(groups.last().to_multiset().len() == 0);
        }
        assert(union_of(groups) =~= Multiset::<Point>::empty());
    }
}

/// A point added at the end of one group is added once to what the groups
/// hold together.
proof fn lemma_union_of_push(groups: Seq<Seq<Point>>, a: int, p: Point)
    requires
        0 <= a < groups.len(),
    ensures
        union_of(groups.update(a, groups[a].push(p))) == union_of(groups).insert(p),
        total_len(groups.update(a, groups[a].push(p))) == total_len(groups) + 1,
    decreases groups.len(),
{
    let after = groups.update(a, groups[a].push(p));
    if a == groups.len() - 1 {
        assert(after.drop_last() =~= groups.drop_last());
        vstd::seq_lib::to_multiset_build(groups.last(), p);
    } else {
        lemma_union_of_push(groups.drop_last(), a, p);
        assert(after.drop_last() =~= groups.drop_last().update(a, groups[a].push(p)));
    }
    assert(union_of(after) =~= union_of(groups).insert(p));
}

/// The clusters made of the first `n` points hold together exactly those
/// points.
proof fn lemma_partition_upto(points: Seq<Point>, assignment: Seq<usize>, k: nat, n: nat)
    requires
        valid_assignment(assignment, points.len(), k),
        n <= points.len(),
    ensures
        union_of(Seq::new(k, |c: int| members_upto(points, assignment, c, n))) == points.take(
            n as int,
        ).to_multiset(),
        total_len(Seq::new(k, |c: int| members_upto(points, assignment, c, n))) == n,
    decreases n,
{
    let groups = Seq::new(k, |c: int| members_upto(points, assignment, c, n));
    if n == 0 {
        lemma_union_of_empty_groups(groups);
        assert(points.take(0) =~= Seq::<Point>::empty());
        assert(points.take(0).to_multiset() =~= Multiset::<Point>::empty()) by {
            broadcast use vstd::seq_lib::group_to_multiset_ensures;

            assert(points.take(0).to_multiset().len() == 0);
        }
    } else {
        let before = Seq::new(k, |c: int| members_upto(points, assignment, c, (n - 1) as nat));
        let a = assignment[n - 1] as int;
        let p = points[n - 1];
        lemma_partition_upto(points, assignment, k, (n - 1) as nat);
        lemma_union_of_push(before, a, p);
        assert(groups =~= before.update(a, before[a].push(p)));
        assert(points.take(n as int) =~= points.take(n - 1).push(p));
        vstd::seq_lib::to_multiset_build(points.take(n - 1), p);
    }
}

/// The clusters of an assignment are a partition of the dataset: together
/// they hold every point of it exactly as often as the dataset does.
pub proof fn lemma_clusters_partition(points: Seq<Point>, assignment: Seq<usize>, k: nat)
    requires
        valid_assignment(assignment, points.len(), k),
    ensures
        groups_spec(points, assignment, k).len() == k,
        union_of(groups_spec(points, assignment, k)) == points.to_multiset(),
        total_len(groups_spec(points, assignment, k)) == points.len(),
{
    lemma_partition_upto(points, assignment, k, points.len());
    assert(points.take(points.len() as int) =~= points);
    assert(groups_spec(points, assignment, k) =~= Seq::new(
        k,
        |c: int| members_upto(points, assignment, c, points.len()),
    ));
}

/// Distance is symmetric and never negative, and a point is at distance zero
/// from itself: of the squared distance, and of the distance rounded down.
pub proof fn lemma_distance_laws(a: Point, b: Point)
    ensures
        squared_distance_spec(a, b) == squared_distance_spec(b, a),
        squared_distance_spec(a, b) >= 0,
        squared_distance_spec(a, a) == 0,
        euclidean_distance_spec(a, b) == euclidean_distance_spec(b, a),
        euclidean_distance_spec(a, b) >= 0,
        euclidean_distance_spec(a, a) == 0,
{
    assert(squared_distance_spec(a, b) == squared_distance_spec(b, a)) by (nonlinear_arith)
        requires
            squared_distance_spec(a, b) == (a.x - b.x) * (a.x - b.x) + (a.y - b.y) * (a.y - b.y),
            squared_distance_spec(b, a) == (b.x - a.x) * (b.x - a.x) + (b.y - a.y) * (b.y - a.y),
    ;
    lemma_squared_distance_bounds(a, b);
    lemma_floor_sqrt_exists(squared_distance_spec(a, b) as nat);
    lemma_floor_sqrt_is(0, 0);
}

/// Of two centroids at the same distance from a point, the one with the
/// higher index is never the point's cluster.
pub proof fn lemma_tie_goes_to_lower_index(p: Point, centroids: Seq<Point>, i: int, j: int)
    requires
        0 <= i < j < centroids.len(),
        squared_distance_spec(p, centroids[i]) == squared_distance_spec(p, centroids[j]),
    ensures
        nearest_index(p, centroids) != j,
{
    lemma_nearest_index(p, centroids);
    if nearest_index(p, centroids) == j {
        assert(squared_distance_spec(p, centroids[j]) < squared_distance_spec(p, centroids[i]));
    }
}

/// The assignment gives every point a cluster, and the cluster of a point is
/// its nearest centroid.
pub proof fn lemma_assignment_is_nearest(points: Seq<Point>, centroids: Seq<Point>)
    requires
        0 < centroids.len() <= usize::MAX,
    ensures
        valid_assignment(assign_spec(points, centroids), points.len(), centroids.len()),
        forall|i: int|
            0 <= i < points.len() ==> is_nearest(
                points[i],
                centroids,
                #[trigger] assign_spec(points, centroids)[i] as int,
            ),
{
    assert forall|i: int| 0 <= i < points.len() implies is_nearest(
        points[i],
        centroids,
        #[trigger] assign_spec(points, centroids)[i] as int,
    ) by {
        lemma_nearest_index(points[i], centroids);
    }
}

/// Centroids that a round has reproduced are reproduced by every further
/// round: where the new centroids of a round are found equal to the old, a
/// round from the new centroids gives them again.
pub proof fn lemma_converged_is_fixed_point(
    points: Seq<Point>,
    old_centroids: Seq<Point>,
    new_centroids: Seq<Point>,
)
    requires
        !step_fails(points, old_centroids),
        new_centroids == lloyd_step(points, old_centroids),
        old_centroids == new_centroids,
    ensures
        !step_fails(points, new_centroids),
        lloyd_step(points, new_centroids) == new_centroids,
        assign_spec(points, new_centroids) == assign_spec(points, old_centroids),
{
}

/// The mean of a group that is not empty is the exact mean rounded down:
/// each coordinate, times the number of points, is at most the sum of that
/// coordinate over the group, and one more would be too much.
pub proof fn lemma_mean_point_rounds_down(s: Seq<Point>)
    requires
        s.len() > 0,
    ensures
        s.len() * mean_point(s).x <= sum_x(s) < s.len() * (mean_point(s).x + 1),
        s.len() * mean_point(s).y <= sum_y(s) < s.len() * (mean_point(s).y + 1),
{
    lemma_sum_bounds(s);
    lemma_mean_in_range(sum_x(s), s.len() as int);
    lemma_mean_in_range(sum_y(s), s.len() as int);
}

/// The centroids after `n` rounds from `init`, where no round failed.
pub open spec fn centroids_after(points: Seq<Point>, init: Seq<Point>, n: nat) -> Seq<Point>
    decreases n,
{
    if n == 0 {
        init
    } else {
        lloyd_step(points, centroids_after(points, init, (n - 1) as nat))
    }
}

/// The round after `t` rounds from `init` neither fails nor reproduces its
/// centroids, so that the run goes on.
pub open spec fn goes_on(points: Seq<Point>, init: Seq<Point>, t: nat) -> bool {
    let centroids = centroids_after(points, init, t);
    !step_fails(points, centroids) && lloyd_step(points, centroids) != centroids
}

/// What the outcome `outcome` of a run says, in terms of the rounds: the run
/// stops at the first round that fails or reproduces its centroids, if there
/// is one among the first `cap`.
pub open spec fn outcome_of_rounds(
    outcome: RunOutcome,
    points: Seq<Point>,
    init: Seq<Point>,
    cap: nat,
) -> bool {
    match outcome {
        RunOutcome::Converged { centroids, rounds } => {
            &&& 1 <= rounds <= cap
            &&& forall|t: nat| t < rounds - 1 ==> goes_on(points, init, t)
            &&& centroids == centroids_after(points, init, (rounds - 1) as nat)
            &&& !step_fails(points, centroids)
            &&& lloyd_step(points, centroids) == centroids
        },
        RunOutcome::CapReached { centroids, rounds } => {
            &&& rounds == cap
            &&& forall|t: nat| t < cap ==> goes_on(points, init, t)
            &&& centroids == centroids_after(points, init, cap)
        },
        RunOutcome::EmptyCluster => exists|t: nat|
            {
                &&& t < cap
                &&& forall|s: nat| s < t ==> goes_on(points, init, s)
                &&& step_fails(points, #[trigger] centroids_after(points, init, t))
            },
    }
}

proof fn lemma_run_from(points: Seq<Point>, init: Seq<Point>, cap: nat, done: nat)
    requires
        done <= cap,
        forall|t: nat| t < done ==> goes_on(points, init, t),
    ensures
        outcome_of_rounds(
            lloyd_run_from(
                points,
                centroids_after(points, init, done),
                (cap - done) as nat,
                done,
            ),
            points,
            init,
            cap,
        ),
    decreases cap - done,
{
    let centroids = centroids_after(points, init, done);
    if done < cap && !step_fails(points, centroids) && lloyd_step(points, centroids) != centroids {
        lemma_run_from(points, init, cap, done + 1);
    }
}

/// A run stops at the first round that leaves a cluster empty or reproduces
/// its centroids, and only there: it converges in `rounds` rounds where the
/// round of that number is the first to reproduce its centroids and no round
/// before it failed; it fails where the first round to stop leaves a cluster
/// empty; and it uses up its rounds where none of them stops.
pub proof fn lemma_run_outcome(points: Seq<Point>, init: Seq<Point>, cap: nat)
    ensures
        outcome_of_rounds(lloyd_run(points, init, cap), points, init, cap),
{
    lemma_run_from(points, init, cap, 0);
}

} // verus!
