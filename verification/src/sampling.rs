//! Random data: sample points in a box, and the random choice of the initial
//! centroids among the points of a dataset.

use rand::seq::SliceRandom;
use rand::Rng;
use vstd::prelude::*;
use crate::engine::KMeansError;
use crate::point::Point;

verus! {

/// Calls `Rng::gen_range` of the rand crate on the thread's generator, with
/// the half-open range from `low` to `high`. The call panics on an empty
/// range, which the precondition excludes. Of the number returned this states
/// only that it lies in the range.
#[verifier::external_body]
fn random_in_range(low: i32, high: i32) -> (r: i32)
    requires
        low < high,
    ensures
        low <= r < high,
{
    rand::thread_rng().gen_range(low..high)
}

/// Calls `SliceRandom::choose` of the rand crate on the points of `data`, with
/// the thread's generator. For an empty dataset the crate returns nothing;
/// otherwise it returns one of the elements, of which this states only that
/// it is one of them.
#[verifier::external_body]
fn choose_point(data: &Vec<Point>) -> (r: Option<Point>)
    ensures
        data@.len() == 0 ==> r is None,
        data@.len() > 0 ==> r is Some && data@.contains(r.unwrap()),
{
    data.choose(&mut rand::thread_rng()).copied()
}

/// `p` lies in the square of side `range` around `center`: each coordinate is
/// at least that of the center less half the side, rounded down, and below
/// that bound plus the side.
pub open spec fn in_box(p: Point, center: Point, range: int) -> bool {
    &&& center.x - range / 2 <= p.x < center.x - range / 2 + range
    &&& center.y - range / 2 <= p.y < center.y - range / 2 + range
}

/// The square of side `range` around `center` has a point in it, and all its
/// points have coordinates that can be represented.
pub open spec fn box_fits(center: Point, range: int) -> bool {
    &&& 0 < range
    &&& i32::MIN <= center.x - range / 2
    &&& center.x - range / 2 + range - 1 <= i32::MAX
    &&& i32::MIN <= center.y - range / 2
    &&& center.y - range / 2 + range - 1 <= i32::MAX
}

/// Whether the square of side `range` around `center` can be sampled: it has
/// a point, and all its points can be represented.
pub fn box_is_valid(center: Point, range: i32) -> (valid: bool)
    ensures
        valid == box_fits(center, range as int),
{
    if range <= 0 {
        return false;
    }
    let half: i64 = (range / 2) as i64;
    let low_x: i64 = center.x as i64 - half;
    let low_y: i64 = center.y as i64 - half;
    let lowest: i64 = i32::MIN as i64;
    let highest: i64 = i32::MAX as i64;
    lowest <= low_x && low_x + range as i64 - 1 <= highest && lowest <= low_y && low_y
        + range as i64 - 1 <= highest
}

/// Every point of `init` is a point of `data`, and there are `k` of them.
pub open spec fn chosen_from(data: Seq<Point>, k: nat, init: Seq<Point>) -> bool {
    &&& init.len() == k
    &&& forall|i: int| 0 <= i < k ==> data.contains(#[trigger] init[i])
}

/// `num_points` random points in the square of side `range` around `center`.
pub fn create_data(center: Point, range: i32, num_points: usize) -> (data: Vec<Point>)
    requires
        box_fits(center, range as int),
    ensures
        data@.len() == num_points,
        forall|i: int| 0 <= i < num_points ==> in_box(#[trigger] data@[i], center, range as int),
{
    let half: i32 = range / 2;
    let low: i32 = -half;
    let high: i32 = range - half;
    let mut data: Vec<Point> = Vec::with_capacity(num_points);
    let mut i: usize = 0;
    while i < num_points
        invariant
            i <= num_points,
            box_fits(center, range as int),
            half == range / 2,
            low == -half,
            high == range - half,
            data@.len() == i,
            forall|j: int| 0 <= j < i ==> in_box(#[trigger] data@[j], center, range as int),
        decreases num_points - i,
    {
        let x = random_in_range(low, high);
        let y = random_in_range(low, high);
        data.push(Point { x: center.x + x, y: center.y + y });
        i += 1;
    }
    data
}

/// The initial centroids: `k` points of the dataset, each chosen at random
/// among all of them, so that one point may be chosen more than once.
pub fn forgy_centroids(data: &Vec<Point>, k: usize) -> (r: Result<Vec<Point>, KMeansError>)
    ensures
        match r {
            Ok(centroids) => 1 <= k <= data@.len() && chosen_from(data@, k as nat, centroids@),
            Err(e) => e == KMeansError::InvalidK && (k == 0 || k > data@.len()),
        },
{
    if k == 0 || k > data.len() {
        return Err(KMeansError::InvalidK);
    }
    let mut centroids: Vec<Point> = Vec::with_capacity(k);
    let mut c: usize = 0;
    while c < k
        invariant
            c <= k,
            data@.len() > 0,
            centroids@.len() == c,
            forall|j: int| 0 <= j < c ==> data@.contains(#[trigger] centroids@[j]),
        decreases k - c,
    {
        match choose_point(data) {
            Some(p) => {
                centroids.push(p);
            },
            None => {
                // Nothing is chosen from an empty dataset only, and this one has a point.
                assert(false);
                return Err(KMeansError::InvalidK);
            },
        }
        c += 1;
    }
    Ok(centroids)
}

} // verus!
