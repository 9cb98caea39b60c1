//! Points of the plane and the distance between two of them.

use vstd::prelude::*;

verus! {

/// A point of the plane, in fixed-point coordinates.
#[derive(Clone, Copy, Debug, PartialEq, Eq, Structural)]
pub struct Point {
    pub x: i32,
    pub y: i32,
}

/// The square of the Euclidean distance between `a` and `b`.
pub open spec fn squared_distance_spec(a: Point, b: Point) -> int {
    (a.x - b.x) * (a.x - b.x) + (a.y - b.y) * (a.y - b.y)
}

/// `r` is the integer part of the square root of `n`.
pub open spec fn is_floor_sqrt(n: int, r: int) -> bool {
    0 <= r && r * r <= n < (r + 1) * (r + 1)
}

/// The square of a difference of two coordinates is below 2^64.
pub proof fn lemma_square_bound(d: int)
    by (nonlinear_arith)
    requires
        -0x1_0000_0000 < d < 0x1_0000_0000,
    ensures
        0 <= d * d < 0x1_0000_0000_0000_0000,
{
}

/// The squared distance of two points lies in `[0, 2^65)`.
pub proof fn lemma_squared_distance_bounds(a: Point, b: Point)
    ensures
        0 <= squared_distance_spec(a, b) < 0x2_0000_0000_0000_0000,
{
    lemma_square_bound(a.x - b.x);
    lemma_square_bound(a.y - b.y);
}

/// The squared Euclidean distance between two points, exactly.
pub fn squared_distance(point1: Point, point2: Point) -> (d: u128)
    ensures
        d == squared_distance_spec(point1, point2),
{
    let dx: i128 = point1.x as i128 - point2.x as i128;
    let dy: i128 = point1.y as i128 - point2.y as i128;
    proof {
        lemma_square_bound(dx as int);
        lemma_square_bound(dy as int);
    }
    let sq_diff_x: i128 = dx * dx;
    let sq_diff_y: i128 = dy * dy;
    (sq_diff_x + sq_diff_y) as u128
}

/// The integer part of the square root of `n`, for `n` not negative.
pub open spec fn floor_sqrt(n: int) -> int {
    choose|r: int| is_floor_sqrt(n, r)
}

/// The Euclidean distance between `a` and `b`, rounded down to an integer.
pub open spec fn euclidean_distance_spec(a: Point, b: Point) -> int {
    floor_sqrt(squared_distance_spec(a, b))
}

/// A number has one integer square root at most.
pub proof fn lemma_floor_sqrt_unique(n: int, r1: int, r2: int)
    by (nonlinear_arith)
    requires
        is_floor_sqrt(n, r1),
        is_floor_sqrt(n, r2),
    ensures
        r1 == r2,
{
    if r1 < r2 {
        assert((r1 + 1) * (r1 + 1) <= r2 * r2);
    } else if r2 < r1 {
        assert((r2 + 1) * (r2 + 1) <= r1 * r1);
    }
}

/// Every number that is not negative has an integer square root.
pub proof fn lemma_floor_sqrt_exists(n: nat)
    ensures
        is_floor_sqrt(n as int, floor_sqrt(n as int)),
    decreases n,
{
    if n == 0 {
        assert(is_floor_sqrt(0, 0));
    } else {
        lemma_floor_sqrt_exists((n - 1) as nat);
        let r = floor_sqrt(n - 1);
        if (r + 1) * (r + 1) <= n {
            assert(is_floor_sqrt(n as int, r + 1)) by (nonlinear_arith)
                requires
                    0 <= r,
                    r * r <= n - 1 < (r + 1) * (r + 1),
                    (r + 1) * (r + 1) <= n,
            ;
        } else {
            assert(is_floor_sqrt(n as int, r));
        }
    }
}

/// A number that is the integer square root of `n` is `floor_sqrt(n)`.
pub proof fn lemma_floor_sqrt_is(n: int, r: int)
    requires
        is_floor_sqrt(n, r),
    ensures
        floor_sqrt(n) == r,
{
    lemma_floor_sqrt_unique(n, r, floor_sqrt(n));
}

/// The Euclidean distance between two points, rounded down to an integer.
///
/// Which of two distances is the smaller is decided on
/// [`squared_distance`], which loses nothing to rounding.
pub fn euclidean_distance(point1: Point, point2: Point) -> (d: u64)
    ensures
        d == euclidean_distance_spec(point1, point2),
        is_floor_sqrt(squared_distance_spec(point1, point2), d as int),
{
    let n: u128 = squared_distance(point1, point2);
    proof {
        lemma_squared_distance_bounds(point1, point2);
    }
    let mut lo: u128 = 0;
    let mut hi: u128 = 0x2_0000_0000;
    while hi - lo > 1
        invariant
            lo < hi <= 0x2_0000_0000,
            lo * lo <= n < hi * hi,
        decreases hi - lo,
    {
        let mid: u128 = lo + (hi - lo) / 2;
        assert(mid * mid <= 0x4_0000_0000_0000_0000) by (nonlinear_arith)
            requires
                mid <= 0x2_0000_0000,
        ;
        if mid * mid <= n {
            lo = mid;
        } else {
            hi = mid;
        }
    }
    proof {
        lemma_floor_sqrt_is(n as int, lo as int);
    }
    lo as u64
}

} // verus!
