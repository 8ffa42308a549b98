//! Fixed-point vector arithmetic: positions as integer milli-units, squared
//! distances, and an exact integer square root.

use vstd::prelude::*;

verus! {

/// Largest speed magnitude the library accepts, in milli-units per millisecond.
pub const SPEED_LIMIT: i64 = 4096;

/// Largest frame time the library accepts, in milliseconds.
pub const DT_LIMIT: i64 = 4096;

/// Largest displacement a single frame can produce, in milli-units.
pub const STEP_LIMIT: i64 = SPEED_LIMIT * DT_LIMIT;

/// Bound on the target's coordinates, in milli-units.
pub const TGT_LIMIT: i64 = 500_000_000;

/// Bound on a projectile's coordinates: one frame's worth of overshoot past
/// the target, in milli-units.
pub const PROJ_LIMIT: i64 = TGT_LIMIT + STEP_LIMIT;

/// Bound under which squared distances of coordinates are free of overflow.
pub const COORD_LIMIT: i64 = 536_870_912;

/// A position or displacement in 3-space, in milli-units.
#[derive(Clone, Copy, PartialEq, Eq, Structural, Debug)]
pub struct Vec3 {
    pub x: i64,
    pub y: i64,
    pub z: i64,
}

/// A point in the 2-D world plane, in milli-units.
#[derive(Clone, Copy, PartialEq, Eq, Structural, Debug)]
pub struct Vec2 {
    pub x: i64,
    pub y: i64,
}

pub open spec fn sq(x: int) -> int {
    x * x
}

pub open spec fn mag(x: int) -> int {
    if x < 0 {
        -x
    } else {
        x
    }
}

pub open spec fn in_bounds(v: Vec3, b: int) -> bool {
    -b <= v.x <= b && -b <= v.y <= b && -b <= v.z <= b
}

/// Squared Euclidean distance between two points, as a mathematical integer.
pub open spec fn dist_sq_of(a: Vec3, b: Vec3) -> int {
    sq(a.x - b.x) + sq(a.y - b.y) + sq(a.z - b.z)
}

/// The floor of the square root of a non-negative integer.
pub open spec fn sqrt_floor(n: int) -> int
    decreases n,
{
    if n <= 0 {
        0
    } else {
        let r = sqrt_floor(n - 1);
        if (r + 1) * (r + 1) <= n {
            r + 1
        } else {
            r
        }
    }
}

pub proof fn lemma_sq_bound(x: int, b: int)
    by (nonlinear_arith)
    requires
        -b <= x <= b,
        0 <= b,
    ensures
        0 <= sq(x) <= b * b,
{
}

pub proof fn lemma_sq_monotone(x: int, y: int)
    by (nonlinear_arith)
    requires
        0 <= x <= y,
    ensures
        sq(x) <= sq(y),
{
}

/// `sqrt_floor` really is the floor of the square root.
pub proof fn lemma_sqrt_floor_is_sqrt(n: int)
    requires
        0 <= n,
    ensures
        0 <= sqrt_floor(n),
        sq(sqrt_floor(n)) <= n,
        n < sq(sqrt_floor(n) + 1),
    decreases n,
{
    if n > 0 {
        lemma_sqrt_floor_is_sqrt(n - 1);
        let r = sqrt_floor(n - 1);
        if (r + 1) * (r + 1) <= n {
            assert((r + 2) * (r + 2) > n) by (nonlinear_arith)
                requires
                    (r + 1) * (r + 1) > n - 1,
                    (r + 1) * (r + 1) <= n,
                    r >= 0,
            ;
        }
    }
}

/// Any value whose square is at most `n` is at most the floor square root.
pub proof fn lemma_le_sqrt_floor(x: int, n: int)
    requires
        0 <= n,
        0 <= x,
        sq(x) <= n,
    ensures
        x <= sqrt_floor(n),
{
    lemma_sqrt_floor_is_sqrt(n);
    let r = sqrt_floor(n);
    if x > r {
        assert(sq(x) >= sq(r + 1)) by (nonlinear_arith)
            requires
                x >= r + 1,
                r >= 0,
        ;
    }
}

/// Squared Euclidean distance between two bounded points.
pub fn dist_sq(a: Vec3, b: Vec3) -> (r: i64)
    requires
        in_bounds(a, COORD_LIMIT as int),
        in_bounds(b, COORD_LIMIT as int),
    ensures
        r == dist_sq_of(a, b),
        0 <= r,
{
    let dx = a.x - b.x;
    let dy = a.y - b.y;
    let dz = a.z - b.z;
    proof {
        lemma_sq_bound(dx as int, 2 * COORD_LIMIT as int);
        lemma_sq_bound(dy as int, 2 * COORD_LIMIT as int);
        lemma_sq_bound(dz as int, 2 * COORD_LIMIT as int);
    }
    dx * dx + dy * dy + dz * dz
}

/// Exact integer square root: the floor of the square root of `n`.
pub fn isqrt(n: u64) -> (r: u64)
    requires
        n < 0x4000_0000_0000_0000,
    ensures
        r == sqrt_floor(n as int),
        sq(r as int) <= n < sq(r as int + 1),
        r <= 0x8000_0000,
{
    proof {
        lemma_sqrt_floor_is_sqrt(n as int);
    }
    if n == 0 {
        return 0;
    }
    let mut lo: u64 = 0;
    let mut hi: u64 = 0x8000_0000;
    while hi - lo > 1
        invariant
            0 <= lo < hi <= 0x8000_0000,
            sq(lo as int) <= n as int,
            (n as int) < sq(hi as int),
        decreases hi - lo,
    {
        let mid = lo + (hi - lo) / 2;
        proof {
            lemma_sq_bound(mid as int, 0x8000_0000);
        }
        if mid * mid <= n {
            lo = mid;
        } else {
            hi = mid;
        }
    }
    proof {
        lemma_le_sqrt_floor(lo as int, n as int);
        lemma_sqrt_floor_is_sqrt(n as int);
        let r = sqrt_floor(n as int);
        if r > lo {
            assert(sq(r) >= sq(hi as int)) by (nonlinear_arith)
                requires
                    r >= hi,
                    hi >= 1,
            ;
        }
    }
    lo
}

} // verus!
