//! The homing projectile: each frame it advances toward the target's current
//! position at constant speed and turns to face it; once it is within the
//! minimum distance of the target it is removed instead.

use vstd::prelude::*;
use crate::math::{
    Vec3, sq, mag, in_bounds, dist_sq_of, dist_sq, sqrt_floor, isqrt, lemma_sq_bound,
    lemma_sq_monotone, lemma_sqrt_floor_is_sqrt, COORD_LIMIT, TGT_LIMIT,
    PROJ_LIMIT, SPEED_LIMIT, DT_LIMIT, STEP_LIMIT,
};
use vstd::arithmetic::div_mod::{
    lemma_div_pos_is_pos, lemma_div_is_ordered, lemma_div_multiples_vanish,
    lemma_fundamental_div_mod, lemma_mod_division_less_than_divisor,
};
use vstd::arithmetic::mul::{lemma_mul_inequality, lemma_mul_is_commutative, lemma_mul_nonnegative};

verus! {

/// A projectile closer to its target than this is removed, in milli-units.
pub const MIN_DISTANCE: i64 = 10_000;

/// Speed of a fresh projectile, in milli-units per millisecond.
pub const DEFAULT_PROJECTILE_SPEED: i64 = 110;

/// The homing parameters of a projectile: its constant speed and the entity
/// it chases.
#[derive(Clone, Copy, PartialEq, Eq, Structural, Debug)]
pub struct Follower {
    pub speed: i64,
    pub target: u64,
}

impl Follower {
    /// A fresh homing state chasing the given entity at the default speed.
    pub fn new(target: u64) -> (f: Follower)
        ensures
            f.speed == DEFAULT_PROJECTILE_SPEED,
            f.target == target,
    {
        Follower { speed: DEFAULT_PROJECTILE_SPEED, target }
    }
}

/// The signed distance travelled along one coordinate of a displacement `c`
/// by a body that covers `s` milli-units along a direction of length `len`:
/// `c * s / len`, rounded toward zero.
pub open spec fn toward(c: int, s: int, len: int) -> int {
    if c >= 0 {
        (c * s) / len
    } else {
        -(((-c) * s) / len)
    }
}

/// Division bounds for one non-negative coordinate of a homing step.
proof fn lemma_mul_div_bounds(a: int, s: int, len: int)
    requires
        0 < len,
        0 <= s,
        0 <= a,
    ensures
        0 <= (a * s) / len,
        a <= len ==> (a * s) / len <= s,
        s <= len ==> (a * s) / len <= a,
{
    lemma_mul_nonnegative(a, s);
    lemma_div_pos_is_pos(a * s, len);
    if a <= len {
        lemma_mul_inequality(a, len, s);
        lemma_div_is_ordered(a * s, len * s, len);
        lemma_div_multiples_vanish(s, len);
    }
    if s <= len {
        lemma_mul_is_commutative(a, s);
        lemma_mul_inequality(s, len, a);
        lemma_div_is_ordered(s * a, len * a, len);
        lemma_div_multiples_vanish(a, len);
        assert((len * a) / len == a);
    }
}

/// A homing step along one coordinate never travels farther than the whole
/// step `s`, keeps the coordinate's sign, and, when the step does not
/// overshoot (`s <= len`), never travels farther than the coordinate itself.
pub proof fn lemma_toward_bounds(c: int, s: int, len: int)
    requires
        0 < len,
        0 <= s,
        mag(c) <= len,
    ensures
        mag(toward(c, s, len)) <= s,
        c >= 0 ==> 0 <= toward(c, s, len),
        c < 0 ==> toward(c, s, len) <= 0,
        s <= len ==> mag(toward(c, s, len)) <= mag(c),
{
    if c >= 0 {
        lemma_mul_div_bounds(c, s, len);
    } else {
        lemma_mul_div_bounds(-c, s, len);
    }
}

/// A homing step along one coordinate lands within one rounding unit of the
/// exact ratio: `|toward(c, s, len) * len - c * s| < len`.
pub proof fn lemma_toward_near(c: int, s: int, len: int)
    requires
        0 < len,
        0 <= s,
    ensures
        mag(toward(c, s, len) * len - c * s) < len,
{
    let a = mag(c);
    lemma_mul_nonnegative(a, s);
    lemma_fundamental_div_mod(a * s, len);
    lemma_mod_division_less_than_divisor(a * s, len);
    let q = (a * s) / len;
    assert(q * len == len * q) by {
        lemma_mul_is_commutative(q, len);
    }
    assert(mag(q * len - a * s) < len);
    if c < 0 {
        assert(toward(c, s, len) == -q);
        assert((-q) * len == -(q * len)) by (nonlinear_arith);
        assert(c * s == -(a * s)) by (nonlinear_arith)
            requires
                c < 0,
                a == -c,
        ;
    }
}

/// One frame of homing motion: advance from `pos` toward `target` by
/// `speed * dt` milli-units along the line between them, each coordinate
/// rounded toward zero. The direction must not be degenerate.
///
/// The last clause is the closing law: as long as one frame's travel does
/// not overshoot the target, the projectile's distance to it never grows.
pub fn chase_step(pos: Vec3, target: Vec3, speed: i64, dt: i64) -> (r: Vec3)
    requires
        in_bounds(pos, PROJ_LIMIT as int),
        in_bounds(target, TGT_LIMIT as int),
        0 <= speed <= SPEED_LIMIT,
        0 <= dt <= DT_LIMIT,
        dist_sq_of(pos, target) > 0,
    ensures
        ({
            let len = sqrt_floor(dist_sq_of(pos, target));
            let s = speed * dt;
            &&& r.x == pos.x + toward(target.x - pos.x, s, len)
            &&& r.y == pos.y + toward(target.y - pos.y, s, len)
            &&& r.z == pos.z + toward(target.z - pos.z, s, len)
        }),
        in_bounds(r, PROJ_LIMIT as int),
        speed * dt <= sqrt_floor(dist_sq_of(pos, target)) ==> dist_sq_of(r, target) <= dist_sq_of(
            pos,
            target,
        ),
{
    proof {
        assert(PROJ_LIMIT <= COORD_LIMIT);
        assert(TGT_LIMIT <= COORD_LIMIT);
    }
    let dsq = dist_sq(pos, target);
    proof {
        lemma_sq_bound(pos.x - target.x, 2 * COORD_LIMIT as int);
        lemma_sq_bound(pos.y - target.y, 2 * COORD_LIMIT as int);
        lemma_sq_bound(pos.z - target.z, 2 * COORD_LIMIT as int);
    }
    let len = isqrt(dsq as u64);
    proof {
        lemma_sqrt_floor_is_sqrt(dsq as int);
        if len == 0 {
            assert(sq(1int) == 1) by (nonlinear_arith);
            assert(false);
        }
        assert(sq(target.x - pos.x) == sq(pos.x - target.x)) by (nonlinear_arith);
        assert(sq(target.y - pos.y) == sq(pos.y - target.y)) by (nonlinear_arith);
        assert(sq(target.z - pos.z) == sq(pos.z - target.z)) by (nonlinear_arith);
    }
    proof {
        assert(0 <= speed * dt <= STEP_LIMIT) by (nonlinear_arith)
            requires
                0 <= speed <= SPEED_LIMIT,
                0 <= dt <= DT_LIMIT,
        ;
    }
    let s = speed * dt;
    let tx = toward_step(target.x - pos.x, s, len as i64, dsq);
    let ty = toward_step(target.y - pos.y, s, len as i64, dsq);
    let tz = toward_step(target.z - pos.z, s, len as i64, dsq);
    let r = Vec3 { x: pos.x + tx, y: pos.y + ty, z: pos.z + tz };
    proof {
        let leni = len as int;
        let si = s as int;
        lemma_component_in_bounds(pos.x as int, target.x as int, si, leni);
        lemma_component_in_bounds(pos.y as int, target.y as int, si, leni);
        lemma_component_in_bounds(pos.z as int, target.z as int, si, leni);
        if si <= leni {
            lemma_chase_closes(pos, target, r, si, leni);
        }
    }
    r
}

/// After one homing step, a coordinate stays between where it was and one
/// frame's travel past the target's coordinate.
pub proof fn lemma_component_in_bounds(p: int, t: int, s: int, len: int)
    requires
        0 < len,
        0 <= s <= STEP_LIMIT,
        -PROJ_LIMIT <= p <= PROJ_LIMIT,
        -TGT_LIMIT <= t <= TGT_LIMIT,
        mag(t - p) <= len,
    ensures
        -PROJ_LIMIT <= p + toward(t - p, s, len) <= PROJ_LIMIT,
{
    let c = t - p;
    let w = toward(c, s, len);
    lemma_toward_bounds(c, s, len);
    if c >= 0 {
        if w <= c {
            assert(p <= p + w <= t);
        } else {
            assert(t < p + w <= t + s);
        }
    } else {
        if w >= c {
            assert(t <= p + w <= p);
        } else {
            assert(t - s <= p + w < t);
        }
    }
}

/// When one frame's travel does not overshoot, every coordinate of the
/// displacement to the target shrinks in magnitude, so the squared distance
/// does not grow.
pub proof fn lemma_chase_closes(pos: Vec3, target: Vec3, r: Vec3, s: int, len: int)
    requires
        0 < len,
        0 <= s <= len,
        mag(target.x - pos.x) <= len,
        mag(target.y - pos.y) <= len,
        mag(target.z - pos.z) <= len,
        r.x == pos.x + toward(target.x - pos.x, s, len),
        r.y == pos.y + toward(target.y - pos.y, s, len),
        r.z == pos.z + toward(target.z - pos.z, s, len),
    ensures
        dist_sq_of(r, target) <= dist_sq_of(pos, target),
{
    lemma_component_closes(pos.x as int, target.x as int, s, len);
    lemma_component_closes(pos.y as int, target.y as int, s, len);
    lemma_component_closes(pos.z as int, target.z as int, s, len);
}

pub proof fn lemma_component_closes(p: int, t: int, s: int, len: int)
    requires
        0 < len,
        0 <= s <= len,
        mag(t - p) <= len,
    ensures
        sq((p + toward(t - p, s, len)) - t) <= sq(p - t),
{
    let c = t - p;
    let w = toward(c, s, len);
    lemma_toward_bounds(c, s, len);
    assert(mag(w) <= mag(c));
    let nc = c - w;
    assert(mag(nc) <= mag(c));
    lemma_sq_monotone(mag(nc), mag(c));
    assert(sq(mag(nc)) == sq(nc)) by (nonlinear_arith);
    assert(sq(mag(c)) == sq(c)) by (nonlinear_arith);
    assert((p + w) - t == -nc);
    assert(sq(-nc) == sq(nc)) by (nonlinear_arith);
    assert(sq(p - t) == sq(c)) by (nonlinear_arith)
        requires
            c == t - p,
    ;
}

/// The fixed-point scale of a rotation: a unit coordinate is this many parts.
pub const ROT_ONE: i64 = 1_000_000;

/// A rotation of the 2-D world plane, as the cosine and sine of its angle
/// scaled by `ROT_ONE`.
#[derive(Clone, Copy, PartialEq, Eq, Structural, Debug)]
pub struct Rot2 {
    pub cos_u: i64,
    pub sin_u: i64,
}

/// The rotation that leaves the forward axis where it is.
pub open spec fn rot_identity() -> Rot2 {
    Rot2 { cos_u: ROT_ONE, sin_u: 0 }
}

/// Cosine, scaled by `ROT_ONE`, of the shortest-arc rotation that takes the
/// forward axis +Y to the direction `(dx, dy)`.
pub open spec fn facing_cos(dx: int, dy: int) -> int {
    toward(dy, ROT_ONE as int, sqrt_floor(sq(dx) + sq(dy)))
}

/// Sine, scaled by `ROT_ONE`, of the shortest-arc rotation that takes the
/// forward axis +Y to the direction `(dx, dy)`.
pub open spec fn facing_sin(dx: int, dy: int) -> int {
    -toward(dx, ROT_ONE as int, sqrt_floor(sq(dx) + sq(dy)))
}

/// The floor square root of a positive number is at least one.
pub proof fn lemma_sqrt_floor_pos(n: int)
    requires
        1 <= n,
    ensures
        1 <= sqrt_floor(n),
{
    lemma_sqrt_floor_is_sqrt(n);
    if sqrt_floor(n) < 1 {
        assert(sq(sqrt_floor(n) + 1) == 1) by (nonlinear_arith)
            requires
                sqrt_floor(n) == 0,
        ;
    }
}

/// The shortest-arc rotation from the forward axis +Y to the direction
/// `(dx, dy)`, in fixed point: its cosine is the direction's Y component and
/// its sine the negated X component, each normalized to `ROT_ONE`.
pub fn face_toward(dx: i64, dy: i64) -> (r: Rot2)
    requires
        -2 * COORD_LIMIT <= dx <= 2 * COORD_LIMIT,
        -2 * COORD_LIMIT <= dy <= 2 * COORD_LIMIT,
        sq(dx as int) + sq(dy as int) > 0,
    ensures
        r.cos_u == facing_cos(dx as int, dy as int),
        r.sin_u == facing_sin(dx as int, dy as int),
        mag(r.cos_u as int) <= ROT_ONE,
        mag(r.sin_u as int) <= ROT_ONE,
{
    proof {
        assert(0 <= (dx as int) * (dx as int) <= 0x1000_0000_0000_0000) by (nonlinear_arith)
            requires
                -0x4000_0000 <= dx as int <= 0x4000_0000,
        ;
        assert(0 <= (dy as int) * (dy as int) <= 0x1000_0000_0000_0000) by (nonlinear_arith)
            requires
                -0x4000_0000 <= dy as int <= 0x4000_0000,
        ;
    }
    let dsq = dx * dx + dy * dy;
    let len = isqrt(dsq as u64);
    proof {
        lemma_sqrt_floor_pos(dsq as int);
    }
    let c = toward_step(dy, ROT_ONE, len as i64, dsq);
    let s = toward_step(dx, ROT_ONE, len as i64, dsq);
    Rot2 { cos_u: c, sin_u: -s }
}

/// Law: the facing rotation is the shortest arc from the forward axis to the
/// direction. Applying it to the forward axis +Y — which yields the vector
/// `(-sin, cos)` — gives the direction `(dx, dy)` scaled to length
/// `ROT_ONE`, with each coordinate within one rounding unit of exact.
pub proof fn lemma_facing_aligns(dx: int, dy: int)
    requires
        sq(dx) + sq(dy) > 0,
    ensures
        ({
            let len = sqrt_floor(sq(dx) + sq(dy));
            &&& mag((-facing_sin(dx, dy)) * len - dx * ROT_ONE) < len
            &&& mag(facing_cos(dx, dy) * len - dy * ROT_ONE) < len
        }),
{
    let n = sq(dx) + sq(dy);
    assert(sq(dx) >= 0 && sq(dy) >= 0) by (nonlinear_arith);
    let len = sqrt_floor(n);
    lemma_sqrt_floor_pos(n);
    lemma_toward_near(dx, ROT_ONE as int, len);
    lemma_toward_near(dy, ROT_ONE as int, len);
    assert(-facing_sin(dx, dy) == toward(dx, ROT_ONE as int, len));
}

/// One coordinate of a homing step, computed in unsigned arithmetic so the
/// rounding is toward zero on either sign.
fn toward_step(c: i64, s: i64, len: i64, dsq: i64) -> (w: i64)
    requires
        0 < len <= 0x8000_0000,
        0 <= s <= STEP_LIMIT,
        -2 * COORD_LIMIT <= c <= 2 * COORD_LIMIT,
        sq(c as int) <= dsq,
        sq(len as int) <= dsq <= 0x4000_0000_0000_0000,
        dsq < sq(len as int + 1),
    ensures
        w == toward(c as int, s as int, len as int),
        mag(c as int) <= len as int,
        mag(w as int) <= s as int,
{
    proof {
        if mag(c as int) > len as int {
            lemma_sq_monotone(len as int + 1, mag(c as int));
            assert(sq(mag(c as int)) == sq(c as int)) by (nonlinear_arith);
        }
        assert(0 <= mag(c as int) * (s as int) <= 2 * COORD_LIMIT * STEP_LIMIT)
            by (nonlinear_arith)
            requires
                0 <= mag(c as int) <= 2 * COORD_LIMIT,
                0 <= s <= STEP_LIMIT,
        ;
    }
    if c >= 0 {
        let prod = (c as u64) * (s as u64);
        let q = prod / (len as u64);
        proof {
            lemma_mul_div_bounds(c as int, s as int, len as int);
        }
        q as i64
    } else {
        let prod = ((-c) as u64) * (s as u64);
        let q = prod / (len as u64);
        proof {
            lemma_mul_div_bounds(-(c as int), s as int, len as int);
        }
        -(q as i64)
    }
}

} // verus!
