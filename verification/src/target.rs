//! The wandering target: it moves along the world X axis at a signed speed,
//! spins at a constant rate, and inverts its direction of travel whenever it
//! finds itself farther from its spawn point than its maximum distance.

use vstd::prelude::*;
use crate::math::{
    Vec3, sq, mag, in_bounds, dist_sq_of, dist_sq, TGT_LIMIT, SPEED_LIMIT, DT_LIMIT,
};

verus! {

/// Spin rate of the target shape, in micro-radians per millisecond.
pub const SPIN_RATE: i64 = 1200;

/// Bound on the accumulated spin angle, in micro-radians.
pub const SPIN_LIMIT: i64 = 0x1000_0000_0000_0000;

/// Default maximum distance of a fresh target from its spawn, in milli-units.
pub const DEFAULT_MAX_DISTANCE: i64 = 300_000;

/// Default speed of a fresh target, in milli-units per millisecond.
pub const DEFAULT_TARGET_SPEED: i64 = 70;

/// The wander parameters of the target: where it spawned, how far it may
/// stray, and its current signed speed along the X axis.
#[derive(Clone, Copy, PartialEq, Eq, Structural, Debug)]
pub struct Movable {
    pub spawn: Vec3,
    pub max_distance: i64,
    pub speed: i64,
}

/// The full per-frame state of the target entity: its position, its
/// accumulated spin angle in micro-radians, and its wander parameters.
#[derive(Clone, Copy, PartialEq, Eq, Structural, Debug)]
pub struct Target {
    pub pos: Vec3,
    pub spin: i64,
    pub movable: Movable,
}

pub open spec fn movable_wf(m: Movable) -> bool {
    &&& in_bounds(m.spawn, TGT_LIMIT as int)
    &&& 0 <= m.max_distance <= TGT_LIMIT
    &&& -SPEED_LIMIT <= m.speed <= SPEED_LIMIT
}

pub open spec fn target_wf(t: Target) -> bool {
    &&& movable_wf(t.movable)
    &&& in_bounds(t.pos, TGT_LIMIT as int)
    &&& -SPIN_LIMIT <= t.spin <= SPIN_LIMIT
}

/// The sign of an integer: -1, 0 or 1.
pub open spec fn signum(x: int) -> int {
    if x > 0 {
        1
    } else if x < 0 {
        -1
    } else {
        0
    }
}

/// Whether the target is strictly farther from its spawn than its maximum
/// distance, the condition on which its speed inverts.
pub open spec fn strayed(t: Target) -> bool {
    dist_sq_of(t.pos, t.movable.spawn) > sq(t.movable.max_distance as int)
}

/// The signed speed the target travels with this frame: inverted when it has
/// strayed beyond its maximum distance, unchanged otherwise.
pub open spec fn frame_speed(t: Target) -> int {
    if strayed(t) {
        -t.movable.speed
    } else {
        t.movable.speed as int
    }
}

/// The speed of one wander frame, seen along the motion axis: `d` is the
/// signed displacement from spawn and `s` the signed speed before the frame.
pub open spec fn wander_s(d: int, s: int, max: int) -> int {
    if mag(d) > max {
        -s
    } else {
        s
    }
}

/// The displacement from spawn after one wander frame of elapsed time `dt`.
pub open spec fn wander_d(d: int, s: int, max: int, dt: int) -> int {
    d + wander_s(d, s, max) * dt
}

/// Displacement and speed after `n` wander frames, each of elapsed time `dt`.
pub open spec fn wander_n(d: int, s: int, max: int, dt: int, n: nat) -> (int, int)
    decreases n,
{
    if n == 0 {
        (d, s)
    } else {
        let (d0, s0) = wander_n(d, s, max, dt, (n - 1) as nat);
        (wander_d(d0, s0, max, dt), wander_s(d0, s0, max))
    }
}

/// The wander invariant: the target sits within one frame's worth of motion
/// of its maximum distance, and whenever it is beyond the maximum distance
/// it is moving away from spawn, so that the next frame inverts its speed
/// back toward it.
pub open spec fn wander_inv(d: int, s: int, max: int, dt: int) -> bool {
    &&& mag(d) <= max + mag(s) * dt
    &&& (mag(d) > max ==> d * s >= 0)
}

/// One wander frame preserves the wander invariant and keeps the speed's
/// magnitude.
pub proof fn lemma_wander_step(d: int, s: int, max: int, dt: int)
    by (nonlinear_arith)
    requires
        0 <= max,
        0 <= dt,
        wander_inv(d, s, max, dt),
    ensures
        wander_inv(wander_d(d, s, max, dt), wander_s(d, s, max), max, dt),
        mag(wander_s(d, s, max)) == mag(s),
{
}

/// Law: a target that starts inside the wander invariant — in particular one
/// that starts at most its maximum distance from spawn — never strays more
/// than one frame's worth of motion `|s| * dt` past its maximum distance,
/// over any number of frames of the same elapsed time; and its speed only
/// ever changes sign, never magnitude.
pub proof fn lemma_wander_bounded(d: int, s: int, max: int, dt: int, n: nat)
    requires
        0 <= max,
        0 <= dt,
        wander_inv(d, s, max, dt),
    ensures
        mag(wander_n(d, s, max, dt, n).0) <= max + mag(s) * dt,
        wander_inv(wander_n(d, s, max, dt, n).0, wander_n(d, s, max, dt, n).1, max, dt),
        mag(wander_n(d, s, max, dt, n).1) == mag(s),
    decreases n,
{
    if n > 0 {
        lemma_wander_bounded(d, s, max, dt, (n - 1) as nat);
        let (d0, s0) = wander_n(d, s, max, dt, (n - 1) as nat);
        assert(mag(s0) * dt == mag(s) * dt);
        lemma_wander_step(d0, s0, max, dt);
    }
}

/// Law, from rest: a target that starts within its maximum distance of
/// spawn — as the one created at startup does, at distance zero — never
/// strays more than one frame's worth of motion past it, over any number of
/// frames of the same elapsed time.
pub proof fn lemma_wander_from_inside(d: int, s: int, max: int, dt: int, n: nat)
    requires
        0 <= max,
        0 <= dt,
        mag(d) <= max,
    ensures
        mag(wander_n(d, s, max, dt, n).0) <= max + mag(s) * dt,
{
    vstd::arithmetic::mul::lemma_mul_nonnegative(mag(s), dt);
    lemma_wander_bounded(d, s, max, dt, n);
}

/// With the target on the motion axis (its Y and Z at spawn's), straying is
/// exactly a displacement beyond the maximum distance.
pub proof fn lemma_strayed_on_axis(t: Target)
    requires
        t.pos.y == t.movable.spawn.y,
        t.pos.z == t.movable.spawn.z,
        0 <= t.movable.max_distance,
    ensures
        strayed(t) <==> mag(t.pos.x - t.movable.spawn.x) > t.movable.max_distance,
{
    let dx = t.pos.x - t.movable.spawn.x;
    let max = t.movable.max_distance as int;
    assert(dist_sq_of(t.pos, t.movable.spawn) == sq(dx));
    assert(sq(dx) > sq(max) <==> mag(dx) > max) by (nonlinear_arith)
        requires
            0 <= max,
    ;
}

impl Movable {
    /// A fresh wander state around the given spawn point, with the default
    /// maximum distance and speed.
    pub fn new(spawn: Vec3) -> (m: Movable)
        ensures
            m.spawn == spawn,
            m.max_distance == DEFAULT_MAX_DISTANCE,
            m.speed == DEFAULT_TARGET_SPEED,
    {
        Movable { spawn, max_distance: DEFAULT_MAX_DISTANCE, speed: DEFAULT_TARGET_SPEED }
    }
}

/// One frame of the target's wander: invert the speed when the target has
/// strayed past its maximum distance, advance along the X axis by the
/// (possibly inverted) speed times the elapsed time, and spin at the fixed
/// rate, the spin's direction tied to the speed's sign.
pub fn move_target(t: &mut Target, dt: i64)
    requires
        target_wf(*old(t)),
        0 <= dt <= DT_LIMIT,
    ensures
        final(t).movable.spawn == old(t).movable.spawn,
        final(t).movable.max_distance == old(t).movable.max_distance,
        final(t).movable.speed == frame_speed(*old(t)),
        final(t).pos.x == old(t).pos.x + frame_speed(*old(t)) * dt,
        final(t).pos.y == old(t).pos.y,
        final(t).pos.z == old(t).pos.z,
        final(t).spin == old(t).spin - SPIN_RATE * signum(frame_speed(*old(t))) * dt,
        old(t).pos.y == old(t).movable.spawn.y && old(t).pos.z == old(t).movable.spawn.z ==> {
            &&& final(t).pos.x - final(t).movable.spawn.x == wander_d(
                old(t).pos.x - old(t).movable.spawn.x as int,
                old(t).movable.speed as int,
                old(t).movable.max_distance as int,
                dt as int,
            )
            &&& final(t).movable.speed == wander_s(
                old(t).pos.x - old(t).movable.spawn.x as int,
                old(t).movable.speed as int,
                old(t).movable.max_distance as int,
            )
        },
{
    let d = dist_sq(t.pos, t.movable.spawn);
    proof {
        crate::math::lemma_sq_bound(t.movable.max_distance as int, TGT_LIMIT as int);
    }
    if d > t.movable.max_distance * t.movable.max_distance {
        t.movable.speed = -t.movable.speed;
    }
    proof {
        assert(-(SPEED_LIMIT * DT_LIMIT) <= t.movable.speed * dt <= SPEED_LIMIT * DT_LIMIT)
            by (nonlinear_arith)
            requires
                -SPEED_LIMIT <= t.movable.speed <= SPEED_LIMIT,
                0 <= dt <= DT_LIMIT,
        ;
    }
    t.pos.x = t.pos.x + t.movable.speed * dt;
    let sg: i64 = if t.movable.speed > 0 {
        1
    } else if t.movable.speed < 0 {
        -1
    } else {
        0
    };
    proof {
        assert(-(SPIN_RATE * DT_LIMIT) <= SPIN_RATE * sg * dt <= SPIN_RATE * DT_LIMIT)
            by (nonlinear_arith)
            requires
                -1 <= sg <= 1,
                0 <= dt <= DT_LIMIT,
        ;
    }
    t.spin = t.spin - SPIN_RATE * sg * dt;
    proof {
        if old(t).pos.y == old(t).movable.spawn.y && old(t).pos.z == old(t).movable.spawn.z {
            lemma_strayed_on_axis(*old(t));
        }
    }
}

} // verus!
