//! The world: the single wandering target, the projectiles chasing it, and
//! the cached rendering handles that every spawned projectile reuses.
//!
//! Entities are plain identifiers. A projectile's reference to its target is
//! valid by construction — the target is a permanent part of the world — and
//! a removed projectile's identifier never comes back, so a lookup of it
//! fails rather than aborting.

use vstd::prelude::*;
use crate::math::{
    Vec3, Vec2, sq, mag, in_bounds, dist_sq_of, dist_sq, sqrt_floor, TGT_LIMIT,
    PROJ_LIMIT, SPEED_LIMIT, DT_LIMIT, STEP_LIMIT,
};
use crate::target::{Target, Movable, target_wf, DEFAULT_MAX_DISTANCE, DEFAULT_TARGET_SPEED};
use crate::projectile::{
    Follower, Rot2, rot_identity, toward, facing_cos, facing_sin, chase_step, face_toward,
    lemma_chase_closes, lemma_component_in_bounds, MIN_DISTANCE, DEFAULT_PROJECTILE_SPEED,
};

verus! {

/// Rendering handles created once at startup and reused by every spawn.
#[derive(Clone, Copy, PartialEq, Eq, Structural, Debug)]
pub struct WorldAssets {
    pub mesh: u64,
    pub material: u64,
}

/// A projectile entity: its identifier, its transform (position and facing
/// rotation), its homing parameters, and the rendering handles it shares
/// with every other projectile.
#[derive(Clone, Copy, PartialEq, Eq, Structural, Debug)]
pub struct Projectile {
    pub id: u64,
    pub pos: Vec3,
    pub facing: Rot2,
    pub follower: Follower,
    pub mesh: u64,
    pub material: u64,
}

/// The whole game state: cached assets, the target entity, the live
/// projectiles, and the next fresh entity identifier.
#[derive(Debug)]
pub struct World {
    pub assets: WorldAssets,
    pub target_id: u64,
    pub target: Target,
    pub projectiles: Vec<Projectile>,
    pub next_id: u64,
}

/// Whether some live projectile carries the given identifier.
pub open spec fn has_id(s: Seq<Projectile>, id: u64) -> bool {
    exists|k: int| 0 <= k < s.len() && s[k].id == id
}

/// No two live projectiles share an identifier.
pub open spec fn distinct_ids(s: Seq<Projectile>) -> bool {
    forall|i: int, j: int| 0 <= i < j < s.len() ==> s[i].id != s[j].id
}

pub open spec fn proj_wf(p: Projectile, w: World) -> bool {
    &&& in_bounds(p.pos, PROJ_LIMIT as int)
    &&& 0 <= p.follower.speed <= SPEED_LIMIT
    &&& p.id < w.next_id
    &&& p.follower.target == w.target_id
    &&& p.mesh == w.assets.mesh
    &&& p.material == w.assets.material
}

pub open spec fn world_wf(w: World) -> bool {
    &&& target_wf(w.target)
    &&& w.target_id < w.next_id
    &&& (forall|i: int| 0 <= i < w.projectiles@.len() ==> proj_wf(
        #[trigger] w.projectiles@[i],
        w,
    ))
    &&& distinct_ids(w.projectiles@)
}

/// Whether a projectile at `pos` has reached a target at `tpos`: strictly
/// closer than the minimum distance.
pub open spec fn hits(pos: Vec3, tpos: Vec3) -> bool {
    dist_sq_of(pos, tpos) < sq(MIN_DISTANCE as int)
}

/// Where one frame of homing motion takes a projectile at `pos` chasing a
/// target at `tpos`, covering `s` milli-units.
pub open spec fn chased(pos: Vec3, tpos: Vec3, s: int) -> Vec3 {
    let len = sqrt_floor(dist_sq_of(pos, tpos));
    Vec3 {
        x: (pos.x + toward(tpos.x - pos.x, s, len)) as i64,
        y: (pos.y + toward(tpos.y - pos.y, s, len)) as i64,
        z: (pos.z + toward(tpos.z - pos.z, s, len)) as i64,
    }
}

/// The rotation a projectile shows after facing its target: the shortest-arc
/// rotation from the forward axis to the direction toward the target, or the
/// previous rotation when the direction has no component in the world plane.
pub open spec fn faced(pos: Vec3, tpos: Vec3, prev: Rot2) -> Rot2 {
    let dx = tpos.x - pos.x;
    let dy = tpos.y - pos.y;
    if dx == 0 && dy == 0 {
        prev
    } else {
        Rot2 { cos_u: facing_cos(dx, dy) as i64, sin_u: facing_sin(dx, dy) as i64 }
    }
}

/// One frame of a single projectile that has not reached its target.
pub open spec fn stepped(p: Projectile, tpos: Vec3, dt: int) -> Projectile {
    Projectile {
        id: p.id,
        pos: chased(p.pos, tpos, p.follower.speed * dt),
        facing: faced(p.pos, tpos, p.facing),
        follower: p.follower,
        mesh: p.mesh,
        material: p.material,
    }
}

/// One frame of every projectile, in order: a projectile that has reached
/// its target is removed, every other one advances and turns.
pub open spec fn step_all(s: Seq<Projectile>, tpos: Vec3, dt: int) -> Seq<Projectile>
    decreases s.len(),
{
    if s.len() == 0 {
        Seq::empty()
    } else {
        let init = step_all(s.drop_last(), tpos, dt);
        if hits(s.last().pos, tpos) {
            init
        } else {
            init.push(stepped(s.last(), tpos, dt))
        }
    }
}

/// Law: the homing motion closes in. As long as one frame's travel does not
/// overshoot the target — the distance covered is at most the distance to
/// it — a projectile's distance to a stationary target never grows.
pub proof fn lemma_chased_closes(pos: Vec3, tpos: Vec3, s: int)
    requires
        in_bounds(pos, PROJ_LIMIT as int),
        in_bounds(tpos, TGT_LIMIT as int),
        dist_sq_of(pos, tpos) > 0,
        0 <= s <= sqrt_floor(dist_sq_of(pos, tpos)),
        s <= STEP_LIMIT,
    ensures
        dist_sq_of(chased(pos, tpos, s), tpos) <= dist_sq_of(pos, tpos),
{
    let dsq = dist_sq_of(pos, tpos);
    let len = sqrt_floor(dsq);
    crate::projectile::lemma_sqrt_floor_pos(dsq);
    crate::math::lemma_sqrt_floor_is_sqrt(dsq);
    lemma_coord_le_len(tpos.x - pos.x, pos.x - tpos.x, pos.y - tpos.y, pos.z - tpos.z, len);
    lemma_coord_le_len(tpos.y - pos.y, pos.y - tpos.y, pos.x - tpos.x, pos.z - tpos.z, len);
    lemma_coord_le_len(tpos.z - pos.z, pos.z - tpos.z, pos.x - tpos.x, pos.y - tpos.y, len);
    lemma_component_in_bounds(pos.x as int, tpos.x as int, s, len);
    lemma_component_in_bounds(pos.y as int, tpos.y as int, s, len);
    lemma_component_in_bounds(pos.z as int, tpos.z as int, s, len);
    let r = chased(pos, tpos, s);
    lemma_chase_closes(pos, tpos, r, s, len);
}

/// A coordinate of a displacement is no longer than the floor square root
/// of the displacement's squared length.
proof fn lemma_coord_le_len(c: int, a: int, b1: int, b2: int, len: int)
    requires
        c == -a,
        sq(a) + sq(b1) + sq(b2) < sq(len + 1),
        0 <= len,
    ensures
        mag(c) <= len,
{
    assert(sq(mag(c)) == sq(a)) by (nonlinear_arith)
        requires
            c == -a,
    ;
    assert(sq(b1) >= 0 && sq(b2) >= 0) by (nonlinear_arith);
    if mag(c) > len {
        assert(sq(mag(c)) >= sq(len + 1)) by (nonlinear_arith)
            requires
                mag(c) >= len + 1,
                len + 1 >= 1,
        ;
    }
}

/// Every identifier that survives a frame was a live identifier before it.
pub proof fn lemma_step_all_ids(s: Seq<Projectile>, tpos: Vec3, dt: int)
    ensures
        forall|k: int| 0 <= k < step_all(s, tpos, dt).len() ==> has_id(
            s,
            #[trigger] step_all(s, tpos, dt)[k].id,
        ),
    decreases s.len(),
{
    if s.len() > 0 {
        let init = step_all(s.drop_last(), tpos, dt);
        lemma_step_all_ids(s.drop_last(), tpos, dt);
        assert forall|k: int| 0 <= k < step_all(s, tpos, dt).len() implies has_id(
            s,
            #[trigger] step_all(s, tpos, dt)[k].id,
        ) by {
            if k < init.len() {
                let id = init[k].id;
                let j = choose|j: int| 0 <= j < s.drop_last().len() && s.drop_last()[j].id == id;
                assert(s[j].id == id);
            } else {
                assert(step_all(s, tpos, dt)[k].id == s[s.len() - 1].id);
            }
        }
    }
}

/// Law: a projectile that is within the minimum distance of the target when
/// the frame starts is removed by that frame, and its identifier is no
/// longer live afterwards.
pub proof fn lemma_hit_is_removed(s: Seq<Projectile>, tpos: Vec3, dt: int, i: int)
    requires
        distinct_ids(s),
        0 <= i < s.len(),
        hits(s[i].pos, tpos),
    ensures
        !has_id(step_all(s, tpos, dt), s[i].id),
    decreases s.len(),
{
    let init = step_all(s.drop_last(), tpos, dt);
    if i == s.len() - 1 {
        lemma_step_all_ids(s.drop_last(), tpos, dt);
        if has_id(init, s[i].id) {
            let k = choose|k: int| 0 <= k < init.len() && init[k].id == s[i].id;
            let j = choose|j: int|
                0 <= j < s.drop_last().len() && s.drop_last()[j].id == init[k].id;
            assert(s[j].id == s[i].id);
        }
    } else {
        lemma_hit_is_removed(s.drop_last(), tpos, dt, i);
        if !hits(s.last().pos, tpos) {
            assert(s[s.len() - 1].id != s[i].id);
        }
    }
}

/// Law: a projectile that has not reached the target survives the frame,
/// advanced and turned toward it.
pub proof fn lemma_survivor_is_kept(s: Seq<Projectile>, tpos: Vec3, dt: int, i: int)
    requires
        0 <= i < s.len(),
        !hits(s[i].pos, tpos),
    ensures
        exists|k: int| 0 <= k < step_all(s, tpos, dt).len() && step_all(s, tpos, dt)[k]
            == stepped(s[i], tpos, dt),
    decreases s.len(),
{
    let out = step_all(s, tpos, dt);
    if i == s.len() - 1 {
        assert(out.last() == stepped(s[i], tpos, dt));
        assert(out[out.len() - 1] == stepped(s[i], tpos, dt));
    } else {
        lemma_survivor_is_kept(s.drop_last(), tpos, dt, i);
        let prev = step_all(s.drop_last(), tpos, dt);
        let k = choose|k: int| 0 <= k < prev.len() && prev[k] == stepped(s.drop_last()[i], tpos, dt);
        assert(s.drop_last()[i] == s[i]);
        assert(out[k] == stepped(s[i], tpos, dt));
    }
}

/// Startup: cache the rendering handles, place the target at the origin
/// with its default wander parameters, and leave no projectile live.
pub fn setup(mesh: u64, material: u64) -> (w: World)
    ensures
        w.assets == (WorldAssets { mesh, material }),
        w.target.pos == (Vec3 { x: 0, y: 0, z: 0 }),
        w.target.spin == 0,
        w.target.movable.spawn == w.target.pos,
        w.target.movable.max_distance == DEFAULT_MAX_DISTANCE,
        w.target.movable.speed == DEFAULT_TARGET_SPEED,
        w.target_id == 0,
        w.next_id == 1,
        w.projectiles@ == Seq::<Projectile>::empty(),
        world_wf(w),
{
    let spawn = Vec3 { x: 0, y: 0, z: 0 };
    World {
        assets: WorldAssets { mesh, material },
        target_id: 0,
        target: Target { pos: spawn, spin: 0, movable: Movable::new(spawn) },
        projectiles: Vec::new(),
        next_id: 1,
    }
}

/// The projectile a spawn at the world point `c` creates: a fresh entity at
/// that point, facing nowhere in particular yet, chasing the target at the
/// default speed, and reusing the cached rendering handles.
pub open spec fn spawned(w: World, c: Vec2) -> Projectile {
    Projectile {
        id: w.next_id,
        pos: Vec3 { x: c.x, y: c.y, z: 0 },
        facing: rot_identity(),
        follower: Follower { speed: DEFAULT_PROJECTILE_SPEED, target: w.target_id },
        mesh: w.assets.mesh,
        material: w.assets.material,
    }
}

/// A click spawns one projectile at the cursor's world position, aimed at
/// the target. With no cursor position — the cursor is outside the window,
/// or its position does not convert to a world point — nothing is created
/// and the world is left exactly as it was.
pub fn spawn_projectile(w: &mut World, cursor: Option<Vec2>)
    requires
        world_wf(*old(w)),
        old(w).next_id < u64::MAX,
        cursor matches Some(c) ==> -TGT_LIMIT <= c.x <= TGT_LIMIT && -TGT_LIMIT <= c.y
            <= TGT_LIMIT,
    ensures
        cursor is None ==> *final(w) == *old(w),
        cursor matches Some(c) ==> {
            &&& final(w).projectiles@ == old(w).projectiles@.push(spawned(*old(w), c))
            &&& final(w).next_id == old(w).next_id + 1
            &&& final(w).target == old(w).target
            &&& final(w).target_id == old(w).target_id
            &&& final(w).assets == old(w).assets
        },
        world_wf(*final(w)),
{
    match cursor {
        None => {},
        Some(c) => {
            let p = Projectile {
                id: w.next_id,
                pos: Vec3 { x: c.x, y: c.y, z: 0 },
                facing: Rot2 { cos_u: crate::projectile::ROT_ONE, sin_u: 0 },
                follower: Follower::new(w.target_id),
                mesh: w.assets.mesh,
                material: w.assets.material,
            };
            w.projectiles.push(p);
            w.next_id = w.next_id + 1;
            proof {
                assert forall|i: int|
                    0 <= i < w.projectiles@.len() implies proj_wf(
                    #[trigger] w.projectiles@[i],
                    *w,
                ) by {
                    if i < old(w).projectiles@.len() {
                        assert(proj_wf(old(w).projectiles@[i], *old(w)));
                    }
                }
                assert forall|i: int, j: int|
                    0 <= i < j < w.projectiles@.len() implies w.projectiles@[i].id
                    != w.projectiles@[j].id by {
                    if j < old(w).projectiles@.len() {
                        assert(old(w).projectiles@[i].id != old(w).projectiles@[j].id);
                    } else {
                        assert(proj_wf(old(w).projectiles@[i], *old(w)));
                    }
                }
            }
        },
    }
}

/// One frame of every projectile: a projectile within the minimum distance
/// of the target is removed; every other one advances toward the target's
/// current position by its speed times the elapsed time and turns to face
/// it. The target itself is left untouched.
pub fn move_projectile(w: &mut World, dt: i64)
    requires
        world_wf(*old(w)),
        0 <= dt <= DT_LIMIT,
    ensures
        final(w).projectiles@ == step_all(old(w).projectiles@, old(w).target.pos, dt as int),
        final(w).target == old(w).target,
        final(w).target_id == old(w).target_id,
        final(w).next_id == old(w).next_id,
        final(w).assets == old(w).assets,
        world_wf(*final(w)),
{
    let ghost s0 = w.projectiles@;
    let tpos = w.target.pos;
    let n = w.projectiles.len();
    let mut out: Vec<Projectile> = Vec::new();
    let mut i: usize = 0;
    while i < n
        invariant
            *w == *old(w),
            s0 == old(w).projectiles@,
            tpos == old(w).target.pos,
            world_wf(*old(w)),
            0 <= dt <= DT_LIMIT,
            n == s0.len(),
            0 <= i <= n,
            out@ == step_all(s0.take(i as int), tpos, dt as int),
            forall|k: int| 0 <= k < out@.len() ==> proj_wf(#[trigger] out@[k], *old(w)),
            forall|k: int|
                0 <= k < out@.len() ==> exists|j: int|
                    0 <= j < i && #[trigger] out@[k].id == s0[j].id,
            distinct_ids(out@),
        decreases n - i,
    {
        let ghost prefix = s0.take(i as int);
        let p = w.projectiles[i];
        proof {
            assert(p == s0[i as int]);
            assert(proj_wf(p, *old(w)));
            assert(s0.take(i as int + 1).drop_last() =~= prefix);
            assert(s0.take(i as int + 1).last() == p);
        }
        let dsq = dist_sq(p.pos, tpos);
        if dsq < MIN_DISTANCE * MIN_DISTANCE {
            proof {
                assert(hits(p.pos, tpos));
                assert(step_all(s0.take(i as int + 1), tpos, dt as int) == out@);
            }
        } else {
            let new_pos = chase_step(p.pos, tpos, p.follower.speed, dt);
            let dx = tpos.x - p.pos.x;
            let dy = tpos.y - p.pos.y;
            let new_facing: Rot2 = if dx == 0 && dy == 0 {
                p.facing
            } else {
                proof {
                    if dx != 0 {
                        assert(sq(dx as int) > 0) by (nonlinear_arith)
                            requires
                                dx != 0,
                        ;
                        assert(sq(dy as int) >= 0) by (nonlinear_arith);
                    } else {
                        assert(sq(dy as int) > 0) by (nonlinear_arith)
                            requires
                                dy != 0,
                        ;
                        assert(sq(dx as int) >= 0) by (nonlinear_arith);
                    }
                }
                face_toward(dx, dy)
            };
            let q = Projectile {
                id: p.id,
                pos: new_pos,
                facing: new_facing,
                follower: p.follower,
                mesh: p.mesh,
                material: p.material,
            };
            proof {
                assert(q == stepped(p, tpos, dt as int));
                assert forall|k: int| 0 <= k < out@.len() implies out@[k].id != q.id by {
                    let j = choose|j: int| 0 <= j < i && out@[k].id == s0[j].id;
                    assert(s0[j].id != s0[i as int].id);
                }
            }
            out.push(q);
            proof {
                assert(out@.drop_last() == step_all(prefix, tpos, dt as int));
                assert(step_all(s0.take(i as int + 1), tpos, dt as int) == out@);
                assert forall|k: int|
                    0 <= k < out@.len() implies exists|j: int|
                    0 <= j < i + 1 && #[trigger] out@[k].id == s0[j].id by {
                    if k < out@.len() - 1 {
                        let j = choose|j: int| 0 <= j < i && out@.drop_last()[k].id == s0[j].id;
                        assert(out@[k].id == s0[j].id);
                    } else {
                        assert(out@[k].id == s0[i as int].id);
                    }
                }
            }
        }
        i = i + 1;
    }
    proof {
        assert(s0.take(n as int) =~= s0);
    }
    w.projectiles = out;
}

/// Whether an entity with the given identifier is live in the world: the
/// target always is; a projectile is until it reaches the target.
pub fn has_entity(w: &World, id: u64) -> (r: bool)
    ensures
        r == (id == w.target_id || has_id(w.projectiles@, id)),
{
    if id == w.target_id {
        return true;
    }
    let n = w.projectiles.len();
    let mut i: usize = 0;
    while i < n
        invariant
            n == w.projectiles@.len(),
            0 <= i <= n,
            forall|k: int| 0 <= k < i ==> w.projectiles@[k].id != id,
        decreases n - i,
    {
        if w.projectiles[i].id == id {
            return true;
        }
        i = i + 1;
    }
    false
}

} // verus!
