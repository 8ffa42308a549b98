//! Concrete scenarios for the chase-and-follow mechanics: exact values for
//! the integer square root, one frame of wander and of homing, spawning,
//! removal on arrival, and the facing rotation.

use follow_wee::math::{dist_sq, isqrt, Vec2, Vec3};
use follow_wee::projectile::{chase_step, face_toward, Follower, ROT_ONE};
use follow_wee::target::{move_target, Movable, Target};
use follow_wee::world::{has_entity, move_projectile, setup, spawn_projectile};

fn v3(x: i64, y: i64, z: i64) -> Vec3 {
    Vec3 { x, y, z }
}

#[test]
fn isqrt_exact_values() {
    assert_eq!(isqrt(0), 0);
    assert_eq!(isqrt(1), 1);
    assert_eq!(isqrt(3), 1);
    assert_eq!(isqrt(4), 2);
    assert_eq!(isqrt(99), 9);
    assert_eq!(isqrt(100), 10);
    assert_eq!(isqrt(25_000_000), 5000);
    assert_eq!(isqrt(1_000_000_000), 31622);
    assert_eq!(isqrt(u64::MAX / 4), 2147483647);
}

#[test]
fn dist_sq_exact_values() {
    assert_eq!(dist_sq(v3(0, 0, 0), v3(3, 4, 0)), 25);
    assert_eq!(dist_sq(v3(-1, -2, -3), v3(1, 2, 3)), 4 + 16 + 36);
    assert_eq!(dist_sq(v3(5, 5, 5), v3(5, 5, 5)), 0);
}

#[test]
fn movable_new_defaults() {
    let m = Movable::new(v3(10, 20, 30));
    assert_eq!(m.spawn, v3(10, 20, 30));
    assert_eq!(m.max_distance, 300_000);
    assert_eq!(m.speed, 70);
}

#[test]
fn follower_new_defaults() {
    let f = Follower::new(42);
    assert_eq!(f.speed, 110);
    assert_eq!(f.target, 42);
}

#[test]
fn target_moves_along_x_and_spins() {
    let spawn = v3(0, 0, 0);
    let mut t = Target { pos: spawn, spin: 0, movable: Movable::new(spawn) };
    move_target(&mut t, 1000);
    assert_eq!(t.pos, v3(70_000, 0, 0));
    assert_eq!(t.movable.speed, 70);
    assert_eq!(t.spin, -1_200_000);
}

#[test]
fn target_inverts_past_max_distance() {
    let spawn = v3(0, 0, 0);
    let mut t = Target { pos: v3(300_001, 0, 0), spin: 0, movable: Movable::new(spawn) };
    move_target(&mut t, 1);
    assert_eq!(t.movable.speed, -70);
    assert_eq!(t.pos, v3(299_931, 0, 0));
    assert_eq!(t.spin, 1200);
}

#[test]
fn target_at_exact_max_distance_does_not_invert() {
    let spawn = v3(0, 0, 0);
    let mut t = Target { pos: v3(300_000, 0, 0), spin: 0, movable: Movable::new(spawn) };
    move_target(&mut t, 1);
    assert_eq!(t.movable.speed, 70);
    assert_eq!(t.pos, v3(300_070, 0, 0));
}

#[test]
fn target_stays_within_one_frame_of_max_distance() {
    let spawn = v3(0, 0, 0);
    let mut t = Target { pos: spawn, spin: 0, movable: Movable::new(spawn) };
    let dt: i64 = 1000;
    let slack: i64 = 70 * dt;
    for _ in 0..20_000 {
        move_target(&mut t, dt);
        assert!((t.pos.x - spawn.x).abs() <= 300_000 + slack);
        assert_eq!(t.movable.speed.abs(), 70);
        assert_eq!(t.pos.y, 0);
        assert_eq!(t.pos.z, 0);
    }
}

#[test]
fn spawn_without_cursor_creates_nothing() {
    let mut w = setup(7, 8);
    spawn_projectile(&mut w, None);
    assert_eq!(w.projectiles.len(), 0);
    assert_eq!(w.next_id, 1);
}

#[test]
fn spawn_with_cursor_creates_one_projectile() {
    let mut w = setup(7, 8);
    spawn_projectile(&mut w, Some(Vec2 { x: 1000, y: 2000 }));
    assert_eq!(w.projectiles.len(), 1);
    let p = w.projectiles[0];
    assert_eq!(p.id, 1);
    assert_eq!(p.pos, v3(1000, 2000, 0));
    assert_eq!(p.follower.speed, 110);
    assert_eq!(p.follower.target, w.target_id);
    assert_eq!(p.facing.cos_u, ROT_ONE);
    assert_eq!(p.facing.sin_u, 0);
    assert_eq!(w.next_id, 2);
}

#[test]
fn spawn_reuses_cached_assets() {
    let mut w = setup(31, 47);
    spawn_projectile(&mut w, Some(Vec2 { x: 0, y: 50_000 }));
    spawn_projectile(&mut w, Some(Vec2 { x: 50_000, y: 0 }));
    assert_eq!(w.projectiles[0].mesh, 31);
    assert_eq!(w.projectiles[0].material, 47);
    assert_eq!(w.projectiles[1].mesh, 31);
    assert_eq!(w.projectiles[1].material, 47);
    assert_ne!(w.projectiles[0].id, w.projectiles[1].id);
}

#[test]
fn chase_step_exact_values() {
    // Distance 5000; a step of 1000 covers a fifth of each coordinate.
    let r = chase_step(v3(0, 0, 0), v3(3000, 4000, 0), 100, 10);
    assert_eq!(r, v3(600, 800, 0));
    assert!(dist_sq(r, v3(3000, 4000, 0)) <= dist_sq(v3(0, 0, 0), v3(3000, 4000, 0)));
}

#[test]
fn chase_step_rounds_toward_zero() {
    let r = chase_step(v3(0, 0, 0), v3(2, 1, 0), 1, 1);
    assert_eq!(r, v3(1, 0, 0));
    let r = chase_step(v3(0, 0, 0), v3(-2, -1, 0), 1, 1);
    assert_eq!(r, v3(-1, 0, 0));
}

#[test]
fn facing_forward_is_identity() {
    let r = face_toward(0, 1);
    assert_eq!(r.cos_u, ROT_ONE);
    assert_eq!(r.sin_u, 0);
}

#[test]
fn facing_right_is_quarter_turn() {
    let r = face_toward(1, 0);
    assert_eq!(r.cos_u, 0);
    assert_eq!(r.sin_u, -ROT_ONE);
}

#[test]
fn facing_backward_and_left() {
    let r = face_toward(0, -1);
    assert_eq!(r.cos_u, -ROT_ONE);
    assert_eq!(r.sin_u, 0);
    let r = face_toward(-1, 0);
    assert_eq!(r.cos_u, 0);
    assert_eq!(r.sin_u, ROT_ONE);
}

#[test]
fn projectile_homes_in_one_frame() {
    let mut w = setup(1, 2);
    spawn_projectile(&mut w, Some(Vec2 { x: 0, y: -100_000 }));
    move_projectile(&mut w, 100);
    assert_eq!(w.projectiles.len(), 1);
    let p = w.projectiles[0];
    // Distance 100,000; the frame covers 110 * 100 = 11,000 of it.
    assert_eq!(p.pos, v3(0, -89_000, 0));
    // The target is straight ahead on +Y: identity rotation.
    assert_eq!(p.facing.cos_u, ROT_ONE);
    assert_eq!(p.facing.sin_u, 0);
}

#[test]
fn projectile_faces_target_to_its_right() {
    let mut w = setup(1, 2);
    spawn_projectile(&mut w, Some(Vec2 { x: -50_000, y: 0 }));
    move_projectile(&mut w, 10);
    let p = w.projectiles[0];
    // The direction to the target is +X: a quarter turn from +Y.
    assert_eq!(p.facing.cos_u, 0);
    assert_eq!(p.facing.sin_u, -ROT_ONE);
    assert_eq!(p.pos, v3(-48_900, 0, 0));
}

#[test]
fn projectile_within_min_distance_is_removed() {
    let mut w = setup(1, 2);
    spawn_projectile(&mut w, Some(Vec2 { x: 0, y: -9_999 }));
    let id: u64 = w.projectiles[0].id;
    assert!(has_entity(&w, id));
    move_projectile(&mut w, 100);
    assert_eq!(w.projectiles.len(), 0);
    assert!(!has_entity(&w, id));
    // The target itself stays.
    assert!(has_entity(&w, w.target_id));
}

#[test]
fn removed_identifier_never_comes_back() {
    let mut w = setup(1, 2);
    spawn_projectile(&mut w, Some(Vec2 { x: 0, y: -5_000 }));
    let removed: u64 = w.projectiles[0].id;
    move_projectile(&mut w, 1);
    assert!(!has_entity(&w, removed));
    spawn_projectile(&mut w, Some(Vec2 { x: 0, y: -5_000 }));
    assert_ne!(w.projectiles[0].id, removed);
    assert!(!has_entity(&w, removed));
}

#[test]
fn projectile_at_exact_min_distance_survives() {
    let mut w = setup(1, 2);
    spawn_projectile(&mut w, Some(Vec2 { x: 0, y: -10_000 }));
    move_projectile(&mut w, 1);
    assert_eq!(w.projectiles.len(), 1);
}

#[test]
fn removal_keeps_the_other_projectiles_in_order() {
    let mut w = setup(1, 2);
    spawn_projectile(&mut w, Some(Vec2 { x: 0, y: -200_000 }));
    spawn_projectile(&mut w, Some(Vec2 { x: 0, y: -5_000 }));
    spawn_projectile(&mut w, Some(Vec2 { x: 150_000, y: 0 }));
    let first: u64 = w.projectiles[0].id;
    let third: u64 = w.projectiles[2].id;
    move_projectile(&mut w, 10);
    assert_eq!(w.projectiles.len(), 2);
    assert_eq!(w.projectiles[0].id, first);
    assert_eq!(w.projectiles[1].id, third);
}

#[test]
fn distance_to_target_never_grows_while_closing() {
    let mut w = setup(1, 2);
    spawn_projectile(&mut w, Some(Vec2 { x: 120_000, y: -90_000 }));
    let mut last: i64 = dist_sq(w.projectiles[0].pos, w.target.pos);
    // 110 * 50 = 5,500 milli-units a frame: never more than the remaining
    // distance while the projectile is alive, so the distance is monotone.
    for _ in 0..200 {
        move_projectile(&mut w, 50);
        if w.projectiles.len() == 0 {
            break;
        }
        let d: i64 = dist_sq(w.projectiles[0].pos, w.target.pos);
        assert!(d <= last);
        last = d;
    }
    // The projectile reaches the target well within the allotted frames.
    assert_eq!(w.projectiles.len(), 0);
}

#[test]
fn direction_without_plane_component_keeps_rotation() {
    let mut w = setup(1, 2);
    spawn_projectile(&mut w, Some(Vec2 { x: 0, y: 0 }));
    // Move the projectile straight below the target in Z only.
    w.projectiles[0].pos = v3(0, 0, -20_000);
    move_projectile(&mut w, 10);
    let p = w.projectiles[0];
    // It advances along Z and keeps its previous (identity) rotation.
    assert_eq!(p.pos, v3(0, 0, -18_900));
    assert_eq!(p.facing.cos_u, ROT_ONE);
    assert_eq!(p.facing.sin_u, 0);
}

#[test]
fn moving_projectiles_leaves_target_alone() {
    let mut w = setup(1, 2);
    spawn_projectile(&mut w, Some(Vec2 { x: 40_000, y: 0 }));
    let before = w.target;
    move_projectile(&mut w, 100);
    assert_eq!(w.target.pos, before.pos);
    assert_eq!(w.target.movable.speed, before.movable.speed);
    assert_eq!(w.target.spin, before.spin);
}
