//! A verified model of a simple chase-and-follow game mechanic: a single
//! wandering target bounces back and forth along one axis inside a maximum
//! radius of its spawn point, while player-spawned projectiles home in on it
//! at constant speed, turn to face it, and are removed once they come within
//! a minimum distance.
//!
//! All geometry is carried in fixed-point integers: positions in
//! milli-units, time in milliseconds, speeds in milli-units per millisecond,
//! and angles in micro-radians. The host runtime (rendering, input, camera
//! transforms) exchanges plain values with this library and lives outside it.

pub mod math;
pub mod projectile;
pub mod target;
pub mod world;
