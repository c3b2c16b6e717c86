//! A small 2D gravity toy: a fixed set of stationary planets attracts a
//! dynamic set of projectiles.  Each frame the simulation accumulates the
//! planets' pull on every projectile, integrates positions, marks
//! projectiles that touch a planet, and prunes the marked ones; a launch
//! resolver turns a pointer click into a fresh projectile aimed away from
//! the reference planet.
//!
//! All world scalars (positions, velocities, sizes, strengths, time deltas)
//! are fixed-point numbers: an `i64` counts millionths of a world unit.
//! Arithmetic saturates at the world bound instead of overflowing, and the
//! degenerate infinite force of a projectile sitting exactly on a planet
//! saturates to the largest representable magnitude.

pub mod fixed;
pub mod world;
pub mod launch;
pub mod laws;
pub mod sim;
