//! Core simulation of a small lane-defense game: plants occupy cells of a
//! fixed grid, fire projectiles at creatures advancing from the right, and a
//! loss signal fires when a creature crosses the left boundary.
//!
//! All quantities are integers so that every rule can be verified:
//! - world positions are measured in *world units*, one thousandth of a pixel
//!   (see [`tilemap::PX`]), as `i64`;
//! - time is measured in milliseconds, as `u64`;
//! - speeds are world units per millisecond, which is numerically the same as
//!   pixels per second.
//!
//! A host (window, renderer, input) drives the library: it calls
//! [`game::SimState::tick`] once per frame with the elapsed milliseconds and
//! [`game::SimState::click_place_plant`] for each resolved world-space click,
//! and draws the entities that the state exposes.

use vstd::prelude::*;

pub mod bullet;
pub mod collision;
pub mod game;
pub mod plant;
pub mod tile;
pub mod zombie;
pub mod tilemap;
pub mod timer;

verus! {

/// Largest frame delta, in milliseconds, that the simulation accepts.
/// Bounding the delta keeps every fixed-point computation inside `i64`/`u64`.
pub const DT_MAX: u64 = 1_000_000;

/// Bound on the coordinates of every stored entity between ticks, in world
/// units. Spawn points, cell centers and the cleanup thresholds all lie well
/// inside it, and each full tick re-establishes it.
pub const POS_BOUND: i64 = 1_000_000;

/// Bound on the coordinates of an entity in the middle of a tick, after
/// movement but before cleanup: [`POS_BOUND`] plus the farthest any entity can
/// travel in one frame (the largest speed, 260 units per millisecond, times
/// [`DT_MAX`]). Squared distances of such coordinates still fit in `i64`.
pub const POS_LIMIT: i64 = 261_000_000;

} // verus!
