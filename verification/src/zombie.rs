//! Creatures advancing from the right, and their movement system.

use crate::tilemap::PX;
use crate::{DT_MAX, POS_BOUND};
use vstd::prelude::*;

verus! {

/// Milliseconds between two spawn attempts (one creature every 2 seconds).
pub const ZOMBIE_SPAWN_EVERY: u64 = 2_000;

/// Horizontal creature speed, in world units per millisecond (60 pixels per
/// second). A single global constant, not per-kind.
pub const ZOMBIE_SPEED: i64 = 60;

/// Starting health of a creature.
pub const ZOMBIE_HP: i32 = 5;

/// Collision radius of a creature, in world units (22 pixels).
pub const ZOMBIE_RADIUS: i64 = 22 * PX;

/// World-space x where creatures appear, just right of the play area
/// (`COLS * TILE / 2 + 120` pixels).
pub const ZOMBIE_SPAWN_X: i64 = 480 * PX;

/// Visual size hints for the host's renderer: a creature is drawn
/// `TILE * 0.6` = 48 pixels wide and `TILE * 0.75` = 60 pixels tall.
pub const ZOMBIE_SIZE_X: i64 = 48 * PX;

/// See [`ZOMBIE_SIZE_X`].
pub const ZOMBIE_SIZE_Y: i64 = 60 * PX;

/// A live creature: identity, lane (immutable), remaining health, and world
/// position. The position's x strictly decreases every tick.
#[derive(Copy, Clone, Debug, PartialEq, Eq, Structural)]
pub struct Zombie {
    pub id: u64,
    pub row: i32,
    pub hp: i32,
    pub x: i64,
    pub y: i64,
}

/// A creature after `dt` milliseconds of movement: x decreases by speed times
/// elapsed time; nothing else changes.
pub open spec fn spec_moved_zombie(z: Zombie, dt: u64) -> Zombie {
    Zombie { x: (z.x - ZOMBIE_SPEED * dt) as i64, ..z }
}

/// Advance every creature leftward by `ZOMBIE_SPEED * dt` world units.
pub fn zombie_move(zombies: &mut Vec<Zombie>, dt: u64)
    requires
        dt <= DT_MAX,
        forall|i: int|
            0 <= i < old(zombies)@.len() ==> -POS_BOUND <= #[trigger] old(zombies)@[i].x
                <= POS_BOUND,
    ensures
        final(zombies)@ == old(zombies)@.map_values(|z: Zombie| spec_moved_zombie(z, dt)),
{
    let ghost zs0 = zombies@;
    let ghost f = |z: Zombie| spec_moved_zombie(z, dt);
    let step = ZOMBIE_SPEED * (dt as i64);
    let mut moved: Vec<Zombie> = Vec::new();
    let mut i: usize = 0;
    while i < zombies.len()
        invariant
            zombies@ == zs0,
            i <= zs0.len(),
            dt <= DT_MAX,
            step == ZOMBIE_SPEED * dt,
            f == (|z: Zombie| spec_moved_zombie(z, dt)),
            0 <= step <= 60_000_000,
            forall|k: int| 0 <= k < zs0.len() ==> -POS_BOUND <= #[trigger] zs0[k].x <= POS_BOUND,
            moved@ == zs0.take(i as int).map_values(f),
        decreases zs0.len() - i,
    {
        let z = zombies[i];
        let nz = Zombie { x: z.x - step, ..z };
        moved.push(nz);
        proof {
            assert(nz == f(z));
            assert(zs0.take(i + 1) =~= zs0.take(i as int).push(z));
            assert(zs0.take(i + 1).map_values(f) =~= zs0.take(i as int).map_values(f).push(f(z)));
        }
        i += 1;
    }
    proof {
        assert(zs0.take(zs0.len() as int) =~= zs0);
        assert(zs0.map_values(f) =~= zs0.map_values(|z: Zombie| spec_moved_zombie(z, dt)));
    }
    *zombies = moved;
}

} // verus!
