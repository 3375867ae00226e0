//! Projectiles: their kinds, the per-kind stats table, spawning, and the
//! movement system.

use crate::tilemap::PX;
use crate::{DT_MAX, POS_BOUND};
use vstd::prelude::*;

verus! {

/// Visual size hint for the host's renderer: a projectile is drawn as a
/// 16 pixel square.
pub const BULLET_SIZE: i64 = 16 * PX;

/// Kind of a projectile; it selects the stats table entry.
#[derive(Copy, Clone, Debug, PartialEq, Eq, Structural)]
pub enum BulletKind {
    Pea,
}

/// A live projectile: identity, lane (immutable; it must equal a creature's
/// lane for the pair to be eligible for collision), kind, and world position.
/// The position's x strictly increases every tick.
#[derive(Copy, Clone, Debug, PartialEq, Eq, Structural)]
pub struct Bullet {
    pub id: u64,
    pub row: i32,
    pub kind: BulletKind,
    pub x: i64,
    pub y: i64,
}

/// Per-kind projectile parameters: speed in world units per millisecond
/// (numerically pixels per second), damage in health points, and collision
/// radius in world units.
#[derive(Copy, Clone, Debug, PartialEq, Eq, Structural)]
pub struct BulletStats {
    pub speed: i64,
    pub damage: i32,
    pub radius: i64,
}

/// The stats table: a pea flies at 260 pixels per second, deals 1 damage, and
/// has an 8 pixel radius.
pub open spec fn spec_bullet_stats(kind: BulletKind) -> BulletStats {
    match kind {
        BulletKind::Pea => BulletStats { speed: 260, damage: 1, radius: (8 * PX) as i64 },
    }
}

/// Every table entry is positive and bounded: speeds fit under the global
/// speed cap, damage is at least one point, radii stay small.
pub proof fn lemma_bullet_stats_bounds(kind: BulletKind)
    ensures
        0 < spec_bullet_stats(kind).speed <= 260,
        1 <= spec_bullet_stats(kind).damage,
        0 < spec_bullet_stats(kind).radius <= 30_000,
{
}

/// Numeric parameters of the given projectile kind.
pub fn stats(kind: BulletKind) -> (s: BulletStats)
    ensures
        s == spec_bullet_stats(kind),
{
    match kind {
        BulletKind::Pea => BulletStats { speed: 260, damage: 1, radius: 8 * PX },
    }
}

/// Create a projectile with a fresh identity at the given lane and position;
/// returns its identifier.
pub fn spawn_bullet(
    bullets: &mut Vec<Bullet>,
    next_id: &mut u64,
    row: i32,
    x: i64,
    y: i64,
    kind: BulletKind,
) -> (id: u64)
    requires
        *old(next_id) < u64::MAX,
    ensures
        id == *old(next_id),
        *final(next_id) == *old(next_id) + 1,
        final(bullets)@ == old(bullets)@.push(Bullet { id, row, kind, x, y }),
{
    let id = *next_id;
    *next_id = id + 1;
    bullets.push(Bullet { id, row, kind, x, y });
    id
}

/// A projectile after `dt` milliseconds of movement: x increases by its
/// kind's speed times elapsed time; nothing else changes.
pub open spec fn spec_moved_bullet(b: Bullet, dt: u64) -> Bullet {
    Bullet { x: (b.x + spec_bullet_stats(b.kind).speed * dt) as i64, ..b }
}

/// Advance every projectile rightward by its kind's speed times `dt`.
pub fn bullet_move_system(bullets: &mut Vec<Bullet>, dt: u64)
    requires
        dt <= DT_MAX,
        forall|i: int|
            0 <= i < old(bullets)@.len() ==> -POS_BOUND <= #[trigger] old(bullets)@[i].x
                <= POS_BOUND,
    ensures
        final(bullets)@ == old(bullets)@.map_values(|b: Bullet| spec_moved_bullet(b, dt)),
{
    let ghost bs0 = bullets@;
    let ghost f = |b: Bullet| spec_moved_bullet(b, dt);
    let mut moved: Vec<Bullet> = Vec::new();
    let mut i: usize = 0;
    while i < bullets.len()
        invariant
            bullets@ == bs0,
            i <= bs0.len(),
            dt <= DT_MAX,
            f == (|b: Bullet| spec_moved_bullet(b, dt)),
            forall|k: int| 0 <= k < bs0.len() ==> -POS_BOUND <= #[trigger] bs0[k].x <= POS_BOUND,
            moved@ == bs0.take(i as int).map_values(f),
        decreases bs0.len() - i,
    {
        let b = bullets[i];
        let s = stats(b.kind);
        proof {
            lemma_bullet_stats_bounds(b.kind);
            assert(s.speed * (dt as i64) <= 260_000_000 && 0 <= s.speed * (dt as i64))
                by (nonlinear_arith)
                requires
                    0 < s.speed <= 260,
                    0 <= dt <= 1_000_000,
            ;
        }
        let step = s.speed * (dt as i64);
        let nb = Bullet { x: b.x + step, ..b };
        moved.push(nb);
        proof {
            assert(nb == f(b));
            assert(bs0.take(i + 1) =~= bs0.take(i as int).push(b));
            assert(bs0.take(i + 1).map_values(f) =~= bs0.take(i as int).map_values(f).push(f(b)));
        }
        i += 1;
    }
    proof {
        assert(bs0.take(bs0.len() as int) =~= bs0);
        assert(bs0.map_values(f) =~= bs0.map_values(|b: Bullet| spec_moved_bullet(b, dt)));
    }
    *bullets = moved;
}

} // verus!
