//! Plants: kinds, the per-kind stats table, placement records, and the firing
//! system that emits projectiles on a repeating timer.

use crate::bullet::{spawn_bullet, Bullet, BulletKind};
use crate::tilemap::{cell_center_world, spec_cell_center, COLS, PX, ROWS};
use crate::timer::{Timer, PERIOD_MAX};
use crate::zombie::Zombie;
use crate::{DT_MAX, POS_BOUND};
use vstd::prelude::*;

verus! {

/// Horizontal muzzle offset of a fired projectile from the plant's center, in
/// world units (`TILE * 0.35` = 28 pixels).
pub const FIRE_OFFSET_X: i64 = 28 * PX;

/// Visual size hint for the host's renderer: a plant is drawn as a square of
/// `TILE * 0.55` = 44 pixels.
pub const PLANT_SIZE: i64 = 44 * PX;

/// A creature with x above this threshold still threatens its lane: it is
/// approaching or on screen, not already past the kill zone
/// (`-COLS * TILE / 2 - 100` pixels).
pub const THREAT_X: i64 = -460 * PX;

/// Kind of a plant. Only the peashooter fires; the other kinds are inert
/// placeholders.
#[derive(Copy, Clone, Debug, PartialEq, Eq, Structural)]
pub enum PlantKind {
    Peashooter,
    Sunflower,
    Wallnut,
}

/// A placed plant: identity, its cell, kind, world position (the center of
/// its cell), and its repeating fire timer. Row and column never change after
/// placement; plants are never removed.
#[derive(Copy, Clone, Debug, PartialEq, Eq, Structural)]
pub struct Plant {
    pub id: u64,
    pub row: i32,
    pub col: i32,
    pub kind: PlantKind,
    pub x: i64,
    pub y: i64,
    pub fire: Timer,
}

/// Per-kind plant parameters: fire interval in milliseconds, and the damage
/// and speed handed to the projectiles it fires (speed in world units per
/// millisecond).
#[derive(Copy, Clone, Debug, PartialEq, Eq, Structural)]
pub struct PlantStats {
    pub fire_every: u64,
    pub bullet_damage: i32,
    pub bullet_speed: i64,
}

/// The stats table: a peashooter fires every 0.8 seconds; sunflower and
/// wallnut are inert (an interval so long it never matters, and they skip the
/// firing system entirely).
pub open spec fn spec_plant_stats(kind: PlantKind) -> PlantStats {
    match kind {
        PlantKind::Peashooter => PlantStats { fire_every: 800, bullet_damage: 1, bullet_speed: 260 },
        PlantKind::Sunflower => PlantStats { fire_every: 99_999_000, bullet_damage: 0, bullet_speed: 0 },
        PlantKind::Wallnut => PlantStats { fire_every: 99_999_000, bullet_damage: 0, bullet_speed: 0 },
    }
}

/// Every fire interval in the table is positive and below the timer bound.
pub proof fn lemma_plant_stats_bounds(kind: PlantKind)
    ensures
        0 < spec_plant_stats(kind).fire_every <= PERIOD_MAX,
{
}

/// Numeric parameters of the given plant kind.
pub fn stats(kind: PlantKind) -> (s: PlantStats)
    ensures
        s == spec_plant_stats(kind),
{
    match kind {
        PlantKind::Peashooter => PlantStats { fire_every: 800, bullet_damage: 1, bullet_speed: 260 },
        PlantKind::Sunflower => PlantStats { fire_every: 99_999_000, bullet_damage: 0, bullet_speed: 0 },
        PlantKind::Wallnut => PlantStats { fire_every: 99_999_000, bullet_damage: 0, bullet_speed: 0 },
    }
}

impl Plant {
    /// A valid plant record: its cell lies on the grid, it stands at the
    /// center of that cell, and its fire timer runs at its kind's interval.
    pub open spec fn wf(self) -> bool {
        &&& 0 <= self.row < ROWS
        &&& 0 <= self.col < COLS
        &&& self.x == spec_cell_center(self.row as int, self.col as int).0
        &&& self.y == spec_cell_center(self.row as int, self.col as int).1
        &&& self.fire.wf()
        &&& self.fire.period_ms == spec_plant_stats(self.kind).fire_every
    }
}

/// A plant's world position lies strictly inside the stored-position bound.
pub proof fn lemma_plant_pos_bounds(p: Plant)
    requires
        p.wf(),
    ensures
        -POS_BOUND <= p.x <= POS_BOUND,
        -POS_BOUND <= p.y <= POS_BOUND,
{
}

/// The plant created by a placement: a fresh identity, the center of its
/// cell, and a fresh fire timer at its kind's interval.
pub open spec fn spec_new_plant(id: u64, row: i32, col: i32, kind: PlantKind) -> Plant {
    Plant {
        id,
        row,
        col,
        kind,
        x: spec_cell_center(row as int, col as int).0 as i64,
        y: spec_cell_center(row as int, col as int).1 as i64,
        fire: Timer { elapsed_ms: 0, period_ms: spec_plant_stats(kind).fire_every },
    }
}

/// Append a new plant of the given kind at the center of cell `(row, col)`,
/// with a fresh identity; returns its identifier. Occupancy is the caller's
/// concern: this only creates the record.
pub fn spawn_plant(
    plants: &mut Vec<Plant>,
    next_id: &mut u64,
    row: i32,
    col: i32,
    kind: PlantKind,
) -> (id: u64)
    requires
        *old(next_id) < u64::MAX,
        0 <= row < ROWS,
        0 <= col < COLS,
    ensures
        id == *old(next_id),
        *final(next_id) == *old(next_id) + 1,
        final(plants)@ == old(plants)@.push(spec_new_plant(id, row, col, kind)),
        spec_new_plant(id, row, col, kind).wf(),
{
    proof {
        lemma_plant_stats_bounds(kind);
    }
    let (x, y) = cell_center_world(row, col);
    let s = stats(kind);
    let id = *next_id;
    *next_id = id + 1;
    plants.push(Plant { id, row, col, kind, x, y, fire: Timer::new(s.fire_every) });
    id
}

/// Whether a creature threatens the given lane: it is in that lane and has
/// not yet passed the kill zone.
pub open spec fn spec_is_threat(z: Zombie, row: i32) -> bool {
    z.row == row && z.x > THREAT_X
}

/// Whether any creature threatens the given lane.
pub open spec fn spec_row_threat(zombies: Seq<Zombie>, row: i32) -> bool {
    exists|i: int| 0 <= i < zombies.len() && spec_is_threat(zombies[i], row)
}

/// Whether a plant fires during a frame of `dt` milliseconds: it is a
/// peashooter, its fire timer just completed a period, and its lane is
/// threatened.
pub open spec fn spec_fires(p: Plant, zombies: Seq<Zombie>, dt: u64) -> bool {
    p.kind is Peashooter && p.fire.spec_finishes(dt) && spec_row_threat(zombies, p.row)
}

/// A plant after the firing system's frame: a peashooter's fire timer has
/// advanced by `dt` (whether or not it fired — time is consumed even without
/// a threat); inert kinds are untouched.
pub open spec fn spec_plant_ticked(p: Plant, dt: u64) -> Plant {
    if p.kind is Peashooter {
        Plant { fire: p.fire.spec_tick(dt), ..p }
    } else {
        p
    }
}

/// Ticking the firing timer keeps a plant valid.
pub proof fn lemma_plant_ticked_wf(p: Plant, dt: u64)
    requires
        p.wf(),
        dt <= DT_MAX,
    ensures
        spec_plant_ticked(p, dt).wf(),
{
}

/// The projectile emitted by a firing plant: the plant's lane, a pea, just
/// right of the plant's muzzle.
pub open spec fn spec_fired_bullet(p: Plant, id: u64) -> Bullet {
    Bullet {
        id,
        row: p.row,
        kind: BulletKind::Pea,
        x: (p.x + FIRE_OFFSET_X) as i64,
        y: p.y,
    }
}

/// The projectiles emitted in one frame, in plant order, with consecutive
/// fresh identities starting at `next_id`.
pub open spec fn spec_fired_bullets(
    plants: Seq<Plant>,
    zombies: Seq<Zombie>,
    dt: u64,
    next_id: int,
) -> Seq<Bullet>
    decreases plants.len(),
{
    if plants.len() == 0 {
        Seq::empty()
    } else if spec_fires(plants[0], zombies, dt) {
        seq![spec_fired_bullet(plants[0], next_id as u64)] + spec_fired_bullets(
            plants.drop_first(),
            zombies,
            dt,
            next_id + 1,
        )
    } else {
        spec_fired_bullets(plants.drop_first(), zombies, dt, next_id)
    }
}

/// At most one projectile per plant per frame, every emitted projectile comes
/// from a valid plant (so it starts near the grid, inside its lane), and the
/// fresh identities stay in `[next_id, next_id + count)`.
pub proof fn lemma_fired_bullets_props(
    plants: Seq<Plant>,
    zombies: Seq<Zombie>,
    dt: u64,
    next_id: int,
)
    requires
        forall|i: int| 0 <= i < plants.len() ==> (#[trigger] plants[i]).wf(),
        0 <= next_id,
        next_id + plants.len() <= u64::MAX,
    ensures
        spec_fired_bullets(plants, zombies, dt, next_id).len() <= plants.len(),
        forall|k: int|
            0 <= k < spec_fired_bullets(plants, zombies, dt, next_id).len() ==> {
                let b = #[trigger] spec_fired_bullets(plants, zombies, dt, next_id)[k];
                &&& 0 <= b.row < ROWS
                &&& -POS_BOUND <= b.x <= POS_BOUND
                &&& -POS_BOUND <= b.y <= POS_BOUND
                &&& b.kind is Pea
                &&& next_id <= b.id < next_id + spec_fired_bullets(
                    plants,
                    zombies,
                    dt,
                    next_id,
                ).len()
            },
    decreases plants.len(),
{
    if plants.len() > 0 {
        let tail = plants.drop_first();
        let fired = spec_fired_bullets(plants, zombies, dt, next_id);
        assert forall|i: int| 0 <= i < tail.len() implies (#[trigger] tail[i]).wf() by {
            assert(tail[i] == plants[i + 1]);
        }
        if spec_fires(plants[0], zombies, dt) {
            lemma_fired_bullets_props(tail, zombies, dt, next_id + 1);
            let head = spec_fired_bullet(plants[0], next_id as u64);
            let ftail = spec_fired_bullets(tail, zombies, dt, next_id + 1);
            assert(fired == seq![head] + ftail);
            assert(plants[0].wf());
            assert(-POS_BOUND <= head.x <= POS_BOUND);
            assert forall|k: int| 0 <= k < fired.len() implies {
                let b = #[trigger] fired[k];
                &&& 0 <= b.row < ROWS
                &&& -POS_BOUND <= b.x <= POS_BOUND
                &&& -POS_BOUND <= b.y <= POS_BOUND
                &&& b.kind is Pea
                &&& next_id <= b.id < next_id + fired.len()
            } by {
                if k == 0 {
                    assert(fired[k] == head);
                } else {
                    assert(fired[k] == ftail[k - 1]);
                }
            }
        } else {
            lemma_fired_bullets_props(tail, zombies, dt, next_id);
            assert(fired == spec_fired_bullets(tail, zombies, dt, next_id));
        }
    }
}

/// The firing system for one frame of `dt` milliseconds.
///
/// A per-lane threat table is computed once from the creatures; then every
/// peashooter advances its fire timer, and each one whose timer just
/// completed a period and whose lane is threatened emits one pea. The new
/// projectiles carry consecutive fresh identities in plant order.
pub fn plant_fire_system(
    plants: &mut Vec<Plant>,
    zombies: &Vec<Zombie>,
    bullets: &mut Vec<Bullet>,
    next_id: &mut u64,
    dt: u64,
)
    requires
        dt <= DT_MAX,
        forall|i: int| 0 <= i < old(plants)@.len() ==> (#[trigger] old(plants)@[i]).wf(),
        *old(next_id) + old(plants)@.len() <= u64::MAX,
    ensures
        final(plants)@ == old(plants)@.map_values(|p: Plant| spec_plant_ticked(p, dt)),
        final(bullets)@ == old(bullets)@ + spec_fired_bullets(
            old(plants)@,
            zombies@,
            dt,
            *old(next_id) as int,
        ),
        *final(next_id) == *old(next_id) + spec_fired_bullets(
            old(plants)@,
            zombies@,
            dt,
            *old(next_id) as int,
        ).len(),
{
    let ghost ps0 = plants@;
    let ghost zs = zombies@;
    let ghost bs0 = bullets@;
    let ghost nid0 = *next_id as int;
    let ghost tickf = |p: Plant| spec_plant_ticked(p, dt);

    // Per-lane threat table.
    let mut threat: Vec<bool> = Vec::new();
    threat.push(false);
    threat.push(false);
    threat.push(false);
    threat.push(false);
    threat.push(false);
    let mut i: usize = 0;
    while i < zombies.len()
        invariant
            zombies@ == zs,
            i <= zs.len(),
            threat@.len() == 5,
            forall|row: i32|
                0 <= row < 5 ==> (threat@[row as int] <==> exists|j: int|
                    0 <= j < i && spec_is_threat(#[trigger] zs[j], row)),
        decreases zs.len() - i,
    {
        let z = zombies[i];
        if z.x > THREAT_X && 0 <= z.row && z.row < ROWS {
            let idx = z.row as usize;
            threat[idx] = true;
            proof {
                assert forall|row: i32| 0 <= row < 5 implies (threat@[row as int] <==> exists|j: int|
                    0 <= j < i + 1 && spec_is_threat(#[trigger] zs[j], row)) by {
                    if row == z.row {
                        assert(spec_is_threat(zs[i as int], row));
                    } else {
                        if threat@[row as int] {
                            let j = choose|j: int| 0 <= j < i && spec_is_threat(#[trigger] zs[j], row);
                            assert(0 <= j < i + 1 && spec_is_threat(zs[j], row));
                        }
                        if exists|j: int| 0 <= j < i + 1 && spec_is_threat(#[trigger] zs[j], row) {
                            let j = choose|j: int|
                                0 <= j < i + 1 && spec_is_threat(#[trigger] zs[j], row);
                            assert(j < i);
                        }
                    }
                }
            }
        } else {
            proof {
                assert forall|row: i32| 0 <= row < 5 implies (threat@[row as int] <==> exists|j: int|
                    0 <= j < i + 1 && spec_is_threat(#[trigger] zs[j], row)) by {
                    if threat@[row as int] {
                        let j = choose|j: int| 0 <= j < i && spec_is_threat(#[trigger] zs[j], row);
                        assert(0 <= j < i + 1 && spec_is_threat(zs[j], row));
                    }
                    if exists|j: int| 0 <= j < i + 1 && spec_is_threat(#[trigger] zs[j], row) {
                        let j = choose|j: int| 0 <= j < i + 1 && spec_is_threat(#[trigger] zs[j], row);
                        assert(j < i);
                    }
                }
            }
        }
        i += 1;
    }
    proof {
        assert(forall|row: i32|
            0 <= row < 5 ==> (threat@[row as int] <==> spec_row_threat(zs, row)));
    }

    // Tick every peashooter; fire where the period completed and the lane is
    // threatened.
    let mut ticked: Vec<Plant> = Vec::new();
    proof {
        assert(ps0.skip(0) =~= ps0);
        assert(bullets@.skip(bs0.len() as int) =~= Seq::<Bullet>::empty());
        assert(Seq::<Bullet>::empty() + spec_fired_bullets(ps0, zs, dt, nid0) =~= spec_fired_bullets(
            ps0,
            zs,
            dt,
            nid0,
        ));
        assert(bullets@.take(bs0.len() as int) =~= bs0);
        assert(ps0.take(0).map_values(tickf) =~= Seq::<Plant>::empty());
    }
    let mut i: usize = 0;
    while i < plants.len()
        invariant
            plants@ == ps0,
            zombies@ == zs,
            i <= ps0.len(),
            dt <= DT_MAX,
            tickf == (|p: Plant| spec_plant_ticked(p, dt)),
            forall|k: int| 0 <= k < ps0.len() ==> (#[trigger] ps0[k]).wf(),
            threat@.len() == 5,
            forall|row: i32| 0 <= row < 5 ==> (threat@[row as int] <==> spec_row_threat(zs, row)),
            ticked@ == ps0.take(i as int).map_values(tickf),
            nid0 + ps0.len() <= u64::MAX,
            nid0 <= *next_id as int <= nid0 + i,
            bullets@.len() - bs0.len() == *next_id as int - nid0,
            bullets@.take(bs0.len() as int) == bs0,
            spec_fired_bullets(ps0, zs, dt, nid0) == bullets@.skip(bs0.len() as int)
                + spec_fired_bullets(ps0.skip(i as int), zs, dt, *next_id as int),
        decreases ps0.len() - i,
    {
        let ghost fired_pre = bullets@.skip(bs0.len() as int);
        let ghost nid_pre = *next_id as int;
        let p = plants[i];
        proof {
            assert(ps0[i as int].wf());
            assert(ps0.skip(i as int)[0] == ps0[i as int]);
            assert(ps0.skip(i as int).drop_first() =~= ps0.skip(i + 1));
        }
        if matches!(p.kind, PlantKind::Peashooter) {
            let mut f = p.fire;
            let finished = f.tick(dt);
            let np = Plant { fire: f, ..p };
            ticked.push(np);
            proof {
                assert(np == tickf(p));
            }
            let row_idx = p.row as usize;
            if finished && threat[row_idx] {
                proof {
                    lemma_plant_pos_bounds(p);
                    assert(spec_fires(p, zs, dt));
                }
                let bx = p.x + FIRE_OFFSET_X;
                spawn_bullet(bullets, next_id, p.row, bx, p.y, BulletKind::Pea);
                proof {
                    assert(bullets@.last() == spec_fired_bullet(p, nid_pre as u64));
                    assert(bullets@.skip(bs0.len() as int) =~= fired_pre.push(
                        spec_fired_bullet(p, nid_pre as u64),
                    ));
                    assert(spec_fired_bullets(ps0.skip(i as int), zs, dt, nid_pre)
                        == seq![spec_fired_bullet(p, nid_pre as u64)] + spec_fired_bullets(
                        ps0.skip(i + 1),
                        zs,
                        dt,
                        nid_pre + 1,
                    ));
                    assert(fired_pre + (seq![spec_fired_bullet(p, nid_pre as u64)]
                        + spec_fired_bullets(ps0.skip(i + 1), zs, dt, nid_pre + 1)) =~= (fired_pre
                        + seq![spec_fired_bullet(p, nid_pre as u64)]) + spec_fired_bullets(
                        ps0.skip(i + 1),
                        zs,
                        dt,
                        nid_pre + 1,
                    ));
                    assert(fired_pre + seq![spec_fired_bullet(p, nid_pre as u64)] =~= fired_pre.push(
                        spec_fired_bullet(p, nid_pre as u64),
                    ));
                    assert(bullets@.take(bs0.len() as int) =~= bs0);
                }
            } else {
                proof {
                    assert(!spec_fires(p, zs, dt));
                    assert(spec_fired_bullets(ps0.skip(i as int), zs, dt, nid_pre)
                        == spec_fired_bullets(ps0.skip(i + 1), zs, dt, nid_pre));
                }
            }
        } else {
            ticked.push(p);
            proof {
                assert(p == tickf(p));
                assert(!spec_fires(p, zs, dt));
                assert(spec_fired_bullets(ps0.skip(i as int), zs, dt, nid_pre)
                    == spec_fired_bullets(ps0.skip(i + 1), zs, dt, nid_pre));
            }
        }
        proof {
            assert(ps0.take(i + 1) =~= ps0.take(i as int).push(p));
            assert(ps0.take(i + 1).map_values(tickf) =~= ps0.take(i as int).map_values(
                tickf,
            ).push(tickf(p)));
        }
        i += 1;
    }
    proof {
        assert(ps0.skip(ps0.len() as int) =~= Seq::<Plant>::empty());
        assert(spec_fired_bullets(Seq::<Plant>::empty(), zs, dt, *next_id as int)
            =~= Seq::<Bullet>::empty());
        assert(spec_fired_bullets(ps0, zs, dt, nid0) =~= bullets@.skip(bs0.len() as int));
        assert(bullets@ =~= bullets@.take(bs0.len() as int) + bullets@.skip(bs0.len() as int));
        assert(ps0.take(ps0.len() as int) =~= ps0);
        assert(ps0.map_values(tickf) =~= ps0.map_values(|p: Plant| spec_plant_ticked(p, dt)));
    }
    *plants = ticked;
}

} // verus!
