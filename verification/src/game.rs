//! The simulation state and its per-frame loop: placement on clicks, timed
//! creature spawning, movement, firing, collision resolution and
//! out-of-bounds cleanup with the loss signal.

use crate::bullet::{bullet_move_system, spec_moved_bullet, Bullet};
use crate::collision::{
    bullet_hit_zombie, lemma_resolve_bullets_from, lemma_resolve_zombies_from, spec_from_some,
    spec_resolve, spec_weakened,
};
use crate::plant::{
    lemma_fired_bullets_props, lemma_plant_ticked_wf, plant_fire_system, spawn_plant,
    spec_fired_bullets, spec_new_plant, spec_plant_ticked, Plant, PlantKind,
};
use crate::tile::{Occupant, Terrain};
use crate::tilemap::{cell_center_world, spec_cell_center, spec_world_to_cell, world_to_cell, COLS, PX, ROWS};
use crate::timer::Timer;
use crate::zombie::{
    zombie_move, spec_moved_zombie, Zombie, ZOMBIE_HP, ZOMBIE_SPAWN_EVERY, ZOMBIE_SPAWN_X,
};
use crate::{DT_MAX, POS_BOUND, POS_LIMIT};
use vstd::prelude::*;

verus! {

/// Projectiles whose x exceeds this threshold have left the play area to the
/// right and are removed (`COLS * TILE / 2 + 260` pixels).
pub const BULLET_OUT_X: i64 = 620 * PX;

/// Creatures whose x falls below this boundary have reached the house: the
/// loss signal fires once for each and it is removed
/// (`-COLS * TILE / 2 - 120` pixels).
pub const LOSS_X: i64 = -480 * PX;

/// Number of cells in the grid (`ROWS * COLS`).
pub const GRID_CELLS: usize = 45;

/// Index of cell `(row, col)` in the row-major tile arrays.
pub open spec fn spec_cell_index(row: int, col: int) -> int {
    row * (COLS as int) + col
}

/// The mathematical model of the whole simulation state.
#[verifier::ext_equal]
pub ghost struct GameView {
    pub plants: Seq<Plant>,
    pub zombies: Seq<Zombie>,
    pub bullets: Seq<Bullet>,
    pub terrain: Seq<Terrain>,
    pub occupants: Seq<Occupant>,
    pub spawn_timer: Timer,
    pub elapsed_ms: u64,
    pub next_id: u64,
}

/// The simulation state: the entity store (which exclusively owns every
/// plant, creature and projectile record), the per-cell terrain and occupancy
/// back-references, the spawn timer, total elapsed simulation time, and the
/// identity counter.
pub struct SimState {
    pub plants: Vec<Plant>,
    pub zombies: Vec<Zombie>,
    pub bullets: Vec<Bullet>,
    pub terrain: Vec<Terrain>,
    pub occupants: Vec<Occupant>,
    pub spawn_timer: Timer,
    pub elapsed_ms: u64,
    pub next_id: u64,
}

impl View for SimState {
    type V = GameView;

    open spec fn view(&self) -> GameView {
        GameView {
            plants: self.plants@,
            zombies: self.zombies@,
            bullets: self.bullets@,
            terrain: self.terrain@,
            occupants: self.occupants@,
            spawn_timer: self.spawn_timer,
            elapsed_ms: self.elapsed_ms,
            next_id: self.next_id,
        }
    }
}

impl GameView {
    /// A valid stored creature: a fresh-bounded identity, a real lane,
    /// positive health, and a position inside the stored-position bound.
    pub open spec fn zombie_ok(self, z: Zombie) -> bool {
        &&& z.id < self.next_id
        &&& 0 <= z.row < ROWS
        &&& z.hp >= 1
        &&& -POS_BOUND <= z.x <= POS_BOUND
        &&& -POS_BOUND <= z.y <= POS_BOUND
    }

    /// A valid stored projectile.
    pub open spec fn bullet_ok(self, b: Bullet) -> bool {
        &&& b.id < self.next_id
        &&& 0 <= b.row < ROWS
        &&& -POS_BOUND <= b.x <= POS_BOUND
        &&& -POS_BOUND <= b.y <= POS_BOUND
    }

    /// The occupancy invariant: every plant's cell carries its identity as
    /// the occupant, no two plants share a cell, and every occupied cell
    /// holds a plant — a cell is occupied exactly when a plant stands there.
    pub open spec fn occupancy_ok(self) -> bool {
        &&& forall|i: int|
            0 <= i < self.plants.len() ==> self.occupants[spec_cell_index(
                (#[trigger] self.plants[i]).row as int,
                self.plants[i].col as int,
            )].0 == Some(self.plants[i].id)
        &&& forall|i: int, j: int|
            0 <= i < j < self.plants.len() ==> spec_cell_index(
                (#[trigger] self.plants[i]).row as int,
                self.plants[i].col as int,
            ) != spec_cell_index((#[trigger] self.plants[j]).row as int, self.plants[j].col as int)
        &&& forall|idx: int|
            0 <= idx < GRID_CELLS && (#[trigger] self.occupants[idx]).0 is Some ==> exists|i: int|
                0 <= i < self.plants.len() && spec_cell_index(
                    (#[trigger] self.plants[i]).row as int,
                    self.plants[i].col as int,
                ) == idx
    }

    /// The state invariant, re-established by every public operation.
    pub open spec fn wf(self) -> bool {
        &&& self.terrain.len() == GRID_CELLS
        &&& self.occupants.len() == GRID_CELLS
        &&& self.spawn_timer.wf()
        &&& self.spawn_timer.period_ms == ZOMBIE_SPAWN_EVERY
        &&& forall|i: int|
            0 <= i < self.plants.len() ==> (#[trigger] self.plants[i]).wf() && self.plants[i].id
                < self.next_id
        &&& forall|i: int| 0 <= i < self.zombies.len() ==> self.zombie_ok(#[trigger] self.zombies[i])
        &&& forall|i: int| 0 <= i < self.bullets.len() ==> self.bullet_ok(#[trigger] self.bullets[i])
        &&& self.occupancy_ok()
    }
}

/// Placement at a known valid cell: rejected silently when the cell's terrain
/// is not grass or the cell is already occupied; otherwise a new plant of the
/// given kind appears at the cell's center, with a fresh identity recorded in
/// the occupancy back-reference.
pub open spec fn spec_place_at_cell(v: GameView, row: i32, col: i32, kind: PlantKind) -> GameView {
    let idx = spec_cell_index(row as int, col as int);
    if !(v.terrain[idx] is Grass) {
        v
    } else if v.occupants[idx].0 is Some {
        v
    } else {
        GameView {
            plants: v.plants.push(spec_new_plant(v.next_id, row, col, kind)),
            occupants: v.occupants.update(idx, Occupant(Some(v.next_id))),
            next_id: (v.next_id + 1) as u64,
            ..v
        }
    }
}

/// A resolved world-space click: a no-op outside the grid, otherwise a
/// placement of the default kind at the clicked cell.
pub open spec fn spec_click(v: GameView, x: i64, y: i64) -> GameView {
    match spec_world_to_cell(x as int, y as int) {
        None => v,
        Some((row, col)) => spec_place_at_cell(v, row, col, PlantKind::Peashooter),
    }
}

/// The pseudo-random lane choice: the elapsed simulation time in
/// milliseconds, modulo the number of rows. Deterministic for a fixed tick
/// sequence; not a uniform random source.
pub open spec fn spec_spawn_row(elapsed_ms: u64) -> i32 {
    (elapsed_ms as int % (ROWS as int)) as i32
}

/// A fresh creature: full health, at the spawn x, vertically centered on its
/// lane.
pub open spec fn spec_new_zombie(id: u64, row: i32) -> Zombie {
    Zombie {
        id,
        row,
        hp: ZOMBIE_HP,
        x: ZOMBIE_SPAWN_X,
        y: spec_cell_center(row as int, 0).1 as i64,
    }
}

/// The spawn controller's frame: elapsed time advances, the spawn timer
/// ticks, and when it completes a period one creature appears on the
/// pseudo-randomly chosen lane.
pub open spec fn spec_spawn(v: GameView, dt: u64) -> GameView {
    let elapsed = (v.elapsed_ms + dt) as u64;
    let timer = v.spawn_timer.spec_tick(dt);
    if v.spawn_timer.spec_finishes(dt) {
        GameView {
            zombies: v.zombies.push(spec_new_zombie(v.next_id, spec_spawn_row(elapsed))),
            next_id: (v.next_id + 1) as u64,
            elapsed_ms: elapsed,
            spawn_timer: timer,
            ..v
        }
    } else {
        GameView { elapsed_ms: elapsed, spawn_timer: timer, ..v }
    }
}

/// The movement system's frame: every creature advances left, every
/// projectile advances right.
pub open spec fn spec_move(v: GameView, dt: u64) -> GameView {
    GameView {
        zombies: v.zombies.map_values(|z: Zombie| spec_moved_zombie(z, dt)),
        bullets: v.bullets.map_values(|b: Bullet| spec_moved_bullet(b, dt)),
        ..v
    }
}

/// The firing system's frame: peashooter timers advance, and each completed
/// period on a threatened lane emits one pea with a fresh identity.
pub open spec fn spec_fire(v: GameView, dt: u64) -> GameView {
    let fired = spec_fired_bullets(v.plants, v.zombies, dt, v.next_id as int);
    GameView {
        plants: v.plants.map_values(|p: Plant| spec_plant_ticked(p, dt)),
        bullets: v.bullets + fired,
        next_id: (v.next_id + fired.len()) as u64,
        ..v
    }
}

/// The collision system's frame.
pub open spec fn spec_collide(v: GameView) -> GameView {
    GameView {
        bullets: spec_resolve(v.bullets, v.zombies).0,
        zombies: spec_resolve(v.bullets, v.zombies).1,
        ..v
    }
}

/// The cleanup system's frame: projectiles past the right threshold and
/// creatures past the house boundary are removed.
pub open spec fn spec_cleanup(v: GameView) -> GameView {
    GameView {
        bullets: v.bullets.filter(|b: Bullet| b.x <= BULLET_OUT_X),
        zombies: v.zombies.filter(|z: Zombie| z.x >= LOSS_X),
        ..v
    }
}

/// The loss signal of the cleanup system's frame: the identity of every
/// creature that breached the house boundary, each exactly once, in store
/// order.
pub open spec fn spec_losses(zombies: Seq<Zombie>) -> Seq<u64> {
    zombies.filter(|z: Zombie| z.x < LOSS_X).map_values(|z: Zombie| z.id)
}

/// The state just before collision resolution: spawning, then movement, then
/// firing.
pub open spec fn spec_pre_collision(v: GameView, dt: u64) -> GameView {
    spec_fire(spec_move(spec_spawn(v, dt), dt), dt)
}

/// One whole frame: spawning, then movement, firing, collision and cleanup,
/// in that order.
pub open spec fn spec_tick(v: GameView, dt: u64) -> GameView {
    spec_cleanup(spec_collide(spec_pre_collision(v, dt)))
}

/// The loss signal of one whole frame.
pub open spec fn spec_tick_losses(v: GameView, dt: u64) -> Seq<u64> {
    spec_losses(spec_collide(spec_pre_collision(v, dt)).zombies)
}

impl SimState {
    /// The initial state: an empty lawn of grass tiles, no entities, the
    /// spawn timer at rest, and identity and clock at zero.
    pub fn new() -> (s: SimState)
        ensures
            s@.plants =~= Seq::<Plant>::empty(),
            s@.zombies =~= Seq::<Zombie>::empty(),
            s@.bullets =~= Seq::<Bullet>::empty(),
            s@.terrain.len() == GRID_CELLS,
            forall|i: int| 0 <= i < GRID_CELLS ==> (#[trigger] s@.terrain[i]) is Grass,
            forall|i: int| 0 <= i < GRID_CELLS ==> (#[trigger] s@.occupants[i]).0 is None,
            s@.spawn_timer == (Timer { elapsed_ms: 0, period_ms: ZOMBIE_SPAWN_EVERY }),
            s@.elapsed_ms == 0,
            s@.next_id == 0,
            s@.wf(),
    {
        let mut terrain: Vec<Terrain> = Vec::new();
        let mut occupants: Vec<Occupant> = Vec::new();
        let mut i: usize = 0;
        while i < GRID_CELLS
            invariant
                i <= GRID_CELLS,
                terrain@.len() == i,
                occupants@.len() == i,
                forall|k: int| 0 <= k < i ==> (#[trigger] terrain@[k]) is Grass,
                forall|k: int| 0 <= k < i ==> (#[trigger] occupants@[k]).0 is None,
            decreases GRID_CELLS - i,
        {
            terrain.push(Terrain::Grass);
            occupants.push(Occupant(None));
            i += 1;
        }
        SimState {
            plants: Vec::new(),
            zombies: Vec::new(),
            bullets: Vec::new(),
            terrain,
            occupants,
            spawn_timer: Timer::new(ZOMBIE_SPAWN_EVERY),
            elapsed_ms: 0,
            next_id: 0,
        }
    }

    /// Place a plant of the given kind at cell `(row, col)`. Silently a
    /// no-op when the cell's terrain is not grass or the cell is occupied.
    pub fn place_at_cell(&mut self, row: i32, col: i32, kind: PlantKind)
        requires
            old(self)@.wf(),
            old(self)@.next_id < u64::MAX,
            0 <= row < ROWS,
            0 <= col < COLS,
        ensures
            final(self)@ == spec_place_at_cell(old(self)@, row, col, kind),
            final(self)@.wf(),
    {
        let ghost v0 = self@;
        let idx = (row as usize) * 9 + (col as usize);
        proof {
            assert(idx == spec_cell_index(row as int, col as int));
            assert(idx < GRID_CELLS);
        }
        let t = self.terrain[idx];
        if !matches!(t, Terrain::Grass) {
            return ;
        }
        if self.occupants[idx].0.is_some() {
            return ;
        }
        let id = spawn_plant(&mut self.plants, &mut self.next_id, row, col, kind);
        self.occupants[idx] = Occupant(Some(id));
        proof {
            lemma_place_at_cell_wf(v0, self@, row, col, kind);
        }
    }

    /// The placement controller: a resolved world-space click places a plant
    /// of the default kind at the clicked cell; clicks outside the grid, on
    /// non-grass terrain or on an occupied cell do nothing.
    pub fn click_place_plant(&mut self, x: i64, y: i64)
        requires
            old(self)@.wf(),
            old(self)@.next_id < u64::MAX,
        ensures
            final(self)@ == spec_click(old(self)@, x, y),
            final(self)@.wf(),
    {
        match world_to_cell(x, y) {
            None => {},
            Some((row, col)) => {
                self.place_at_cell(row, col, PlantKind::Peashooter);
            },
        }
    }

    /// The spawn controller's frame: advance the clock and the spawn timer;
    /// each completed period spawns one creature on the pseudo-randomly
    /// chosen lane.
    pub fn zombie_spawner(&mut self, dt: u64)
        requires
            old(self)@.wf(),
            dt <= DT_MAX,
            old(self)@.elapsed_ms + dt <= u64::MAX,
            old(self)@.next_id < u64::MAX,
        ensures
            final(self)@ == spec_spawn(old(self)@, dt),
            final(self)@.wf(),
    {
        let ghost v0 = self@;
        self.elapsed_ms = self.elapsed_ms + dt;
        let finished = self.spawn_timer.tick(dt);
        if finished {
            let row = (self.elapsed_ms % (ROWS as u64)) as i32;
            proof {
                assert(row == spec_spawn_row(self.elapsed_ms));
            }
            let (_cx, cy) = cell_center_world(row, 0);
            let id = self.next_id;
            self.next_id = id + 1;
            self.zombies.push(Zombie { id, row, hp: ZOMBIE_HP, x: ZOMBIE_SPAWN_X, y: cy });
            proof {
                assert(self@.zombies =~= v0.zombies.push(
                    spec_new_zombie(v0.next_id, spec_spawn_row(self@.elapsed_ms)),
                ));
                assert(self@ =~= spec_spawn(v0, dt));
                assert forall|i: int| 0 <= i < self@.zombies.len() implies self@.zombie_ok(
                    #[trigger] self@.zombies[i],
                ) by {
                    if i < v0.zombies.len() {
                        assert(v0.zombie_ok(v0.zombies[i]));
                    }
                }
            }
        } else {
            proof {
                assert(self@ =~= spec_spawn(v0, dt));
            }
        }
    }
}

/// A successful placement extends the store by one valid plant and keeps the
/// occupancy invariant.
proof fn lemma_place_at_cell_wf(v0: GameView, v1: GameView, row: i32, col: i32, kind: PlantKind)
    requires
        v0.wf(),
        v0.next_id < u64::MAX,
        0 <= row < ROWS,
        0 <= col < COLS,
        v0.terrain[spec_cell_index(row as int, col as int)] is Grass,
        v0.occupants[spec_cell_index(row as int, col as int)].0 is None,
        v1 == spec_place_at_cell(v0, row, col, kind),
    ensures
        v1.wf(),
{
    let idx = spec_cell_index(row as int, col as int);
    let np = spec_new_plant(v0.next_id, row, col, kind);
    assert(np.wf()) by {
        crate::plant::lemma_plant_stats_bounds(kind);
    }
    assert(v1.plants == v0.plants.push(np));
    assert(v1.occupants == v0.occupants.update(idx, Occupant(Some(v0.next_id))));
    // Every old plant occupies a different cell: its back-reference there is
    // `Some`, while the target cell was empty.
    assert forall|i: int| 0 <= i < v0.plants.len() implies spec_cell_index(
        (#[trigger] v0.plants[i]).row as int,
        v0.plants[i].col as int,
    ) != idx by {
        assert(v0.occupants[spec_cell_index(v0.plants[i].row as int, v0.plants[i].col as int)].0
            == Some(v0.plants[i].id));
    }
    assert forall|i: int| 0 <= i < v1.plants.len() implies v1.occupants[spec_cell_index(
        (#[trigger] v1.plants[i]).row as int,
        v1.plants[i].col as int,
    )].0 == Some(v1.plants[i].id) by {
        if i < v0.plants.len() {
            assert(v1.plants[i] == v0.plants[i]);
        } else {
            assert(v1.plants[i] == np);
        }
    }
    assert forall|idx2: int|
        0 <= idx2 < GRID_CELLS && (#[trigger] v1.occupants[idx2]).0 is Some implies exists|i: int|
        0 <= i < v1.plants.len() && spec_cell_index(
            (#[trigger] v1.plants[i]).row as int,
            v1.plants[i].col as int,
        ) == idx2 by {
        if idx2 == idx {
            assert(spec_cell_index(
                (v1.plants[v0.plants.len() as int]).row as int,
                v1.plants[v0.plants.len() as int].col as int,
            ) == idx2);
        } else {
            assert(v0.occupants[idx2].0 is Some);
            let i = choose|i: int|
                0 <= i < v0.plants.len() && spec_cell_index(
                    (#[trigger] v0.plants[i]).row as int,
                    v0.plants[i].col as int,
                ) == idx2;
            assert(v1.plants[i] == v0.plants[i]);
            assert(spec_cell_index((v1.plants[i]).row as int, v1.plants[i].col as int) == idx2);
        }
    }
}


/// Every element of a filtered sequence satisfies the predicate and occurs in
/// the original sequence.
pub proof fn lemma_filter_is_subset<A>(s: Seq<A>, pred: spec_fn(A) -> bool)
    ensures
        forall|k: int|
            0 <= k < s.filter(pred).len() ==> pred(#[trigger] s.filter(pred)[k]) && exists|m: int|
                0 <= m < s.len() && s[m] == s.filter(pred)[k],
    decreases s.len(),
{
    reveal(Seq::filter);
    if s.len() > 0 {
        lemma_filter_is_subset(s.drop_last(), pred);
        let f = s.filter(pred);
        let fd = s.drop_last().filter(pred);
        assert forall|k: int| 0 <= k < f.len() implies pred(#[trigger] f[k]) && exists|m: int|
            0 <= m < s.len() && s[m] == f[k] by {
            if pred(s.last()) && k == f.len() - 1 {
                assert(f == fd.push(s.last()));
                assert(s[s.len() - 1] == f[k]);
            } else {
                assert(f[k] == fd[k]);
                assert(pred(fd[k]));
                let m = choose|m: int| 0 <= m < s.drop_last().len() && s.drop_last()[m] == fd[k];
                assert(s[m] == f[k]);
            }
        }
    }
}

/// The cleanup system for one frame: remove projectiles past the right
/// threshold and creatures past the house boundary, and report the identity
/// of each removed creature — the loss signal, exactly once per breach.
pub fn cleanup_out_of_bounds(bullets: &mut Vec<Bullet>, zombies: &mut Vec<Zombie>) -> (losses: Vec<
    u64,
>)
    ensures
        final(bullets)@ == old(bullets)@.filter(|b: Bullet| b.x <= BULLET_OUT_X),
        final(zombies)@ == old(zombies)@.filter(|z: Zombie| z.x >= LOSS_X),
        losses@ == spec_losses(old(zombies)@),
{
    let ghost bs0 = bullets@;
    let ghost zs0 = zombies@;
    let ghost bpred = |b: Bullet| b.x <= BULLET_OUT_X;
    let ghost zpred = |z: Zombie| z.x >= LOSS_X;
    let ghost opred = |z: Zombie| z.x < LOSS_X;
    let ghost idf = |z: Zombie| z.id;

    let mut kept_b: Vec<Bullet> = Vec::new();
    proof {
        assert(bs0.take(0) =~= Seq::<Bullet>::empty());
        assert(Seq::<Bullet>::empty().filter(bpred) =~= Seq::<Bullet>::empty()) by {
            reveal(Seq::filter);
        }
    }
    let mut i: usize = 0;
    while i < bullets.len()
        invariant
            bullets@ == bs0,
            i <= bs0.len(),
            bpred == (|b: Bullet| b.x <= BULLET_OUT_X),
            kept_b@ == bs0.take(i as int).filter(bpred),
        decreases bs0.len() - i,
    {
        let b = bullets[i];
        if b.x <= BULLET_OUT_X {
            kept_b.push(b);
        }
        proof {
            assert(bs0.take(i + 1) =~= bs0.take(i as int).push(b));
            bs0.take(i as int).lemma_filter_push(b, bpred);
        }
        i += 1;
    }
    proof {
        assert(bs0.take(bs0.len() as int) =~= bs0);
    }
    *bullets = kept_b;

    let mut kept_z: Vec<Zombie> = Vec::new();
    let mut losses: Vec<u64> = Vec::new();
    proof {
        assert(zs0.take(0) =~= Seq::<Zombie>::empty());
        assert(Seq::<Zombie>::empty().filter(zpred) =~= Seq::<Zombie>::empty()) by {
            reveal(Seq::filter);
        }
        assert(Seq::<Zombie>::empty().filter(opred) =~= Seq::<Zombie>::empty()) by {
            reveal(Seq::filter);
        }
    }
    let mut i: usize = 0;
    while i < zombies.len()
        invariant
            zombies@ == zs0,
            i <= zs0.len(),
            zpred == (|z: Zombie| z.x >= LOSS_X),
            opred == (|z: Zombie| z.x < LOSS_X),
            idf == (|z: Zombie| z.id),
            kept_z@ == zs0.take(i as int).filter(zpred),
            losses@ == zs0.take(i as int).filter(opred).map_values(idf),
        decreases zs0.len() - i,
    {
        let z = zombies[i];
        if z.x >= LOSS_X {
            kept_z.push(z);
        } else {
            losses.push(z.id);
        }
        proof {
            assert(zs0.take(i + 1) =~= zs0.take(i as int).push(z));
            zs0.take(i as int).lemma_filter_push(z, zpred);
            zs0.take(i as int).lemma_filter_push(z, opred);
            if !zpred(z) {
                assert(zs0.take(i as int).filter(opred).push(z).map_values(idf)
                    =~= zs0.take(i as int).filter(opred).map_values(idf).push(idf(z)));
            }
        }
        i += 1;
    }
    proof {
        assert(zs0.take(zs0.len() as int) =~= zs0);
    }
    *zombies = kept_z;
    losses
}

/// Bounds on everything in the store just before collision resolution:
/// positions have moved by at most one frame's travel beyond the stored
/// bound, creatures are alive, lanes are real, and identities stay below the
/// counter.
proof fn lemma_pre_collision_bounds(v: GameView, dt: u64)
    requires
        v.wf(),
        dt <= DT_MAX,
        v.elapsed_ms + dt <= u64::MAX,
        v.next_id + v.plants.len() + 1 <= u64::MAX,
    ensures
        ({
            let pc = spec_pre_collision(v, dt);
            &&& pc.plants.len() == v.plants.len()
            &&& forall|k: int|
                0 <= k < pc.plants.len() ==> (#[trigger] pc.plants[k]).wf() && pc.plants[k].id
                    < pc.next_id
            &&& forall|k: int|
                0 <= k < pc.zombies.len() ==> {
                    let z = #[trigger] pc.zombies[k];
                    &&& z.id < pc.next_id
                    &&& 0 <= z.row < ROWS
                    &&& z.hp >= 1
                    &&& -POS_LIMIT <= z.x <= POS_BOUND
                    &&& -POS_BOUND <= z.y <= POS_BOUND
                }
            &&& forall|k: int|
                0 <= k < pc.bullets.len() ==> {
                    let b = #[trigger] pc.bullets[k];
                    &&& b.id < pc.next_id
                    &&& 0 <= b.row < ROWS
                    &&& -POS_BOUND <= b.x <= POS_LIMIT
                    &&& -POS_BOUND <= b.y <= POS_BOUND
                }
            &&& v.next_id <= pc.next_id
            &&& pc.next_id <= v.next_id + v.plants.len() + 1
            &&& pc.terrain == v.terrain
            &&& pc.occupants == v.occupants
            &&& pc.spawn_timer.wf()
            &&& pc.spawn_timer.period_ms == ZOMBIE_SPAWN_EVERY
        }),
{
    let v1 = spec_spawn(v, dt);
    let v2 = spec_move(v1, dt);
    let pc = spec_pre_collision(v, dt);
    let fired = spec_fired_bullets(v2.plants, v2.zombies, dt, v2.next_id as int);
    assert(v1.spawn_timer.wf());
    assert(v1.next_id <= v.next_id + 1);
    assert forall|k: int| 0 <= k < v1.zombies.len() implies v1.zombie_ok(
        #[trigger] v1.zombies[k],
    ) by {
        if k < v.zombies.len() {
            assert(v.zombie_ok(v.zombies[k]));
        }
    }
    assert(forall|k: int|
        0 <= k < v1.plants.len() ==> (#[trigger] v1.plants[k]).wf() && v1.plants[k].id
            < v1.next_id);
    assert(v2.plants == v1.plants);
    lemma_fired_bullets_props(v2.plants, v2.zombies, dt, v2.next_id as int);
    assert(fired.len() <= v2.plants.len());
    assert(pc.next_id == v2.next_id + fired.len());
    assert forall|k: int| 0 <= k < pc.plants.len() implies (#[trigger] pc.plants[k]).wf()
        && pc.plants[k].id < pc.next_id by {
        assert(pc.plants[k] == spec_plant_ticked(v1.plants[k], dt));
        assert(v1.plants[k].wf());
        lemma_plant_ticked_wf(v1.plants[k], dt);
    }
    assert forall|k: int| 0 <= k < pc.zombies.len() implies {
        let z = #[trigger] pc.zombies[k];
        &&& z.id < pc.next_id
        &&& 0 <= z.row < ROWS
        &&& z.hp >= 1
        &&& -POS_LIMIT <= z.x <= POS_BOUND
        &&& -POS_BOUND <= z.y <= POS_BOUND
    } by {
        assert(pc.zombies[k] == spec_moved_zombie(v1.zombies[k], dt));
        assert(v1.zombie_ok(v1.zombies[k]));
    }
    assert forall|k: int| 0 <= k < pc.bullets.len() implies {
        let b = #[trigger] pc.bullets[k];
        &&& b.id < pc.next_id
        &&& 0 <= b.row < ROWS
        &&& -POS_BOUND <= b.x <= POS_LIMIT
        &&& -POS_BOUND <= b.y <= POS_BOUND
    } by {
        if k < v2.bullets.len() {
            assert(pc.bullets[k] == v2.bullets[k]);
            assert(v2.bullets[k] == spec_moved_bullet(v1.bullets[k], dt));
            assert(v1.bullet_ok(v1.bullets[k]));
            let b0 = v1.bullets[k];
            let sp = crate::bullet::spec_bullet_stats(b0.kind).speed;
            crate::bullet::lemma_bullet_stats_bounds(b0.kind);
            assert(0 <= sp * dt <= 260_000_000) by (nonlinear_arith)
                requires
                    0 < sp <= 260,
                    0 <= dt <= 1_000_000,
            ;
        } else {
            assert(pc.bullets[k] == fired[k - v2.bullets.len()]);
        }
    }
}

/// One whole frame keeps the state invariant.
pub proof fn lemma_tick_preserves_wf(v: GameView, dt: u64)
    requires
        v.wf(),
        dt <= DT_MAX,
        v.elapsed_ms + dt <= u64::MAX,
        v.next_id + v.plants.len() + 1 <= u64::MAX,
    ensures
        spec_tick(v, dt).wf(),
{
    let pc = spec_pre_collision(v, dt);
    let v4 = spec_collide(pc);
    let v5 = spec_tick(v, dt);
    let zpred = |z: Zombie| z.x >= LOSS_X;
    let bpred = |b: Bullet| b.x <= BULLET_OUT_X;
    lemma_pre_collision_bounds(v, dt);
    assert(forall|k: int| 0 <= k < pc.zombies.len() ==> (#[trigger] pc.zombies[k]).hp >= 1);
    lemma_resolve_zombies_from(pc.bullets, pc.zombies);
    lemma_resolve_bullets_from(pc.bullets, pc.zombies);
    lemma_filter_is_subset(v4.zombies, zpred);
    lemma_filter_is_subset(v4.bullets, bpred);
    assert(v5.zombies == v4.zombies.filter(zpred));
    assert(v5.bullets == v4.bullets.filter(bpred));
    assert(v5.next_id == pc.next_id && v5.plants == pc.plants && v5.occupants == pc.occupants
        && v5.terrain == pc.terrain && v5.spawn_timer == pc.spawn_timer);

    assert forall|k: int| 0 <= k < v5.zombies.len() implies v5.zombie_ok(
        #[trigger] v5.zombies[k],
    ) by {
        let z = v5.zombies[k];
        assert(zpred(v4.zombies.filter(zpred)[k]));
        let m = choose|m: int| 0 <= m < v4.zombies.len() && v4.zombies[m] == v4.zombies.filter(
            zpred,
        )[k];
        assert(v4.zombies[m] == spec_resolve(pc.bullets, pc.zombies).1[m]);
        assert(spec_from_some(spec_resolve(pc.bullets, pc.zombies).1[m], pc.zombies));
        let m2 = choose|m2: int|
            0 <= m2 < pc.zombies.len() && spec_weakened(z, #[trigger] pc.zombies[m2]);
        assert(spec_weakened(z, pc.zombies[m2]));
    }
    assert forall|k: int| 0 <= k < v5.bullets.len() implies v5.bullet_ok(
        #[trigger] v5.bullets[k],
    ) by {
        let b = v5.bullets[k];
        assert(bpred(v4.bullets.filter(bpred)[k]));
        let m = choose|m: int| 0 <= m < v4.bullets.len() && v4.bullets[m] == v4.bullets.filter(
            bpred,
        )[k];
        assert(v4.bullets[m] == spec_resolve(pc.bullets, pc.zombies).0[m]);
        let m2 = choose|m2: int|
            0 <= m2 < pc.bullets.len() && spec_resolve(pc.bullets, pc.zombies).0[m]
                == #[trigger] pc.bullets[m2];
        assert(b == pc.bullets[m2]);
    }
    assert forall|i: int| 0 <= i < v5.plants.len() implies (#[trigger] v5.plants[i]).wf()
        && v5.plants[i].id < v5.next_id by {}
    // The firing tick changes no plant's cell or identity, and the occupancy
    // back-references are untouched, so the occupancy invariant carries over.
    assert forall|i: int| 0 <= i < v5.plants.len() implies v5.occupants[spec_cell_index(
        (#[trigger] v5.plants[i]).row as int,
        v5.plants[i].col as int,
    )].0 == Some(v5.plants[i].id) by {
        assert(v5.plants[i] == spec_plant_ticked(v.plants[i], dt));
        assert(v.occupants[spec_cell_index(v.plants[i].row as int, v.plants[i].col as int)].0
            == Some(v.plants[i].id));
    }
    assert forall|i: int, j: int| 0 <= i < j < v5.plants.len() implies spec_cell_index(
        (#[trigger] v5.plants[i]).row as int,
        v5.plants[i].col as int,
    ) != spec_cell_index((#[trigger] v5.plants[j]).row as int, v5.plants[j].col as int) by {
        assert(v5.plants[i] == spec_plant_ticked(v.plants[i], dt));
        assert(v5.plants[j] == spec_plant_ticked(v.plants[j], dt));
        assert(spec_cell_index(v.plants[i].row as int, v.plants[i].col as int) != spec_cell_index(
            v.plants[j].row as int,
            v.plants[j].col as int,
        ));
    }
    assert forall|idx: int|
        0 <= idx < GRID_CELLS && (#[trigger] v5.occupants[idx]).0 is Some implies exists|i: int|
        0 <= i < v5.plants.len() && spec_cell_index(
            (#[trigger] v5.plants[i]).row as int,
            v5.plants[i].col as int,
        ) == idx by {
        assert(v.occupants[idx].0 is Some);
        let i = choose|i: int|
            0 <= i < v.plants.len() && spec_cell_index(
                (#[trigger] v.plants[i]).row as int,
                v.plants[i].col as int,
            ) == idx;
        assert(v5.plants[i] == spec_plant_ticked(v.plants[i], dt));
        assert(spec_cell_index((v5.plants[i]).row as int, v5.plants[i].col as int) == idx);
    }
}

impl SimState {
    /// One whole frame of `dt` milliseconds: spawning, movement, firing,
    /// collision resolution, cleanup. Returns the loss signal: the identity
    /// of every creature that breached the house boundary this frame, each
    /// exactly once.
    pub fn tick(&mut self, dt: u64) -> (losses: Vec<u64>)
        requires
            old(self)@.wf(),
            dt <= DT_MAX,
            old(self)@.elapsed_ms + dt <= u64::MAX,
            old(self)@.next_id + old(self)@.plants.len() + 1 <= u64::MAX,
        ensures
            final(self)@ == spec_tick(old(self)@, dt),
            losses@ == spec_tick_losses(old(self)@, dt),
            final(self)@.wf(),
    {
        let ghost v0 = self@;
        self.zombie_spawner(dt);
        let ghost v1 = self@;
        proof {
            assert(v1 == spec_spawn(v0, dt));
            assert forall|i: int| 0 <= i < self.zombies@.len() implies -POS_BOUND
                <= #[trigger] self.zombies@[i].x <= POS_BOUND by {
                assert(v1.zombie_ok(v1.zombies[i]));
            }
        }
        zombie_move(&mut self.zombies, dt);
        proof {
            assert forall|i: int| 0 <= i < self.bullets@.len() implies -POS_BOUND
                <= #[trigger] self.bullets@[i].x <= POS_BOUND by {
                assert(v1.bullet_ok(v1.bullets[i]));
            }
        }
        bullet_move_system(&mut self.bullets, dt);
        let ghost v2 = self@;
        proof {
            assert(v2 =~= spec_move(v1, dt));
            assert forall|i: int| 0 <= i < self.plants@.len() implies (
            #[trigger] self.plants@[i]).wf() by {
                assert(v1.plants[i].wf());
            }
            assert(self.next_id + self.plants@.len() <= u64::MAX);
        }
        plant_fire_system(&mut self.plants, &self.zombies, &mut self.bullets, &mut self.next_id, dt);
        let ghost v3 = self@;
        proof {
            lemma_fired_bullets_props(v2.plants, v2.zombies, dt, v2.next_id as int);
            assert(v3 =~= spec_fire(v2, dt));
            assert(v3 == spec_pre_collision(v0, dt));
            let pc = spec_pre_collision(v0, dt);
            lemma_pre_collision_bounds(v0, dt);
            assert forall|i: int| 0 <= i < self.bullets@.len() implies -POS_LIMIT
                <= #[trigger] self.bullets@[i].x <= POS_LIMIT && -POS_LIMIT <= self.bullets@[i].y
                <= POS_LIMIT by {
                assert(pc.bullets[i] == self.bullets@[i]);
            }
            assert forall|i: int| 0 <= i < self.zombies@.len() implies -POS_LIMIT
                <= #[trigger] self.zombies@[i].x <= POS_LIMIT && -POS_LIMIT <= self.zombies@[i].y
                <= POS_LIMIT && self.zombies@[i].hp >= 1 by {
                assert(pc.zombies[i] == self.zombies@[i]);
            }
        }
        bullet_hit_zombie(&mut self.bullets, &mut self.zombies);
        let ghost v4 = self@;
        proof {
            assert(v4 =~= spec_collide(v3));
        }
        let losses = cleanup_out_of_bounds(&mut self.bullets, &mut self.zombies);
        proof {
            assert(self@ =~= spec_cleanup(v4));
            assert(self@ == spec_tick(v0, dt));
            assert(losses@ == spec_tick_losses(v0, dt));
            lemma_tick_preserves_wf(v0, dt);
        }
        losses
    }
}

/// The plants standing at cell `(row, col)`.
pub open spec fn spec_plants_at_cell(plants: Seq<Plant>, row: i32, col: i32) -> Seq<Plant> {
    plants.filter(|p: Plant| p.row == row && p.col == col)
}

/// Placement is idempotent against repetition: placing at a cell twice leaves
/// exactly what the first placement left — in particular, exactly one plant
/// at that cell when the first placement succeeded — and the second call has
/// no effect, whatever kind it asks for.
pub proof fn lemma_place_idempotent(v: GameView, row: i32, col: i32, k1: PlantKind, k2: PlantKind)
    requires
        v.wf(),
        0 <= row < ROWS,
        0 <= col < COLS,
    ensures
        spec_place_at_cell(spec_place_at_cell(v, row, col, k1), row, col, k2)
            == spec_place_at_cell(v, row, col, k1),
        (v.terrain[spec_cell_index(row as int, col as int)] is Grass && v.occupants[spec_cell_index(
            row as int,
            col as int,
        )].0 is None) ==> spec_plants_at_cell(
            spec_place_at_cell(v, row, col, k1).plants,
            row,
            col,
        ).len() == 1,
{
    let idx = spec_cell_index(row as int, col as int);
    let v1 = spec_place_at_cell(v, row, col, k1);
    let pred = |p: Plant| p.row == row && p.col == col;
    if v.terrain[idx] is Grass && v.occupants[idx].0 is None {
        assert(0 <= idx < GRID_CELLS);
        assert(v1.occupants[idx].0 is Some);
        assert(v1.terrain == v.terrain);
        assert(spec_place_at_cell(v1, row, col, k2) == v1);
        assert(v.plants.filter(pred).len() == 0) by {
            lemma_filter_is_subset(v.plants, pred);
            if v.plants.filter(pred).len() > 0 {
                let p0 = v.plants.filter(pred)[0];
                assert(pred(p0));
                let m = choose|m: int| 0 <= m < v.plants.len() && v.plants[m] == p0;
                assert(v.occupants[spec_cell_index(
                    (v.plants[m]).row as int,
                    v.plants[m].col as int,
                )].0 == Some(v.plants[m].id));
                assert(spec_cell_index((v.plants[m]).row as int, v.plants[m].col as int) == idx);
            }
        }
        let np = spec_new_plant(v.next_id, row, col, k1);
        v.plants.lemma_filter_push(np, pred);
        assert(pred(np));
        assert(v1.plants.filter(pred) =~= v.plants.filter(pred).push(np));
    } else {
        assert(v1 == v);
    }
}

} // verus!
