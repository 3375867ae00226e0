//! The per-frame systems: spawning, movement, firing, collision and cleanup,
//! separately and composed through the full tick.

use pvz::bullet::{bullet_move_system, Bullet, BulletKind};
use pvz::collision::bullet_hit_zombie;
use pvz::game::{cleanup_out_of_bounds, SimState};
use pvz::plant::PlantKind;
use pvz::zombie::{zombie_move, Zombie};

fn zombie(id: u64, row: i32, hp: i32, x: i64, y: i64) -> Zombie {
    Zombie { id, row, hp, x, y }
}

fn pea(id: u64, row: i32, x: i64, y: i64) -> Bullet {
    Bullet { id, row, kind: BulletKind::Pea, x, y }
}

#[test]
fn movement_advances_by_speed_times_delta() {
    // Creatures move left at 60 px/s, projectiles right at their kind's
    // speed (260 px/s for a pea); 16 ms steps.
    let mut zs = vec![zombie(1, 0, 5, 1_000, 0)];
    zombie_move(&mut zs, 16);
    assert_eq!(zs[0].x, 1_000 - 60 * 16);

    let mut bs = vec![pea(2, 0, 0, 0)];
    bullet_move_system(&mut bs, 16);
    assert_eq!(bs[0].x, 260 * 16);
}

#[test]
fn spawner_creates_creature_every_two_seconds() {
    let mut s = SimState::new();
    let losses = s.tick(2_000);
    assert!(losses.is_empty());
    assert_eq!(s.zombies.len(), 1);
    let z = &s.zombies[0];
    // elapsed 2000 ms: lane 2000 % 5 == 0; spawned at x = 480 px and then
    // moved by this frame's movement system.
    assert_eq!(z.row, 0);
    assert_eq!(z.hp, 5);
    assert_eq!(z.x, 480_000 - 60 * 2_000);
    assert_eq!(z.y, 160_000);
    assert_eq!(s.next_id, 1);
}

#[test]
fn spawner_waits_for_the_period() {
    let mut s = SimState::new();
    s.tick(1_999);
    assert_eq!(s.zombies.len(), 0);
    s.tick(1);
    assert_eq!(s.zombies.len(), 1);
    assert_eq!(s.zombies[0].row, 0);
    assert_eq!(s.zombies[0].x, 480_000 - 60 * 1);
}

#[test]
fn spawner_lane_follows_elapsed_milliseconds() {
    let mut s = SimState::new();
    s.tick(2_003);
    assert_eq!(s.zombies.len(), 1);
    // 2003 % 5 == 3.
    assert_eq!(s.zombies[0].row, 3);
    assert_eq!(s.zombies[0].y, -80_000);
}

#[test]
fn peashooter_fires_once_after_its_interval() {
    // A plant at (2, 3) and a creature threatening row 2: the first frame
    // that completes the 0.8 s interval emits exactly one pea on row 2.
    let mut s = SimState::new();
    s.place_at_cell(2, 3, PlantKind::Peashooter);
    s.zombies.push(zombie(50, 2, 5, 400_000, 0));
    s.next_id = 51;
    let losses = s.tick(800);
    assert!(losses.is_empty());
    assert_eq!(s.bullets.len(), 1);
    let b = &s.bullets[0];
    assert_eq!(b.row, 2);
    assert!(matches!(b.kind, BulletKind::Pea));
    // Muzzle offset: plant center -80 px, plus TILE * 0.35 = 28 px.
    assert_eq!((b.x, b.y), (-52_000, 0));
    assert_eq!(b.id, 51);
    assert_eq!(s.plants[0].fire.elapsed_ms, 0);
    assert_eq!(s.zombies[0].x, 400_000 - 60 * 800);
    assert_eq!(s.next_id, 52);
}

#[test]
fn peashooter_holds_fire_without_a_threat() {
    let mut s = SimState::new();
    s.place_at_cell(2, 3, PlantKind::Peashooter);
    let losses = s.tick(800);
    assert!(losses.is_empty());
    assert_eq!(s.bullets.len(), 0);
    // Time is still consumed: the timer wrapped and waits for a new period.
    assert_eq!(s.plants[0].fire.elapsed_ms, 0);
}

#[test]
fn peashooter_ignores_threats_in_other_lanes() {
    let mut s = SimState::new();
    s.place_at_cell(2, 3, PlantKind::Peashooter);
    s.zombies.push(zombie(50, 1, 5, 400_000, 80_000));
    s.next_id = 51;
    s.tick(800);
    assert_eq!(s.bullets.len(), 0);
}

#[test]
fn inert_kinds_never_fire() {
    let mut s = SimState::new();
    s.place_at_cell(2, 3, PlantKind::Wallnut);
    s.place_at_cell(2, 4, PlantKind::Sunflower);
    s.zombies.push(zombie(50, 2, 5, 400_000, 0));
    s.next_id = 51;
    s.tick(800);
    assert_eq!(s.bullets.len(), 0);
    // Inert kinds skip the firing system entirely: their timers do not even
    // advance.
    assert_eq!(s.plants[0].fire.elapsed_ms, 0);
    assert_eq!(s.plants[1].fire.elapsed_ms, 0);
}

#[test]
fn one_frame_covering_two_intervals_fires_once() {
    let mut s = SimState::new();
    s.place_at_cell(2, 3, PlantKind::Peashooter);
    s.zombies.push(zombie(50, 2, 5, 460_000, 0));
    s.next_id = 51;
    s.tick(1_600);
    assert_eq!(s.bullets.len(), 1);
    assert_eq!(s.plants[0].fire.elapsed_ms, 0);
}

#[test]
fn each_hit_costs_exactly_the_damage() {
    // A creature with health 5 struck twice by peas dealing 1 damage each:
    // health 3, still alive.
    let mut zs = vec![zombie(1, 0, 5, 0, 0)];
    let mut bs = vec![pea(2, 0, 0, 0), pea(3, 0, 0, 0)];
    bullet_hit_zombie(&mut bs, &mut zs);
    assert_eq!(bs.len(), 0);
    assert_eq!(zs.len(), 1);
    assert_eq!(zs[0].hp, 3);
}

#[test]
fn fifth_hit_destroys_the_creature() {
    let mut zs = vec![zombie(1, 0, 5, 0, 0)];
    let mut bs = vec![
        pea(2, 0, 0, 0),
        pea(3, 0, 0, 0),
        pea(4, 0, 0, 0),
        pea(5, 0, 0, 0),
        pea(6, 0, 0, 0),
    ];
    bullet_hit_zombie(&mut bs, &mut zs);
    assert_eq!(zs.len(), 0);
    assert_eq!(bs.len(), 0);
}

#[test]
fn projectile_resolves_at_most_one_collision() {
    // Six peas against health 5: the first five are each consumed by one
    // hit; once the creature is destroyed the sixth finds nothing and
    // survives.
    let mut zs = vec![zombie(1, 0, 5, 0, 0)];
    let mut bs = vec![
        pea(2, 0, 0, 0),
        pea(3, 0, 0, 0),
        pea(4, 0, 0, 0),
        pea(5, 0, 0, 0),
        pea(6, 0, 0, 0),
        pea(7, 0, 0, 0),
    ];
    bullet_hit_zombie(&mut bs, &mut zs);
    assert_eq!(zs.len(), 0);
    assert_eq!(bs.len(), 1);
    assert_eq!(bs[0].id, 7);
}

#[test]
fn rows_must_match_exactly() {
    let mut zs = vec![zombie(1, 0, 5, 0, 0)];
    let mut bs = vec![pea(2, 1, 0, 0)];
    bullet_hit_zombie(&mut bs, &mut zs);
    assert_eq!(bs.len(), 1);
    assert_eq!(zs[0].hp, 5);
}

#[test]
fn hit_needs_distance_within_summed_radii() {
    // Pea radius 8 px + creature radius 22 px: 30 px reaches, 30.001 px
    // does not (squared distance against the squared sum).
    let mut zs = vec![zombie(1, 0, 5, 30_000, 0)];
    let mut bs = vec![pea(2, 0, 0, 0)];
    bullet_hit_zombie(&mut bs, &mut zs);
    assert_eq!(bs.len(), 0);
    assert_eq!(zs[0].hp, 4);

    let mut zs = vec![zombie(1, 0, 5, 30_001, 0)];
    let mut bs = vec![pea(2, 0, 0, 0)];
    bullet_hit_zombie(&mut bs, &mut zs);
    assert_eq!(bs.len(), 1);
    assert_eq!(zs[0].hp, 5);
}

#[test]
fn first_creature_in_scan_order_takes_the_hit() {
    let mut zs = vec![zombie(1, 0, 5, 0, 0), zombie(2, 0, 5, 1_000, 0)];
    let mut bs = vec![pea(3, 0, 0, 0)];
    bullet_hit_zombie(&mut bs, &mut zs);
    assert_eq!(zs[0].hp, 4);
    assert_eq!(zs[1].hp, 5);
}

#[test]
fn cleanup_removes_out_of_bounds_entities() {
    // Projectiles beyond 620 px leave to the right; creatures below -480 px
    // breach the house boundary and fire the loss signal.
    let mut bs = vec![pea(1, 0, 620_001, 0), pea(2, 0, 620_000, 0)];
    let mut zs = vec![zombie(7, 0, 5, -480_001, 0), zombie(8, 0, 5, -480_000, 0)];
    let losses = cleanup_out_of_bounds(&mut bs, &mut zs);
    assert_eq!(losses, vec![7]);
    assert_eq!(bs.len(), 1);
    assert_eq!(bs[0].id, 2);
    assert_eq!(zs.len(), 1);
    assert_eq!(zs[0].id, 8);
    // The signal fired exactly once: nothing is left to report.
    let losses = cleanup_out_of_bounds(&mut bs, &mut zs);
    assert!(losses.is_empty());
}

#[test]
fn breaching_creature_signals_loss_exactly_once() {
    let mut s = SimState::new();
    s.zombies.push(zombie(5, 0, 5, -479_000, 160_000));
    s.next_id = 6;
    // One 100 ms frame moves it 6 px further left, below -480 px.
    let losses = s.tick(100);
    assert_eq!(losses, vec![5]);
    assert_eq!(s.zombies.len(), 0);
    let losses = s.tick(100);
    assert!(losses.is_empty());
}

#[test]
fn fired_pea_downs_an_adjacent_creature_in_the_same_frame() {
    // Movement runs before firing and collision: the creature steps to
    // -288 px, the plant at (0, 0) fires from -292 px, and the pea connects
    // at once.
    let mut s = SimState::new();
    s.place_at_cell(0, 0, PlantKind::Peashooter);
    s.zombies.push(zombie(10, 0, 5, -240_000, 160_000));
    s.next_id = 11;
    let losses = s.tick(800);
    assert!(losses.is_empty());
    assert_eq!(s.bullets.len(), 0);
    assert_eq!(s.zombies.len(), 1);
    assert_eq!(s.zombies[0].hp, 4);
    assert_eq!(s.zombies[0].x, -288_000);
}

#[test]
fn full_game_round_defeats_a_creature() {
    // A plant on row 0 keeps firing while a creature crosses the lawn; each
    // pea costs one health point, and the fifth destroys the creature. (The
    // spawn controller keeps adding fresh creatures meanwhile; only the
    // first one's fate is followed here.)
    let mut s = SimState::new();
    s.place_at_cell(0, 0, PlantKind::Peashooter);
    s.zombies.push(zombie(99, 0, 5, 400_000, 160_000));
    s.next_id = 100;
    let mut frames = 0;
    while s.zombies.iter().any(|z| z.id == 99) && frames < 400 {
        let losses = s.tick(16);
        assert!(losses.is_empty());
        frames += 1;
    }
    assert!(frames < 400);
    assert!(s.zombies.iter().all(|z| z.id != 99));
}
