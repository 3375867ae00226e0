//! Grid geometry: cell centers, the inverse transform, and the stats tables.

use pvz::bullet;
use pvz::plant;
use pvz::tilemap::{cell_center_world, world_to_cell, COLS, ROWS};
use pvz::timer::Timer;

#[test]
fn cell_center_of_origin_cell() {
    // Grid 5x9, tile 80 px: the center of cell (0, 0) is
    // (-COLS*TILE/2 + TILE/2, ROWS*TILE/2 - TILE/2) = (-320, 160) px.
    let (x, y) = cell_center_world(0, 0);
    assert_eq!((x, y), (-320_000, 160_000));
    assert_eq!(world_to_cell(-320_000, 160_000), Some((0, 0)));
}

#[test]
fn cell_center_examples() {
    assert_eq!(cell_center_world(2, 3), (-80_000, 0));
    assert_eq!(cell_center_world(4, 8), (320_000, -160_000));
    assert_eq!(cell_center_world(0, 8), (320_000, 160_000));
    assert_eq!(cell_center_world(4, 0), (-320_000, -160_000));
}

#[test]
fn cell_of_center_roundtrip_all_cells() {
    for r in 0..ROWS {
        for c in 0..COLS {
            let (x, y) = cell_center_world(r, c);
            assert_eq!(world_to_cell(x, y), Some((r, c)));
        }
    }
}

#[test]
fn cell_of_outside_points_is_none() {
    // Strictly outside the bounding box [-360, 360] x [-200, 200] px.
    assert_eq!(world_to_cell(-360_001, 0), None);
    assert_eq!(world_to_cell(360_001, 0), None);
    assert_eq!(world_to_cell(0, 200_001), None);
    assert_eq!(world_to_cell(0, -200_001), None);
    assert_eq!(world_to_cell(1_000_000, 1_000_000), None);
    assert_eq!(world_to_cell(-1_000_000, 50_000), None);
}

#[test]
fn cell_of_edges() {
    // The left and top edges belong to the grid; the right and bottom edges
    // already fall outside (floor division from the left/top origin).
    assert_eq!(world_to_cell(-360_000, 0), Some((2, 0)));
    assert_eq!(world_to_cell(0, 200_000), Some((0, 4)));
    assert_eq!(world_to_cell(360_000, 0), None);
    assert_eq!(world_to_cell(0, -200_000), None);
    assert_eq!(world_to_cell(359_999, 160_000), Some((0, 8)));
}

#[test]
fn plant_stats_table() {
    let s = plant::stats(plant::PlantKind::Peashooter);
    assert_eq!(s.fire_every, 800);
    assert_eq!(s.bullet_damage, 1);
    assert_eq!(s.bullet_speed, 260);
    let s = plant::stats(plant::PlantKind::Sunflower);
    assert_eq!(s.fire_every, 99_999_000);
    assert_eq!(s.bullet_damage, 0);
    let s = plant::stats(plant::PlantKind::Wallnut);
    assert_eq!(s.fire_every, 99_999_000);
}

#[test]
fn bullet_stats_table() {
    let s = bullet::stats(bullet::BulletKind::Pea);
    assert_eq!(s.speed, 260);
    assert_eq!(s.damage, 1);
    assert_eq!(s.radius, 8_000);
}

#[test]
fn repeating_timer_wraps_on_completion() {
    let mut t = Timer::new(800);
    assert!(!t.tick(799));
    assert_eq!(t.elapsed_ms, 799);
    assert!(t.tick(1));
    assert_eq!(t.elapsed_ms, 0);

    let mut t = Timer::new(800);
    assert!(t.tick(1_700));
    assert_eq!(t.elapsed_ms, 100);
    assert_eq!(t.period_ms, 800);
}
