//! Placement: clicks, occupancy, terrain, and idempotence against repetition.

use pvz::game::SimState;
use pvz::plant::PlantKind;
use pvz::tile::Terrain;

#[test]
fn new_state_is_empty_grass_lawn() {
    let s = SimState::new();
    assert_eq!(s.terrain.len(), 45);
    assert_eq!(s.occupants.len(), 45);
    for t in &s.terrain {
        assert!(matches!(t, Terrain::Grass));
    }
    for o in &s.occupants {
        assert!(o.0.is_none());
    }
    assert_eq!(s.plants.len(), 0);
    assert_eq!(s.zombies.len(), 0);
    assert_eq!(s.bullets.len(), 0);
    assert_eq!(s.elapsed_ms, 0);
    assert_eq!(s.next_id, 0);
    assert_eq!(s.spawn_timer.period_ms, 2_000);
    assert_eq!(s.spawn_timer.elapsed_ms, 0);
}

#[test]
fn place_creates_plant_at_cell_center() {
    let mut s = SimState::new();
    s.place_at_cell(2, 3, PlantKind::Peashooter);
    assert_eq!(s.plants.len(), 1);
    let p = &s.plants[0];
    assert_eq!(p.id, 0);
    assert_eq!(p.row, 2);
    assert_eq!(p.col, 3);
    assert_eq!((p.x, p.y), (-80_000, 0));
    assert_eq!(p.fire.elapsed_ms, 0);
    assert_eq!(p.fire.period_ms, 800);
    assert_eq!(s.occupants[2 * 9 + 3].0, Some(0));
    assert_eq!(s.next_id, 1);
}

#[test]
fn place_on_occupied_cell_is_ignored() {
    // Placing twice on the same cell leaves exactly one plant there and the
    // second call has no observable effect, whatever kind it asks for.
    let mut s = SimState::new();
    s.place_at_cell(2, 3, PlantKind::Peashooter);
    s.place_at_cell(2, 3, PlantKind::Wallnut);
    assert_eq!(s.plants.len(), 1);
    assert!(matches!(s.plants[0].kind, PlantKind::Peashooter));
    assert_eq!(s.occupants[2 * 9 + 3].0, Some(0));
    assert_eq!(s.next_id, 1);
    let count = s
        .plants
        .iter()
        .filter(|p| p.row == 2 && p.col == 3)
        .count();
    assert_eq!(count, 1);
}

#[test]
fn place_on_non_grass_terrain_is_ignored() {
    let mut s = SimState::new();
    s.terrain[2 * 9 + 3] = Terrain::Water;
    s.place_at_cell(2, 3, PlantKind::Peashooter);
    assert_eq!(s.plants.len(), 0);
    assert!(s.occupants[2 * 9 + 3].0.is_none());

    s.terrain[0] = Terrain::Stone;
    s.place_at_cell(0, 0, PlantKind::Peashooter);
    assert_eq!(s.plants.len(), 0);
}

#[test]
fn click_inside_grid_places_default_kind() {
    let mut s = SimState::new();
    s.click_place_plant(-320_000, 160_000);
    assert_eq!(s.plants.len(), 1);
    assert!(matches!(s.plants[0].kind, PlantKind::Peashooter));
    assert_eq!(s.plants[0].row, 0);
    assert_eq!(s.plants[0].col, 0);
    assert_eq!(s.occupants[0].0, Some(0));
}

#[test]
fn click_outside_grid_is_ignored() {
    let mut s = SimState::new();
    s.click_place_plant(400_000, 0);
    s.click_place_plant(0, -250_000);
    assert_eq!(s.plants.len(), 0);
    assert_eq!(s.next_id, 0);
}

#[test]
fn click_on_cell_boundary_falls_into_right_cell() {
    // x = -280 px is the shared edge of columns 0 and 1: floor division puts
    // it in column 1.
    let mut s = SimState::new();
    s.click_place_plant(-280_000, 160_000);
    assert_eq!(s.plants.len(), 1);
    assert_eq!(s.plants[0].row, 0);
    assert_eq!(s.plants[0].col, 1);
    assert_eq!(s.plants[0].x, -240_000);
}

#[test]
fn two_plants_on_distinct_cells() {
    let mut s = SimState::new();
    s.place_at_cell(1, 1, PlantKind::Peashooter);
    s.place_at_cell(1, 2, PlantKind::Sunflower);
    assert_eq!(s.plants.len(), 2);
    assert_eq!(s.plants[0].id, 0);
    assert_eq!(s.plants[1].id, 1);
    assert_eq!(s.occupants[1 * 9 + 1].0, Some(0));
    assert_eq!(s.occupants[1 * 9 + 2].0, Some(1));
    assert_eq!(s.next_id, 2);
}
