//! Tiles of the lawn: their grid coordinate, terrain and occupant.

use vstd::prelude::*;

verus! {

/// Grid coordinate of a tile: row `r` and column `c`, 0-indexed.
#[derive(Copy, Clone, Debug, PartialEq, Eq, Structural, Hash)]
pub struct TilePos {
    pub r: i32,
    pub c: i32,
}

/// Terrain of a tile. Only grass accepts a plant; water and stone reject
/// placement unconditionally.
#[derive(Copy, Clone, Debug, PartialEq, Eq, Structural)]
pub enum Terrain {
    Grass,
    Water,
    Stone,
}

/// What stands on a tile: `None` for an empty tile, or the identifier of the
/// plant occupying it. A non-owning back-reference into the plant store, kept
/// only for existence checks.
#[derive(Copy, Clone, Debug)]
pub struct Occupant(pub Option<u64>);

} // verus!
