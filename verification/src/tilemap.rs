//! The lawn grid: fixed dimensions and the two pure coordinate transforms
//! between cell coordinates `(row, col)` and world-space positions.

use vstd::arithmetic::div_mod::{lemma_div_is_ordered, lemma_div_multiples_vanish_fancy};
use vstd::arithmetic::mul::lemma_mul_is_commutative;
use vstd::prelude::*;

verus! {

/// World units per pixel: positions are stored in thousandths of a pixel so
/// that movement (speed times milliseconds) stays exact integer arithmetic.
pub const PX: i64 = 1000;

/// Number of grid rows, counted from the top, 0-indexed.
pub const ROWS: i32 = 5;

/// Number of grid columns, counted from the left, 0-indexed.
pub const COLS: i32 = 9;

/// Side length of one square cell, in world units (80 pixels).
pub const TILE: i64 = 80 * PX;

/// Half a cell side, in world units.
pub const HALF_TILE: i64 = 40 * PX;

/// World-space x of the left edge of the grid: `-COLS * HALF_TILE`.
pub const GRID_LEFT: i64 = -360 * PX;

/// World-space x of the right edge of the grid: `COLS * HALF_TILE`.
pub const GRID_RIGHT: i64 = 360 * PX;

/// World-space y of the top edge of the grid: `ROWS * HALF_TILE`.
pub const GRID_TOP: i64 = 200 * PX;

/// World-space y of the bottom edge of the grid: `-ROWS * HALF_TILE`.
pub const GRID_BOTTOM: i64 = -200 * PX;

/// Center of cell `(r, c)`: `x = GRID_LEFT + TILE/2 + c*TILE`,
/// `y = GRID_TOP - TILE/2 - r*TILE`.
pub open spec fn spec_cell_center(r: int, c: int) -> (int, int) {
    (GRID_LEFT + HALF_TILE + c * TILE, GRID_TOP - HALF_TILE - r * TILE)
}

/// Inverse transform by floor division from the grid origin; `None` when the
/// computed row or column falls outside `[0, ROWS) x [0, COLS)`.
pub open spec fn spec_world_to_cell(x: int, y: int) -> Option<(i32, i32)> {
    let c = (x - GRID_LEFT) / (TILE as int);
    let r = (GRID_TOP - y) / (TILE as int);
    if 0 <= r < ROWS && 0 <= c < COLS {
        Some((r as i32, c as i32))
    } else {
        None
    }
}

/// World-space center of cell `(r, c)`. Total: defined for any pair, also
/// outside the grid.
pub fn cell_center_world(r: i32, c: i32) -> (p: (i64, i64))
    ensures
        p.0 == spec_cell_center(r as int, c as int).0,
        p.1 == spec_cell_center(r as int, c as int).1,
{
    let x = GRID_LEFT + HALF_TILE + (c as i64) * TILE;
    let y = GRID_TOP - HALF_TILE - (r as i64) * TILE;
    (x, y)
}

/// The cell containing the world-space point `(x, y)`, or `None` when the
/// point lies outside the grid.
pub fn world_to_cell(x: i64, y: i64) -> (cell: Option<(i32, i32)>)
    ensures
        cell == spec_world_to_cell(x as int, y as int),
{
    if x < GRID_LEFT || x >= GRID_RIGHT || y > GRID_TOP || y <= GRID_BOTTOM {
        proof {
            lemma_world_to_cell_guard(x as int, y as int);
        }
        return None;
    }
    let dx = (x - GRID_LEFT) as u64;
    let dy = (GRID_TOP - y) as u64;
    let c = (dx / (TILE as u64)) as i32;
    let r = (dy / (TILE as u64)) as i32;
    proof {
        lemma_div_is_ordered(dx as int, GRID_RIGHT - GRID_LEFT - 1, TILE as int);
        lemma_div_is_ordered(dy as int, GRID_TOP - GRID_BOTTOM - 1, TILE as int);
    }
    Some((r, c))
}

/// A point at or beyond an edge of the grid maps to no cell.
proof fn lemma_world_to_cell_guard(x: int, y: int)
    requires
        x < GRID_LEFT || x >= GRID_RIGHT || y > GRID_TOP || y <= GRID_BOTTOM,
    ensures
        spec_world_to_cell(x, y) == None::<(i32, i32)>,
{
    let t = TILE as int;
    if x < GRID_LEFT {
        lemma_div_is_ordered(x - GRID_LEFT, -1, t);
        assert((-1) / t == -1);
    } else if x >= GRID_RIGHT {
        lemma_div_is_ordered(GRID_RIGHT - GRID_LEFT, x - GRID_LEFT, t);
        assert((GRID_RIGHT - GRID_LEFT) / t == 9);
    }
    if y > GRID_TOP {
        lemma_div_is_ordered(GRID_TOP - y, -1, t);
        assert((-1) / t == -1);
    } else if y <= GRID_BOTTOM {
        lemma_div_is_ordered(GRID_TOP - GRID_BOTTOM, GRID_TOP - y, t);
        assert((GRID_TOP - GRID_BOTTOM) / t == 5);
    }
}

/// The two transforms are inverse on the grid: the center of any valid cell
/// maps back to exactly that cell.
pub proof fn lemma_cell_of_center(r: i32, c: i32)
    requires
        0 <= r < ROWS,
        0 <= c < COLS,
    ensures
        spec_world_to_cell(
            spec_cell_center(r as int, c as int).0,
            spec_cell_center(r as int, c as int).1,
        ) == Some((r, c)),
{
    let t = TILE as int;
    let x = spec_cell_center(r as int, c as int).0;
    let y = spec_cell_center(r as int, c as int).1;
    lemma_mul_is_commutative(c as int, t);
    lemma_mul_is_commutative(r as int, t);
    assert(x - GRID_LEFT == t * (c as int) + HALF_TILE as int);
    assert(GRID_TOP - y == t * (r as int) + HALF_TILE as int);
    lemma_div_multiples_vanish_fancy(c as int, HALF_TILE as int, t);
    lemma_div_multiples_vanish_fancy(r as int, HALF_TILE as int, t);
}

/// A point strictly outside the grid's world-space bounding box maps to no
/// cell.
pub proof fn lemma_cell_of_outside(x: int, y: int)
    requires
        x < GRID_LEFT || x > GRID_RIGHT || y < GRID_BOTTOM || y > GRID_TOP,
    ensures
        spec_world_to_cell(x, y) == None::<(i32, i32)>,
{
    let t = TILE as int;
    if x > GRID_RIGHT {
        lemma_div_is_ordered(GRID_RIGHT - GRID_LEFT, x - GRID_LEFT, t);
        assert((GRID_RIGHT - GRID_LEFT) / t == 9);
    } else if y < GRID_BOTTOM {
        lemma_div_is_ordered(GRID_TOP - GRID_BOTTOM, GRID_TOP - y, t);
        assert((GRID_TOP - GRID_BOTTOM) / t == 5);
    } else {
        lemma_world_to_cell_guard(x, y);
    }
}

} // verus!
