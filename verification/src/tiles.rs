//! Terrain kinds and what each means for movement and sight.

use vstd::prelude::*;

verus! {

/// The terrain of one tile.
#[derive(Clone, Copy, Debug, PartialEq, Eq, Hash, Structural)]
pub enum TileType {
    Wall,
    Floor,
    DownStairs,
    UpStairs,
}

/// The cost of one cardinal step over ordinary ground, in hundredths.
pub const STEP_COST: u32 = 100;

/// Creatures can stand on everything but walls.
pub open spec fn spec_tile_walkable(tt: TileType) -> bool {
    tt != TileType::Wall
}

/// Walls are the only terrain that stops sight.
pub open spec fn spec_tile_opaque(tt: TileType) -> bool {
    tt == TileType::Wall
}

/// The cost of leaving a tile of this terrain by a cardinal step, in
/// hundredths of a step over ordinary ground.
pub open spec fn spec_tile_cost(tt: TileType) -> int {
    100
}

/// A diagonal step costs one and a half times the cardinal step.
pub open spec fn spec_diagonal_cost(tt: TileType) -> int {
    spec_tile_cost(tt) * 3 / 2
}

/// Whether creatures can stand on this terrain.
pub fn tile_walkable(tt: TileType) -> (r: bool)
    ensures
        r == spec_tile_walkable(tt),
{
    match tt {
        TileType::Wall => false,
        TileType::Floor | TileType::DownStairs | TileType::UpStairs => true,
    }
}

/// Whether this terrain stops sight.
pub fn tile_opaque(tt: TileType) -> (r: bool)
    ensures
        r == spec_tile_opaque(tt),
{
    match tt {
        TileType::Wall => true,
        TileType::Floor | TileType::DownStairs | TileType::UpStairs => false,
    }
}

/// The cost of leaving a tile of this terrain by a cardinal step, in
/// hundredths.
pub fn tile_cost(tt: TileType) -> (r: u32)
    ensures
        r == spec_tile_cost(tt),
{
    STEP_COST
}

/// The cost of leaving a tile of this terrain by a diagonal step, in
/// hundredths.
pub fn diagonal_cost(tt: TileType) -> (r: u32)
    ensures
        r == spec_diagonal_cost(tt),
{
    tile_cost(tt) / 2 * 3
}

} // verus!
