//! Tile coordinates and the distances between them.
//!
//! Distances are kept squared, as exact integers: every range test the
//! engine makes compares a distance with a fixed number of tiles, and such a
//! test is the same on the squares.

use vstd::prelude::*;

verus! {

/// A tile coordinate: `x` counts columns from the left, `y` rows from the top.
#[derive(Clone, Copy, Debug, PartialEq, Eq, Hash, Structural)]
pub struct Coord {
    pub x: i32,
    pub y: i32,
}

/// The square of the Euclidean distance between the centres of two tiles.
pub open spec fn spec_distance_squared(a: Coord, b: Coord) -> int {
    (a.x - b.x) * (a.x - b.x) + (a.y - b.y) * (a.y - b.y)
}

/// Two tiles are within melee reach when their centres are less than one and
/// a half tiles apart: the tile itself and its eight neighbours.
pub open spec fn spec_within_melee_reach(a: Coord, b: Coord) -> bool {
    spec_distance_squared(a, b) <= 2
}

/// `limit` tiles or fewer lie between two tiles whose squared distance is
/// `distance_squared`. A negative limit covers nothing.
pub open spec fn spec_covers(limit: int, distance_squared: int) -> bool {
    limit >= 0 && distance_squared <= limit * limit
}

/// The distance, rounded down to whole tiles, is at most `limit`.
pub open spec fn spec_covers_rounded_down(limit: int, distance_squared: int) -> bool {
    limit >= 0 && distance_squared < (limit + 1) * (limit + 1)
}

impl Coord {
    /// The coordinate `(x, y)`.
    pub fn new(x: i32, y: i32) -> (p: Coord)
        ensures
            p == (Coord { x, y }),
    {
        Coord { x, y }
    }

    /// The square of the Euclidean distance to `other`.
    pub fn distance_squared(&self, other: &Coord) -> (d: i128)
        ensures
            d == spec_distance_squared(*self, *other),
            0 <= d,
    {
        let dx: i128 = self.x as i128 - other.x as i128;
        let dy: i128 = self.y as i128 - other.y as i128;
        assert(-0x1_0000_0000 < dx < 0x1_0000_0000);
        assert(-0x1_0000_0000 < dy < 0x1_0000_0000);
        assert(0 <= dx * dx <= 0x1_0000_0000 * 0x1_0000_0000) by (nonlinear_arith)
            requires
                -0x1_0000_0000 < dx < 0x1_0000_0000,
        ;
        assert(0 <= dy * dy <= 0x1_0000_0000 * 0x1_0000_0000) by (nonlinear_arith)
            requires
                -0x1_0000_0000 < dy < 0x1_0000_0000,
        ;
        dx * dx + dy * dy
    }

    /// Whether `other` is this tile or one of its eight neighbours.
    pub fn within_melee_reach(&self, other: &Coord) -> (r: bool)
        ensures
            r == spec_within_melee_reach(*self, *other),
    {
        self.distance_squared(other) <= 2
    }
}

/// Whether a reach of `limit` whole tiles covers a squared distance.
pub fn covers(limit: i32, distance_squared: i128) -> (r: bool)
    requires
        0 <= distance_squared,
    ensures
        r == spec_covers(limit as int, distance_squared as int),
{
    if limit < 0 {
        return false;
    }
    let l: i128 = limit as i128;
    assert(0 <= l * l <= 0x8000_0000 * 0x8000_0000) by (nonlinear_arith)
        requires
            0 <= l < 0x8000_0000,
    ;
    distance_squared <= l * l
}

/// Whether a reach of `limit` whole tiles covers a squared distance once the
/// distance is rounded down to whole tiles.
pub fn covers_rounded_down(limit: i32, distance_squared: i128) -> (r: bool)
    requires
        0 <= distance_squared,
    ensures
        r == spec_covers_rounded_down(limit as int, distance_squared as int),
{
    if limit < 0 {
        return false;
    }
    let l: i128 = limit as i128 + 1;
    assert(0 <= l * l <= 0x8000_0000 * 0x8000_0000) by (nonlinear_arith)
        requires
            0 <= l <= 0x8000_0000,
    ;
    distance_squared < l * l
}

/// Melee reach is exactly the tile and its eight neighbours.
pub proof fn lemma_melee_reach_is_adjacency(a: Coord, b: Coord)
    ensures
        spec_within_melee_reach(a, b) <==> (-1 <= a.x - b.x <= 1 && -1 <= a.y - b.y <= 1),
{
    let dx = a.x - b.x;
    let dy = a.y - b.y;
    assert(dx * dx >= 0 && dy * dy >= 0) by (nonlinear_arith);
    assert((dx <= -2 || dx >= 2) ==> dx * dx >= 4) by (nonlinear_arith);
    assert((dy <= -2 || dy >= 2) ==> dy * dy >= 4) by (nonlinear_arith);
    assert((-1 <= dx <= 1) ==> dx * dx <= 1) by (nonlinear_arith);
    assert((-1 <= dy <= 1) ==> dy * dy <= 1) by (nonlinear_arith);
}

} // verus!
