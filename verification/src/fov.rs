//! Field of view. The sight lines are cast by `rltk`; this module hands it
//! the map, and keeps of what comes back the tiles inside the map's
//! outermost ring.

use vstd::prelude::*;
use crate::components::MAX_SIGHT_RANGE;
use crate::geometry::Coord;
use crate::map::TileMap;

verus! {

/// `rltk::Point`, a coordinate as `rltk` takes it: two public fields, `x`
/// and `y`.
#[verifier::external_type_specification]
pub struct ExPoint(rltk::Point);

/// The set of tiles that `rltk::field_of_view` finds in sight of `(x, y)`
/// within `range`, on a map of the given sides whose tiles have the given
/// opacity.
pub uninterp spec fn lit_tiles(
    x: int,
    y: int,
    range: int,
    width: int,
    height: int,
    opaque: Seq<bool>,
) -> Set<(int, int)>;

/// The coordinates in a list of points, as a set.
pub open spec fn points_model(points: Seq<Coord>) -> Set<(int, int)> {
    Set::new(
        |p: (int, int)|
            exists|i: int|
                0 <= i < points.len() && (#[trigger] points[i]).x == p.0 && points[i].y == p.1,
    )
}

/// The map as `rltk` casts sight lines on it: the sides and the opacity
/// of its tiles, and nothing else. The sight lines ask about tiles of the
/// map only.
struct SightMap<'a> {
    map: &'a TileMap,
}

impl<'a> View for SightMap<'a> {
    type V = crate::map::MapSpec;

    closed spec fn view(&self) -> crate::map::MapSpec {
        self.map@
    }
}

impl<'a> rltk::BaseMap for SightMap<'a> {
    fn is_opaque(&self, idx: usize) -> (r: bool)
        ensures
            r == (if idx < self@.tiles.len() {
                self@.opaque(idx as int)
            } else {
                true
            }),
    {
        if idx < self.map.tiles.len() {
            self.map.opaque_at(idx)
        } else {
            true
        }
    }
}

impl<'a> rltk::Algorithm2D for SightMap<'a> {
    fn dimensions(&self) -> (d: rltk::Point)
        ensures
            d.x == self@.width,
            d.y == self@.height,
    {
        rltk::Point { x: self.map.width, y: self.map.height }
    }
}

/// `rltk::field_of_view`, from `(x, y)` on `map`. The tiles come back
/// without repetition and in no particular order. Each has both
/// coordinates above 0 and below the map's side, because the sight lines
/// stop where `Algorithm2D::in_bounds` fails. Which tiles they are depends
/// on the start, the range, the sides and the opacity of the tiles alone.
/// The range is kept within `MAX_SIGHT_RANGE`: the function reserves room
/// for the square of twice the range, which must not overflow.
#[verifier::external_body]
fn cast_sight_lines(map: &TileMap, x: i32, y: i32, range: i32) -> (tiles: Vec<Coord>)
    requires
        map@.wf(),
        map@.in_bounds(x as int, y as int),
        -MAX_SIGHT_RANGE <= range <= MAX_SIGHT_RANGE,
    ensures
        tiles@.no_duplicates(),
        forall|i: int|
            0 <= i < tiles.len() ==> 0 < (#[trigger] tiles[i]).x < map@.width && 0 < tiles[i].y
                < map@.height,
        points_model(tiles@) == lit_tiles(
            x as int,
            y as int,
            range as int,
            map@.width,
            map@.height,
            map@.opacity(),
        ),
{
    rltk::field_of_view(rltk::Point::new(x, y), range, &SightMap { map }).iter().map(
        |p| Coord { x: p.x, y: p.y },
    ).collect()
}

/// `p` is among the first `n` of `points`.
pub open spec fn found_before(points: Seq<Coord>, n: int, p: Coord) -> bool {
    exists|j: int| 0 <= j < n && #[trigger] points[j] == p
}

impl crate::map::MapSpec {
    /// The tiles in sight of `(x, y)` within `range`: what the sight lines
    /// reach, less the map's outermost ring.
    pub open spec fn in_sight(self, x: int, y: int, range: int) -> Set<(int, int)> {
        Set::new(
            |p: (int, int)|
                lit_tiles(x, y, range, self.width, self.height, self.opacity()).contains(p)
                    && self.interior(p.0, p.1),
        )
    }
}

impl TileMap {
    /// The tiles in sight of `(x, y)` within `range`, each once, in no
    /// particular order. None of them lies on the map's outermost ring.
    pub fn field_of_view(&self, x: i32, y: i32, range: i32) -> (tiles: Vec<Coord>)
        requires
            self@.wf(),
            self@.in_bounds(x as int, y as int),
            -MAX_SIGHT_RANGE <= range <= MAX_SIGHT_RANGE,
        ensures
            tiles@.no_duplicates(),
            forall|i: int|
                0 <= i < tiles.len() ==> self@.interior(
                    (#[trigger] tiles[i]).x as int,
                    tiles[i].y as int,
                ),
            points_model(tiles@) == self@.in_sight(x as int, y as int, range as int),
    {
        let raw = cast_sight_lines(self, x, y, range);
        let mut tiles: Vec<Coord> = Vec::new();
        let mut i: usize = 0;
        while i < raw.len()
            invariant
                i <= raw.len(),
                self@.wf(),
                raw@.no_duplicates(),
                tiles@.no_duplicates(),
                forall|k: int|
                    0 <= k < tiles.len() ==> self@.interior(
                        (#[trigger] tiles[k]).x as int,
                        tiles[k].y as int,
                    ),
                forall|k: int| 0 <= k < tiles.len() ==> found_before(raw@, i as int, #[trigger] tiles[k]),
                forall|j: int|
                    0 <= j < i && self@.interior((#[trigger] raw[j]).x as int, raw[j].y as int)
                        ==> tiles@.contains(raw[j]),
            decreases raw.len() - i,
        {
            let p = raw[i];
            let ghost before = tiles@;
            if self.is_interior(p.x, p.y) {
                assert forall|k: int| 0 <= k < before.len() implies #[trigger] before[k] != p by {
                    assert(found_before(raw@, i as int, before[k]));
                    let j = choose|j: int| 0 <= j < i && #[trigger] raw@[j] == before[k];
                    assert(raw[j] != raw[i as int]);
                }
                tiles.push(p);
                assert forall|j: int|
                    0 <= j < i + 1 && self@.interior(
                        (#[trigger] raw[j]).x as int,
                        raw[j].y as int,
                    ) implies tiles@.contains(raw[j]) by {
                    if j < i {
                        assert(before.contains(raw[j]));
                        let k = choose|k: int| 0 <= k < before.len() && before[k] == raw[j];
                        assert(tiles@[k] == raw[j]);
                    } else {
                        assert(tiles@[before.len() as int] == raw[j]);
                    }
                }
            }
            assert forall|k: int| 0 <= k < tiles.len() implies found_before(
                raw@,
                i as int + 1,
                #[trigger] tiles[k],
            ) by {
                if k < before.len() {
                    assert(found_before(raw@, i as int, before[k]));
                    let j = choose|j: int| 0 <= j < i && #[trigger] raw@[j] == before[k];
                    assert(raw@[j] == tiles[k]);
                } else {
                    assert(raw@[i as int] == tiles[k]);
                }
            }
            i += 1;
        }
        proof {
            let goal = self@.in_sight(x as int, y as int, range as int);
            let lit = lit_tiles(
                x as int,
                y as int,
                range as int,
                self@.width,
                self@.height,
                self@.opacity(),
            );
            assert(points_model(raw@) == lit);
            assert forall|p: (int, int)| points_model(tiles@).contains(p) <==> goal.contains(
                p,
            ) by {
                if points_model(tiles@).contains(p) {
                    let k = choose|k: int|
                        0 <= k < tiles@.len() && (#[trigger] tiles@[k]).x == p.0 && tiles@[k].y
                            == p.1;
                    assert(found_before(raw@, i as int, tiles[k]));
                    let j = choose|j: int| 0 <= j < i && #[trigger] raw@[j] == tiles[k];
                    assert(raw@[j].x == p.0 && raw@[j].y == p.1);
                    assert(points_model(raw@).contains(p));
                }
                if goal.contains(p) {
                    assert(points_model(raw@).contains(p));
                    let j = choose|j: int|
                        0 <= j < raw@.len() && (#[trigger] raw@[j]).x == p.0 && raw@[j].y == p.1;
                    assert(tiles@.contains(raw[j]));
                    let k = choose|k: int| 0 <= k < tiles.len() && tiles@[k] == raw[j];
                    assert(tiles@[k].x == p.0 && tiles@[k].y == p.1);
                }
            }
            assert(points_model(tiles@) =~= goal);
        }
        tiles
    }
}

} // verus!
