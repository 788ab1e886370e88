//! The dungeon level: terrain, the per-tile flags, and the occupant index.

use std::collections::HashSet;
use vstd::prelude::*;
use crate::components::Entity;
use crate::geometry::Coord;
use crate::tiles::{
    diagonal_cost, spec_diagonal_cost, spec_tile_cost, spec_tile_opaque, spec_tile_walkable,
    tile_cost, tile_opaque, tile_walkable, TileType,
};

verus! {

broadcast use vstd::std_specs::hash::group_hash_axioms;

/// The longest side a map can have. It is a limit on each side, not on
/// the number of tiles, because of how sight lines are cast on the map:
/// `rltk` adds the sight range to a coordinate in `i32`, and walks each
/// line in single-precision steps of length one, which must still move the
/// position at the far end of the map. Within this limit both hold, and
/// the number of tiles fits an `i32` as well.
pub const MAX_MAP_SIDE: i32 = 32767;

/// One level of the dungeon. Every per-tile list has one entry for each
/// tile, at index `y * width + x`. In the model the set of view-blocking
/// tiles is such a list too: one flag for each tile.
#[derive(Debug)]
pub struct TileMap {
    pub tiles: Vec<TileType>,
    pub width: i32,
    pub height: i32,
    pub revealed_tiles: Vec<bool>,
    pub visible_tiles: Vec<bool>,
    pub blocked: Vec<bool>,
    /// The indices of the tiles that stop sight whatever their terrain,
    /// such as closed doors.
    pub view_blocked: HashSet<usize>,
    /// The entities standing on each tile, as of the last indexing.
    pub tile_content: Vec<Vec<Entity>>,
    pub depth: i32,
    pub name: String,
}

pub struct MapSpec {
    pub tiles: Seq<TileType>,
    pub width: int,
    pub height: int,
    pub revealed_tiles: Seq<bool>,
    pub visible_tiles: Seq<bool>,
    pub blocked: Seq<bool>,
    pub view_blocked: Seq<bool>,
    pub tile_content: Seq<Seq<Entity>>,
    pub depth: i32,
    pub name: String,
}

impl View for TileMap {
    type V = MapSpec;

    open spec fn view(&self) -> MapSpec {
        MapSpec {
            tiles: self.tiles@,
            width: self.width as int,
            height: self.height as int,
            revealed_tiles: self.revealed_tiles@,
            visible_tiles: self.visible_tiles@,
            blocked: self.blocked@,
            view_blocked: Seq::new(
                self.tiles@.len(),
                |i: int| self.view_blocked@.contains(i as usize),
            ),
            tile_content: Seq::new(self.tile_content@.len(), |i: int| self.tile_content@[i]@),
            depth: self.depth,
            name: self.name,
        }
    }
}

impl MapSpec {
    /// The number of tiles.
    pub open spec fn size(self) -> int {
        self.width * self.height
    }

    /// The sides are within limits and every per-tile list covers the map.
    pub open spec fn wf(self) -> bool {
        &&& 1 <= self.width <= MAX_MAP_SIDE
        &&& 1 <= self.height <= MAX_MAP_SIDE
        &&& self.tiles.len() == self.size()
        &&& self.revealed_tiles.len() == self.size()
        &&& self.visible_tiles.len() == self.size()
        &&& self.blocked.len() == self.size()
        &&& self.view_blocked.len() == self.size()
        &&& self.tile_content.len() == self.size()
    }

    /// The level without its occupant index: no one is listed on any tile.
    pub open spec fn unindexed(self) -> MapSpec {
        MapSpec {
            tile_content: Seq::new(self.tile_content.len(), |i: int| Seq::<Entity>::empty()),
            ..self
        }
    }

    pub open spec fn in_bounds(self, x: int, y: int) -> bool {
        0 <= x < self.width && 0 <= y < self.height
    }

    /// On the map and not on its outermost ring of tiles.
    pub open spec fn interior(self, x: int, y: int) -> bool {
        1 <= x <= self.width - 2 && 1 <= y <= self.height - 2
    }

    /// The index of the tile at `(x, y)`.
    pub open spec fn idx(self, x: int, y: int) -> int {
        y * self.width + x
    }

    pub open spec fn x_of(self, idx: int) -> int {
        idx % self.width
    }

    pub open spec fn y_of(self, idx: int) -> int {
        idx / self.width
    }

    pub open spec fn point_of(self, idx: int) -> Coord {
        Coord { x: self.x_of(idx) as i32, y: self.y_of(idx) as i32 }
    }

    /// Sight stops at a tile whose terrain is opaque or that is marked as
    /// blocking the view.
    pub open spec fn opaque(self, idx: int) -> bool {
        spec_tile_opaque(self.tiles[idx]) || self.view_blocked[idx]
    }

    /// The opacity of every tile, in index order.
    pub open spec fn opacity(self) -> Seq<bool> {
        Seq::new(self.tiles.len(), |i: int| self.opaque(i))
    }

    /// A step may end on `(x, y)`: the tile is in the interior and not blocked.
    pub open spec fn exit_valid(self, x: int, y: int) -> bool {
        self.interior(x, y) && !self.blocked[self.idx(x, y)]
    }

    /// The blocked flags that terrain alone gives.
    pub open spec fn terrain_blocked(self) -> Seq<bool> {
        Seq::new(self.tiles.len(), |i: int| !spec_tile_walkable(self.tiles[i]))
    }

    /// A creature's footprint may cover `(x, y)`: the tile lies in the
    /// interior and is walkable. What is off the map or on its outermost
    /// ring counts as blocked.
    pub open spec fn cell_free(self, x: int, y: int) -> bool {
        self.interior(x, y) && spec_tile_walkable(self.tiles[self.idx(x, y)])
    }

    /// A creature of `fw` by `fh` tiles that covers `(x, y)` with any of its
    /// tiles covers free cells only: every tile less than `fw` columns and
    /// less than `fh` rows away from `(x, y)`, in any direction, is free.
    pub open spec fn footprint_fits(self, x: int, y: int, fw: int, fh: int) -> bool {
        forall|cx: int, cy: int|
            -fw < cx < fw && -fh < cy < fh ==> #[trigger] self.cell_free(x + cx, y + cy)
    }

    /// Whether tile `i` is blocked for a creature with the given footprint:
    /// by its own terrain, or, in the interior, because the footprint would
    /// reach a tile that is not free.
    pub open spec fn blocked_for_footprint(self, i: int, fw: int, fh: int) -> bool {
        !spec_tile_walkable(self.tiles[i]) || (self.interior(self.x_of(i), self.y_of(i))
            && !self.footprint_fits(self.x_of(i), self.y_of(i), fw, fh))
    }

    pub open spec fn footprint_blocked(self, fw: int, fh: int) -> Seq<bool> {
        Seq::new(self.tiles.len(), |i: int| self.blocked_for_footprint(i, fw, fh))
    }

    /// The exit from tile `idx` in direction `(dx, dy)`, if a step may end
    /// there: the neighbour's index and the cost of the step.
    pub open spec fn exit_towards(self, idx: int, dx: int, dy: int) -> Seq<(int, int)> {
        let x = self.x_of(idx) + dx;
        let y = self.y_of(idx) + dy;
        if self.exit_valid(x, y) {
            seq![
                (
                    self.idx(x, y),
                    if dx != 0 && dy != 0 {
                        spec_diagonal_cost(self.tiles[idx])
                    } else {
                        spec_tile_cost(self.tiles[idx])
                    },
                ),
            ]
        } else {
            Seq::empty()
        }
    }

    /// The exits from tile `idx`: the four cardinal neighbours, then the four
    /// diagonal ones, each only if a step may end there.
    pub open spec fn exits(self, idx: int) -> Seq<(int, int)> {
        self.exit_towards(idx, -1, 0) + self.exit_towards(idx, 1, 0) + self.exit_towards(
            idx,
            0,
            -1,
        ) + self.exit_towards(idx, 0, 1) + self.exit_towards(idx, -1, -1) + self.exit_towards(
            idx,
            1,
            -1,
        ) + self.exit_towards(idx, -1, 1) + self.exit_towards(idx, 1, 1)
    }
}

/// A tile index and a cost as plain integers.
pub open spec fn exit_model(e: (usize, u32)) -> (int, int) {
    (e.0 as int, e.1 as int)
}

/// On a well-formed map every coordinate in bounds has an index below the
/// number of tiles, and the index gives the coordinate back.
pub proof fn lemma_idx_in_range(m: MapSpec, x: int, y: int)
    requires
        m.wf(),
        m.in_bounds(x, y),
    ensures
        0 <= m.idx(x, y) < m.size(),
        m.x_of(m.idx(x, y)) == x,
        m.y_of(m.idx(x, y)) == y,
        m.size() <= MAX_MAP_SIDE * MAX_MAP_SIDE,
{
    let w = m.width;
    let h = m.height;
    assert(y * w + w <= h * w) by (nonlinear_arith)
        requires
            0 <= y < h,
            w >= 1,
    ;
    assert(0 <= y * w) by (nonlinear_arith)
        requires
            0 <= y,
            w >= 1,
    ;
    assert(w * h == h * w) by (nonlinear_arith);
    assert(w * h <= MAX_MAP_SIDE * MAX_MAP_SIDE) by (nonlinear_arith)
        requires
            1 <= w <= MAX_MAP_SIDE,
            1 <= h <= MAX_MAP_SIDE,
    ;
    vstd::arithmetic::div_mod::lemma_fundamental_div_mod_converse(y * w + x, w, y, x);
}

/// On a well-formed map every index below the number of tiles is the index
/// of exactly one coordinate in bounds.
pub proof fn lemma_point_of_index(m: MapSpec, i: int)
    requires
        m.wf(),
        0 <= i < m.size(),
    ensures
        m.in_bounds(m.x_of(i), m.y_of(i)),
        m.idx(m.x_of(i), m.y_of(i)) == i,
{
    let w = m.width;
    let h = m.height;
    vstd::arithmetic::div_mod::lemma_fundamental_div_mod(i, w);
    vstd::arithmetic::div_mod::lemma_mod_bound(i, w);
    vstd::arithmetic::div_mod::lemma_div_pos_is_pos(i, w);
    assert(w * (i / w) == (i / w) * w) by (nonlinear_arith);
    if i / w >= h {
        assert((i / w) * w >= h * w) by (nonlinear_arith)
            requires
                i / w >= h,
                w >= 1,
        ;
        assert(w * h == h * w) by (nonlinear_arith);
    }
}

/// The tile index is a bijection between the coordinates in bounds and the
/// indices of the tile array.
pub proof fn lemma_tile_index_bijective(m: MapSpec, x1: int, y1: int, x2: int, y2: int)
    requires
        m.wf(),
        m.in_bounds(x1, y1),
        m.in_bounds(x2, y2),
        m.idx(x1, y1) == m.idx(x2, y2),
    ensures
        x1 == x2,
        y1 == y2,
{
    lemma_idx_in_range(m, x1, y1);
    lemma_idx_in_range(m, x2, y2);
}

impl TileMap {
    /// A level of solid wall: nothing is revealed, visible or indexed, and
    /// every tile is blocked, as its terrain has it.
    pub fn new(new_depth: i32, width: i32, height: i32, name: &str) -> (m: TileMap)
        requires
            1 <= width <= MAX_MAP_SIDE,
            1 <= height <= MAX_MAP_SIDE,
        ensures
            m@.wf(),
            m@.width == width,
            m@.height == height,
            m@.depth == new_depth,
            m@.name@ == name@,
            m@.tiles == Seq::new((width * height) as nat, |i: int| TileType::Wall),
            m@.revealed_tiles == Seq::new((width * height) as nat, |i: int| false),
            m@.visible_tiles == Seq::new((width * height) as nat, |i: int| false),
            m@.blocked == m@.terrain_blocked(),
            m@.blocked == Seq::new((width * height) as nat, |i: int| true),
            m@.view_blocked == Seq::new((width * height) as nat, |i: int| false),
            m@.tile_content == Seq::new((width * height) as nat, |i: int| Seq::<Entity>::empty()),
    {
        assert(1 <= width * height <= MAX_MAP_SIDE * MAX_MAP_SIDE) by (nonlinear_arith)
            requires
                1 <= width <= MAX_MAP_SIDE,
                1 <= height <= MAX_MAP_SIDE,
        ;
        let count: usize = (width * height) as usize;
        let mut tiles: Vec<TileType> = Vec::new();
        let mut revealed_tiles: Vec<bool> = Vec::new();
        let mut visible_tiles: Vec<bool> = Vec::new();
        let mut blocked: Vec<bool> = Vec::new();
        let view_blocked: HashSet<usize> = HashSet::new();
        let mut tile_content: Vec<Vec<Entity>> = Vec::new();
        let mut i: usize = 0;
        while i < count
            invariant
                i <= count,
                tiles@ == Seq::new(i as nat, |j: int| TileType::Wall),
                revealed_tiles@ == Seq::new(i as nat, |j: int| false),
                visible_tiles@ == Seq::new(i as nat, |j: int| false),
                blocked@ == Seq::new(i as nat, |j: int| true),
                tile_content@.len() == i,
                forall|j: int| 0 <= j < i ==> (#[trigger] tile_content@[j])@ == Seq::<Entity>::empty(),
            decreases count - i,
        {
            tiles.push(TileType::Wall);
            revealed_tiles.push(false);
            visible_tiles.push(false);
            blocked.push(true);
            tile_content.push(Vec::new());
            i += 1;
            assert(tiles@ =~= Seq::new(i as nat, |j: int| TileType::Wall));
            assert(revealed_tiles@ =~= Seq::new(i as nat, |j: int| false));
            assert(visible_tiles@ =~= Seq::new(i as nat, |j: int| false));
            assert(blocked@ =~= Seq::new(i as nat, |j: int| true));
        }
        let m = TileMap {
            tiles,
            width,
            height,
            revealed_tiles,
            visible_tiles,
            blocked,
            view_blocked,
            tile_content,
            depth: new_depth,
            name: name.to_owned(),
        };
        assert(m@.view_blocked =~= Seq::new((width * height) as nat, |i: int| false));
        assert(m@.blocked =~= m@.terrain_blocked());
        assert(m@.tile_content =~= Seq::new(
            (width * height) as nat,
            |i: int| Seq::<Entity>::empty(),
        ));
        m
    }

    /// The width and the height, as a coordinate.
    pub fn sides(&self) -> (d: Coord)
        ensures
            d.x == self@.width,
            d.y == self@.height,
    {
        Coord { x: self.width, y: self.height }
    }

    /// Whether `(x, y)` is on the map.
    pub fn in_bounds(&self, x: i32, y: i32) -> (r: bool)
        ensures
            r == self@.in_bounds(x as int, y as int),
    {
        0 <= x && x < self.width && 0 <= y && y < self.height
    }

    /// Whether `(x, y)` is on the map and not on its outermost ring.
    pub fn is_interior(&self, x: i32, y: i32) -> (r: bool)
        requires
            self@.wf(),
        ensures
            r == self@.interior(x as int, y as int),
    {
        1 <= x && x <= self.width - 2 && 1 <= y && y <= self.height - 2
    }

    /// The index of the tile at `(x, y)`.
    pub fn xy_idx(&self, x: i32, y: i32) -> (idx: usize)
        requires
            self@.wf(),
            self@.in_bounds(x as int, y as int),
        ensures
            idx == self@.idx(x as int, y as int),
            idx < self@.size(),
    {
        proof {
            lemma_idx_in_range(self@, x as int, y as int);
            assert(0 <= y * self.width) by (nonlinear_arith)
                requires
                    0 <= y,
                    self.width >= 1,
            ;
        }
        (y as usize * self.width as usize) + x as usize
    }

    /// The coordinate of the tile with index `idx`.
    pub fn idx_xy(&self, idx: usize) -> (p: Coord)
        requires
            self@.wf(),
            idx < self@.size(),
        ensures
            p == self@.point_of(idx as int),
            p.x == self@.x_of(idx as int),
            p.y == self@.y_of(idx as int),
            self@.in_bounds(p.x as int, p.y as int),
            self@.idx(p.x as int, p.y as int) == idx,
    {
        proof {
            lemma_point_of_index(self@, idx as int);
        }
        let w: usize = self.width as usize;
        Coord { x: (idx % w) as i32, y: (idx / w) as i32 }
    }

    /// The square of the Euclidean distance between the centres of two tiles.
    pub fn distance_squared(&self, idx1: usize, idx2: usize) -> (d: i128)
        requires
            self@.wf(),
            idx1 < self@.size(),
            idx2 < self@.size(),
        ensures
            d == crate::geometry::spec_distance_squared(
                self@.point_of(idx1 as int),
                self@.point_of(idx2 as int),
            ),
    {
        let p1 = self.idx_xy(idx1);
        let p2 = self.idx_xy(idx2);
        p1.distance_squared(&p2)
    }

    /// Whether sight stops at tile `idx`.
    pub fn opaque_at(&self, idx: usize) -> (r: bool)
        requires
            idx < self@.tiles.len(),
        ensures
            r == self@.opaque(idx as int),
    {
        tile_opaque(self.tiles[idx]) || self.view_blocked.contains(&idx)
    }

    /// Whether a step may end on `(x, y)`.
    pub fn is_exit_valid(&self, x: i32, y: i32) -> (r: bool)
        requires
            self@.wf(),
        ensures
            r == self@.exit_valid(x as int, y as int),
    {
        if x < 1 || x > self.width - 2 || y < 1 || y > self.height - 2 {
            return false;
        }
        let idx = self.xy_idx(x, y);
        !self.blocked[idx]
    }

    /// Sets every blocked flag from the terrain alone.
    pub fn populate_blocked(&mut self)
        requires
            old(self)@.wf(),
        ensures
            final(self)@ == (MapSpec { blocked: old(self)@.terrain_blocked(), ..old(self)@ }),
            final(self)@.wf(),
    {
        let n: usize = self.tiles.len();
        let mut i: usize = 0;
        while i < n
            invariant
                i <= n,
                n == self.tiles@.len(),
                self.blocked@.len() == n,
                self@ == (MapSpec { blocked: self.blocked@, ..old(self)@ }),
                forall|j: int| 0 <= j < i ==> self.blocked@[j] == !spec_tile_walkable(self.tiles@[j]),
            decreases n - i,
        {
            let walkable = tile_walkable(self.tiles[i]);
            self.blocked[i] = !walkable;
            i += 1;
        }
        assert(self.blocked@ =~= old(self)@.terrain_blocked());
    }

    /// Empties the occupant list of every tile.
    pub fn clear_content_index(&mut self)
        requires
            old(self)@.wf(),
        ensures
            final(self)@ == old(self)@.unindexed(),
            final(self)@ == (MapSpec {
                tile_content: Seq::new(
                    old(self)@.tile_content.len(),
                    |i: int| Seq::<Entity>::empty(),
                ),
                ..old(self)@
            }),
            final(self)@.wf(),
    {
        let n: usize = self.tile_content.len();
        let mut i: usize = 0;
        while i < n
            invariant
                i <= n,
                n == self.tile_content@.len(),
                self@ == (MapSpec { tile_content: self@.tile_content, ..old(self)@ }),
                forall|j: int| 0 <= j < i ==> (#[trigger] self.tile_content@[j])@ == Seq::<Entity>::empty(),
            decreases n - i,
        {
            self.tile_content[i].clear();
            i += 1;
        }
        assert(self@.tile_content =~= Seq::new(
            old(self)@.tile_content.len(),
            |i: int| Seq::<Entity>::empty(),
        ));
    }
}

/// The exits of a list of executable pairs, as plain integers.
pub open spec fn exits_model(s: Seq<(usize, u32)>) -> Seq<(int, int)> {
    Seq::new(s.len(), |i: int| exit_model(s[i]))
}

impl TileMap {
    /// Whether a creature of `fw` by `fh` tiles that covers `(x, y)` with
    /// any of its tiles covers free cells only.
    pub fn footprint_fits(&self, x: i32, y: i32, fw: i32, fh: i32) -> (r: bool)
        requires
            self@.wf(),
            self@.interior(x as int, y as int),
        ensures
            r == self@.footprint_fits(x as int, y as int, fw as int, fh as int),
    {
        if fw <= 0 || fh <= 0 {
            return true;
        }
        let rx: i32 = fw - 1;
        let ry: i32 = fh - 1;
        if rx > x - 1 {
            assert(!self@.cell_free(x + (-rx), y + 0));
            return false;
        }
        if rx > self.width - 2 - x {
            assert(!self@.cell_free(x + rx, y + 0));
            return false;
        }
        if ry > y - 1 {
            assert(!self@.cell_free(x + 0, y + (-ry)));
            return false;
        }
        if ry > self.height - 2 - y {
            assert(!self@.cell_free(x + 0, y + ry));
            return false;
        }
        let mut cy: i32 = -ry;
        while cy <= ry
            invariant
                self@.wf(),
                0 <= rx == fw - 1,
                0 <= ry == fh - 1,
                1 <= x - rx,
                x + rx <= self.width - 2,
                1 <= y - ry,
                y + ry <= self.height - 2,
                -ry <= cy <= ry + 1,
                forall|ax: int, ay: int|
                    -fw < ax < fw && -fh < ay < cy ==> #[trigger] self@.cell_free(x + ax, y + ay),
            decreases ry + 1 - cy,
        {
            let mut cx: i32 = -rx;
            while cx <= rx
                invariant
                    self@.wf(),
                    0 <= rx == fw - 1,
                    0 <= ry == fh - 1,
                    1 <= x - rx,
                    x + rx <= self.width - 2,
                    1 <= y - ry,
                    y + ry <= self.height - 2,
                    -ry <= cy <= ry,
                    -rx <= cx <= rx + 1,
                    forall|ax: int| -fw < ax < cx ==> #[trigger] self@.cell_free(x + ax, y + cy),
                decreases rx + 1 - cx,
            {
                let tidx = self.xy_idx(x + cx, y + cy);
                if !tile_walkable(self.tiles[tidx]) {
                    assert(!self@.cell_free(x + cx, y + cy));
                    return false;
                }
                cx += 1;
            }
            cy += 1;
        }
        true
    }

    /// Sets every blocked flag for a creature of `width` by `height` tiles:
    /// the terrain's flags, widened by the creature's size in every
    /// direction. A tile is blocked by its own terrain, or, in the interior,
    /// when a tile less than `width` columns and less than `height` rows
    /// away is a wall or lies on the outermost ring.
    pub fn populate_blocked_multi(&mut self, width: i32, height: i32)
        requires
            old(self)@.wf(),
        ensures
            final(self)@ == (MapSpec {
                blocked: old(self)@.footprint_blocked(width as int, height as int),
                ..old(self)@
            }),
            final(self)@.wf(),
    {
        self.populate_blocked();
        let ghost base = self@;
        let mut y: i32 = 1;
        while y < self.height - 1
            invariant
                1 <= y,
                self@.wf(),
                base == (MapSpec { blocked: old(self)@.terrain_blocked(), ..old(self)@ }),
                self@ == (MapSpec { blocked: self.blocked@, ..base }),
                forall|i: int|
                    0 <= i < base.size() ==> self.blocked@[i] == (if base.y_of(i) < y {
                        base.blocked_for_footprint(i, width as int, height as int)
                    } else {
                        !spec_tile_walkable(base.tiles[i])
                    }),
            decreases self.height - y,
        {
            let mut x: i32 = 1;
            while x < self.width - 1
                invariant
                    1 <= x,
                    1 <= y < self.height - 1,
                    self@.wf(),
                    base == (MapSpec { blocked: old(self)@.terrain_blocked(), ..old(self)@ }),
                    self@ == (MapSpec { blocked: self.blocked@, ..base }),
                    forall|i: int|
                        0 <= i < base.size() ==> self.blocked@[i] == (if base.y_of(i) < y || (
                        base.y_of(i) == y && base.x_of(i) < x) {
                            base.blocked_for_footprint(i, width as int, height as int)
                        } else {
                            !spec_tile_walkable(base.tiles[i])
                        }),
                decreases self.width - x,
            {
                let idx = self.xy_idx(x, y);
                proof {
                    lemma_idx_in_range(base, x as int, y as int);
                }
                let fits = self.footprint_fits(x, y, width, height);
                proof {
                    lemma_footprint_reads_terrain(
                        self@,
                        base,
                        x as int,
                        y as int,
                        width as int,
                        height as int,
                    );
                }
                let ghost before = self.blocked@;
                if !self.blocked[idx] && !fits {
                    self.blocked[idx] = true;
                }
                assert forall|i: int| 0 <= i < base.size() implies self.blocked@[i] == (if base.y_of(
                    i,
                ) < y || (base.y_of(i) == y && base.x_of(i) < x + 1) {
                    base.blocked_for_footprint(i, width as int, height as int)
                } else {
                    !spec_tile_walkable(base.tiles[i])
                }) by {
                    lemma_point_of_index(base, i);
                    if i != idx {
                        assert(self.blocked@[i] == before[i]);
                    }
                }
                x += 1;
            }
            y += 1;
        }
        assert(self.blocked@ =~= old(self)@.footprint_blocked(width as int, height as int)) by {
            assert forall|i: int| 0 <= i < base.size() implies self.blocked@[i]
                == old(self)@.blocked_for_footprint(i, width as int, height as int) by {
                lemma_point_of_index(base, i);
                lemma_footprint_reads_terrain(
                    base,
                    old(self)@,
                    base.x_of(i),
                    base.y_of(i),
                    width as int,
                    height as int,
                );
            }
        }
    }

    /// Adds the exit in direction `(dx, dy)` to `exits`, if a step may end
    /// there.
    fn push_exit(&self, exits: &mut Vec<(usize, u32)>, idx: usize, dx: i32, dy: i32)
        requires
            self@.wf(),
            idx < self@.size(),
            -1 <= dx <= 1,
            -1 <= dy <= 1,
        ensures
            exits_model(final(exits)@) == exits_model(old(exits)@) + self@.exit_towards(
                idx as int,
                dx as int,
                dy as int,
            ),
    {
        let p = self.idx_xy(idx);
        let x: i32 = p.x + dx;
        let y: i32 = p.y + dy;
        if self.is_exit_valid(x, y) {
            let to = self.xy_idx(x, y);
            let tt = self.tiles[idx];
            let cost = if dx != 0 && dy != 0 {
                diagonal_cost(tt)
            } else {
                tile_cost(tt)
            };
            exits.push((to, cost));
            assert(exits_model(exits@) =~= exits_model(old(exits)@) + self@.exit_towards(
                idx as int,
                dx as int,
                dy as int,
            ));
        } else {
            assert(exits_model(exits@) =~= exits_model(old(exits)@) + self@.exit_towards(
                idx as int,
                dx as int,
                dy as int,
            ));
        }
    }

    /// The tiles one step away from `idx` on which a step may end, each with
    /// the cost of the step in hundredths: the cardinal neighbours at the
    /// cost of the terrain of `idx`, the diagonal ones at one and a half
    /// times that.
    pub fn get_available_exits(&self, idx: usize) -> (exits: Vec<(usize, u32)>)
        requires
            self@.wf(),
            idx < self@.size(),
        ensures
            exits_model(exits@) == self@.exits(idx as int),
    {
        let mut exits: Vec<(usize, u32)> = Vec::new();
        assert(exits_model(exits@) =~= Seq::<(int, int)>::empty());
        self.push_exit(&mut exits, idx, -1, 0);
        self.push_exit(&mut exits, idx, 1, 0);
        self.push_exit(&mut exits, idx, 0, -1);
        self.push_exit(&mut exits, idx, 0, 1);
        self.push_exit(&mut exits, idx, -1, -1);
        self.push_exit(&mut exits, idx, 1, -1);
        self.push_exit(&mut exits, idx, -1, 1);
        self.push_exit(&mut exits, idx, 1, 1);
        assert(exits_model(exits@) =~= self@.exits(idx as int));
        exits
    }
}

/// Whether a footprint fits depends on the terrain and the sides alone.
pub proof fn lemma_footprint_reads_terrain(a: MapSpec, b: MapSpec, x: int, y: int, fw: int, fh: int)
    requires
        a.tiles == b.tiles,
        a.width == b.width,
        a.height == b.height,
    ensures
        a.footprint_fits(x, y, fw, fh) == b.footprint_fits(x, y, fw, fh),
{
    if a.footprint_fits(x, y, fw, fh) {
        assert forall|cx: int, cy: int| -fw < cx < fw && -fh < cy < fh implies #[trigger] b.cell_free(
            x + cx,
            y + cy,
        ) by {
            assert(a.cell_free(x + cx, y + cy));
        }
    }
    if b.footprint_fits(x, y, fw, fh) {
        assert forall|cx: int, cy: int| -fw < cx < fw && -fh < cy < fh implies #[trigger] a.cell_free(
            x + cx,
            y + cy,
        ) by {
            assert(b.cell_free(x + cx, y + cy));
        }
    }
}

/// Every exit leads to a tile in the interior that is not blocked and that
/// touches the tile it leaves.
pub proof fn lemma_exits_are_open_neighbours(m: MapSpec, idx: int, k: int)
    requires
        m.wf(),
        0 <= idx < m.size(),
        0 <= k < m.exits(idx).len(),
    ensures
        ({
            let to = m.exits(idx)[k].0;
            &&& 0 <= to < m.size()
            &&& !m.blocked[to]
            &&& m.interior(m.x_of(to), m.y_of(to))
            &&& -1 <= m.x_of(to) - m.x_of(idx) <= 1
            &&& -1 <= m.y_of(to) - m.y_of(idx) <= 1
            &&& to != idx
        }),
{
    lemma_point_of_index(m, idx);
    let x = m.x_of(idx);
    let y = m.y_of(idx);
    lemma_exit_towards(m, idx, -1, 0);
    lemma_exit_towards(m, idx, 1, 0);
    lemma_exit_towards(m, idx, 0, -1);
    lemma_exit_towards(m, idx, 0, 1);
    lemma_exit_towards(m, idx, -1, -1);
    lemma_exit_towards(m, idx, 1, -1);
    lemma_exit_towards(m, idx, -1, 1);
    lemma_exit_towards(m, idx, 1, 1);
}

proof fn lemma_exit_towards(m: MapSpec, idx: int, dx: int, dy: int)
    requires
        m.wf(),
        0 <= idx < m.size(),
        -1 <= dx <= 1,
        -1 <= dy <= 1,
        dx != 0 || dy != 0,
    ensures
        m.exit_towards(idx, dx, dy).len() <= 1,
        m.exit_towards(idx, dx, dy).len() == 1 ==> ({
            let to = m.exit_towards(idx, dx, dy)[0].0;
            &&& 0 <= to < m.size()
            &&& !m.blocked[to]
            &&& m.interior(m.x_of(to), m.y_of(to))
            &&& m.x_of(to) == m.x_of(idx) + dx
            &&& m.y_of(to) == m.y_of(idx) + dy
            &&& to != idx
        }),
{
    lemma_point_of_index(m, idx);
    let x = m.x_of(idx) + dx;
    let y = m.y_of(idx) + dy;
    if m.exit_valid(x, y) {
        lemma_idx_in_range(m, x, y);
    }
}

/// For a creature of a single tile the blocked flags are those of the
/// terrain.
pub proof fn lemma_single_tile_footprint(m: MapSpec)
    requires
        m.wf(),
    ensures
        m.footprint_blocked(1, 1) == m.terrain_blocked(),
{
    assert forall|i: int| 0 <= i < m.tiles.len() implies m.blocked_for_footprint(i, 1, 1)
        == !spec_tile_walkable(m.tiles[i]) by {
        lemma_point_of_index(m, i);
        let x = m.x_of(i);
        let y = m.y_of(i);
        if m.interior(x, y) && spec_tile_walkable(m.tiles[i]) {
            assert forall|cx: int, cy: int| -1 < cx < 1 && -1 < cy < 1 implies #[trigger] m.cell_free(
                x + cx,
                y + cy,
            ) by {}
        }
        if m.footprint_fits(x, y, 1, 1) {
            assert(m.cell_free(x + 0, y + 0));
        }
    }
    assert(m.footprint_blocked(1, 1) =~= m.terrain_blocked());
}

/// The footprint reaches in every direction: a tile next to a wall, on
/// whichever side, is blocked for a creature of two by two tiles.
pub proof fn lemma_footprint_reaches_all_around(m: MapSpec, i: int, dx: int, dy: int)
    requires
        m.wf(),
        0 <= i < m.size(),
        m.interior(m.x_of(i), m.y_of(i)),
        -1 <= dx <= 1,
        -1 <= dy <= 1,
        !m.cell_free(m.x_of(i) + dx, m.y_of(i) + dy),
    ensures
        m.blocked_for_footprint(i, 2, 2),
{
}

} // verus!
