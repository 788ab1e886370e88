//! Moving between levels: what is left behind is frozen where it stands,
//! the level itself is kept as it was left, and both come back on return.

use std::collections::HashSet;
use vstd::prelude::*;
use crate::components::{
    CombatStats, Entity, EntitySpec, OtherLevelPosition, Position, ViewshedSpec,
};
use crate::gamelog::LogEntry;
use crate::geometry::Coord;
use crate::map::{MapSpec, TileMap};
use crate::tiles::TileType;
use crate::world::{names, World, WorldSpec};

verus! {

broadcast use vstd::std_specs::hash::group_hash_axioms;

impl TileMap {
    /// A copy of this level.
    pub fn duplicate(&self) -> (copy: TileMap)
        requires
            self@.wf(),
        ensures
            copy@ == self@,
    {
        let n: usize = self.tiles.len();
        let mut tiles: Vec<TileType> = Vec::new();
        let mut revealed_tiles: Vec<bool> = Vec::new();
        let mut visible_tiles: Vec<bool> = Vec::new();
        let mut blocked: Vec<bool> = Vec::new();
        let mut view_blocked: HashSet<usize> = HashSet::new();
        let mut tile_content: Vec<Vec<Entity>> = Vec::new();
        let mut i: usize = 0;
        while i < n
            invariant
                i <= n,
                self@.wf(),
                n == self@.size(),
                n == self.tile_content@.len(),
                tiles@ == self.tiles@.take(i as int),
                revealed_tiles@ == self.revealed_tiles@.take(i as int),
                visible_tiles@ == self.visible_tiles@.take(i as int),
                blocked@ == self.blocked@.take(i as int),
                forall|k: usize|
                    view_blocked@.contains(k) == (k < i && self.view_blocked@.contains(k)),
                tile_content@.len() == i,
                forall|j: int| 0 <= j < i ==> (#[trigger] tile_content@[j])@ == self.tile_content@[j]@,
            decreases n - i,
        {
            tiles.push(self.tiles[i]);
            revealed_tiles.push(self.revealed_tiles[i]);
            visible_tiles.push(self.visible_tiles[i]);
            blocked.push(self.blocked[i]);
            if self.view_blocked.contains(&i) {
                view_blocked.insert(i);
            }
            let mut content: Vec<Entity> = Vec::new();
            let src = &self.tile_content[i];
            let mut c: usize = 0;
            while c < src.len()
                invariant
                    c <= src.len(),
                    content@ == src@.take(c as int),
                decreases src.len() - c,
            {
                content.push(src[c]);
                assert(content@ =~= src@.take(c as int + 1));
                c += 1;
            }
            assert(src@.take(c as int) =~= src@);
            tile_content.push(content);
            i += 1;
            assert(tiles@ =~= self.tiles@.take(i as int));
            assert(revealed_tiles@ =~= self.revealed_tiles@.take(i as int));
            assert(visible_tiles@ =~= self.visible_tiles@.take(i as int));
            assert(blocked@ =~= self.blocked@.take(i as int));
        }
        let copy = TileMap {
            tiles,
            width: self.width,
            height: self.height,
            revealed_tiles,
            visible_tiles,
            blocked,
            view_blocked,
            tile_content,
            depth: self.depth,
            name: self.name.clone(),
        };
        assert(copy@.tiles =~= self@.tiles);
        assert(copy@.revealed_tiles =~= self@.revealed_tiles);
        assert(copy@.visible_tiles =~= self@.visible_tiles);
        assert(copy@.blocked =~= self@.blocked);
        assert(copy@.view_blocked =~= self@.view_blocked);
        assert(copy@.tile_content =~= self@.tile_content);
        copy
    }
}

/// The position of the first level from position `k` on that has the given
/// depth.
pub open spec fn spec_find_level(levels: Seq<MapSpec>, depth: i32, k: int) -> Option<int>
    decreases levels.len() - k,
{
    if k < 0 || k >= levels.len() {
        None
    } else if levels[k].depth == depth {
        Some(k)
    } else {
        spec_find_level(levels, depth, k + 1)
    }
}

/// Where `spec_find_level` finds a level, there is one of that depth.
pub proof fn lemma_find_level(levels: Seq<MapSpec>, depth: i32, k: int)
    requires
        0 <= k,
    ensures
        spec_find_level(levels, depth, k) matches Some(i) ==> k <= i < levels.len()
            && levels[i].depth == depth,
    decreases levels.len() - k,
{
    if k < levels.len() && levels[k].depth != depth {
        lemma_find_level(levels, depth, k + 1);
    }
}

impl WorldSpec {
    /// The kept levels with the current one stored under its depth: in
    /// place of the level kept for that depth, or at the end.
    pub open spec fn with_level_stored(self) -> WorldSpec {
        match spec_find_level(self.dungeon, self.map.depth, 0) {
            Some(i) => WorldSpec { dungeon: self.dungeon.update(i, self.map), ..self },
            None => WorldSpec { dungeon: self.dungeon.push(self.map), ..self },
        }
    }

    /// The world with everyone but the player frozen: who stood somewhere
    /// stands nowhere, and remembers the place and the depth of this level.
    pub open spec fn after_freeze(self) -> WorldSpec {
        WorldSpec {
            entities: Seq::new(
                self.entities.len(),
                |i: int|
                    match self.entities[i].position {
                        Some(p) => if i != self.player.id {
                            EntitySpec {
                                position: None,
                                other_level_position: Some(
                                    OtherLevelPosition { x: p.x, y: p.y, depth: self.map.depth },
                                ),
                                ..self.entities[i]
                            }
                        } else {
                            self.entities[i]
                        },
                        None => self.entities[i],
                    },
            ),
            ..self
        }
    }

    /// Entity `i` thaws on this level: it is not the player, and it
    /// remembers a place on a level of this depth that lies on the map.
    pub open spec fn thaws(self, i: int) -> bool {
        &&& i != self.player.id
        &&& self.entities[i].other_level_position matches Some(p)
        &&& p.depth == self.map.depth
        &&& self.map.in_bounds(p.x as int, p.y as int)
    }

    /// The world with everyone thawed who was frozen on a level of this
    /// depth: they stand where they stood.
    pub open spec fn after_thaw(self) -> WorldSpec {
        WorldSpec {
            entities: Seq::new(
                self.entities.len(),
                |i: int|
                    if self.thaws(i) {
                        EntitySpec {
                            position: Some(
                                Position {
                                    x: self.entities[i].other_level_position->0.x,
                                    y: self.entities[i].other_level_position->0.y,
                                },
                            ),
                            other_level_position: None,
                            ..self.entities[i]
                        }
                    } else {
                        self.entities[i]
                    },
            ),
            ..self
        }
    }

    /// Entity `i` is left behind by a descent that keeps nothing: it is
    /// alive, no player, and not in the player's backpack.
    pub open spec fn left_behind(self, i: int) -> bool {
        &&& self.entities[i].alive
        &&& self.entities[i].player is None
        &&& !(self.entities[i].in_backpack matches Some(pack) && pack.owner == self.player)
    }

    /// The entities before index `n` that are left behind, in index order.
    pub open spec fn leftovers(self, n: int) -> Seq<Entity>
        decreases n,
    {
        if n <= 0 {
            Seq::empty()
        } else if self.left_behind(n - 1) {
            self.leftovers(n - 1).push(Entity { id: (n - 1) as usize })
        } else {
            self.leftovers(n - 1)
        }
    }
}

impl World {
    /// The position among the kept levels of the one with the given depth.
    pub fn find_level(&self, depth: i32) -> (r: Option<usize>)
        ensures
            match r {
                Some(i) => spec_find_level(self@.dungeon, depth, 0) == Some(i as int),
                None => spec_find_level(self@.dungeon, depth, 0) is None,
            },
    {
        let mut k: usize = 0;
        assert(self@.dungeon.len() == self.dungeon@.len());
        while k < self.dungeon.len()
            invariant
                k <= self.dungeon.len(),
                self@.dungeon.len() == self.dungeon@.len(),
                spec_find_level(self@.dungeon, depth, 0) == spec_find_level(
                    self@.dungeon,
                    depth,
                    k as int,
                ),
            decreases self.dungeon.len() - k,
        {
            if self.dungeon[k].depth == depth {
                return Some(k);
            }
            k += 1;
        }
        None
    }

    /// Keeps the current level, as it is now, under its depth.
    pub fn store_map(&mut self)
        requires
            old(self)@.wf(),
        ensures
            final(self)@ == old(self)@.with_level_stored(),
            final(self)@.wf(),
    {
        let ghost before = self@;
        let copy = self.map.duplicate();
        match self.find_level(self.map.depth) {
            Some(i) => {
                proof {
                    lemma_find_level(before.dungeon, before.map.depth, 0);
                }
                self.dungeon[i] = copy;
                assert(self@.dungeon =~= before.dungeon.update(i as int, before.map));
            },
            None => {
                self.dungeon.push(copy);
                assert(self@.dungeon =~= before.dungeon.push(before.map));
            },
        }
        assert(self@.entities =~= before.entities);
        proof {
            assert forall|d: int| 0 <= d < self@.dungeon.len() implies (
            #[trigger] self@.dungeon[d]).wf() by {
                if d < before.dungeon.len() {
                    assert(before.dungeon[d].wf());
                }
            }
            assert forall|j: int| 0 <= j < self@.entities.len() implies #[trigger] self@.entity_wf(
                j,
            ) by {
                assert(before.entity_wf(j));
            }
        }
    }
}

/// Freezes everyone but the player where they stand.
pub fn freeze_level_entities(world: &mut World)
    requires
        old(world)@.wf(),
    ensures
        final(world)@ == old(world)@.after_freeze(),
        final(world)@.wf(),
{
    let ghost start = world@;
    let n: usize = world.entities.len();
    let depth = world.map.depth;
    assert(world@.entities.len() == world.entities@.len());
    let mut i: usize = 0;
    while i < n
        invariant
            i <= n,
            n == start.entities.len(),
            n == world.entities@.len(),
            depth == start.map.depth,
            world@ == (WorldSpec { entities: world@.entities, ..start }),
            forall|t: int|
                0 <= t < n ==> world@.entities[t] == (if t < i {
                    start.after_freeze().entities[t]
                } else {
                    start.entities[t]
                }),
        decreases n - i,
    {
        let ghost before = world@;
        if i != world.player.id {
            match world.entities[i].position {
                Some(p) => {
                    world.entities[i].other_level_position = Some(
                        OtherLevelPosition { x: p.x, y: p.y, depth },
                    );
                    world.entities[i].position = None;
                },
                None => {},
            }
        }
        assert(world@.dungeon =~= start.dungeon);
        assert forall|t: int| 0 <= t < n implies world@.entities[t] == (if t < i + 1 {
            start.after_freeze().entities[t]
        } else {
            start.entities[t]
        }) by {
            if t != i {
                assert(world@.entities[t] == before.entities[t]);
            } else {
                assert(before.entities[t] == start.entities[t]);
                assert(before.player == start.player);
                assert(before.map == start.map);
            }
        }
        i += 1;
    }
    assert(world@.entities =~= start.after_freeze().entities);
    proof {
        assert forall|j: int| 0 <= j < n implies #[trigger] world@.entity_wf(j) by {
            assert(start.entity_wf(j));
        }
    }
}

/// Thaws everyone who was frozen on a level of the current depth.
pub fn thaw_level_entities(world: &mut World)
    requires
        old(world)@.wf(),
    ensures
        final(world)@ == old(world)@.after_thaw(),
        final(world)@.wf(),
{
    let ghost start = world@;
    let n: usize = world.entities.len();
    assert(world@.entities.len() == world.entities@.len());
    let mut i: usize = 0;
    while i < n
        invariant
            i <= n,
            n == start.entities.len(),
            n == world.entities@.len(),
            world@ == (WorldSpec { entities: world@.entities, ..start }),
            forall|t: int|
                0 <= t < n ==> world@.entities[t] == (if t < i {
                    start.after_thaw().entities[t]
                } else {
                    start.entities[t]
                }),
        decreases n - i,
    {
        let ghost before = world@;
        if i != world.player.id {
            match world.entities[i].other_level_position {
                Some(p) => {
                    if p.depth == world.map.depth && world.map.in_bounds(p.x, p.y) {
                        world.entities[i].position = Some(Position { x: p.x, y: p.y });
                        world.entities[i].other_level_position = None;
                    }
                },
                None => {},
            }
        }
        assert(world@.dungeon =~= start.dungeon);
        assert forall|t: int| 0 <= t < n implies world@.entities[t] == (if t < i + 1 {
            start.after_thaw().entities[t]
        } else {
            start.entities[t]
        }) by {
            if t != i {
                assert(world@.entities[t] == before.entities[t]);
            } else {
                assert(before.entities[t] == start.entities[t]);
                assert(before.player == start.player);
                assert(before.map == start.map);
            }
        }
        i += 1;
    }
    assert(world@.entities =~= start.after_thaw().entities);
    proof {
        assert forall|j: int| 0 <= j < n implies #[trigger] world@.entity_wf(j) by {
            assert(start.entity_wf(j));
        }
    }
}

/// The entities that a descent that keeps nothing deletes: every entity
/// but the players and what the player carries.
pub fn entities_to_remove_on_level_change(world: &World) -> (to_delete: Vec<Entity>)
    ensures
        to_delete@ == world@.leftovers(world@.entities.len() as int),
{
    let mut to_delete: Vec<Entity> = Vec::new();
    let n: usize = world.entities.len();
    let mut i: usize = 0;
    while i < n
        invariant
            i <= n,
            n == world@.entities.len(),
            to_delete@ == world@.leftovers(i as int),
        decreases n - i,
    {
        let rec = &world.entities[i];
        let carried = match rec.in_backpack {
            Some(pack) => pack.owner == world.player,
            None => false,
        };
        if rec.alive && rec.player.is_none() && !carried {
            to_delete.push(Entity { id: i });
        }
        i += 1;
    }
    to_delete
}

/// The list of leftovers names exactly the entities that are left behind.
pub proof fn lemma_leftovers(w: WorldSpec, n: int, i: int)
    requires
        0 <= n <= w.entities.len() <= usize::MAX,
    ensures
        names(w.leftovers(n), i) <==> (0 <= i < n && w.left_behind(i)),
    decreases n,
{
    if n > 0 {
        lemma_leftovers(w, n - 1, i);
        if w.left_behind(n - 1) {
            crate::world::lemma_names_push(w.leftovers(n - 1), Entity { id: (n - 1) as usize }, i);
        }
    }
}

/// A level that was just generated, and where the player arrives on it.
#[derive(Debug)]
pub struct NewLevel {
    pub map: TileMap,
    pub start: Position,
}

/// The index of the last tile before index `n` whose terrain is `tt`.
pub open spec fn spec_last_tile_of(m: MapSpec, tt: TileType, n: int) -> Option<int>
    decreases n,
{
    if n <= 0 {
        None
    } else if m.tiles[n - 1] == tt {
        Some(n - 1)
    } else {
        spec_last_tile_of(m, tt, n - 1)
    }
}

/// Where a last tile of a terrain is found, there is a tile of that terrain.
pub proof fn lemma_last_tile_of(m: MapSpec, tt: TileType, n: int)
    requires
        0 <= n <= m.tiles.len(),
    ensures
        spec_last_tile_of(m, tt, n) matches Some(i) ==> 0 <= i < n && m.tiles[i] == tt,
    decreases n,
{
    if n > 0 && m.tiles[n - 1] != tt {
        lemma_last_tile_of(m, tt, n - 1);
    }
}

/// Whether a level of depth `depth` is found from position `k` on says
/// whether there is one.
pub proof fn lemma_find_level_exists(levels: Seq<MapSpec>, depth: i32, k: int)
    requires
        0 <= k,
    ensures
        spec_find_level(levels, depth, k) is Some <==> exists|j: int|
            k <= j < levels.len() && (#[trigger] levels[j]).depth == depth,
    decreases levels.len() - k,
{
    if k < levels.len() {
        if levels[k].depth == depth {
            assert(levels[k].depth == depth);
        } else {
            lemma_find_level_exists(levels, depth, k + 1);
            if exists|j: int| k <= j < levels.len() && (#[trigger] levels[j]).depth == depth {
                let j = choose|j: int| k <= j < levels.len() && (#[trigger] levels[j]).depth == depth;
                assert(k + 1 <= j);
                assert(levels[j].depth == depth);
            }
        }
    }
}

/// Once the current level is stored, a level of some depth is kept exactly
/// if it was kept before or is the current one.
pub proof fn lemma_find_after_store(w: WorldSpec, depth: i32)
    ensures
        spec_find_level(w.with_level_stored().dungeon, depth, 0) is Some <==> (spec_find_level(
            w.dungeon,
            depth,
            0,
        ) is Some || depth == w.map.depth),
{
    let old_levels = w.dungeon;
    let new_levels = w.with_level_stored().dungeon;
    lemma_find_level_exists(old_levels, depth, 0);
    lemma_find_level_exists(new_levels, depth, 0);
    lemma_find_level(old_levels, w.map.depth, 0);
    lemma_find_level_exists(old_levels, w.map.depth, 0);
    match spec_find_level(old_levels, w.map.depth, 0) {
        Some(i) => {
            assert(new_levels =~= old_levels.update(i, w.map));
            if exists|j: int| 0 <= j < old_levels.len() && (#[trigger] old_levels[j]).depth == depth {
                let j = choose|j: int|
                    0 <= j < old_levels.len() && (#[trigger] old_levels[j]).depth == depth;
                assert(new_levels[j].depth == depth);
            }
            if depth == w.map.depth {
                assert(new_levels[i].depth == depth);
            }
            if exists|j: int| 0 <= j < new_levels.len() && (#[trigger] new_levels[j]).depth == depth {
                let j = choose|j: int|
                    0 <= j < new_levels.len() && (#[trigger] new_levels[j]).depth == depth;
                if j != i {
                    assert(old_levels[j].depth == depth);
                }
            }
        },
        None => {
            assert(new_levels =~= old_levels.push(w.map));
            if exists|j: int| 0 <= j < old_levels.len() && (#[trigger] old_levels[j]).depth == depth {
                let j = choose|j: int|
                    0 <= j < old_levels.len() && (#[trigger] old_levels[j]).depth == depth;
                assert(new_levels[j].depth == depth);
            }
            if depth == w.map.depth {
                assert(new_levels[old_levels.len() as int].depth == depth);
            }
            if exists|j: int| 0 <= j < new_levels.len() && (#[trigger] new_levels[j]).depth == depth {
                let j = choose|j: int|
                    0 <= j < new_levels.len() && (#[trigger] new_levels[j]).depth == depth;
                if j < old_levels.len() {
                    assert(old_levels[j].depth == depth);
                }
            }
        },
    }
}

impl WorldSpec {
    /// No one but the player stands anywhere.
    pub open spec fn only_player_stands(self) -> bool {
        forall|i: int|
            0 <= i < self.entities.len() && i != self.player.id ==> (
            #[trigger] self.entities[i]).position is None
    }

    /// The world with the player on level `m` at `at`: the level is the
    /// current one, the tracked position is `at`, the player, if it stood
    /// somewhere, stands at `at`, and its viewshed is out of date.
    pub open spec fn on_level_at(self, m: MapSpec, at: Coord) -> WorldSpec {
        let entities = if self.player.id < self.entities.len() {
            let rec = self.entities[self.player.id as int];
            self.entities.update(
                self.player.id as int,
                EntitySpec {
                    position: match rec.position {
                        Some(_) => Some(Position { x: at.x, y: at.y }),
                        None => None,
                    },
                    viewshed: match rec.viewshed {
                        Some(v) => Some(ViewshedSpec { dirty: true, ..v }),
                        None => None,
                    },
                    ..rec
                },
            )
        } else {
            self.entities
        };
        WorldSpec { entities, map: m, player_pos: at, ..self }
    }

    /// Where the player arrives on a level that was visited before: on its
    /// last stairs down when coming from below, on its last stairs up
    /// otherwise. On a level without such stairs the player keeps their
    /// coordinates, or stands on the first tile if those are off the level.
    pub open spec fn arrival(self, m: MapSpec, offset: int) -> Coord {
        let stairs = if offset < 0 {
            TileType::DownStairs
        } else {
            TileType::UpStairs
        };
        match spec_last_tile_of(m, stairs, m.tiles.len() as int) {
            Some(t) => m.point_of(t),
            None => if m.in_bounds(self.player_pos.x as int, self.player_pos.y as int) {
                self.player_pos
            } else {
                Coord { x: 0, y: 0 }
            },
        }
    }

    /// The world after a move by `offset` levels. Everyone but the player
    /// is frozen and the level that is left is kept. If the level at the
    /// new depth was visited before, it comes back as it was left, the
    /// player arrives on its stairs, and who was frozen there thaws.
    /// Otherwise the fresh level becomes the current one at the new depth,
    /// the player arrives at its start, and it is kept from now on. Without
    /// a level to go to, and for a depth beyond what a depth can hold,
    /// nothing changes.
    pub open spec fn after_goto_level(self, offset: int, fresh: Option<(MapSpec, Position)>)
        -> WorldSpec {
        let target = self.map.depth + offset;
        if target < i32::MIN || target > i32::MAX {
            self
        } else {
            let kept = self.after_freeze().with_level_stored();
            match spec_find_level(kept.dungeon, target as i32, 0) {
                Some(i) => kept.on_level_at(
                    kept.dungeon[i],
                    kept.arrival(kept.dungeon[i], offset),
                ).after_thaw().with_log(LogEntry::ChangesLevel),
                None => match fresh {
                    Some((m, start)) => kept.on_level_at(
                        MapSpec { depth: target as i32, ..m },
                        Coord { x: start.x, y: start.y },
                    ).with_level_stored().with_log(LogEntry::ChangesLevel),
                    None => self,
                },
            }
        }
    }

    /// Whether a move by `offset` levels needs a fresh level: the new depth
    /// is a depth, and no level of that depth is kept or current.
    pub open spec fn needs_new_level(self, offset: int) -> bool {
        let target = self.map.depth + offset;
        &&& i32::MIN <= target <= i32::MAX
        &&& spec_find_level(self.dungeon, target as i32, 0) is None
        &&& target != self.map.depth
    }
}

impl TileMap {
    /// The index of the last tile whose terrain is `tt`.
    pub fn last_tile_of(&self, tt: TileType) -> (r: Option<usize>)
        ensures
            match r {
                Some(i) => spec_last_tile_of(self@, tt, self@.tiles.len() as int) == Some(i as int),
                None => spec_last_tile_of(self@, tt, self@.tiles.len() as int) is None,
            },
    {
        let mut r: Option<usize> = None;
        let mut i: usize = 0;
        while i < self.tiles.len()
            invariant
                i <= self.tiles.len(),
                match r {
                    Some(k) => spec_last_tile_of(self@, tt, i as int) == Some(k as int),
                    None => spec_last_tile_of(self@, tt, i as int) is None,
                },
            decreases self.tiles.len() - i,
        {
            if self.tiles[i] == tt {
                r = Some(i);
            }
            i += 1;
        }
        r
    }
}

/// Puts the player on level `map` at `at`.
fn enter_level(world: &mut World, map: TileMap, at: Coord)
    requires
        old(world)@.wf(),
        old(world)@.only_player_stands(),
        map@.wf(),
        map@.in_bounds(at.x as int, at.y as int),
    ensures
        final(world)@ == old(world)@.on_level_at(map@, at),
        final(world)@.wf(),
        final(world)@.only_player_stands(),
{
    let ghost before = world@;
    world.map = map;
    world.player_pos = at;
    let id = world.player.id;
    if id < world.entities.len() {
        if world.entities[id].position.is_some() {
            world.entities[id].position = Some(Position { x: at.x, y: at.y });
        }
        match &mut world.entities[id].viewshed {
            Some(v) => {
                v.dirty = true;
            },
            None => {},
        }
    }
    proof {
        let goal = before.on_level_at(map@, at);
        assert(world@.entities =~= goal.entities);
        assert(world@.dungeon =~= before.dungeon);
        assert forall|j: int| 0 <= j < world@.entities.len() implies #[trigger] world@.entity_wf(
            j,
        ) by {
            assert(before.entity_wf(j));
            if j != id {
                assert(before.entities[j].position is None);
            }
        }
        assert forall|i: int|
            0 <= i < world@.entities.len() && i != world@.player.id implies (
        #[trigger] world@.entities[i]).position is None by {
            assert(before.entities[i].position is None);
        }
    }
}

/// Whether a move by `offset` levels needs a fresh level.
pub fn needs_new_level(world: &World, offset: i32) -> (r: bool)
    ensures
        r == world@.needs_new_level(offset as int),
{
    let target: i64 = world.map.depth as i64 + offset as i64;
    if target < i32::MIN as i64 || target > i32::MAX as i64 {
        return false;
    }
    let target = target as i32;
    world.find_level(target).is_none() && target != world.map.depth
}

/// Moves the player by `offset` levels, to a level that was visited before
/// or else to `fresh`, and says whether the player moved.
pub fn goto_level(world: &mut World, offset: i32, fresh: Option<NewLevel>) -> (moved: bool)
    requires
        old(world)@.wf(),
        fresh matches Some(level) ==> level.map@.wf() && level.map@.in_bounds(
            level.start.x as int,
            level.start.y as int,
        ),
    ensures
        final(world)@ == old(world)@.after_goto_level(
            offset as int,
            match fresh {
                Some(level) => Some((level.map@, level.start)),
                None => None,
            },
        ),
        moved == (i32::MIN <= old(world)@.map.depth + offset <= i32::MAX && !(
        old(world)@.needs_new_level(offset as int) && fresh is None)),
        !moved ==> final(world)@ == old(world)@,
        final(world)@.wf(),
{
    let ghost start = world@;
    let target: i64 = world.map.depth as i64 + offset as i64;
    if target < i32::MIN as i64 || target > i32::MAX as i64 {
        return false;
    }
    let target = target as i32;
    let known = world.find_level(target).is_some() || target == world.map.depth;
    proof {
        lemma_find_after_store(start.after_freeze(), target);
    }
    if !known && fresh.is_none() {
        return false;
    }
    freeze_level_entities(world);
    world.store_map();
    let ghost kept = world@;
    assert(kept.only_player_stands()) by {
        assert forall|i: int| 0 <= i < kept.entities.len() && i != kept.player.id implies (
        #[trigger] kept.entities[i]).position is None by {
            assert(start.after_freeze().entities[i].position is None);
        }
    }
    match world.find_level(target) {
        Some(i) => {
            proof {
                lemma_find_level(kept.dungeon, target, 0);
                assert(kept.dungeon[i as int].wf());
            }
            let level = world.dungeon[i].duplicate();
            let stairs = if offset < 0 {
                TileType::DownStairs
            } else {
                TileType::UpStairs
            };
            let at = match level.last_tile_of(stairs) {
                Some(t) => {
                    proof {
                        lemma_last_tile_of(level@, stairs, level@.tiles.len() as int);
                    }
                    level.idx_xy(t)
                },
                None => {
                    if level.in_bounds(world.player_pos.x, world.player_pos.y) {
                        world.player_pos
                    } else {
                        Coord { x: 0, y: 0 }
                    }
                },
            };
            enter_level(world, level, at);
            thaw_level_entities(world);
            world.push_log(LogEntry::ChangesLevel);
            true
        },
        None => {
            match fresh {
                Some(level) => {
                    let mut map = level.map;
                    map.depth = target;
                    assert(map@.tile_content =~= level.map@.tile_content);
                    enter_level(world, map, Coord { x: level.start.x, y: level.start.y });
                    world.store_map();
                    world.push_log(LogEntry::ChangesLevel);
                    true
                },
                None => {
                    false
                },
            }
        },
    }
}

/// Half of `max_hp`, rounded towards zero.
pub open spec fn spec_half(max_hp: int) -> int {
    if max_hp >= 0 {
        max_hp / 2
    } else {
        -((-max_hp) / 2)
    }
}

impl WorldSpec {
    /// The world with the player's health raised to half of its maximum,
    /// if it was below.
    pub open spec fn with_breath_caught(self) -> WorldSpec {
        if self.player.id < self.entities.len() && self.entities[self.player.id as int].combat_stats is Some {
            let rec = self.entities[self.player.id as int];
            let stats = rec.combat_stats->0;
            self.with_entity(
                self.player.id as int,
                EntitySpec {
                    combat_stats: Some(
                        CombatStats {
                            hp: if stats.hp >= spec_half(stats.max_hp as int) {
                                stats.hp
                            } else {
                                spec_half(stats.max_hp as int) as i32
                            },
                            ..stats
                        },
                    ),
                    ..rec
                },
            )
        } else {
            self
        }
    }

    /// The depth below `depth`, or `depth` itself where there is none.
    pub open spec fn depth_below(depth: i32) -> i32 {
        if depth < i32::MAX {
            (depth + 1) as i32
        } else {
            depth
        }
    }

    /// The world after a descent that keeps nothing: everything but the
    /// players and what the player carries is deleted, what is left beside
    /// the player stands nowhere, the fresh level is the current one, one
    /// deeper, the player stands on its start with a viewshed that is out of
    /// date, and has caught their breath.
    pub open spec fn after_goto_next_level(self, m: MapSpec, start: Position) -> WorldSpec {
        self.without_all(self.leftovers(self.entities.len() as int)).after_freeze().on_level_at(
            MapSpec { depth: Self::depth_below(self.map.depth), ..m },
            Coord { x: start.x, y: start.y },
        ).with_breath_caught().with_log(LogEntry::Descends)
    }

    /// The world after the cleanup that follows the end of a game: every
    /// entity is deleted, a new player stands on the start of the fresh
    /// level, which is the first and only level kept, and the log greets
    /// them.
    pub open spec fn after_game_over_cleanup(
        self,
        player: EntitySpec,
        m: MapSpec,
        start: Position,
    ) -> WorldSpec {
        let first = MapSpec { depth: 1, ..m };
        WorldSpec {
            entities: Seq::new(self.entities.len(), |i: int| EntitySpec::bare(false)).push(player),
            map: first,
            player: Entity { id: self.entities.len() as usize },
            player_pos: Coord { x: start.x, y: start.y },
            log: seq![LogEntry::Welcome],
            dungeon: seq![first],
            ..self
        }
    }
}

/// Lets the player catch their breath: health below half of the maximum
/// rises to half of the maximum.
fn catch_breath(world: &mut World)
    requires
        old(world)@.wf(),
    ensures
        final(world)@ == old(world)@.with_breath_caught(),
        final(world)@.wf(),
{
    let ghost before = world@;
    let id = world.player.id;
    if id < world.entities.len() {
        match &mut world.entities[id].combat_stats {
            Some(stats) => {
                let half = stats.max_hp / 2;
                if stats.hp < half {
                    stats.hp = half;
                }
            },
            None => {},
        }
        proof {
            let goal = before.with_breath_caught();
            assert(world@.entities =~= goal.entities);
            assert(world@.dungeon =~= before.dungeon);
            assert forall|j: int| 0 <= j < world@.entities.len() implies #[trigger] world@.entity_wf(
                j,
            ) by {
                assert(before.entity_wf(j));
            }
        }
    }
}

/// Takes the player one level down, onto `fresh`, for good: nothing of the
/// level that is left is kept, and who stays behind is deleted.
pub fn goto_next_level(world: &mut World, fresh: NewLevel)
    requires
        old(world)@.wf(),
        fresh.map@.wf(),
        fresh.map@.in_bounds(fresh.start.x as int, fresh.start.y as int),
    ensures
        final(world)@ == old(world)@.after_goto_next_level(fresh.map@, fresh.start),
        final(world)@.wf(),
{
    let ghost start = world@;
    let to_delete = entities_to_remove_on_level_change(world);
    world.delete_all(&to_delete);
    freeze_level_entities(world);
    let ghost frozen = world@;
    assert(frozen.only_player_stands()) by {
        assert forall|i: int| 0 <= i < frozen.entities.len() && i != frozen.player.id implies (
        #[trigger] frozen.entities[i]).position is None by {
        }
    }
    let mut map = fresh.map;
    map.depth = if world.map.depth < i32::MAX {
        world.map.depth + 1
    } else {
        world.map.depth
    };
    assert(map@.tile_content =~= fresh.map@.tile_content);
    enter_level(world, map, Coord { x: fresh.start.x, y: fresh.start.y });
    catch_breath(world);
    world.push_log(LogEntry::Descends);
}

/// Cleans up after the end of a game: deletes everything, makes a new
/// player from `cfg` on the start of `fresh`, and forgets every level but
/// this one.
pub fn game_over_cleanup(world: &mut World, cfg: &crate::config::Player, fresh: NewLevel)
    requires
        old(world)@.wf(),
        fresh.map@.wf(),
        fresh.map@.in_bounds(fresh.start.x as int, fresh.start.y as int),
        cfg.view_range.in_limits(),
    ensures
        final(world)@ == old(world)@.after_game_over_cleanup(
            crate::character::spec_player(fresh.start, *cfg),
            fresh.map@,
            fresh.start,
        ),
        final(world)@.wf(),
{
    let ghost start = world@;
    let n: usize = world.entities.len();
    assert(world@.entities.len() == world.entities@.len());
    let mut i: usize = 0;
    while i < n
        invariant
            i <= n,
            n == start.entities.len(),
            world@.entities.len() == n,
            world@.wf(),
            world@ == (WorldSpec { entities: world@.entities, ..start }),
            forall|t: int| 0 <= t < i ==> world@.entities[t] == EntitySpec::bare(false),
        decreases n - i,
    {
        let ghost before = world@;
        world.delete_entity(Entity { id: i });
        assert forall|t: int| 0 <= t < i + 1 implies world@.entities[t] == EntitySpec::bare(
            false,
        ) by {
            if t < i {
                assert(before.entities[t] == EntitySpec::bare(false));
            } else {
                assert(before.entity_wf(t));
            }
        }
        i += 1;
    }
    let ghost emptied = world@;
    let mut map = fresh.map;
    map.depth = 1;
    assert(map@.tile_content =~= fresh.map@.tile_content);
    world.map = map;
    world.player_pos = Coord { x: fresh.start.x, y: fresh.start.y };
    world.dungeon.clear();
    world.log.clear();
    proof {
        assert(world@.entities =~= emptied.entities);
        assert(world@.dungeon =~= Seq::<MapSpec>::empty());
        assert forall|j: int| 0 <= j < world@.entities.len() implies #[trigger] world@.entity_wf(
            j,
        ) by {
            assert(world@.entities[j] == EntitySpec::bare(false));
        }
    }
    let player = crate::character::spawn(world, fresh.start, cfg);
    world.player = player;
    proof {
        let spawned = world@;
        assert(world@.dungeon =~= Seq::<MapSpec>::empty());
        assert forall|j: int| 0 <= j < world@.entities.len() implies #[trigger] world@.entity_wf(
            j,
        ) by {
            if j < n {
                assert(world@.entities[j] == EntitySpec::bare(false));
            }
        }
    }
    world.store_map();
    world.push_log(LogEntry::Welcome);
    proof {
        let goal = start.after_game_over_cleanup(
            crate::character::spec_player(fresh.start, *cfg),
            fresh.map@,
            fresh.start,
        );
        assert(world@.entities =~= goal.entities);
        assert(world@.dungeon =~= goal.dungeon);
        assert(world@.log =~= goal.log);
    }
}


/// A level that is found is the first of its depth.
pub proof fn lemma_find_is_first(levels: Seq<MapSpec>, depth: i32, k: int)
    requires
        0 <= k,
    ensures
        spec_find_level(levels, depth, k) matches Some(i) ==> {
            &&& k <= i < levels.len()
            &&& levels[i].depth == depth
            &&& forall|t: int| k <= t < i ==> (#[trigger] levels[t]).depth != depth
        },
    decreases levels.len() - k,
{
    if k < levels.len() && levels[k].depth != depth {
        lemma_find_is_first(levels, depth, k + 1);
    }
}

/// The first level of a depth is the one that is found.
pub proof fn lemma_first_is_found(levels: Seq<MapSpec>, depth: i32, k: int, j: int)
    requires
        0 <= k <= j < levels.len(),
        levels[j].depth == depth,
        forall|t: int| k <= t < j ==> (#[trigger] levels[t]).depth != depth,
    ensures
        spec_find_level(levels, depth, k) == Some(j),
    decreases j - k,
{
    if k < j {
        assert(levels[k].depth != depth);
        lemma_first_is_found(levels, depth, k + 1, j);
    }
}

/// Once the current level is stored, it is the level kept for its depth.
pub proof fn lemma_store_keeps_current(w: WorldSpec)
    ensures
        spec_find_level(w.with_level_stored().dungeon, w.map.depth, 0) matches Some(k)
            && w.with_level_stored().dungeon[k] == w.map,
{
    let depth = w.map.depth;
    let kept = w.with_level_stored().dungeon;
    lemma_find_is_first(w.dungeon, depth, 0);
    match spec_find_level(w.dungeon, depth, 0) {
        Some(i) => {
            assert(kept =~= w.dungeon.update(i, w.map));
            assert forall|t: int| 0 <= t < i implies (#[trigger] kept[t]).depth != depth by {
                assert(w.dungeon[t].depth != depth);
            }
            lemma_first_is_found(kept, depth, 0, i);
        },
        None => {
            let n = w.dungeon.len() as int;
            assert(kept =~= w.dungeon.push(w.map));
            lemma_find_level_exists(w.dungeon, depth, 0);
            assert forall|t: int| 0 <= t < n implies (#[trigger] kept[t]).depth != depth by {
                if kept[t].depth == depth {
                    assert(w.dungeon[t].depth == depth);
                }
            }
            lemma_first_is_found(kept, depth, 0, n);
        },
    }
}

/// Storing the current level leaves the level kept for any other depth as
/// it is.
pub proof fn lemma_store_keeps_others(w: WorldSpec, depth: i32)
    requires
        depth != w.map.depth,
        spec_find_level(w.dungeon, depth, 0) is Some,
    ensures
        spec_find_level(w.with_level_stored().dungeon, depth, 0) == spec_find_level(
            w.dungeon,
            depth,
            0,
        ),
        w.with_level_stored().dungeon[spec_find_level(w.dungeon, depth, 0)->0]
            == w.dungeon[spec_find_level(w.dungeon, depth, 0)->0],
{
    let kept = w.with_level_stored().dungeon;
    let k = spec_find_level(w.dungeon, depth, 0)->0;
    lemma_find_is_first(w.dungeon, depth, 0);
    lemma_find_is_first(w.dungeon, w.map.depth, 0);
    match spec_find_level(w.dungeon, w.map.depth, 0) {
        Some(i) => {
            assert(kept =~= w.dungeon.update(i, w.map));
        },
        None => {
            assert(kept =~= w.dungeon.push(w.map));
        },
    }
    assert(kept[k] == w.dungeon[k]);
    assert forall|t: int| 0 <= t < k implies (#[trigger] kept[t]).depth != depth by {
        assert(w.dungeon[t].depth != depth);
    }
    lemma_first_is_found(kept, depth, 0, k);
}

impl WorldSpec {
    /// Record `i` waits on level `m`, which the player has left: the level
    /// is kept as `m` under its depth, and the record is what `rec` was
    /// when the player left, frozen at the place where `rec` stood.
    pub open spec fn waits_on(self, i: int, rec: EntitySpec, m: MapSpec) -> bool {
        &&& 0 <= i < self.entities.len()
        &&& i != self.player.id
        &&& self.map.depth != m.depth
        &&& rec.position matches Some(p) && m.in_bounds(p.x as int, p.y as int)
            && self.entities[i] == (EntitySpec {
            position: None,
            other_level_position: Some(OtherLevelPosition { x: p.x, y: p.y, depth: m.depth }),
            ..rec
        })
        &&& spec_find_level(self.dungeon, m.depth, 0) matches Some(k) && self.dungeon[k] == m
    }
}

/// Whoever stands on a level when the player leaves it waits there, as it
/// is, and the level is kept as it is.
pub proof fn lemma_who_is_left_waits(
    w: WorldSpec,
    i: int,
    offset: int,
    fresh: Option<(MapSpec, Position)>,
)
    requires
        w.wf(),
        0 <= i < w.entities.len(),
        i != w.player.id,
        w.entities[i].position is Some,
        w.after_goto_level(offset, fresh).map.depth != w.map.depth,
    ensures
        w.after_goto_level(offset, fresh).waits_on(i, w.entities[i], w.map),
{
    let target = w.map.depth + offset;
    let frozen = w.after_freeze();
    let kept = frozen.with_level_stored();
    assert(w.entity_wf(i));
    lemma_store_keeps_current(frozen);
    lemma_find_is_first(kept.dungeon, target as i32, 0);
    match spec_find_level(kept.dungeon, target as i32, 0) {
        Some(k) => {},
        None => match fresh {
            Some((level, start)) => {
                let entered = kept.on_level_at(
                    MapSpec { depth: target as i32, ..level },
                    Coord { x: start.x, y: start.y },
                );
                lemma_store_keeps_others(entered, w.map.depth);
            },
            None => {},
        },
    }
}

/// Whoever waits on a level goes on waiting there, as it is, while the
/// player moves between other levels, and the level is kept as it is.
pub proof fn lemma_who_waits_stays(
    w: WorldSpec,
    i: int,
    rec: EntitySpec,
    m: MapSpec,
    offset: int,
    fresh: Option<(MapSpec, Position)>,
)
    requires
        w.waits_on(i, rec, m),
        w.map.depth + offset != m.depth,
    ensures
        w.after_goto_level(offset, fresh).waits_on(i, rec, m),
{
    let target = w.map.depth + offset;
    let frozen = w.after_freeze();
    let kept = frozen.with_level_stored();
    lemma_store_keeps_others(frozen, m.depth);
    if i32::MIN <= target <= i32::MAX {
        lemma_find_is_first(kept.dungeon, target as i32, 0);
        match spec_find_level(kept.dungeon, target as i32, 0) {
            Some(k) => {},
            None => match fresh {
                Some((level, start)) => {
                    let entered = kept.on_level_at(
                        MapSpec { depth: target as i32, ..level },
                        Coord { x: start.x, y: start.y },
                    );
                    lemma_store_keeps_others(entered, m.depth);
                },
                None => {},
            },
        }
    }
}

/// When the player comes back to a level, the level is the current one
/// again as it was left, and whoever waited there stands where it stood,
/// with everything it had.
pub proof fn lemma_who_waits_comes_back(
    w: WorldSpec,
    i: int,
    rec: EntitySpec,
    m: MapSpec,
    offset: int,
    fresh: Option<(MapSpec, Position)>,
)
    requires
        w.waits_on(i, rec, m),
        w.map.depth + offset == m.depth,
    ensures
        w.after_goto_level(offset, fresh).map == m,
        w.after_goto_level(offset, fresh).entities[i] == (EntitySpec {
            other_level_position: None,
            ..rec
        }),
{
    let frozen = w.after_freeze();
    let kept = frozen.with_level_stored();
    lemma_store_keeps_others(frozen, m.depth);
    let k = spec_find_level(kept.dungeon, m.depth, 0)->0;
    let entered = kept.on_level_at(kept.dungeon[k], kept.arrival(kept.dungeon[k], offset));
    assert(entered.thaws(i));
}

/// A level and whoever stands on it come back after any three moves that
/// lead away, on, and back: the level is as it was left, and everyone on
/// it stands where it stood, with everything it had, under the handle it
/// had.
pub proof fn lemma_levels_come_back(
    w: WorldSpec,
    i: int,
    away: int,
    first_level: Option<(MapSpec, Position)>,
    on: int,
    second_level: Option<(MapSpec, Position)>,
    back: int,
    third_level: Option<(MapSpec, Position)>,
)
    requires
        w.wf(),
        0 <= i < w.entities.len(),
        i != w.player.id,
        w.entities[i].position is Some,
        w.after_goto_level(away, first_level).map.depth != w.map.depth,
        w.after_goto_level(away, first_level).map.depth + on != w.map.depth,
        w.after_goto_level(away, first_level).after_goto_level(on, second_level).map.depth + back
            == w.map.depth,
    ensures
        ({
            let gone = w.after_goto_level(away, first_level).after_goto_level(on, second_level);
            let home = gone.after_goto_level(back, third_level);
            &&& home.map == w.map
            &&& home.entities[i] == (EntitySpec { other_level_position: None, ..w.entities[i] })
        }),
{
    let first = w.after_goto_level(away, first_level);
    let gone = first.after_goto_level(on, second_level);
    lemma_who_is_left_waits(w, i, away, first_level);
    lemma_who_waits_stays(first, i, w.entities[i], w.map, on, second_level);
    lemma_who_waits_comes_back(gone, i, w.entities[i], w.map, back, third_level);
}

} // verus!
