//! The world: the table of entity records, the current level, and the few
//! values every system shares.

use vstd::prelude::*;
use crate::components::{Entity, EntityData, EntitySpec};
use crate::gamelog::LogEntry;
use crate::geometry::Coord;
use crate::map::{MapSpec, TileMap};
use crate::state::RunState;

verus! {

/// How a creature of one faction behaves on sighting one of another.
#[derive(Clone, Copy, Debug, PartialEq, Eq, Structural)]
pub enum Reaction {
    Ignore,
    Attack,
    Flee,
}

/// One line of the faction table: how `mine` reacts to `theirs`.
#[derive(Clone, Copy, Debug, PartialEq, Eq, Structural)]
pub struct FactionReaction {
    pub mine: u32,
    pub theirs: u32,
    pub reaction: Reaction,
}

#[derive(Debug)]
pub struct World {
    /// The record of entity `e` is `entities[e.id]`.
    pub entities: Vec<EntityData>,
    /// The level the player is on.
    pub map: TileMap,
    pub player: Entity,
    /// Where the player stands, kept beside the player's own position for
    /// the systems that only need this.
    pub player_pos: Coord,
    pub run_state: RunState,
    pub log: Vec<LogEntry>,
    /// The levels visited so far, each as it was left.
    pub dungeon: Vec<TileMap>,
    /// The faction table. The first line for a pair of factions counts; a
    /// pair without a line means `Ignore`.
    pub reactions: Vec<FactionReaction>,
}

pub struct WorldSpec {
    pub entities: Seq<EntitySpec>,
    pub map: MapSpec,
    pub player: Entity,
    pub player_pos: Coord,
    pub run_state: RunState,
    pub log: Seq<LogEntry>,
    pub dungeon: Seq<MapSpec>,
    pub reactions: Seq<FactionReaction>,
}

impl View for World {
    type V = WorldSpec;

    open spec fn view(&self) -> WorldSpec {
        WorldSpec {
            entities: Seq::new(self.entities@.len(), |i: int| self.entities@[i]@),
            map: self.map@,
            player: self.player,
            player_pos: self.player_pos,
            run_state: self.run_state,
            log: self.log@,
            dungeon: Seq::new(self.dungeon@.len(), |i: int| self.dungeon@[i]@),
            reactions: self.reactions@,
        }
    }
}

impl WorldSpec {
    /// What must hold of record `i`: a free slot carries nothing, a position
    /// lies on the map, and the ranges are within limits.
    pub open spec fn entity_wf(self, i: int) -> bool {
        let e = self.entities[i];
        &&& e.ranges_in_limits()
        &&& (e.position matches Some(p) ==> self.map.in_bounds(p.x as int, p.y as int))
        &&& (!e.alive ==> e == EntitySpec::bare(false))
    }

    pub open spec fn wf(self) -> bool {
        &&& self.entities.len() <= usize::MAX
        &&& self.map.wf()
        &&& self.map.in_bounds(self.player_pos.x as int, self.player_pos.y as int)
        &&& forall|i: int| 0 <= i < self.entities.len() ==> #[trigger] self.entity_wf(i)
        &&& forall|d: int| 0 <= d < self.dungeon.len() ==> (#[trigger] self.dungeon[d]).wf()
    }

    /// `e` names a record that is in use.
    pub open spec fn is_alive(self, e: Entity) -> bool {
        e.id < self.entities.len() && self.entities[e.id as int].alive
    }

    /// The world with record `i` replaced.
    pub open spec fn with_entity(self, i: int, e: EntitySpec) -> WorldSpec {
        WorldSpec { entities: self.entities.update(i, e), ..self }
    }

    /// The world with one more log entry.
    pub open spec fn with_log(self, entry: LogEntry) -> WorldSpec {
        WorldSpec { log: self.log.push(entry), ..self }
    }

    /// The world with a new, bare record at the end of the table.
    pub open spec fn with_new_entity(self) -> WorldSpec {
        WorldSpec { entities: self.entities.push(EntitySpec::bare(true)), ..self }
    }

    /// The world once `e` is deleted: its record is a free slot. Deleting
    /// what is not alive changes nothing.
    pub open spec fn without_entity(self, e: Entity) -> WorldSpec {
        if self.is_alive(e) {
            self.with_entity(e.id as int, EntitySpec::bare(false))
        } else {
            self
        }
    }
}

impl World {
    /// A world with no entities on the given level. The player's handle
    /// names the first entity that will be created.
    pub fn new(map: TileMap) -> (w: World)
        requires
            map@.wf(),
        ensures
            w@.wf(),
            w@.entities.len() == 0,
            w@.map == map@,
            w@.player == (Entity { id: 0 }),
            w@.player_pos == (Coord { x: 0, y: 0 }),
            w@.run_state == RunState::PreRun,
            w@.log.len() == 0,
            w@.dungeon.len() == 0,
            w@.reactions.len() == 0,
    {
        World {
            entities: Vec::new(),
            map,
            player: Entity { id: 0 },
            player_pos: Coord { x: 0, y: 0 },
            run_state: RunState::PreRun,
            log: Vec::new(),
            dungeon: Vec::new(),
            reactions: Vec::new(),
        }
    }

    /// Adds an entity that carries nothing yet.
    pub fn create_entity(&mut self) -> (e: Entity)
        requires
            old(self)@.wf(),
        ensures
            final(self)@ == old(self)@.with_new_entity(),
            final(self)@.wf(),
            e.id == old(self)@.entities.len(),
    {
        let id = self.entities.len();
        self.entities.push(EntityData::bare(true));
        assert(self@.entities =~= old(self)@.entities.push(EntitySpec::bare(true)));
        assert(self@.entities.len() == self.entities.len());
        assert(self@.dungeon =~= old(self)@.dungeon);
        assert forall|i: int| 0 <= i < self@.entities.len() implies #[trigger] self@.entity_wf(
            i,
        ) by {
            if i < old(self)@.entities.len() {
                assert(old(self)@.entity_wf(i));
            }
        }
        Entity { id }
    }

    /// Whether `e` names a record that is in use.
    pub fn is_alive(&self, e: Entity) -> (r: bool)
        ensures
            r == self@.is_alive(e),
    {
        e.id < self.entities.len() && self.entities[e.id].alive
    }

    /// Deletes `e` with everything it carries. References to it that other
    /// entities hold are left as they are: they name a free slot from now on.
    pub fn delete_entity(&mut self, e: Entity)
        requires
            old(self)@.wf(),
        ensures
            final(self)@ == old(self)@.without_entity(e),
            final(self)@.wf(),
    {
        if self.is_alive(e) {
            self.entities[e.id] = EntityData::bare(false);
            assert(self@.entities =~= old(self)@.entities.update(
                e.id as int,
                EntitySpec::bare(false),
            ));
            assert(self@.dungeon =~= old(self)@.dungeon);
            assert forall|i: int| 0 <= i < self@.entities.len() implies #[trigger] self@.entity_wf(
                i,
            ) by {
                assert(old(self)@.entity_wf(i));
            }
        }
    }

    /// Appends an entry to the game log.
    pub fn push_log(&mut self, entry: LogEntry)
        ensures
            final(self)@ == old(self)@.with_log(entry),
            old(self)@.wf() ==> final(self)@.wf(),
    {
        self.log.push(entry);
        assert(self@.entities =~= old(self)@.entities);
        assert(self@.dungeon =~= old(self)@.dungeon);
        proof {
            if old(self)@.wf() {
                assert forall|i: int| 0 <= i < self@.entities.len() implies #[trigger] self@.entity_wf(
                    i,
                ) by {
                    assert(old(self)@.entity_wf(i));
                }
            }
        }
    }
}

/// Well-formedness rests on the records, the map, the player's tracked
/// position and the visited levels alone.
pub proof fn lemma_wf_reads(a: WorldSpec, b: WorldSpec)
    requires
        a.wf(),
        b.entities == a.entities,
        b.map == a.map,
        b.player_pos == a.player_pos,
        b.dungeon == a.dungeon,
    ensures
        b.wf(),
{
    assert forall|i: int| 0 <= i < b.entities.len() implies #[trigger] b.entity_wf(i) by {
        assert(a.entity_wf(i));
    }
}

/// Some handle in `list` names record `i`.
pub open spec fn names(list: Seq<Entity>, i: int) -> bool {
    exists|k: int| 0 <= k < list.len() && (#[trigger] list[k]).id == i
}

/// A list with one more handle names what it named before, and what the
/// new handle names.
pub proof fn lemma_names_push(list: Seq<Entity>, e: Entity, i: int)
    ensures
        names(list.push(e), i) <==> (names(list, i) || e.id == i),
{
    if names(list, i) {
        let k = choose|k: int| 0 <= k < list.len() && (#[trigger] list[k]).id == i;
        assert(list.push(e)[k].id == i);
    }
    if e.id == i {
        assert(list.push(e)[list.len() as int].id == i);
    }
    if names(list.push(e), i) {
        let k = choose|k: int| 0 <= k < list.push(e).len() && (#[trigger] list.push(e)[k]).id == i;
        if k < list.len() {
            assert(list[k].id == i);
        }
    }
}

/// Replacing a record by one that is well-formed keeps the world well-formed.
pub proof fn lemma_with_entity_wf(w: WorldSpec, i: int, e: EntitySpec)
    requires
        w.wf(),
        0 <= i < w.entities.len(),
        w.with_entity(i, e).entity_wf(i),
    ensures
        w.with_entity(i, e).wf(),
{
    let w2 = w.with_entity(i, e);
    assert forall|j: int| 0 <= j < w2.entities.len() implies #[trigger] w2.entity_wf(j) by {
        if j != i {
            assert(w.entity_wf(j));
        }
    }
}

impl WorldSpec {
    /// The world once every entity in `doomed` is deleted.
    pub open spec fn without_all(self, doomed: Seq<Entity>) -> WorldSpec {
        WorldSpec {
            entities: Seq::new(
                self.entities.len(),
                |i: int|
                    if self.entities[i].alive && names(doomed, i) {
                        EntitySpec::bare(false)
                    } else {
                        self.entities[i]
                    },
            ),
            ..self
        }
    }
}

impl World {
    /// Deletes every entity in `doomed`. This is the commit that follows a
    /// pass over the records in which deletions were only noted.
    pub fn delete_all(&mut self, doomed: &Vec<Entity>)
        requires
            old(self)@.wf(),
        ensures
            final(self)@ == old(self)@.without_all(doomed@),
            final(self)@.wf(),
    {
        let ghost start = self@;
        assert(self@.entities =~= start.without_all(doomed@.take(0)).entities);
        let mut k: usize = 0;
        while k < doomed.len()
            invariant
                k <= doomed.len(),
                self@.wf(),
                self@ == start.without_all(doomed@.take(k as int)),
            decreases doomed.len() - k,
        {
            let ghost before = self@;
            self.delete_entity(doomed[k]);
            assert(doomed@.take(k as int + 1) =~= doomed@.take(k as int).push(doomed@[k as int]));
            assert(self@.entities =~= start.without_all(doomed@.take(k as int + 1)).entities) by {
                assert forall|i: int| 0 <= i < start.entities.len() implies self@.entities[i]
                    == start.without_all(doomed@.take(k as int + 1)).entities[i] by {
                    lemma_names_push(doomed@.take(k as int), doomed@[k as int], i);
                }
            }
            k += 1;
        }
        assert(doomed@.take(k as int) =~= doomed@);
    }
}

impl World {
    /// Whether the world is well-formed. Every function of the engine keeps
    /// it so; whoever writes to the world's fields directly can ask here
    /// whether the world may still be handed to the engine.
    pub fn is_wf(&self) -> (r: bool)
        ensures
            r == self@.wf(),
    {
        if !self.map.is_wf() || !self.map.in_bounds(self.player_pos.x, self.player_pos.y) {
            return false;
        }
        assert(self@.entities.len() == self.entities@.len());
        assert(self@.dungeon.len() == self.dungeon@.len());
        let mut i: usize = 0;
        while i < self.entities.len()
            invariant
                i <= self.entities.len(),
                self@.entities.len() == self.entities@.len(),
                forall|k: int| 0 <= k < i ==> #[trigger] self@.entity_wf(k),
            decreases self.entities.len() - i,
        {
            let rec = &self.entities[i];
            let placed = match rec.position {
                Some(p) => self.map.in_bounds(p.x, p.y),
                None => true,
            };
            let sighted = match &rec.viewshed {
                Some(v) => -crate::components::MAX_SIGHT_RANGE <= v.range && v.range
                    <= crate::components::MAX_SIGHT_RANGE,
                None => true,
            };
            let bounded = match rec.area_of_effect {
                Some(a) => -crate::components::MAX_SIGHT_RANGE <= a.radius && a.radius
                    <= crate::components::MAX_SIGHT_RANGE,
                None => true,
            };
            let free = rec.alive || rec.is_free_slot();
            if !(placed && sighted && bounded && free) {
                assert(!self@.entity_wf(i as int));
                return false;
            }
            i += 1;
        }
        let mut d: usize = 0;
        while d < self.dungeon.len()
            invariant
                d <= self.dungeon.len(),
                self@.dungeon.len() == self.dungeon@.len(),
                forall|k: int| 0 <= k < d ==> (#[trigger] self@.dungeon[k]).wf(),
            decreases self.dungeon.len() - d,
        {
            if !self.dungeon[d].is_wf() {
                assert(!self@.dungeon[d as int].wf());
                return false;
            }
            d += 1;
        }
        true
    }
}

} // verus!
