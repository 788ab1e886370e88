//! Saving and loading. A saved game is a copy of the records, the current
//! level, the levels kept and the log. Loading checks a saved game before it
//! replaces anything, and builds anew what is never saved: the occupant
//! index is empty and no wish is pending.

use vstd::prelude::*;
use crate::components::{
    copy_name, Entity, EntityData, EntitySpec, Position, SpecialAbilities, SufferDamage, Viewshed,
    WantsToFlee, MAX_SIGHT_RANGE,
};
use crate::gamelog::LogEntry;
use crate::geometry::Coord;
use crate::map::{MapSpec, TileMap, MAX_MAP_SIDE};
use crate::world::{World, WorldSpec};

verus! {

/// Marks what belongs into a saved game.
#[derive(Clone, Copy, Debug, PartialEq, Eq, Structural)]
pub struct SerializeMe {}

/// The record that carries the current level into a saved game.
#[derive(Debug)]
pub struct SerializationHelper {
    pub map: TileMap,
}

/// The record that carries the kept levels and the log into a saved game.
#[derive(Debug)]
pub struct DMSerializationHelper {
    pub map: Vec<TileMap>,
    pub log: Vec<LogEntry>,
}

#[derive(Debug)]
pub struct SavedGame {
    pub entities: Vec<EntityData>,
    pub helper: SerializationHelper,
    pub dm_helper: DMSerializationHelper,
}

pub struct SavedSpec {
    pub entities: Seq<EntitySpec>,
    pub map: MapSpec,
    pub dungeon: Seq<MapSpec>,
    pub log: Seq<LogEntry>,
}

impl View for SavedGame {
    type V = SavedSpec;

    open spec fn view(&self) -> SavedSpec {
        SavedSpec {
            entities: Seq::new(self.entities@.len(), |i: int| self.entities@[i]@),
            map: self.helper.map@,
            dungeon: Seq::new(self.dm_helper.map@.len(), |i: int| self.dm_helper.map@[i]@),
            log: self.dm_helper.log@,
        }
    }
}

/// Why a saved game is refused.
#[derive(Clone, Copy, Debug, PartialEq, Eq, Structural)]
pub enum LoadError {
    /// The current level is not well-formed.
    MalformedMap,
    /// One of the kept levels is not well-formed.
    MalformedLevel,
    /// A record stands off the map, has a range beyond the limits, or is a
    /// free slot that carries something.
    MalformedEntity,
}

/// A copy of a list of plain values.
pub fn copy_vec<T: Copy>(v: &Vec<T>) -> (r: Vec<T>)
    ensures
        r@ == v@,
{
    let mut r: Vec<T> = Vec::new();
    let mut i: usize = 0;
    while i < v.len()
        invariant
            i <= v.len(),
            r@ == v@.take(i as int),
        decreases v.len() - i,
    {
        r.push(v[i]);
        assert(r@ =~= v@.take(i as int + 1));
        i += 1;
    }
    assert(v@.take(i as int) =~= v@);
    r
}

/// A copy of a log entry.
pub fn copy_entry(entry: &LogEntry) -> (r: LogEntry)
    ensures
        r == *entry,
{
    match entry {
        LogEntry::Welcome => LogEntry::Welcome,
        LogEntry::Hits { attacker, target, amount } => LogEntry::Hits {
            attacker: copy_name(attacker),
            target: copy_name(target),
            amount: *amount,
        },
        LogEntry::UnableToHurt { attacker, target } => LogEntry::UnableToHurt {
            attacker: copy_name(attacker),
            target: copy_name(target),
        },
        LogEntry::Dies { victim } => LogEntry::Dies { victim: copy_name(victim) },
        LogEntry::PicksUp { item } => LogEntry::PicksUp { item: copy_name(item) },
        LogEntry::Drops { item } => LogEntry::Drops { item: copy_name(item) },
        LogEntry::NothingToPickUp => LogEntry::NothingToPickUp,
        LogEntry::Heals { item, amount } => LogEntry::Heals {
            item: copy_name(item),
            amount: *amount,
        },
        LogEntry::Inflicts { item, target, amount } => LogEntry::Inflicts {
            item: copy_name(item),
            target: copy_name(target),
            amount: *amount,
        },
        LogEntry::Confuses { item, target } => LogEntry::Confuses {
            item: copy_name(item),
            target: copy_name(target),
        },
        LogEntry::Descends => LogEntry::Descends,
        LogEntry::ChangesLevel => LogEntry::ChangesLevel,
        LogEntry::Spots { what } => LogEntry::Spots { what: copy_name(what) },
        LogEntry::Triggers { what } => LogEntry::Triggers { what: copy_name(what) },
    }
}

/// A copy of a log.
pub fn copy_log(log: &Vec<LogEntry>) -> (r: Vec<LogEntry>)
    ensures
        r@ == log@,
{
    let mut r: Vec<LogEntry> = Vec::new();
    let mut i: usize = 0;
    while i < log.len()
        invariant
            i <= log.len(),
            r@ == log@.take(i as int),
        decreases log.len() - i,
    {
        r.push(copy_entry(&log[i]));
        assert(r@ =~= log@.take(i as int + 1));
        i += 1;
    }
    assert(log@.take(i as int) =~= log@);
    r
}

/// A copy of a list of levels.
pub fn copy_levels(levels: &Vec<TileMap>) -> (r: Vec<TileMap>)
    requires
        forall|i: int| 0 <= i < levels.len() ==> (#[trigger] levels@[i])@.wf(),
    ensures
        r@.len() == levels@.len(),
        forall|i: int| 0 <= i < levels.len() ==> (#[trigger] r@[i])@ == levels@[i]@,
{
    let mut r: Vec<TileMap> = Vec::new();
    let mut i: usize = 0;
    while i < levels.len()
        invariant
            i <= levels.len(),
            r@.len() == i,
            forall|i: int| 0 <= i < levels.len() ==> (#[trigger] levels@[i])@.wf(),
            forall|j: int| 0 <= j < i ==> (#[trigger] r@[j])@ == levels@[j]@,
        decreases levels.len() - i,
    {
        r.push(levels[i].duplicate());
        i += 1;
    }
    r
}

impl EntityData {
    /// A copy of this record.
    pub fn duplicate(&self) -> (r: EntityData)
        ensures
            r@ == self@,
    {
        EntityData {
            alive: self.alive,
            position: self.position,
            renderable: self.renderable,
            player: self.player,
            monster: self.monster,
            viewshed: match &self.viewshed {
                Some(v) => Some(
                    Viewshed {
                        visible_tiles: copy_vec(&v.visible_tiles),
                        range: v.range,
                        dirty: v.dirty,
                    },
                ),
                None => None,
            },
            name: copy_name(&self.name),
            blocks_tile: self.blocks_tile,
            blocks_visibility: self.blocks_visibility,
            hidden: self.hidden,
            combat_stats: self.combat_stats,
            wants_to_melee: self.wants_to_melee,
            suffer_damage: match &self.suffer_damage {
                Some(d) => Some(SufferDamage { amount: copy_vec(&d.amount) }),
                None => None,
            },
            item: self.item,
            consumable: self.consumable,
            ranged: self.ranged,
            inflicts_damage: self.inflicts_damage,
            area_of_effect: self.area_of_effect,
            confusion: self.confusion,
            provides_healing: self.provides_healing,
            in_backpack: self.in_backpack,
            wants_to_pickup: self.wants_to_pickup,
            wants_to_use: self.wants_to_use,
            wants_to_drop: self.wants_to_drop,
            entry_trigger: self.entry_trigger,
            entity_moved: self.entity_moved,
            my_turn: self.my_turn,
            faction: self.faction,
            wants_to_approach: self.wants_to_approach,
            wants_to_flee: match &self.wants_to_flee {
                Some(f) => Some(WantsToFlee { indices: copy_vec(&f.indices) }),
                None => None,
            },
            chasing: self.chasing,
            wants_to_cast_spell: self.wants_to_cast_spell,
            wants_to_shoot: self.wants_to_shoot,
            special_abilities: match &self.special_abilities {
                Some(a) => Some(SpecialAbilities { abilities: copy_vec(&a.abilities) }),
                None => None,
            },
            weapon: self.weapon,
            equipped: self.equipped,
            other_level_position: self.other_level_position,
            hunger_clock: self.hunger_clock,
            spell_template: self.spell_template,
        }
    }

    /// Whether this record carries nothing and is a free slot.
    pub fn is_free_slot(&self) -> (r: bool)
        ensures
            r == (self@ == EntitySpec::bare(false)),
    {
        !self.alive && self.position.is_none() && self.renderable.is_none()
            && self.player.is_none() && self.monster.is_none() && self.viewshed.is_none()
            && self.name.is_none() && self.blocks_tile.is_none()
            && self.blocks_visibility.is_none() && self.hidden.is_none()
            && self.combat_stats.is_none() && self.wants_to_melee.is_none()
            && self.suffer_damage.is_none() && self.item.is_none() && self.consumable.is_none()
            && self.ranged.is_none() && self.inflicts_damage.is_none()
            && self.area_of_effect.is_none() && self.confusion.is_none()
            && self.provides_healing.is_none() && self.in_backpack.is_none()
            && self.wants_to_pickup.is_none() && self.wants_to_use.is_none()
            && self.wants_to_drop.is_none() && self.entry_trigger.is_none()
            && self.entity_moved.is_none() && self.my_turn.is_none() && self.faction.is_none()
            && self.wants_to_approach.is_none() && self.wants_to_flee.is_none()
            && self.chasing.is_none() && self.wants_to_cast_spell.is_none()
            && self.wants_to_shoot.is_none() && self.special_abilities.is_none()
            && self.weapon.is_none() && self.equipped.is_none()
            && self.other_level_position.is_none() && self.hunger_clock.is_none()
            && self.spell_template.is_none()
    }
}

impl EntitySpec {
    /// The record without any pending wish.
    pub open spec fn settled(self) -> EntitySpec {
        EntitySpec {
            wants_to_melee: None,
            wants_to_pickup: None,
            wants_to_use: None,
            wants_to_drop: None,
            wants_to_approach: None,
            wants_to_flee: None,
            wants_to_cast_spell: None,
            wants_to_shoot: None,
            ..self
        }
    }
}

impl EntityData {
    /// Drops every pending wish.
    pub fn settle(&mut self)
        ensures
            final(self)@ == old(self)@.settled(),
    {
        self.wants_to_melee = None;
        self.wants_to_pickup = None;
        self.wants_to_use = None;
        self.wants_to_drop = None;
        self.wants_to_approach = None;
        self.wants_to_flee = None;
        self.wants_to_cast_spell = None;
        self.wants_to_shoot = None;
    }
}

impl TileMap {
    /// Whether this level is well-formed.
    pub fn is_wf(&self) -> (r: bool)
        ensures
            r == self@.wf(),
    {
        if self.width < 1 || self.width > MAX_MAP_SIDE || self.height < 1 || self.height
            > MAX_MAP_SIDE {
            return false;
        }
        assert(1 <= self.width * self.height <= MAX_MAP_SIDE * MAX_MAP_SIDE) by (nonlinear_arith)
            requires
                1 <= self.width <= MAX_MAP_SIDE,
                1 <= self.height <= MAX_MAP_SIDE,
        ;
        let size: usize = (self.width * self.height) as usize;
        self.tiles.len() == size && self.revealed_tiles.len() == size && self.visible_tiles.len()
            == size && self.blocked.len() == size
            && self.tile_content.len() == size
    }
}

impl SavedSpec {
    /// What must hold of record `i` for the saved game to be loaded.
    pub open spec fn entity_ok(self, i: int) -> bool {
        let e = self.entities[i];
        &&& e.ranges_in_limits()
        &&& (e.position matches Some(p) ==> self.map.in_bounds(p.x as int, p.y as int))
        &&& (!e.alive ==> e == EntitySpec::bare(false))
    }

    pub open spec fn entities_ok(self) -> bool {
        forall|i: int| 0 <= i < self.entities.len() ==> #[trigger] self.entity_ok(i)
    }

    pub open spec fn levels_ok(self) -> bool {
        forall|d: int| 0 <= d < self.dungeon.len() ==> (#[trigger] self.dungeon[d]).wf()
    }

    /// Why the saved game is refused, if it is.
    pub open spec fn check(self) -> Option<LoadError> {
        if !self.map.wf() {
            Some(LoadError::MalformedMap)
        } else if !self.levels_ok() {
            Some(LoadError::MalformedLevel)
        } else if !self.entities_ok() {
            Some(LoadError::MalformedEntity)
        } else {
            None
        }
    }

    /// The last record before index `n` that is a player with a position.
    pub open spec fn saved_player(self, n: int) -> Option<int>
        decreases n,
    {
        if n <= 0 {
            None
        } else if self.entities[n - 1].player is Some && self.entities[n - 1].position is Some {
            Some(n - 1)
        } else {
            self.saved_player(n - 1)
        }
    }
}

impl WorldSpec {
    /// What a saved game of this world holds: the records, the log, and
    /// the current and the kept levels without their occupant index, which
    /// is never saved.
    pub open spec fn saved(self) -> SavedSpec {
        SavedSpec {
            entities: self.entities,
            map: self.map.unindexed(),
            dungeon: Seq::new(self.dungeon.len(), |d: int| self.dungeon[d].unindexed()),
            log: self.log,
        }
    }

    /// The world without anything that lasts for one tick only: no wish is
    /// pending and the occupant index is empty.
    pub open spec fn settled(self) -> WorldSpec {
        WorldSpec {
            entities: Seq::new(self.entities.len(), |i: int| self.entities[i].settled()),
            map: self.map.unindexed(),
            ..self
        }
    }

    /// The world once `saved` is loaded. A saved game that is refused
    /// changes nothing. Otherwise the records, the level, the kept levels
    /// and the log are those of the saved game, settled; the player is the
    /// last record that is a player with a position, and the tracked
    /// position follows it.
    pub open spec fn after_load(self, saved: SavedSpec) -> WorldSpec {
        if saved.check() is Some {
            self
        } else {
            let loaded = (WorldSpec {
                entities: saved.entities,
                map: saved.map,
                dungeon: saved.dungeon,
                log: saved.log,
                ..self
            }).settled();
            match saved.saved_player(saved.entities.len() as int) {
                Some(i) => WorldSpec {
                    player: Entity { id: i as usize },
                    player_pos: Coord {
                        x: saved.entities[i].position->0.x,
                        y: saved.entities[i].position->0.y,
                    },
                    ..loaded
                },
                None => WorldSpec {
                    player_pos: if saved.map.in_bounds(
                        self.player_pos.x as int,
                        self.player_pos.y as int,
                    ) {
                        self.player_pos
                    } else {
                        Coord { x: 0, y: 0 }
                    },
                    ..loaded
                },
            }
        }
    }
}

/// A saved game of the world as it is.
pub fn save_game(world: &World) -> (saved: SavedGame)
    requires
        world@.wf(),
    ensures
        saved@ == world@.saved(),
{
    let mut entities: Vec<EntityData> = Vec::new();
    let mut i: usize = 0;
    assert(world@.entities.len() == world.entities@.len());
    while i < world.entities.len()
        invariant
            i <= world.entities.len(),
            entities@.len() == i,
            forall|j: int| 0 <= j < i ==> (#[trigger] entities@[j])@ == world.entities@[j]@,
        decreases world.entities.len() - i,
    {
        entities.push(world.entities[i].duplicate());
        i += 1;
    }
    assert forall|d: int| 0 <= d < world.dungeon.len() implies (#[trigger] world.dungeon@[d])@.wf() by {
        assert(world@.dungeon[d].wf());
    }
    let mut map = world.map.duplicate();
    map.clear_content_index();
    let mut levels = copy_levels(&world.dungeon);
    let mut d: usize = 0;
    while d < levels.len()
        invariant
            d <= levels.len(),
            levels@.len() == world.dungeon@.len(),
            forall|k: int| 0 <= k < world.dungeon@.len() ==> (#[trigger] world.dungeon@[k])@.wf(),
            forall|k: int|
                0 <= k < levels@.len() ==> (#[trigger] levels@[k])@ == (if k < d {
                    world.dungeon@[k]@.unindexed()
                } else {
                    world.dungeon@[k]@
                }),
        decreases levels.len() - d,
    {
        levels[d].clear_content_index();
        d += 1;
    }
    let saved = SavedGame {
        entities,
        helper: SerializationHelper { map },
        dm_helper: DMSerializationHelper { map: levels, log: copy_log(&world.log) },
    };
    assert(saved@.entities =~= world@.entities);
    assert(world@.dungeon.len() == world.dungeon@.len());
    assert(saved@.dungeon =~= world@.saved().dungeon);
    saved
}

/// Why `saved` is refused, if it is.
pub fn check_saved(saved: &SavedGame) -> (r: Option<LoadError>)
    ensures
        r == saved@.check(),
{
    if !saved.helper.map.is_wf() {
        return Some(LoadError::MalformedMap);
    }
    let mut d: usize = 0;
    assert(saved@.dungeon.len() == saved.dm_helper.map@.len());
    while d < saved.dm_helper.map.len()
        invariant
            d <= saved.dm_helper.map.len(),
            saved@.map.wf(),
            saved@.dungeon.len() == saved.dm_helper.map@.len(),
            forall|k: int| 0 <= k < d ==> (#[trigger] saved@.dungeon[k]).wf(),
        decreases saved.dm_helper.map.len() - d,
    {
        if !saved.dm_helper.map[d].is_wf() {
            assert(!saved@.dungeon[d as int].wf());
            assert(!saved@.levels_ok());
            return Some(LoadError::MalformedLevel);
        }
        d += 1;
    }
    let mut i: usize = 0;
    assert(saved@.entities.len() == saved.entities@.len());
    while i < saved.entities.len()
        invariant
            i <= saved.entities.len(),
            saved@.map.wf(),
            saved@.levels_ok(),
            saved@.entities.len() == saved.entities@.len(),
            forall|k: int| 0 <= k < i ==> #[trigger] saved@.entity_ok(k),
        decreases saved.entities.len() - i,
    {
        let rec = &saved.entities[i];
        let placed = match rec.position {
            Some(p) => saved.helper.map.in_bounds(p.x, p.y),
            None => true,
        };
        let sighted = match &rec.viewshed {
            Some(v) => -MAX_SIGHT_RANGE <= v.range && v.range <= MAX_SIGHT_RANGE,
            None => true,
        };
        let bounded = match rec.area_of_effect {
            Some(a) => -MAX_SIGHT_RANGE <= a.radius && a.radius <= MAX_SIGHT_RANGE,
            None => true,
        };
        let free = rec.alive || rec.is_free_slot();
        if !(placed && sighted && bounded && free) {
            assert(!saved@.entity_ok(i as int));
            assert(!saved@.entities_ok());
            return Some(LoadError::MalformedEntity);
        }
        i += 1;
    }
    None
}

/// Loads a saved game into the world. The saved game is checked first: one
/// that is refused leaves the world as it is.
pub fn load_game(world: &mut World, saved: SavedGame) -> (r: Result<(), LoadError>)
    requires
        old(world)@.wf(),
    ensures
        final(world)@ == old(world)@.after_load(saved@),
        match saved@.check() {
            Some(error) => r == Err::<(), LoadError>(error),
            None => r is Ok,
        },
        final(world)@.wf(),
{
    let ghost start = world@;
    let ghost model = saved@;
    match check_saved(&saved) {
        Some(error) => {
            return Err(error);
        },
        None => {},
    }
    let SavedGame { entities, helper, dm_helper } = saved;
    world.entities = entities;
    world.map = helper.map;
    world.dungeon = dm_helper.map;
    world.log = dm_helper.log;
    world.map.clear_content_index();
    let n: usize = world.entities.len();
    let mut found: Option<usize> = None;
    let mut i: usize = 0;
    assert(world@.entities =~= model.entities);
    assert(world@.dungeon =~= model.dungeon);
    while i < n
        invariant
            i <= n,
            n == model.entities.len(),
            n == world.entities@.len(),
            forall|t: int|
                0 <= t < n ==> (#[trigger] world.entities@[t])@ == (if t < i {
                    model.entities[t].settled()
                } else {
                    model.entities[t]
                }),
            match found {
                Some(k) => k < i && model.saved_player(i as int) == Some(k as int),
                None => model.saved_player(i as int) is None,
            },
            world.map@ == start.after_load(model).map,
            world@.dungeon == model.dungeon,
            world.log@ == model.log,
            world.player == start.player,
            world.player_pos == start.player_pos,
            world.run_state == start.run_state,
            world.reactions@ == start.reactions,
            model.check() is None,
        decreases n - i,
    {
        if world.entities[i].player.is_some() && world.entities[i].position.is_some() {
            found = Some(i);
        }
        world.entities[i].settle();
        assert(world@.dungeon =~= model.dungeon);
        i += 1;
    }
    match found {
        Some(k) => {
            world.player = Entity { id: k };
            match world.entities[k].position {
                Some(p) => {
                    world.player_pos = Coord { x: p.x, y: p.y };
                },
                None => {},
            }
        },
        None => {
            if !world.map.in_bounds(world.player_pos.x, world.player_pos.y) {
                world.player_pos = Coord { x: 0, y: 0 };
            }
        },
    }
    proof {
        let goal = start.after_load(model);
        lemma_saved_player(model, n as int);
        assert(world@.entities =~= goal.entities);
        assert(world@.dungeon =~= goal.dungeon);
        assert forall|j: int| 0 <= j < world@.entities.len() implies #[trigger] world@.entity_wf(
            j,
        ) by {
            assert(model.entity_ok(j));
        }
        if found is Some {
            assert(model.entity_ok(found->0 as int));
        }
    }
    Ok(())
}

/// Where a saved player is found, there is a player with a position.
pub proof fn lemma_saved_player(saved: SavedSpec, n: int)
    requires
        0 <= n <= saved.entities.len(),
    ensures
        saved.saved_player(n) matches Some(i) ==> 0 <= i < n && saved.entities[i].player is Some
            && saved.entities[i].position is Some,
    decreases n,
{
    if n > 0 && !(saved.entities[n - 1].player is Some && saved.entities[n - 1].position is Some) {
        lemma_saved_player(saved, n - 1);
    }
}

/// Deletes every entity.
pub fn delete(world: &mut World)
    requires
        old(world)@.wf(),
    ensures
        final(world)@ == (WorldSpec {
            entities: Seq::new(old(world)@.entities.len(), |i: int| EntitySpec::bare(false)),
            ..old(world)@
        }),
        final(world)@.wf(),
{
    let ghost start = world@;
    let n: usize = world.entities.len();
    let mut i: usize = 0;
    while i < n
        invariant
            i <= n,
            n == start.entities.len(),
            world@.entities.len() == n,
            world@.wf(),
            world@ == (WorldSpec { entities: world@.entities, ..start }),
            forall|t: int| 0 <= t < i ==> world@.entities[t] == EntitySpec::bare(false),
            forall|t: int| i <= t < n ==> world@.entities[t] == start.entities[t],
        decreases n - i,
    {
        let ghost before = world@;
        world.delete_entity(Entity { id: i });
        assert forall|t: int| 0 <= t < i + 1 implies world@.entities[t] == EntitySpec::bare(
            false,
        ) by {
            if t < i {
                assert(before.entities[t] == EntitySpec::bare(false));
            } else {
                assert(before.entity_wf(t));
            }
        }
        i += 1;
    }
    assert(world@.entities =~= Seq::new(
        start.entities.len(),
        |i: int| EntitySpec::bare(false),
    ));
}

/// Saving and loading brings back what was saved: the same records, with
/// their positions, health and backpacks, the same level with the same
/// tiles revealed, the same kept levels and the same log. What lasts for
/// one tick only is built anew: no wish is pending and the occupant index
/// of every level is empty. The player is the last record that is a player with a
/// position; where the world has none, the player's handle and tracked
/// position stay as they are.
pub proof fn lemma_save_then_load(w: WorldSpec)
    requires
        w.wf(),
    ensures
        ({
            let back = w.after_load(w.saved());
            let found = w.saved().saved_player(w.entities.len() as int);
            &&& back.entities == w.settled().entities
            &&& back.map == w.map.unindexed()
            &&& back.dungeon == Seq::new(w.dungeon.len(), |d: int| w.dungeon[d].unindexed())
            &&& back.log == w.log
            &&& back.run_state == w.run_state
            &&& back.reactions == w.reactions
            &&& match found {
                Some(i) => back.player.id == i && w.entities[i].position == Some(
                    Position { x: back.player_pos.x, y: back.player_pos.y },
                ),
                None => back.player == w.player && back.player_pos == w.player_pos,
            }
        }),
{
    let s = w.saved();
    assert(s.entities_ok()) by {
        assert forall|i: int| 0 <= i < s.entities.len() implies #[trigger] s.entity_ok(i) by {
            assert(w.entity_wf(i));
        }
    }
    assert(s.levels_ok()) by {
        assert forall|d: int| 0 <= d < s.dungeon.len() implies (#[trigger] s.dungeon[d]).wf() by {
            assert(w.dungeon[d].wf());
        }
    }
    assert(s.check() is None);
    lemma_saved_player(s, w.entities.len() as int);
    assert(s.map.unindexed().tile_content =~= w.map.unindexed().tile_content);
    assert(w.after_load(s).map =~= w.map.unindexed());
}

} // verus!
