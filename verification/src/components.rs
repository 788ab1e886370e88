//! The components an entity can carry, and the record that holds them.
//!
//! An entity is an index into the world's table of records. Everything that
//! is known of an entity is a component in its record; a record with
//! `alive == false` is a free slot and carries nothing.

use vstd::prelude::*;
use crate::geometry::Coord;

verus! {

/// The widest sight range and blast radius that a field of view can be
/// computed for: the largest whose diameter, squared, is still a number
/// that the sight lines' bookkeeping can hold.
pub const MAX_SIGHT_RANGE: i32 = 23170;

/// A handle to an entity: the index of its record.
#[derive(Clone, Copy, Debug, PartialEq, Eq, Hash, Structural)]
pub struct Entity {
    pub id: usize,
}

#[derive(Clone, Copy, Debug, PartialEq, Eq, Structural)]
pub struct Position {
    pub x: i32,
    pub y: i32,
}

#[derive(Clone, Copy, Debug, PartialEq, Eq, Structural)]
pub struct Color {
    pub r: u8,
    pub g: u8,
    pub b: u8,
}

#[derive(Clone, Copy, Debug, PartialEq, Eq, Structural)]
pub struct Renderable {
    pub glyph: char,
    pub fg: Color,
    pub bg: Color,
    pub render_order: i32,
}

#[derive(Clone, Copy, Debug, PartialEq, Eq, Structural)]
pub struct Player {}

#[derive(Clone, Copy, Debug, PartialEq, Eq, Structural)]
pub struct Monster {}

#[derive(Clone, Copy, Debug, PartialEq, Eq, Structural)]
pub struct BlocksTile {}

#[derive(Clone, Copy, Debug, PartialEq, Eq, Structural)]
pub struct BlocksVisibility {}

#[derive(Clone, Copy, Debug, PartialEq, Eq, Structural)]
pub struct Hidden {}

#[derive(Clone, Copy, Debug, PartialEq, Eq, Structural)]
pub struct Item {}

#[derive(Clone, Copy, Debug, PartialEq, Eq, Structural)]
pub struct Consumable {}

#[derive(Clone, Copy, Debug, PartialEq, Eq, Structural)]
pub struct EntryTrigger {}

#[derive(Clone, Copy, Debug, PartialEq, Eq, Structural)]
pub struct EntityMoved {}

#[derive(Clone, Copy, Debug, PartialEq, Eq, Structural)]
pub struct MyTurn {}

/// Marks an entity that is a spell rather than a thing.
#[derive(Clone, Copy, Debug, PartialEq, Eq, Structural)]
pub struct SpellTemplate {}

/// What an entity currently sees. `visible_tiles` is only brought up to date
/// while `dirty` is set.
#[derive(Debug)]
pub struct Viewshed {
    pub visible_tiles: Vec<Coord>,
    pub range: i32,
    pub dirty: bool,
}

pub struct ViewshedSpec {
    pub visible_tiles: Seq<Coord>,
    pub range: i32,
    pub dirty: bool,
}

impl View for Viewshed {
    type V = ViewshedSpec;

    open spec fn view(&self) -> ViewshedSpec {
        ViewshedSpec { visible_tiles: self.visible_tiles@, range: self.range, dirty: self.dirty }
    }
}

#[derive(Debug)]
pub struct Name {
    pub name: String,
}

#[derive(Clone, Copy, Debug, PartialEq, Eq, Structural)]
pub struct CombatStats {
    pub max_hp: i32,
    pub hp: i32,
    pub defense: i32,
    pub power: i32,
}

#[derive(Clone, Copy, Debug, PartialEq, Eq, Structural)]
pub struct WantsToMelee {
    pub target: Entity,
}

/// Damage waiting to be applied, one amount for each hit.
#[derive(Debug)]
pub struct SufferDamage {
    pub amount: Vec<i32>,
}

#[derive(Clone, Copy, Debug, PartialEq, Eq, Structural)]
pub struct Ranged {
    pub range: i32,
}

#[derive(Clone, Copy, Debug, PartialEq, Eq, Structural)]
pub struct InflictsDamage {
    pub damage: i32,
}

#[derive(Clone, Copy, Debug, PartialEq, Eq, Structural)]
pub struct AreaOfEffect {
    pub radius: i32,
}

#[derive(Clone, Copy, Debug, PartialEq, Eq, Structural)]
pub struct Confusion {
    pub turns: i32,
}

#[derive(Clone, Copy, Debug, PartialEq, Eq, Structural)]
pub struct ProvidesHealing {
    pub heal_amount: i32,
}

#[derive(Clone, Copy, Debug, PartialEq, Eq, Structural)]
pub struct InBackpack {
    pub owner: Entity,
}

#[derive(Clone, Copy, Debug, PartialEq, Eq, Structural)]
pub struct WantsToPickupItem {
    pub collected_by: Entity,
    pub item: Entity,
}

#[derive(Clone, Copy, Debug, PartialEq, Eq, Structural)]
pub struct WantsToUseItem {
    pub item: Entity,
    pub target: Option<Coord>,
}

#[derive(Clone, Copy, Debug, PartialEq, Eq, Structural)]
pub struct WantsToDropItem {
    pub item: Entity,
}

/// The side an entity is on; reactions are looked up by pairs of these.
#[derive(Clone, Copy, Debug, PartialEq, Eq, Structural)]
pub struct Faction {
    pub id: u32,
}

/// The tile index an entity wants to walk towards.
#[derive(Clone, Copy, Debug, PartialEq, Eq, Structural)]
pub struct WantsToApproach {
    pub idx: usize,
}

/// The tile indices an entity wants to get away from.
#[derive(Debug)]
pub struct WantsToFlee {
    pub indices: Vec<usize>,
}

#[derive(Clone, Copy, Debug, PartialEq, Eq, Structural)]
pub struct Chasing {
    pub target: Entity,
}

#[derive(Clone, Copy, Debug, PartialEq, Eq, Structural)]
pub struct WantsToCastSpell {
    pub spell: Entity,
    pub target: Option<Coord>,
}

#[derive(Clone, Copy, Debug, PartialEq, Eq, Structural)]
pub struct WantsToShoot {
    pub target: Entity,
}

/// A spell a creature may cast at what it attacks: from `min_range` to
/// `range` whole tiles away, with `chance` in a hundred each time.
#[derive(Clone, Copy, Debug, PartialEq, Eq, Structural)]
pub struct SpecialAbility {
    pub spell: Entity,
    pub chance: i32,
    pub range: i32,
    pub min_range: i32,
}

#[derive(Debug)]
pub struct SpecialAbilities {
    pub abilities: Vec<SpecialAbility>,
}

#[derive(Clone, Copy, Debug, PartialEq, Eq, Structural)]
pub struct Weapon {
    pub range: Option<i32>,
}

#[derive(Clone, Copy, Debug, PartialEq, Eq, Structural)]
pub struct Equipped {
    pub owner: Entity,
}

/// Where an entity stood on a level that is not the current one.
#[derive(Clone, Copy, Debug, PartialEq, Eq, Structural)]
pub struct OtherLevelPosition {
    pub x: i32,
    pub y: i32,
    pub depth: i32,
}

#[derive(Clone, Copy, Debug, PartialEq, Eq, Structural)]
pub enum HungerState {
    WellFed,
    Normal,
    Hungry,
    Starving,
}

#[derive(Clone, Copy, Debug, PartialEq, Eq, Structural)]
pub struct HungerClock {
    pub state: HungerState,
    pub duration: i32,
}

/// The record of one entity.
#[derive(Debug)]
pub struct EntityData {
    pub alive: bool,
    pub position: Option<Position>,
    pub renderable: Option<Renderable>,
    pub player: Option<Player>,
    pub monster: Option<Monster>,
    pub viewshed: Option<Viewshed>,
    pub name: Option<Name>,
    pub blocks_tile: Option<BlocksTile>,
    pub blocks_visibility: Option<BlocksVisibility>,
    pub hidden: Option<Hidden>,
    pub combat_stats: Option<CombatStats>,
    pub wants_to_melee: Option<WantsToMelee>,
    pub suffer_damage: Option<SufferDamage>,
    pub item: Option<Item>,
    pub consumable: Option<Consumable>,
    pub ranged: Option<Ranged>,
    pub inflicts_damage: Option<InflictsDamage>,
    pub area_of_effect: Option<AreaOfEffect>,
    pub confusion: Option<Confusion>,
    pub provides_healing: Option<ProvidesHealing>,
    pub in_backpack: Option<InBackpack>,
    pub wants_to_pickup: Option<WantsToPickupItem>,
    pub wants_to_use: Option<WantsToUseItem>,
    pub wants_to_drop: Option<WantsToDropItem>,
    pub entry_trigger: Option<EntryTrigger>,
    pub entity_moved: Option<EntityMoved>,
    pub my_turn: Option<MyTurn>,
    pub faction: Option<Faction>,
    pub wants_to_approach: Option<WantsToApproach>,
    pub wants_to_flee: Option<WantsToFlee>,
    pub chasing: Option<Chasing>,
    pub wants_to_cast_spell: Option<WantsToCastSpell>,
    pub wants_to_shoot: Option<WantsToShoot>,
    pub special_abilities: Option<SpecialAbilities>,
    pub weapon: Option<Weapon>,
    pub equipped: Option<Equipped>,
    pub other_level_position: Option<OtherLevelPosition>,
    pub hunger_clock: Option<HungerClock>,
    pub spell_template: Option<SpellTemplate>,
}

/// The mathematical content of a record: the same components, with every
/// list as a sequence.
pub struct EntitySpec {
    pub alive: bool,
    pub position: Option<Position>,
    pub renderable: Option<Renderable>,
    pub player: Option<Player>,
    pub monster: Option<Monster>,
    pub viewshed: Option<ViewshedSpec>,
    pub name: Option<Name>,
    pub blocks_tile: Option<BlocksTile>,
    pub blocks_visibility: Option<BlocksVisibility>,
    pub hidden: Option<Hidden>,
    pub combat_stats: Option<CombatStats>,
    pub wants_to_melee: Option<WantsToMelee>,
    pub suffer_damage: Option<Seq<i32>>,
    pub item: Option<Item>,
    pub consumable: Option<Consumable>,
    pub ranged: Option<Ranged>,
    pub inflicts_damage: Option<InflictsDamage>,
    pub area_of_effect: Option<AreaOfEffect>,
    pub confusion: Option<Confusion>,
    pub provides_healing: Option<ProvidesHealing>,
    pub in_backpack: Option<InBackpack>,
    pub wants_to_pickup: Option<WantsToPickupItem>,
    pub wants_to_use: Option<WantsToUseItem>,
    pub wants_to_drop: Option<WantsToDropItem>,
    pub entry_trigger: Option<EntryTrigger>,
    pub entity_moved: Option<EntityMoved>,
    pub my_turn: Option<MyTurn>,
    pub faction: Option<Faction>,
    pub wants_to_approach: Option<WantsToApproach>,
    pub wants_to_flee: Option<Seq<usize>>,
    pub chasing: Option<Chasing>,
    pub wants_to_cast_spell: Option<WantsToCastSpell>,
    pub wants_to_shoot: Option<WantsToShoot>,
    pub special_abilities: Option<Seq<SpecialAbility>>,
    pub weapon: Option<Weapon>,
    pub equipped: Option<Equipped>,
    pub other_level_position: Option<OtherLevelPosition>,
    pub hunger_clock: Option<HungerClock>,
    pub spell_template: Option<SpellTemplate>,
}

impl View for EntityData {
    type V = EntitySpec;

    open spec fn view(&self) -> EntitySpec {
        EntitySpec {
            alive: self.alive,
            position: self.position,
            renderable: self.renderable,
            player: self.player,
            monster: self.monster,
            viewshed: match self.viewshed {
                Some(v) => Some(v@),
                None => None,
            },
            name: self.name,
            blocks_tile: self.blocks_tile,
            blocks_visibility: self.blocks_visibility,
            hidden: self.hidden,
            combat_stats: self.combat_stats,
            wants_to_melee: self.wants_to_melee,
            suffer_damage: match self.suffer_damage {
                Some(d) => Some(d.amount@),
                None => None,
            },
            item: self.item,
            consumable: self.consumable,
            ranged: self.ranged,
            inflicts_damage: self.inflicts_damage,
            area_of_effect: self.area_of_effect,
            confusion: self.confusion,
            provides_healing: self.provides_healing,
            in_backpack: self.in_backpack,
            wants_to_pickup: self.wants_to_pickup,
            wants_to_use: self.wants_to_use,
            wants_to_drop: self.wants_to_drop,
            entry_trigger: self.entry_trigger,
            entity_moved: self.entity_moved,
            my_turn: self.my_turn,
            faction: self.faction,
            wants_to_approach: self.wants_to_approach,
            wants_to_flee: match self.wants_to_flee {
                Some(f) => Some(f.indices@),
                None => None,
            },
            chasing: self.chasing,
            wants_to_cast_spell: self.wants_to_cast_spell,
            wants_to_shoot: self.wants_to_shoot,
            special_abilities: match self.special_abilities {
                Some(a) => Some(a.abilities@),
                None => None,
            },
            weapon: self.weapon,
            equipped: self.equipped,
            other_level_position: self.other_level_position,
            hunger_clock: self.hunger_clock,
            spell_template: self.spell_template,
        }
    }
}

impl EntitySpec {
    /// A record that carries nothing, alive or not.
    pub open spec fn bare(alive: bool) -> EntitySpec {
        EntitySpec {
            alive,
            position: None,
            renderable: None,
            player: None,
            monster: None,
            viewshed: None,
            name: None,
            blocks_tile: None,
            blocks_visibility: None,
            hidden: None,
            combat_stats: None,
            wants_to_melee: None,
            suffer_damage: None,
            item: None,
            consumable: None,
            ranged: None,
            inflicts_damage: None,
            area_of_effect: None,
            confusion: None,
            provides_healing: None,
            in_backpack: None,
            wants_to_pickup: None,
            wants_to_use: None,
            wants_to_drop: None,
            entry_trigger: None,
            entity_moved: None,
            my_turn: None,
            faction: None,
            wants_to_approach: None,
            wants_to_flee: None,
            chasing: None,
            wants_to_cast_spell: None,
            wants_to_shoot: None,
            special_abilities: None,
            weapon: None,
            equipped: None,
            other_level_position: None,
            hunger_clock: None,
            spell_template: None,
        }
    }

    /// The sight range and the blast radius, where the record has them, lie
    /// within what a field of view is computed for.
    pub open spec fn ranges_in_limits(self) -> bool {
        &&& self.viewshed matches Some(v) ==> -MAX_SIGHT_RANGE <= v.range <= MAX_SIGHT_RANGE
        &&& self.area_of_effect matches Some(a) ==> -MAX_SIGHT_RANGE <= a.radius
            <= MAX_SIGHT_RANGE
    }
}

impl EntityData {
    /// A record that carries nothing.
    pub fn bare(alive: bool) -> (r: EntityData)
        ensures
            r@ == EntitySpec::bare(alive),
    {
        EntityData {
            alive,
            position: None,
            renderable: None,
            player: None,
            monster: None,
            viewshed: None,
            name: None,
            blocks_tile: None,
            blocks_visibility: None,
            hidden: None,
            combat_stats: None,
            wants_to_melee: None,
            suffer_damage: None,
            item: None,
            consumable: None,
            ranged: None,
            inflicts_damage: None,
            area_of_effect: None,
            confusion: None,
            provides_healing: None,
            in_backpack: None,
            wants_to_pickup: None,
            wants_to_use: None,
            wants_to_drop: None,
            entry_trigger: None,
            entity_moved: None,
            my_turn: None,
            faction: None,
            wants_to_approach: None,
            wants_to_flee: None,
            chasing: None,
            wants_to_cast_spell: None,
            wants_to_shoot: None,
            special_abilities: None,
            weapon: None,
            equipped: None,
            other_level_position: None,
            hunger_clock: None,
            spell_template: None,
        }
    }
}

/// A copy of a name, or of its absence.
pub fn copy_name(name: &Option<Name>) -> (r: Option<Name>)
    ensures
        r == *name,
{
    match name {
        Some(n) => Some(Name { name: n.name.clone() }),
        None => None,
    }
}

} // verus!
