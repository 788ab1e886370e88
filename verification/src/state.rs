//! The run state: where in the cycle of input, simulation and menus the game
//! stands.

use vstd::prelude::*;
use crate::combat::delete_the_dead;
use crate::components::{
    CombatStats, Entity, EntitySpec, Position, WantsToCastSpell, WantsToDropItem, WantsToUseItem,
};
use crate::config;
use crate::geometry::Coord;
use crate::levels::{game_over_cleanup, goto_level, NewLevel};
use crate::map::{lemma_point_of_index, MapSpec};
use crate::menu::{ItemMenuResult, MainMenuResult, Selection};
use crate::player::{player_input, spec_state_after, Command};
use crate::world::{lemma_with_entity_wf, lemma_wf_reads, World, WorldSpec};

verus! {

#[derive(Clone, Copy, Debug, PartialEq, Eq, Structural)]
pub enum VendorMode {
    Buy,
    Sell,
}

#[derive(Clone, Copy, Debug, PartialEq, Eq, Structural)]
pub enum RunState {
    AwaitingInput,
    PreRun,
    Ticking,
    ShowInventory,
    ShowDropItem,
    ShowTargeting { range: i32, item: Entity },
    MainMenu { menu_selection: Selection },
    SaveGame,
    LoadGame,
    NextLevel,
    PreviousLevel,
    TownPortal,
    ShowRemoveItem,
    GameOver,
    MagicMapReveal { row: i32 },
    MapGeneration,
    ShowCheatMenu,
    ShowVendor { vendor: Entity, mode: VendorMode },
    TeleportingToOtherLevel { x: i32, y: i32, depth: i32 },
    ShowRemoveCurse,
    ShowIdentify,
    Quitting,
}

/// What the game-over screen reports for one frame.
#[derive(Clone, Copy, Debug, PartialEq, Eq, Structural)]
pub enum GameOverResult {
    NoSelection,
    QuitToMenu,
}

/// What the cheat menu reports for one frame.
#[derive(Clone, Copy, Debug, PartialEq, Eq, Structural)]
pub enum CheatMenuResult {
    NoResponse,
    Cancel,
    TeleportToExit,
    Heal,
    Reveal,
    GodMode,
}

/// What the vendor menu reports for one frame.
#[derive(Clone, Copy, Debug, PartialEq, Eq, Structural)]
pub enum VendorResult {
    NoResponse,
    Cancel,
    Sell,
    BuyMode,
    SellMode,
    Buy,
}

/// What a new game starts from: the player's settings and the first level.
#[derive(Debug)]
pub struct Restart {
    pub player: config::Player,
    pub level: NewLevel,
}

/// What the collaborators outside the engine report for one tick: the
/// decoded input, the answer of a menu, that the systems ran, or a level
/// that was generated.
#[derive(Debug)]
#[allow(inconsistent_fields)]
pub enum Report {
    Nothing,
    Input { command: Option<Command> },
    SystemsRan,
    ItemMenu { result: ItemMenuResult, item: Option<Entity> },
    Targeting { result: ItemMenuResult, tile: Option<Coord> },
    MainMenu { result: MainMenuResult },
    GameOver { result: GameOverResult, restart: Option<Restart> },
    Cheat { result: CheatMenuResult, fresh: Option<NewLevel> },
    Vendor { result: VendorResult },
    Level { fresh: Option<NewLevel> },
}

/// The turn controller: the world, and the state that follows once a level
/// is generated.
#[derive(Debug)]
pub struct State {
    pub ecs: World,
    pub mapgen_next_state: Option<RunState>,
}

pub struct StateSpec {
    pub ecs: WorldSpec,
    pub mapgen_next_state: Option<RunState>,
}

impl View for State {
    type V = StateSpec;

    open spec fn view(&self) -> StateSpec {
        StateSpec { ecs: self.ecs@, mapgen_next_state: self.mapgen_next_state }
    }
}

/// A level and a start on it, as plain values.
pub open spec fn level_model(fresh: Option<NewLevel>) -> Option<(MapSpec, Position)> {
    match fresh {
        Some(level) => Some((level.map@, level.start)),
        None => None,
    }
}

/// The level is well-formed and its start lies on it.
pub open spec fn level_wf(fresh: Option<NewLevel>) -> bool {
    fresh matches Some(level) ==> level.map@.wf() && level.map@.in_bounds(
        level.start.x as int,
        level.start.y as int,
    )
}

impl Report {
    /// Every level in the report is well-formed, and a new player's sight
    /// range is within limits.
    pub open spec fn wf(self) -> bool {
        match self {
            Report::GameOver { result, restart } => restart matches Some(r) ==> level_wf(
                Some(r.level),
            ) && r.player.view_range.in_limits(),
            Report::Cheat { result, fresh } => level_wf(fresh),
            Report::Level { fresh } => level_wf(fresh),
            _ => true,
        }
    }
}

impl RunState {
    /// Whether the map and the interface are left undrawn in this state.
    pub open spec fn spec_suppresses_rendering(self) -> bool {
        self is MainMenu || self is GameOver
    }

    /// Whether the map and the interface are left undrawn in this state.
    pub fn suppresses_rendering(&self) -> (r: bool)
        ensures
            r == self.spec_suppresses_rendering(),
    {
        match self {
            RunState::MainMenu { .. } => true,
            RunState::GameOver => true,
            _ => false,
        }
    }

    /// The state that follows a run of the systems, given the state they
    /// left: awaiting input, or one of the states that interrupt the
    /// simulation, or else more ticking.
    pub open spec fn spec_after_systems(self) -> RunState {
        match self {
            RunState::PreRun => RunState::AwaitingInput,
            RunState::AwaitingInput => RunState::AwaitingInput,
            RunState::MagicMapReveal { row } => RunState::MagicMapReveal { row: 0 },
            RunState::TownPortal => RunState::TownPortal,
            RunState::TeleportingToOtherLevel { x, y, depth } => RunState::TeleportingToOtherLevel {
                x,
                y,
                depth,
            },
            RunState::ShowRemoveCurse => RunState::ShowRemoveCurse,
            RunState::ShowIdentify => RunState::ShowIdentify,
            _ => RunState::Ticking,
        }
    }

    /// The state that follows a run of the systems, given the state they left.
    pub fn after_systems(self) -> (next: RunState)
        ensures
            next == self.spec_after_systems(),
    {
        match self {
            RunState::PreRun => RunState::AwaitingInput,
            RunState::AwaitingInput => RunState::AwaitingInput,
            RunState::MagicMapReveal { row } => RunState::MagicMapReveal { row: 0 },
            RunState::TownPortal => RunState::TownPortal,
            RunState::TeleportingToOtherLevel { x, y, depth } => RunState::TeleportingToOtherLevel {
                x,
                y,
                depth,
            },
            RunState::ShowRemoveCurse => RunState::ShowRemoveCurse,
            RunState::ShowIdentify => RunState::ShowIdentify,
            _ => RunState::Ticking,
        }
    }
}

/// The state that follows a choice in the main menu.
pub open spec fn spec_after_main_menu(result: MainMenuResult) -> RunState {
    match result {
        MainMenuResult::NoSelection { selected } => RunState::MainMenu { menu_selection: selected },
        MainMenuResult::Selected { selected } => match selected {
            Selection::ContinuePlaying => RunState::AwaitingInput,
            Selection::NewGame => RunState::PreRun,
            Selection::SaveGame => RunState::SaveGame,
            Selection::LoadGame => RunState::LoadGame,
            Selection::Credits => RunState::AwaitingInput,
            Selection::Quit => RunState::Quitting,
        },
    }
}

/// The state that follows a choice in the main menu.
pub fn after_main_menu(result: MainMenuResult) -> (next: RunState)
    ensures
        next == spec_after_main_menu(result),
{
    match result {
        MainMenuResult::NoSelection { selected } => RunState::MainMenu { menu_selection: selected },
        MainMenuResult::Selected { selected } => match selected {
            Selection::ContinuePlaying => RunState::AwaitingInput,
            Selection::NewGame => RunState::PreRun,
            Selection::SaveGame => RunState::SaveGame,
            Selection::LoadGame => RunState::LoadGame,
            Selection::Credits => RunState::AwaitingInput,
            Selection::Quit => RunState::Quitting,
        },
    }
}

/// The state that follows an answer of the vendor menu.
pub open spec fn spec_after_vendor(vendor: Entity, mode: VendorMode, result: VendorResult)
    -> RunState {
    match result {
        VendorResult::Cancel => RunState::AwaitingInput,
        VendorResult::BuyMode => RunState::ShowVendor { vendor, mode: VendorMode::Buy },
        VendorResult::SellMode => RunState::ShowVendor { vendor, mode: VendorMode::Sell },
        _ => RunState::ShowVendor { vendor, mode },
    }
}

/// The state that follows an answer of the vendor menu.
pub fn after_vendor(vendor: Entity, mode: VendorMode, result: VendorResult) -> (next: RunState)
    ensures
        next == spec_after_vendor(vendor, mode, result),
{
    match result {
        VendorResult::Cancel => RunState::AwaitingInput,
        VendorResult::BuyMode => RunState::ShowVendor { vendor, mode: VendorMode::Buy },
        VendorResult::SellMode => RunState::ShowVendor { vendor, mode: VendorMode::Sell },
        _ => RunState::ShowVendor { vendor, mode },
    }
}

impl WorldSpec {
    /// The world with a wish on the player's record, if the player is
    /// alive.
    pub open spec fn with_player_record(self, rec: EntitySpec) -> WorldSpec {
        if self.is_alive(self.player) {
            self.with_entity(self.player.id as int, rec)
        } else {
            self
        }
    }

    /// The player's record, where there is one.
    pub open spec fn player_record(self) -> EntitySpec {
        self.entities[self.player.id as int]
    }

    /// The world once the player wants to use `item` on `target`.
    pub open spec fn with_use_wish(self, item: Entity, target: Option<Coord>) -> WorldSpec {
        self.with_player_record(
            EntitySpec {
                wants_to_use: Some(WantsToUseItem { item, target }),
                ..self.player_record()
            },
        )
    }

    /// The world once the player wants to cast `spell` at `target`.
    pub open spec fn with_cast_wish(self, spell: Entity, target: Option<Coord>) -> WorldSpec {
        self.with_player_record(
            EntitySpec {
                wants_to_cast_spell: Some(WantsToCastSpell { spell, target }),
                ..self.player_record()
            },
        )
    }

    /// The world once the player wants to drop `item`.
    pub open spec fn with_drop_wish(self, item: Entity) -> WorldSpec {
        self.with_player_record(
            EntitySpec { wants_to_drop: Some(WantsToDropItem { item }), ..self.player_record() },
        )
    }

    /// The world with the player at full health.
    pub open spec fn with_full_health(self) -> WorldSpec {
        if self.is_alive(self.player) && self.player_record().combat_stats is Some {
            let stats = self.player_record().combat_stats->0;
            self.with_entity(
                self.player.id as int,
                EntitySpec {
                    combat_stats: Some(CombatStats { hp: stats.max_hp, ..stats }),
                    ..self.player_record()
                },
            )
        } else {
            self
        }
    }

    /// The world with every tile revealed.
    pub open spec fn with_all_revealed(self) -> WorldSpec {
        WorldSpec {
            map: MapSpec {
                revealed_tiles: Seq::new(self.map.revealed_tiles.len(), |t: int| true),
                ..self.map
            },
            ..self
        }
    }

    /// The world with row `row` of the map revealed. A row off the map
    /// reveals nothing.
    pub open spec fn with_row_revealed(self, row: int) -> WorldSpec {
        WorldSpec {
            map: MapSpec {
                revealed_tiles: Seq::new(
                    self.map.revealed_tiles.len(),
                    |t: int| self.map.revealed_tiles[t] || self.map.y_of(t) == row,
                ),
                ..self.map
            },
            ..self
        }
    }

    /// The range of `item`, if it is used from afar.
    pub open spec fn range_of(self, item: Entity) -> Option<i32> {
        if item.id < self.entities.len() {
            match self.entities[item.id as int].ranged {
                Some(r) => Some(r.range),
                None => None,
            }
        } else {
            None
        }
    }

    /// `item` is a spell.
    pub open spec fn is_spell(self, item: Entity) -> bool {
        item.id < self.entities.len() && self.entities[item.id as int].spell_template is Some
    }
}

impl World {
    /// Replaces the player's record by one that differs in a wish only.
    fn set_player_wishes(
        &mut self,
        wants_to_use: Option<WantsToUseItem>,
        wants_to_cast_spell: Option<WantsToCastSpell>,
        wants_to_drop: Option<WantsToDropItem>,
    )
        requires
            old(self)@.wf(),
        ensures
            final(self)@ == old(self)@.with_player_record(
                EntitySpec {
                    wants_to_use,
                    wants_to_cast_spell,
                    wants_to_drop,
                    ..old(self)@.player_record()
                },
            ),
            final(self)@.wf(),
    {
        let ghost before = self@;
        if self.is_alive(self.player) {
            let id = self.player.id;
            self.entities[id].wants_to_use = wants_to_use;
            self.entities[id].wants_to_cast_spell = wants_to_cast_spell;
            self.entities[id].wants_to_drop = wants_to_drop;
            proof {
                let rec = EntitySpec {
                    wants_to_use,
                    wants_to_cast_spell,
                    wants_to_drop,
                    ..before.player_record()
                };
                assert(self@.entities =~= before.entities.update(id as int, rec));
                assert(self@.dungeon =~= before.dungeon);
                assert(before.entity_wf(id as int));
                lemma_with_entity_wf(before, id as int, rec);
            }
        }
    }

    /// Notes that the player wants to use `item` on `target`.
    pub fn request_use(&mut self, item: Entity, target: Option<Coord>)
        requires
            old(self)@.wf(),
        ensures
            final(self)@ == old(self)@.with_use_wish(item, target),
            final(self)@.wf(),
    {
        let (cast, drop) = if self.is_alive(self.player) {
            (
                self.entities[self.player.id].wants_to_cast_spell,
                self.entities[self.player.id].wants_to_drop,
            )
        } else {
            (None, None)
        };
        self.set_player_wishes(Some(WantsToUseItem { item, target }), cast, drop);
    }

    /// Notes that the player wants to cast `spell` at `target`.
    pub fn request_cast(&mut self, spell: Entity, target: Option<Coord>)
        requires
            old(self)@.wf(),
        ensures
            final(self)@ == old(self)@.with_cast_wish(spell, target),
            final(self)@.wf(),
    {
        let (wants_to_use, drop) = if self.is_alive(self.player) {
            (self.entities[self.player.id].wants_to_use, self.entities[self.player.id].wants_to_drop)
        } else {
            (None, None)
        };
        self.set_player_wishes(wants_to_use, Some(WantsToCastSpell { spell, target }), drop);
    }

    /// Notes that the player wants to drop `item`.
    pub fn request_drop(&mut self, item: Entity)
        requires
            old(self)@.wf(),
        ensures
            final(self)@ == old(self)@.with_drop_wish(item),
            final(self)@.wf(),
    {
        let (wants_to_use, cast) = if self.is_alive(self.player) {
            (
                self.entities[self.player.id].wants_to_use,
                self.entities[self.player.id].wants_to_cast_spell,
            )
        } else {
            (None, None)
        };
        self.set_player_wishes(wants_to_use, cast, Some(WantsToDropItem { item }));
    }

    /// Brings the player to full health.
    pub fn heal_fully(&mut self)
        requires
            old(self)@.wf(),
        ensures
            final(self)@ == old(self)@.with_full_health(),
            final(self)@.wf(),
    {
        let ghost before = self@;
        if self.is_alive(self.player) {
            let id = self.player.id;
            match &mut self.entities[id].combat_stats {
                Some(stats) => {
                    stats.hp = stats.max_hp;
                },
                None => {},
            }
            proof {
                let goal = before.with_full_health();
                assert(self@.entities =~= goal.entities);
                assert(self@.dungeon =~= before.dungeon);
                assert forall|j: int|
                    0 <= j < self@.entities.len() implies #[trigger] self@.entity_wf(j) by {
                    assert(before.entity_wf(j));
                }
            }
        }
    }

    /// Reveals every tile of the map.
    pub fn reveal_all(&mut self)
        requires
            old(self)@.wf(),
        ensures
            final(self)@ == old(self)@.with_all_revealed(),
            final(self)@.wf(),
    {
        let ghost before = self@;
        let n: usize = self.map.revealed_tiles.len();
        let mut t: usize = 0;
        while t < n
            invariant
                t <= n,
                n == self.map.revealed_tiles@.len(),
                self@ == (WorldSpec {
                    map: MapSpec { revealed_tiles: self.map.revealed_tiles@, ..before.map },
                    ..before
                }),
                forall|j: int| 0 <= j < t ==> self.map.revealed_tiles@[j],
            decreases n - t,
        {
            self.map.revealed_tiles[t] = true;
            assert(self@.entities =~= before.entities);
            assert(self@.dungeon =~= before.dungeon);
            assert(self@.map.tile_content =~= before.map.tile_content);
            t += 1;
        }
        assert(self.map.revealed_tiles@ =~= before.with_all_revealed().map.revealed_tiles);
        proof {
            assert forall|j: int| 0 <= j < self@.entities.len() implies #[trigger] self@.entity_wf(
                j,
            ) by {
                assert(before.entity_wf(j));
            }
        }
    }

    /// Reveals row `row` of the map, if there is such a row.
    pub fn reveal_row(&mut self, row: i32)
        requires
            old(self)@.wf(),
        ensures
            final(self)@ == old(self)@.with_row_revealed(row as int),
            final(self)@.wf(),
    {
        let ghost before = self@;
        if 0 <= row && row < self.map.height {
            let mut x: i32 = 0;
            while x < self.map.width
                invariant
                    0 <= x <= self.map.width,
                    0 <= row < self.map.height,
                    before.wf(),
                    self.map@.wf(),
                    self@ == (WorldSpec {
                        map: MapSpec { revealed_tiles: self.map.revealed_tiles@, ..before.map },
                        ..before
                    }),
                    forall|t: int|
                        #![trigger self.map.revealed_tiles@[t]]
                        0 <= t < before.map.size() ==> self.map.revealed_tiles@[t] == (
                        before.map.revealed_tiles[t] || (before.map.y_of(t) == row
                            && before.map.x_of(t) < x)),
                decreases self.map.width - x,
            {
                let idx = self.map.xy_idx(x, row);
                let ghost flags = self.map.revealed_tiles@;
                self.map.revealed_tiles[idx] = true;
                proof {
                    assert(self@.entities =~= before.entities);
                    assert(self@.dungeon =~= before.dungeon);
                    assert(self@.map.tile_content =~= before.map.tile_content);
                    crate::map::lemma_idx_in_range(before.map, x as int, row as int);
                    assert forall|t: int|
                        #![trigger self.map.revealed_tiles@[t]]
                        0 <= t < before.map.size() implies self.map.revealed_tiles@[t] == (
                    before.map.revealed_tiles[t] || (before.map.y_of(t) == row && before.map.x_of(t)
                        < x + 1)) by {
                        lemma_point_of_index(before.map, t);
                        assert(flags[t] == (before.map.revealed_tiles[t] || (before.map.y_of(t)
                            == row && before.map.x_of(t) < x)));
                    }
                }
                x += 1;
            }
            proof {
                assert forall|t: int| 0 <= t < before.map.size() implies self.map.revealed_tiles@[t]
                    == (before.map.revealed_tiles[t] || before.map.y_of(t) == row) by {
                    lemma_point_of_index(before.map, t);
                }
                assert(self.map.revealed_tiles@ =~= before.with_row_revealed(
                    row as int,
                ).map.revealed_tiles);
            }
        } else {
            proof {
                assert forall|t: int| 0 <= t < before.map.size() implies before.map.y_of(t)
                    != row by {
                    lemma_point_of_index(before.map, t);
                }
                assert(before.map.revealed_tiles =~= before.with_row_revealed(
                    row as int,
                ).map.revealed_tiles);
            }
        }
        proof {
            assert forall|j: int| 0 <= j < self@.entities.len() implies #[trigger] self@.entity_wf(
                j,
            ) by {
                assert(before.entity_wf(j));
            }
        }
    }

    /// The range of `item`, if it is used from afar.
    pub fn range_of(&self, item: Entity) -> (r: Option<i32>)
        ensures
            r == self@.range_of(item),
    {
        if item.id < self.entities.len() {
            match self.entities[item.id].ranged {
                Some(r) => Some(r.range),
                None => None,
            }
        } else {
            None
        }
    }

    /// Whether `item` is a spell.
    pub fn is_spell(&self, item: Entity) -> (r: bool)
        ensures
            r == self@.is_spell(item),
    {
        item.id < self.entities.len() && self.entities[item.id].spell_template.is_some()
    }
}

/// The state that follows an answer of an item menu that only closes: a
/// cancel goes back to awaiting input, a selection starts the simulation,
/// no response changes nothing.
pub open spec fn spec_after_plain_menu(state: RunState, result: ItemMenuResult) -> RunState {
    match result {
        ItemMenuResult::Cancel => RunState::AwaitingInput,
        ItemMenuResult::NoResponse => state,
        ItemMenuResult::Selected => RunState::Ticking,
    }
}

impl WorldSpec {
    /// The world with the player moved to `(x, y)`, if that lies on the map.
    pub open spec fn with_player_moved_to(self, x: i32, y: i32) -> WorldSpec {
        if self.map.in_bounds(x as int, y as int) {
            let entities = if self.player.id < self.entities.len() && self.player_record().position is Some {
                self.entities.update(
                    self.player.id as int,
                    EntitySpec { position: Some(Position { x, y }), ..self.player_record() },
                )
            } else {
                self.entities
            };
            WorldSpec { entities, player_pos: Coord { x, y }, ..self }
        } else {
            self
        }
    }

    /// Whether a move by `offset` levels comes about, given the fresh level
    /// at hand.
    pub open spec fn can_go(self, offset: int, fresh: Option<NewLevel>) -> bool {
        &&& i32::MIN <= offset <= i32::MAX
        &&& i32::MIN <= self.map.depth + offset <= i32::MAX
        &&& !(self.needs_new_level(offset) && fresh is None)
    }
}

impl StateSpec {
    /// The state with another world.
    pub open spec fn with_world(self, ecs: WorldSpec) -> StateSpec {
        StateSpec { ecs, ..self }
    }

    /// What a change of level by `offset` makes of the controller: the
    /// player is on the other level, a level is to be shown as generated,
    /// and the run begins anew after that. While there is no level to go
    /// to, nothing changes.
    pub open spec fn after_level_change(self, offset: int, fresh: Option<NewLevel>) -> (
        StateSpec,
        RunState,
    ) {
        if self.ecs.can_go(offset, fresh) {
            (
                StateSpec {
                    ecs: self.ecs.after_goto_level(offset, level_model(fresh)),
                    mapgen_next_state: Some(RunState::PreRun),
                },
                RunState::MapGeneration,
            )
        } else {
            (self, self.ecs.run_state)
        }
    }

    /// What an answer of the inventory makes of the controller: a ranged
    /// item asks for a target, any other item is used on the spot.
    pub open spec fn after_inventory(self, result: ItemMenuResult, item: Option<Entity>) -> (
        StateSpec,
        RunState,
    ) {
        match (result, item) {
            (ItemMenuResult::Cancel, _) => (self, RunState::AwaitingInput),
            (ItemMenuResult::Selected, Some(item)) => match self.ecs.range_of(item) {
                Some(range) => (self, RunState::ShowTargeting { range, item }),
                None => (self.with_world(self.ecs.with_use_wish(item, None)), RunState::Ticking),
            },
            _ => (self, RunState::ShowInventory),
        }
    }

    /// What an answer of the drop menu makes of the controller.
    pub open spec fn after_drop_menu(self, result: ItemMenuResult, item: Option<Entity>) -> (
        StateSpec,
        RunState,
    ) {
        match (result, item) {
            (ItemMenuResult::Cancel, _) => (self, RunState::AwaitingInput),
            (ItemMenuResult::Selected, Some(item)) => (
                self.with_world(self.ecs.with_drop_wish(item)),
                RunState::Ticking,
            ),
            _ => (self, RunState::ShowDropItem),
        }
    }

    /// What an answer of the targeting makes of the controller: a spell is
    /// cast at the target, anything else is used on it.
    pub open spec fn after_targeting(
        self,
        range: i32,
        item: Entity,
        result: ItemMenuResult,
        tile: Option<Coord>,
    ) -> (StateSpec, RunState) {
        match result {
            ItemMenuResult::Cancel => (self, RunState::AwaitingInput),
            ItemMenuResult::NoResponse => (self, RunState::ShowTargeting { range, item }),
            ItemMenuResult::Selected => if self.ecs.is_spell(item) {
                (self.with_world(self.ecs.with_cast_wish(item, tile)), RunState::Ticking)
            } else {
                (self.with_world(self.ecs.with_use_wish(item, tile)), RunState::Ticking)
            },
        }
    }

    /// What an answer of the cheat menu makes of the controller.
    pub open spec fn after_cheat(self, result: CheatMenuResult, fresh: Option<NewLevel>) -> (
        StateSpec,
        RunState,
    ) {
        match result {
            CheatMenuResult::NoResponse => (self, RunState::ShowCheatMenu),
            CheatMenuResult::Cancel => (self, RunState::AwaitingInput),
            CheatMenuResult::TeleportToExit => self.after_level_change(1, fresh),
            CheatMenuResult::Heal => (
                self.with_world(self.ecs.with_full_health()),
                RunState::AwaitingInput,
            ),
            CheatMenuResult::Reveal => (
                self.with_world(self.ecs.with_all_revealed()),
                RunState::AwaitingInput,
            ),
            CheatMenuResult::GodMode => (self, RunState::AwaitingInput),
        }
    }

    /// What an answer of the game-over screen makes of the controller.
    pub open spec fn after_game_over(self, result: GameOverResult, restart: Option<Restart>) -> (
        StateSpec,
        RunState,
    ) {
        match (result, restart) {
            (GameOverResult::QuitToMenu, Some(r)) => (
                StateSpec {
                    ecs: self.ecs.after_game_over_cleanup(
                        crate::character::spec_player(r.level.start, r.player),
                        r.level.map@,
                        r.level.start,
                    ),
                    mapgen_next_state: Some(
                        RunState::MainMenu { menu_selection: Selection::NewGame },
                    ),
                },
                RunState::MapGeneration,
            ),
            _ => (self, RunState::GameOver),
        }
    }

    /// What revealing one more row of the map makes of the controller.
    pub open spec fn after_magic_map(self, row: i32) -> (StateSpec, RunState) {
        (
            self.with_world(self.ecs.with_row_revealed(row as int)),
            if 0 <= row < self.ecs.map.height - 1 {
                RunState::MagicMapReveal { row: (row + 1) as i32 }
            } else {
                RunState::Ticking
            },
        )
    }

    /// What a teleport to `(x, y)` on the level `depth - 1` levels away
    /// makes of the controller.
    pub open spec fn after_teleport(self, x: i32, y: i32, depth: i32, fresh: Option<NewLevel>) -> (
        StateSpec,
        RunState,
    ) {
        let (moved, next) = self.after_level_change(depth - 1, fresh);
        if self.ecs.can_go(depth - 1, fresh) {
            (moved.with_world(moved.ecs.with_player_moved_to(x, y)), next)
        } else {
            (self, self.ecs.run_state)
        }
    }

    /// The level at hand in a report.
    pub open spec fn fresh_of(report: Report) -> Option<NewLevel> {
        match report {
            Report::Level { fresh } => fresh,
            _ => None,
        }
    }

    /// What one tick makes of the controller before the run state is
    /// written and the dead are swept away, and the run state that follows.
    pub open spec fn transition(self, report: Report) -> (StateSpec, RunState) {
        let same = (self, self.ecs.run_state);
        if report is SystemsRan {
            (self, self.ecs.run_state.spec_after_systems())
        } else {
            match self.ecs.run_state {
                RunState::MapGeneration => (
                    self,
                    match self.mapgen_next_state {
                        Some(next) => next,
                        None => RunState::MapGeneration,
                    },
                ),
                RunState::PreRun => same,
                RunState::Ticking => same,
                RunState::Quitting => same,
                RunState::AwaitingInput => match report {
                    Report::Input { command } => (
                        self.with_world(self.ecs.after_command(command)),
                        spec_state_after(command),
                    ),
                    _ => same,
                },
                RunState::ShowInventory => match report {
                    Report::ItemMenu { result, item } => self.after_inventory(result, item),
                    _ => same,
                },
                RunState::ShowDropItem => match report {
                    Report::ItemMenu { result, item } => self.after_drop_menu(result, item),
                    _ => same,
                },
                RunState::ShowRemoveItem | RunState::ShowRemoveCurse | RunState::ShowIdentify => match report {
                    Report::ItemMenu { result, item } => (
                        self,
                        spec_after_plain_menu(self.ecs.run_state, result),
                    ),
                    _ => same,
                },
                RunState::ShowTargeting { range, item } => match report {
                    Report::Targeting { result, tile } => self.after_targeting(
                        range,
                        item,
                        result,
                        tile,
                    ),
                    _ => same,
                },
                RunState::ShowVendor { vendor, mode } => match report {
                    Report::Vendor { result } => (self, spec_after_vendor(vendor, mode, result)),
                    _ => same,
                },
                RunState::ShowCheatMenu => match report {
                    Report::Cheat { result, fresh } => self.after_cheat(result, fresh),
                    _ => same,
                },
                RunState::MainMenu { menu_selection } => match report {
                    Report::MainMenu { result } => (self, spec_after_main_menu(result)),
                    _ => same,
                },
                RunState::GameOver => match report {
                    Report::GameOver { result, restart } => self.after_game_over(result, restart),
                    _ => same,
                },
                RunState::SaveGame => (
                    self,
                    RunState::MainMenu { menu_selection: Selection::LoadGame },
                ),
                RunState::LoadGame => (self, RunState::AwaitingInput),
                RunState::NextLevel => self.after_level_change(1, Self::fresh_of(report)),
                RunState::PreviousLevel => self.after_level_change(-1, Self::fresh_of(report)),
                RunState::TownPortal => self.after_level_change(
                    1 - self.ecs.map.depth,
                    Self::fresh_of(report),
                ),
                RunState::TeleportingToOtherLevel { x, y, depth } => self.after_teleport(
                    x,
                    y,
                    depth,
                    Self::fresh_of(report),
                ),
                RunState::MagicMapReveal { row } => self.after_magic_map(row),
            }
        }
    }

    /// What one tick makes of the controller: the transition of the state
    /// that was active, then the new run state is written, then the dead
    /// are swept away.
    pub open spec fn after_tick(self, report: Report) -> StateSpec {
        let (moved, next) = self.transition(report);
        moved.with_world((WorldSpec { run_state: next, ..moved.ecs }).after_death_sweep())
    }
}

impl State {
    /// A controller for a world that is set up, about to show its first
    /// level as generated and then the main menu.
    pub fn new(ecs: World) -> (state: State)
        ensures
            state.ecs == ecs,
            state.mapgen_next_state == Some(
                RunState::MainMenu { menu_selection: Selection::NewGame },
            ),
    {
        State {
            ecs,
            mapgen_next_state: Some(RunState::MainMenu { menu_selection: Selection::NewGame }),
        }
    }

    /// Changes the level by `offset`, if there is a level to go to.
    fn level_change(&mut self, offset: i64, fresh: Option<NewLevel>) -> (next: RunState)
        requires
            old(self).ecs@.wf(),
            level_wf(fresh),
        ensures
            (final(self)@, next) == old(self)@.after_level_change(offset as int, fresh),
            final(self).ecs@.wf(),
    {
        if offset < i32::MIN as i64 || offset > i32::MAX as i64 {
            return self.ecs.run_state;
        }
        let state = self.ecs.run_state;
        let moved = goto_level(&mut self.ecs, offset as i32, fresh);
        if moved {
            self.mapgen_next_state = Some(RunState::PreRun);
            RunState::MapGeneration
        } else {
            state
        }
    }

    /// Moves the player to `(x, y)`, if that lies on the map.
    fn move_player_to(&mut self, x: i32, y: i32)
        requires
            old(self).ecs@.wf(),
        ensures
            final(self)@ == old(self)@.with_world(old(self).ecs@.with_player_moved_to(x, y)),
            final(self).ecs@.wf(),
    {
        let ghost before = self.ecs@;
        if self.ecs.map.in_bounds(x, y) {
            let id = self.ecs.player.id;
            if id < self.ecs.entities.len() && self.ecs.entities[id].position.is_some() {
                self.ecs.entities[id].position = Some(Position { x, y });
            }
            self.ecs.player_pos = Coord { x, y };
            proof {
                let goal = before.with_player_moved_to(x, y);
                assert(self.ecs@.entities =~= goal.entities);
                assert(self.ecs@.dungeon =~= before.dungeon);
                assert forall|j: int|
                    0 <= j < self.ecs@.entities.len() implies #[trigger] self.ecs@.entity_wf(j) by {
                    assert(before.entity_wf(j));
                }
            }
        }
    }

    /// Carries out the transition of the state that is active, on what the
    /// collaborators report, and gives the run state that follows.
    fn transition(&mut self, report: Report) -> (next: RunState)
        requires
            old(self).ecs@.wf(),
            report.wf(),
        ensures
            (final(self)@, next) == old(self)@.transition(report),
            final(self).ecs@.wf(),
    {
        let state = self.ecs.run_state;
        match report {
            Report::SystemsRan => state.after_systems(),
            report => match state {
                RunState::MapGeneration => match self.mapgen_next_state {
                    Some(next) => next,
                    None => RunState::MapGeneration,
                },
                RunState::PreRun => state,
                RunState::Ticking => state,
                RunState::Quitting => state,
                RunState::AwaitingInput => match report {
                    Report::Input { command } => player_input(&mut self.ecs, command),
                    _ => state,
                },
                RunState::ShowInventory => match report {
                    Report::ItemMenu { result, item } => match (result, item) {
                        (ItemMenuResult::Cancel, _) => RunState::AwaitingInput,
                        (ItemMenuResult::Selected, Some(item)) => match self.ecs.range_of(item) {
                            Some(range) => RunState::ShowTargeting { range, item },
                            None => {
                                self.ecs.request_use(item, None);
                                RunState::Ticking
                            },
                        },
                        _ => RunState::ShowInventory,
                    },
                    _ => state,
                },
                RunState::ShowDropItem => match report {
                    Report::ItemMenu { result, item } => match (result, item) {
                        (ItemMenuResult::Cancel, _) => RunState::AwaitingInput,
                        (ItemMenuResult::Selected, Some(item)) => {
                            self.ecs.request_drop(item);
                            RunState::Ticking
                        },
                        _ => RunState::ShowDropItem,
                    },
                    _ => state,
                },
                RunState::ShowRemoveItem | RunState::ShowRemoveCurse | RunState::ShowIdentify => match report {
                    Report::ItemMenu { result, item } => match result {
                        ItemMenuResult::Cancel => RunState::AwaitingInput,
                        ItemMenuResult::NoResponse => state,
                        ItemMenuResult::Selected => RunState::Ticking,
                    },
                    _ => state,
                },
                RunState::ShowTargeting { range, item } => match report {
                    Report::Targeting { result, tile } => match result {
                        ItemMenuResult::Cancel => RunState::AwaitingInput,
                        ItemMenuResult::NoResponse => state,
                        ItemMenuResult::Selected => {
                            if self.ecs.is_spell(item) {
                                self.ecs.request_cast(item, tile);
                            } else {
                                self.ecs.request_use(item, tile);
                            }
                            RunState::Ticking
                        },
                    },
                    _ => state,
                },
                RunState::ShowVendor { vendor, mode } => match report {
                    Report::Vendor { result } => after_vendor(vendor, mode, result),
                    _ => state,
                },
                RunState::ShowCheatMenu => match report {
                    Report::Cheat { result, fresh } => match result {
                        CheatMenuResult::NoResponse => RunState::ShowCheatMenu,
                        CheatMenuResult::Cancel => RunState::AwaitingInput,
                        CheatMenuResult::TeleportToExit => self.level_change(1, fresh),
                        CheatMenuResult::Heal => {
                            self.ecs.heal_fully();
                            RunState::AwaitingInput
                        },
                        CheatMenuResult::Reveal => {
                            self.ecs.reveal_all();
                            RunState::AwaitingInput
                        },
                        CheatMenuResult::GodMode => RunState::AwaitingInput,
                    },
                    _ => state,
                },
                RunState::MainMenu { menu_selection } => match report {
                    Report::MainMenu { result } => after_main_menu(result),
                    _ => state,
                },
                RunState::GameOver => match report {
                    Report::GameOver { result, restart } => match (result, restart) {
                        (GameOverResult::QuitToMenu, Some(r)) => {
                            game_over_cleanup(&mut self.ecs, &r.player, r.level);
                            self.mapgen_next_state = Some(
                                RunState::MainMenu { menu_selection: Selection::NewGame },
                            );
                            RunState::MapGeneration
                        },
                        _ => RunState::GameOver,
                    },
                    _ => state,
                },
                RunState::SaveGame => RunState::MainMenu { menu_selection: Selection::LoadGame },
                RunState::LoadGame => RunState::AwaitingInput,
                RunState::NextLevel => {
                    let fresh = match report {
                        Report::Level { fresh } => fresh,
                        _ => None,
                    };
                    self.level_change(1, fresh)
                },
                RunState::PreviousLevel => {
                    let fresh = match report {
                        Report::Level { fresh } => fresh,
                        _ => None,
                    };
                    self.level_change(-1, fresh)
                },
                RunState::TownPortal => {
                    let fresh = match report {
                        Report::Level { fresh } => fresh,
                        _ => None,
                    };
                    let offset: i64 = 1 - self.ecs.map.depth as i64;
                    self.level_change(offset, fresh)
                },
                RunState::TeleportingToOtherLevel { x, y, depth } => {
                    let fresh = match report {
                        Report::Level { fresh } => fresh,
                        _ => None,
                    };
                    let next = self.level_change(depth as i64 - 1, fresh);
                    if next == RunState::MapGeneration {
                        self.move_player_to(x, y);
                    }
                    next
                },
                RunState::MagicMapReveal { row } => {
                    self.ecs.reveal_row(row);
                    if 0 <= row && row < self.ecs.map.height - 1 {
                        RunState::MagicMapReveal { row: row + 1 }
                    } else {
                        RunState::Ticking
                    }
                },
            },
        }
    }

    /// One tick of the turn controller. The state that is active is
    /// processed on what the collaborators report, the run state that
    /// follows is written, and the dead are swept away: once, whatever the
    /// state was. That the systems ran is reported only once they have left
    /// the simulation in a state other than ticking, so a tick of the
    /// simulation always ends in another state.
    pub fn tick(&mut self, report: Report)
        requires
            old(self).ecs@.wf(),
            report.wf(),
            report is SystemsRan ==> old(self).ecs@.run_state.spec_after_systems()
                != RunState::Ticking,
        ensures
            final(self)@ == old(self)@.after_tick(report),
            final(self).ecs@.wf(),
            report is SystemsRan ==> final(self).ecs@.run_state != RunState::Ticking,
    {
        let next = self.transition(report);
        let ghost moved = self.ecs@;
        self.ecs.run_state = next;
        proof {
            assert(self.ecs@.entities =~= moved.entities);
            assert(self.ecs@.dungeon =~= moved.dungeon);
            lemma_wf_reads(moved, self.ecs@);
        }
        delete_the_dead(&mut self.ecs);
    }
}

/// The menus in which an item is chosen.
#[derive(Clone, Copy, Debug, PartialEq, Eq, Structural)]
pub enum ItemMenu {
    Inventory,
    Drop,
    Remove,
    RemoveCurse,
    Identify,
}

/// What the turn controller asks of its caller before a tick: the work
/// that only the caller can do for the state that is active, and so the
/// report that the tick is to be given.
#[derive(Clone, Copy, Debug, PartialEq, Eq, Structural)]
pub enum Owed {
    /// Nothing: the tick takes `Report::Nothing`.
    Nothing,
    /// A pass of the system pipeline, and with `repeat` further passes for
    /// as long as `systems_again` asks for one; then `Report::SystemsRan`.
    Systems { repeat: bool },
    /// The decoded key, as `Report::Input`.
    Input,
    /// The answer of an item menu, as `Report::ItemMenu`.
    ItemMenu { menu: ItemMenu },
    /// The answer of the targeting screen for this range, as
    /// `Report::Targeting`.
    Targeting { range: i32 },
    /// The answer of the vendor menu, as `Report::Vendor`.
    Vendor,
    /// The answer of the cheat menu, as `Report::Cheat`, with a level for
    /// a move by `offset` levels where the answer asks for the move and
    /// `needs_new_level` for one.
    CheatMenu { offset: i64 },
    /// The answer of the main menu, as `Report::MainMenu`.
    MainMenu { selection: Selection },
    /// The answer of the game-over screen, as `Report::GameOver`, with what
    /// a new game starts from where a new game is chosen.
    GameOver,
    /// The game is to be saved; then `Report::Nothing`.
    Save,
    /// The game is to be loaded; then `Report::Nothing`.
    Load,
    /// A level for a move by `offset` levels, as `Report::Level`, where
    /// `needs_new_level` asks for one.
    Level { offset: i64 },
    /// The program is to end.
    Quit,
}

impl RunState {
    /// What is owed in this state, on a level of the given depth.
    pub open spec fn spec_owed(self, depth: i32) -> Owed {
        match self {
            RunState::MapGeneration => Owed::Nothing,
            RunState::MagicMapReveal { row } => Owed::Nothing,
            RunState::PreRun => Owed::Systems { repeat: false },
            RunState::Ticking => Owed::Systems { repeat: true },
            RunState::AwaitingInput => Owed::Input,
            RunState::ShowInventory => Owed::ItemMenu { menu: ItemMenu::Inventory },
            RunState::ShowDropItem => Owed::ItemMenu { menu: ItemMenu::Drop },
            RunState::ShowRemoveItem => Owed::ItemMenu { menu: ItemMenu::Remove },
            RunState::ShowRemoveCurse => Owed::ItemMenu { menu: ItemMenu::RemoveCurse },
            RunState::ShowIdentify => Owed::ItemMenu { menu: ItemMenu::Identify },
            RunState::ShowTargeting { range, item } => Owed::Targeting { range },
            RunState::ShowVendor { vendor, mode } => Owed::Vendor,
            RunState::ShowCheatMenu => Owed::CheatMenu { offset: 1i64 },
            RunState::MainMenu { menu_selection } => Owed::MainMenu { selection: menu_selection },
            RunState::GameOver => Owed::GameOver,
            RunState::SaveGame => Owed::Save,
            RunState::LoadGame => Owed::Load,
            RunState::NextLevel => Owed::Level { offset: 1i64 },
            RunState::PreviousLevel => Owed::Level { offset: -1i64 },
            RunState::TownPortal => Owed::Level { offset: (1 - depth) as i64 },
            RunState::TeleportingToOtherLevel { x, y, depth: to } => Owed::Level {
                offset: (to - 1) as i64,
            },
            RunState::Quitting => Owed::Quit,
        }
    }
}

impl Owed {
    /// The report is of the kind that is owed.
    pub open spec fn is_met_by(self, report: Report) -> bool {
        match self {
            Owed::Nothing | Owed::Save | Owed::Load | Owed::Quit => report is Nothing,
            Owed::Systems { repeat } => report is SystemsRan,
            Owed::Input => report is Input,
            Owed::ItemMenu { menu } => report is ItemMenu,
            Owed::Targeting { range } => report is Targeting,
            Owed::Vendor => report is Vendor,
            Owed::CheatMenu { offset } => report is Cheat,
            Owed::MainMenu { selection } => report is MainMenu,
            Owed::GameOver => report is GameOver,
            Owed::Level { offset } => report is Level,
        }
    }
}

impl State {
    /// What the caller owes before the next tick.
    pub fn owed(&self) -> (r: Owed)
        ensures
            r == self.ecs@.run_state.spec_owed(self.ecs@.map.depth),
    {
        match self.ecs.run_state {
            RunState::MapGeneration => Owed::Nothing,
            RunState::MagicMapReveal { .. } => Owed::Nothing,
            RunState::PreRun => Owed::Systems { repeat: false },
            RunState::Ticking => Owed::Systems { repeat: true },
            RunState::AwaitingInput => Owed::Input,
            RunState::ShowInventory => Owed::ItemMenu { menu: ItemMenu::Inventory },
            RunState::ShowDropItem => Owed::ItemMenu { menu: ItemMenu::Drop },
            RunState::ShowRemoveItem => Owed::ItemMenu { menu: ItemMenu::Remove },
            RunState::ShowRemoveCurse => Owed::ItemMenu { menu: ItemMenu::RemoveCurse },
            RunState::ShowIdentify => Owed::ItemMenu { menu: ItemMenu::Identify },
            RunState::ShowTargeting { range, .. } => Owed::Targeting { range },
            RunState::ShowVendor { .. } => Owed::Vendor,
            RunState::ShowCheatMenu => Owed::CheatMenu { offset: 1 },
            RunState::MainMenu { menu_selection } => Owed::MainMenu { selection: menu_selection },
            RunState::GameOver => Owed::GameOver,
            RunState::SaveGame => Owed::Save,
            RunState::LoadGame => Owed::Load,
            RunState::NextLevel => Owed::Level { offset: 1 },
            RunState::PreviousLevel => Owed::Level { offset: -1 },
            RunState::TownPortal => Owed::Level { offset: 1 - self.ecs.map.depth as i64 },
            RunState::TeleportingToOtherLevel { depth, .. } => Owed::Level {
                offset: depth as i64 - 1,
            },
            RunState::Quitting => Owed::Quit,
        }
    }

    /// Whether the systems are to run once more before the tick: they are
    /// for as long as they leave the simulation ticking.
    pub fn systems_again(&self) -> (r: bool)
        ensures
            r == (self.ecs@.run_state.spec_after_systems() == RunState::Ticking),
    {
        self.ecs.run_state.after_systems() == RunState::Ticking
    }
}

impl NewLevel {
    /// Whether the level is well-formed and its start lies on it.
    pub fn is_wf(&self) -> (r: bool)
        ensures
            r == (self.map@.wf() && self.map@.in_bounds(self.start.x as int, self.start.y as int)),
    {
        self.map.is_wf() && self.map.in_bounds(self.start.x, self.start.y)
    }
}

impl Report {
    /// Whether the report may be handed to the tick.
    pub fn is_wf(&self) -> (r: bool)
        ensures
            r == self.wf(),
    {
        match self {
            Report::GameOver { result, restart } => match restart {
                Some(r) => r.level.is_wf() && r.player.view_range.is_in_limits(),
                None => true,
            },
            Report::Cheat { result, fresh } => match fresh {
                Some(level) => level.is_wf(),
                None => true,
            },
            Report::Level { fresh } => match fresh {
                Some(level) => level.is_wf(),
                None => true,
            },
            _ => true,
        }
    }
}

/// Sets a game up on a level that was generated: the log greets the player,
/// the player stands on `start`, and the run is about to begin.
pub fn setup(map: crate::map::TileMap, start: Position, cfg: &config::Player) -> (state: State)
    requires
        map@.wf(),
        map@.in_bounds(start.x as int, start.y as int),
        cfg.view_range.in_limits(),
    ensures
        state@.ecs.wf(),
        state@.ecs.map == map@,
        state@.ecs.entities == seq![crate::character::spec_player(start, *cfg)],
        state@.ecs.player == (Entity { id: 0 }),
        state@.ecs.player_pos == (Coord { x: start.x, y: start.y }),
        state@.ecs.run_state == RunState::PreRun,
        state@.ecs.log == seq![crate::gamelog::LogEntry::Welcome],
        state@.ecs.dungeon.len() == 0,
        state@.ecs.reactions.len() == 0,
        state@.mapgen_next_state == Some(RunState::PreRun),
{
    let mut ecs = World::new(map);
    ecs.push_log(crate::gamelog::LogEntry::Welcome);
    let character = crate::character::new(&mut ecs, start, cfg);
    assert(ecs@.entities =~= seq![crate::character::spec_player(start, *cfg)]);
    assert(ecs@.log =~= seq![crate::gamelog::LogEntry::Welcome]);
    State { ecs, mapgen_next_state: Some(RunState::PreRun) }
}

} // verus!
