//! The player's turn: decoding a key, moving or attacking, picking up.

use vstd::prelude::*;
use crate::components::{
    Entity, EntitySpec, Position, ViewshedSpec, WantsToMelee, WantsToPickupItem,
};
use crate::gamelog::LogEntry;
use crate::geometry::Coord;
use crate::menu::Selection;
use crate::state::RunState;
use crate::tiles::TileType;
use crate::world::{lemma_with_entity_wf, World, WorldSpec};

verus! {

/// The keys the game tells apart while it waits for the player.
#[derive(Clone, Copy, Debug, PartialEq, Eq, Structural)]
pub enum Key {
    Left,
    Right,
    Up,
    Down,
    A,
    C,
    D,
    E,
    I,
    L,
    P,
    Q,
    S,
    W,
    Z,
    Key1,
    Key2,
    Key3,
    Key4,
    Key6,
    Key7,
    Key8,
    Key9,
    Space,
    Escape,
    Other,
}

/// What the player asks for.
#[derive(Clone, Copy, Debug, PartialEq, Eq, Structural)]
pub enum Command {
    Move { dx: i32, dy: i32 },
    PickUp,
    ShowInventory,
    ShowDropItem,
    MainMenu,
    Wait,
    Nothing,
}

/// The command a key stands for.
pub open spec fn spec_decode_key(key: Key) -> Command {
    match key {
        Key::Left | Key::A | Key::Key4 => Command::Move { dx: -1i32, dy: 0 },
        Key::Right | Key::D | Key::Key6 => Command::Move { dx: 1, dy: 0 },
        Key::Up | Key::W | Key::Key8 => Command::Move { dx: 0, dy: -1i32 },
        Key::Down | Key::S | Key::Key2 => Command::Move { dx: 0, dy: 1 },
        Key::Key7 | Key::Q => Command::Move { dx: -1i32, dy: -1i32 },
        Key::Key9 | Key::E => Command::Move { dx: 1, dy: -1i32 },
        Key::Key3 | Key::C => Command::Move { dx: 1, dy: 1 },
        Key::Key1 | Key::Z => Command::Move { dx: -1i32, dy: 1 },
        Key::P => Command::PickUp,
        Key::I => Command::ShowInventory,
        Key::L => Command::ShowDropItem,
        Key::Escape => Command::MainMenu,
        Key::Space => Command::Wait,
        Key::Other => Command::Nothing,
    }
}

/// The command a key stands for: arrows, `wasd` and the number pad move,
/// `qezc` and the pad's corners move diagonally, `p` picks up, `i` and `l`
/// open the inventory and the drop menu, escape opens the main menu, and
/// space lets a turn pass.
pub fn decode_key(key: Key) -> (command: Command)
    ensures
        command == spec_decode_key(key),
{
    match key {
        Key::Left | Key::A | Key::Key4 => Command::Move { dx: -1, dy: 0 },
        Key::Right | Key::D | Key::Key6 => Command::Move { dx: 1, dy: 0 },
        Key::Up | Key::W | Key::Key8 => Command::Move { dx: 0, dy: -1 },
        Key::Down | Key::S | Key::Key2 => Command::Move { dx: 0, dy: 1 },
        Key::Key7 | Key::Q => Command::Move { dx: -1, dy: -1 },
        Key::Key9 | Key::E => Command::Move { dx: 1, dy: -1 },
        Key::Key3 | Key::C => Command::Move { dx: 1, dy: 1 },
        Key::Key1 | Key::Z => Command::Move { dx: -1, dy: 1 },
        Key::P => Command::PickUp,
        Key::I => Command::ShowInventory,
        Key::L => Command::ShowDropItem,
        Key::Escape => Command::MainMenu,
        Key::Space => Command::Wait,
        Key::Other => Command::Nothing,
    }
}

/// What moving entity `e` by `(dx, dy)` comes to.
pub enum MoveOutcome {
    /// `e` is no player that can move: nothing happens to it.
    NotAMover,
    /// The destination is off the map or on its first column or row:
    /// nothing happens, and no further player is moved.
    OffLimits,
    /// Someone with stats stands on the destination: `e` wants to melee
    /// them, and no further player is moved.
    Attacks { target: Entity },
    /// The destination is blocked: `e` stays.
    Blocked,
    /// `e` moves to the destination.
    Moves { to: Position },
}

impl WorldSpec {
    /// The first of the occupants from position `k` on that has stats.
    pub open spec fn first_fighter(self, occupants: Seq<Entity>, k: int) -> Option<Entity>
        decreases occupants.len() - k,
    {
        if k < 0 || k >= occupants.len() {
            None
        } else if occupants[k].id < self.entities.len()
            && self.entities[occupants[k].id as int].combat_stats is Some {
            Some(occupants[k])
        } else {
            self.first_fighter(occupants, k + 1)
        }
    }

    /// What moving entity `e` by `(dx, dy)` comes to.
    pub open spec fn move_outcome(self, e: int, dx: int, dy: int) -> MoveOutcome {
        let rec = self.entities[e];
        if rec.player is Some && rec.position is Some && rec.viewshed is Some {
            let x = rec.position->0.x + dx;
            let y = rec.position->0.y + dy;
            if x < 1 || x > self.map.width - 1 || y < 1 || y > self.map.height - 1 {
                MoveOutcome::OffLimits
            } else {
                let dest = self.map.idx(x, y);
                match self.first_fighter(self.map.tile_content[dest], 0) {
                    Some(target) => MoveOutcome::Attacks { target },
                    None => if self.map.blocked[dest] {
                        MoveOutcome::Blocked
                    } else {
                        MoveOutcome::Moves { to: Position { x: x as i32, y: y as i32 } }
                    },
                }
            }
        } else {
            MoveOutcome::NotAMover
        }
    }

    /// The world once entity `e` has been moved by `(dx, dy)`: a player
    /// that attacks wants to melee its target; one that moves stands on the
    /// destination, its viewshed is out of date, and the tracked position
    /// of the player follows.
    pub open spec fn after_move_of(self, e: int, dx: int, dy: int) -> WorldSpec {
        match self.move_outcome(e, dx, dy) {
            MoveOutcome::Attacks { target } => self.with_entity(
                e,
                EntitySpec { wants_to_melee: Some(WantsToMelee { target }), ..self.entities[e] },
            ),
            MoveOutcome::Moves { to } => WorldSpec {
                entities: self.entities.update(
                    e,
                    EntitySpec {
                        position: Some(to),
                        viewshed: Some(
                            ViewshedSpec { dirty: true, ..self.entities[e].viewshed->0 },
                        ),
                        ..self.entities[e]
                    },
                ),
                player_pos: Coord { x: to.x, y: to.y },
                ..self
            },
            _ => self,
        }
    }

    /// The world once the players from index `i` on have been moved by
    /// `(dx, dy)`, one after the other, up to the first that runs off
    /// limits or attacks.
    pub open spec fn after_moves_from(self, i: int, dx: int, dy: int) -> WorldSpec
        decreases self.entities.len() - i,
    {
        if i < 0 || i >= self.entities.len() {
            self
        } else {
            match self.move_outcome(i, dx, dy) {
                MoveOutcome::OffLimits => self,
                MoveOutcome::Attacks { target } => self.after_move_of(i, dx, dy),
                _ => {
                    let next = self.after_move_of(i, dx, dy);
                    if next.entities.len() == self.entities.len() {
                        next.after_moves_from(i + 1, dx, dy)
                    } else {
                        self
                    }
                },
            }
        }
    }

    /// The world after an attempt to move the player by `(dx, dy)`.
    pub open spec fn after_try_move(self, dx: int, dy: int) -> WorldSpec {
        self.after_moves_from(0, dx, dy)
    }
}

/// The first of `occupants` that has stats.
fn find_fighter(world: &World, occupants: &Vec<Entity>) -> (r: Option<Entity>)
    ensures
        r == world@.first_fighter(occupants@, 0),
{
    let mut k: usize = 0;
    while k < occupants.len()
        invariant
            k <= occupants.len(),
            world@.first_fighter(occupants@, 0) == world@.first_fighter(occupants@, k as int),
        decreases occupants.len() - k,
    {
        let o = occupants[k];
        if o.id < world.entities.len() && world.entities[o.id].combat_stats.is_some() {
            return Some(o);
        }
        k += 1;
    }
    None
}

/// Moves entity `e` by `(dx, dy)`, and says whether further players may
/// still be moved.
fn move_of(world: &mut World, e: usize, dx: i32, dy: i32) -> (go_on: bool)
    requires
        old(world)@.wf(),
        e < old(world)@.entities.len(),
    ensures
        final(world)@ == old(world)@.after_move_of(e as int, dx as int, dy as int),
        go_on == !(old(world)@.move_outcome(e as int, dx as int, dy as int) is OffLimits
            || old(world)@.move_outcome(e as int, dx as int, dy as int) is Attacks),
        final(world)@.wf(),
        final(world)@.entities.len() == old(world)@.entities.len(),
{
    let ghost before = world@;
    if world.entities[e].player.is_none() || world.entities[e].viewshed.is_none() {
        return true;
    }
    let here = match world.entities[e].position {
        Some(p) => p,
        None => {
            return true;
        },
    };
    let x: i64 = here.x as i64 + dx as i64;
    let y: i64 = here.y as i64 + dy as i64;
    if x < 1 || x > world.map.width as i64 - 1 || y < 1 || y > world.map.height as i64 - 1 {
        return false;
    }
    let to = Position { x: x as i32, y: y as i32 };
    let dest = world.map.xy_idx(to.x, to.y);
    assert(world.map@.tile_content[dest as int] == world.map.tile_content@[dest as int]@);
    match find_fighter(world, &world.map.tile_content[dest]) {
        Some(target) => {
            world.entities[e].wants_to_melee = Some(WantsToMelee { target });
            proof {
                let rec = EntitySpec {
                    wants_to_melee: Some(WantsToMelee { target }),
                    ..before.entities[e as int]
                };
                assert(world@.entities =~= before.entities.update(e as int, rec));
                assert(world@.dungeon =~= before.dungeon);
                assert(before.entity_wf(e as int));
                lemma_with_entity_wf(before, e as int, rec);
            }
            false
        },
        None => {
            if !world.map.blocked[dest] {
                world.entities[e].position = Some(to);
                match &mut world.entities[e].viewshed {
                    Some(v) => {
                        v.dirty = true;
                    },
                    None => {},
                }
                world.player_pos = Coord { x: to.x, y: to.y };
                proof {
                    let goal = before.after_move_of(e as int, dx as int, dy as int);
                    assert(world@.entities =~= goal.entities);
                    assert(world@.dungeon =~= before.dungeon);
                    assert forall|j: int|
                        0 <= j < world@.entities.len() implies #[trigger] world@.entity_wf(j) by {
                        assert(before.entity_wf(j));
                    }
                }
            }
            true
        },
    }
}

/// Tries to move the player by `(dx, dy)`. A destination off the map or on
/// its first column or row is refused. If someone with stats stands on the
/// destination, the player wants to melee them instead of moving. Else the
/// player moves, unless the destination is blocked; a move makes the
/// viewshed out of date and takes the tracked position along.
pub fn try_move(delta_x: i32, delta_y: i32, world: &mut World)
    requires
        old(world)@.wf(),
    ensures
        final(world)@ == old(world)@.after_try_move(delta_x as int, delta_y as int),
        final(world)@.wf(),
{
    let ghost start = world@;
    let n: usize = world.entities.len();
    let mut i: usize = 0;
    while i < n
        invariant
            i <= n,
            n == world@.entities.len(),
            world@.wf(),
            start == old(world)@,
            start.after_try_move(delta_x as int, delta_y as int) == world@.after_moves_from(
                i as int,
                delta_x as int,
                delta_y as int,
            ),
        decreases n - i,
    {
        let ghost before = world@;
        let go_on = move_of(world, i, delta_x, delta_y);
        assert(before.after_moves_from(i as int, delta_x as int, delta_y as int) == (if go_on {
            world@.after_moves_from(i as int + 1, delta_x as int, delta_y as int)
        } else {
            world@
        }));
        if !go_on {
            return ;
        }
        i += 1;
    }
}

impl WorldSpec {
    /// The last item before index `n` that lies where the player stands.
    pub open spec fn item_underfoot(self, n: int) -> Option<Entity>
        decreases n,
    {
        if n <= 0 {
            None
        } else if self.entities[n - 1].item is Some && self.entities[n - 1].position == Some(
            Position { x: self.player_pos.x, y: self.player_pos.y },
        ) {
            Some(Entity { id: (n - 1) as usize })
        } else {
            self.item_underfoot(n - 1)
        }
    }

    /// The world once the player has reached for what lies underfoot: with
    /// an item there, the player wants to pick it up; with none, the log
    /// says so.
    pub open spec fn after_get_item(self) -> WorldSpec {
        match self.item_underfoot(self.entities.len() as int) {
            Some(item) => if self.is_alive(self.player) {
                self.with_entity(
                    self.player.id as int,
                    EntitySpec {
                        wants_to_pickup: Some(
                            WantsToPickupItem { collected_by: self.player, item },
                        ),
                        ..self.entities[self.player.id as int]
                    },
                )
            } else {
                self
            },
            None => self.with_log(LogEntry::NothingToPickUp),
        }
    }
}

/// Lets the player reach for the item underfoot.
pub fn get_item(world: &mut World)
    requires
        old(world)@.wf(),
    ensures
        final(world)@ == old(world)@.after_get_item(),
        final(world)@.wf(),
{
    let ghost before = world@;
    let n: usize = world.entities.len();
    let mut found: Option<Entity> = None;
    let mut i: usize = 0;
    while i < n
        invariant
            i <= n,
            n == world@.entities.len(),
            world@ == before,
            found == before.item_underfoot(i as int),
        decreases n - i,
    {
        let lies_here = match world.entities[i].position {
            Some(p) => p.x == world.player_pos.x && p.y == world.player_pos.y,
            None => false,
        };
        if world.entities[i].item.is_some() && lies_here {
            found = Some(Entity { id: i });
        }
        i += 1;
    }
    match found {
        Some(item) => {
            if world.is_alive(world.player) {
                let player = world.player;
                world.entities[player.id].wants_to_pickup = Some(
                    WantsToPickupItem { collected_by: player, item },
                );
                proof {
                    let rec = EntitySpec {
                        wants_to_pickup: Some(WantsToPickupItem { collected_by: player, item }),
                        ..before.entities[player.id as int]
                    };
                    assert(world@.entities =~= before.entities.update(player.id as int, rec));
                    assert(world@.dungeon =~= before.dungeon);
                    assert(before.entity_wf(player.id as int));
                    lemma_with_entity_wf(before, player.id as int, rec);
                }
            }
        },
        None => {
            world.push_log(LogEntry::NothingToPickUp);
        },
    }
}

/// The run state that follows a command, given while awaiting input.
pub open spec fn spec_state_after(command: Option<Command>) -> RunState {
    match command {
        None => RunState::AwaitingInput,
        Some(Command::Move { dx, dy }) => RunState::Ticking,
        Some(Command::PickUp) => RunState::Ticking,
        Some(Command::Wait) => RunState::Ticking,
        Some(Command::ShowInventory) => RunState::ShowInventory,
        Some(Command::ShowDropItem) => RunState::ShowDropItem,
        Some(Command::MainMenu) => RunState::MainMenu {
            menu_selection: Selection::ContinuePlaying,
        },
        Some(Command::Nothing) => RunState::AwaitingInput,
    }
}

impl WorldSpec {
    /// The world once the player's command is carried out.
    pub open spec fn after_command(self, command: Option<Command>) -> WorldSpec {
        match command {
            Some(Command::Move { dx, dy }) => self.after_try_move(dx as int, dy as int),
            Some(Command::PickUp) => self.after_get_item(),
            _ => self,
        }
    }
}

/// Carries out the player's command and says which run state follows: a
/// move, a pick-up or a wait starts the simulation, the menus open their
/// state, and no key or an unknown key keeps waiting.
pub fn player_input(world: &mut World, command: Option<Command>) -> (next: RunState)
    requires
        old(world)@.wf(),
    ensures
        next == spec_state_after(command),
        final(world)@ == old(world)@.after_command(command),
        final(world)@.wf(),
{
    match command {
        None => RunState::AwaitingInput,
        Some(Command::Move { dx, dy }) => {
            try_move(dx, dy, world);
            RunState::Ticking
        },
        Some(Command::PickUp) => {
            get_item(world);
            RunState::Ticking
        },
        Some(Command::Wait) => RunState::Ticking,
        Some(Command::ShowInventory) => RunState::ShowInventory,
        Some(Command::ShowDropItem) => RunState::ShowDropItem,
        Some(Command::MainMenu) => RunState::MainMenu {
            menu_selection: Selection::ContinuePlaying,
        },
        Some(Command::Nothing) => RunState::AwaitingInput,
    }
}

impl WorldSpec {
    /// Where the simplest kind of move takes entity `e`: a player with a
    /// position steps by `(dx, dy)` onto any tile of the map that is no
    /// wall. Everyone else stays.
    pub open spec fn simple_move_of(self, e: int, dx: int, dy: int) -> EntitySpec {
        let rec = self.entities[e];
        if rec.player is Some && rec.position is Some {
            let x = rec.position->0.x + dx;
            let y = rec.position->0.y + dy;
            if self.map.in_bounds(x, y) && self.map.tiles[self.map.idx(x, y)] != TileType::Wall {
                EntitySpec { position: Some(Position { x: x as i32, y: y as i32 }), ..rec }
            } else {
                rec
            }
        } else {
            rec
        }
    }

    /// The world after the simplest kind of move.
    pub open spec fn after_simple_move(self, dx: int, dy: int) -> WorldSpec {
        WorldSpec {
            entities: Seq::new(self.entities.len(), |e: int| self.simple_move_of(e, dx, dy)),
            ..self
        }
    }
}

/// Moves every player by `(delta_x, delta_y)` without regard for anyone:
/// onto any tile that is no wall, whoever stands there.
pub fn try_move_player(delta_x: i32, delta_y: i32, world: &mut World)
    requires
        old(world)@.wf(),
    ensures
        final(world)@ == old(world)@.after_simple_move(delta_x as int, delta_y as int),
        final(world)@.wf(),
{
    let ghost start = world@;
    let n: usize = world.entities.len();
    assert(world@.entities.len() == world.entities@.len());
    let mut i: usize = 0;
    while i < n
        invariant
            i <= n,
            n == start.entities.len(),
            n == world.entities@.len(),
            start.wf(),
            world.map@ == start.map,
            world@ == (WorldSpec { entities: world@.entities, ..start }),
            forall|t: int|
                0 <= t < n ==> world@.entities[t] == (if t < i {
                    start.simple_move_of(t, delta_x as int, delta_y as int)
                } else {
                    start.entities[t]
                }),
        decreases n - i,
    {
        let ghost before = world@;
        if world.entities[i].player.is_some() {
            match world.entities[i].position {
                Some(p) => {
                    let x: i64 = p.x as i64 + delta_x as i64;
                    let y: i64 = p.y as i64 + delta_y as i64;
                    if 0 <= x && x < world.map.width as i64 && 0 <= y && y
                        < world.map.height as i64 {
                        let idx = world.map.xy_idx(x as i32, y as i32);
                        if world.map.tiles[idx] != TileType::Wall {
                            world.entities[i].position = Some(
                                Position { x: x as i32, y: y as i32 },
                            );
                        }
                    }
                },
                None => {},
            }
        }
        assert(world@.dungeon =~= start.dungeon);
        assert forall|t: int| 0 <= t < n implies world@.entities[t] == (if t < i + 1 {
            start.simple_move_of(t, delta_x as int, delta_y as int)
        } else {
            start.entities[t]
        }) by {
            if t != i {
                assert(world@.entities[t] == before.entities[t]);
            } else {
                assert(before.entities[t] == start.entities[t]);
            }
        }
        i += 1;
    }
    assert(world@.entities =~= start.after_simple_move(
        delta_x as int,
        delta_y as int,
    ).entities);
    proof {
        assert forall|j: int| 0 <= j < n implies #[trigger] world@.entity_wf(j) by {
            assert(start.entity_wf(j));
        }
    }
}

/// Takes the key of this frame, if there is one, carries out the command it
/// stands for, and says which run state follows.
pub fn input(world: &mut World, key: Option<Key>) -> (next: RunState)
    requires
        old(world)@.wf(),
    ensures
        next == spec_state_after(
            match key {
                Some(k) => Some(spec_decode_key(k)),
                None => None,
            },
        ),
        final(world)@ == old(world)@.after_command(
            match key {
                Some(k) => Some(spec_decode_key(k)),
                None => None,
            },
        ),
        final(world)@.wf(),
{
    let command = match key {
        Some(k) => Some(decode_key(k)),
        None => None,
    };
    player_input(world, command)
}

} // verus!
