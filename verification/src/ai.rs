//! What monsters decide on their turn.

use vstd::prelude::*;
use crate::components::{Entity, EntitySpec, WantsToMelee};
use crate::geometry::{spec_within_melee_reach, Coord};
use crate::state::RunState;
use crate::world::{lemma_with_entity_wf, World, WorldSpec};

verus! {

/// What a monster does with its turn.
#[derive(Clone, Copy, Debug, PartialEq, Eq, Structural)]
pub enum MonsterAction {
    /// Nothing.
    Idle,
    /// It attacks the player, who is within reach.
    Attack,
    /// It sees the player and wants a path from tile `from`, where it
    /// stands, to tile `to`, where the player stands.
    Chase { from: usize, to: usize },
}

/// The AI of monsters that know the player only: they attack the player
/// when in reach and walk towards the player when they see them.
pub struct MonsterAI {}

impl WorldSpec {
    /// Entity `e` is a monster that takes turns: the simulation is ticking
    /// and `e` has a position and a viewshed.
    pub open spec fn monster_acts(self, e: Entity) -> bool {
        &&& self.run_state == RunState::Ticking
        &&& e.id < self.entities.len()
        &&& self.entities[e.id as int].monster is Some
        &&& self.entities[e.id as int].viewshed is Some
        &&& self.entities[e.id as int].position is Some
    }

    /// What `e` does with its turn.
    pub open spec fn monster_action(self, e: Entity) -> MonsterAction {
        if self.monster_acts(e) {
            let rec = self.entities[e.id as int];
            let here = Coord { x: rec.position->0.x, y: rec.position->0.y };
            if spec_within_melee_reach(here, self.player_pos) {
                MonsterAction::Attack
            } else if rec.viewshed->0.visible_tiles.contains(self.player_pos) {
                MonsterAction::Chase {
                    from: self.map.idx(here.x as int, here.y as int) as usize,
                    to: self.map.idx(self.player_pos.x as int, self.player_pos.y as int) as usize,
                }
            } else {
                MonsterAction::Idle
            }
        } else {
            MonsterAction::Idle
        }
    }

    /// The world once `e` has decided: a monster that attacks wants to
    /// melee the player. Any other decision changes nothing yet.
    pub open spec fn after_monster_decision(self, e: Entity) -> WorldSpec {
        if self.monster_action(e) == MonsterAction::Attack {
            self.with_entity(
                e.id as int,
                EntitySpec {
                    wants_to_melee: Some(WantsToMelee { target: self.player }),
                    ..self.entities[e.id as int]
                },
            )
        } else {
            self
        }
    }

    /// The monsters before index `n` that take turns, in index order.
    pub open spec fn monsters(self, n: int) -> Seq<Entity>
        decreases n,
    {
        if n <= 0 {
            Seq::empty()
        } else if self.monster_acts(Entity { id: (n - 1) as usize }) {
            self.monsters(n - 1).push(Entity { id: (n - 1) as usize })
        } else {
            self.monsters(n - 1)
        }
    }
}

/// Whether `p` is one of `points`.
pub fn contains_point(points: &Vec<Coord>, p: Coord) -> (r: bool)
    ensures
        r == points@.contains(p),
{
    let mut k: usize = 0;
    while k < points.len()
        invariant
            k <= points.len(),
            forall|j: int| 0 <= j < k ==> points@[j] != p,
        decreases points.len() - k,
    {
        if points[k].x == p.x && points[k].y == p.y {
            assert(points@[k as int] == p);
            return true;
        }
        k += 1;
    }
    false
}

impl MonsterAI {
    /// The monsters that take a turn this tick, in the order of their turns.
    pub fn actors(&self, world: &World) -> (r: Vec<Entity>)
        requires
            world@.wf(),
        ensures
            r@ == world@.monsters(world@.entities.len() as int),
    {
        let mut r: Vec<Entity> = Vec::new();
        let n: usize = world.entities.len();
        let ticking = world.run_state == RunState::Ticking;
        let mut i: usize = 0;
        while i < n
            invariant
                i <= n,
                n == world@.entities.len(),
                ticking == (world@.run_state == RunState::Ticking),
                r@ == world@.monsters(i as int),
            decreases n - i,
        {
            let rec = &world.entities[i];
            if ticking && rec.monster.is_some() && rec.viewshed.is_some() && rec.position.is_some() {
                r.push(Entity { id: i });
            }
            i += 1;
        }
        r
    }

    /// Begins the turn of `e`: decides what it does, and, if that is an
    /// attack, notes its wish to melee the player. For a chase the caller
    /// searches the path and hands it to `end_turn`.
    pub fn begin_turn(&mut self, world: &mut World, e: Entity) -> (action: MonsterAction)
        requires
            old(world)@.wf(),
        ensures
            action == old(world)@.monster_action(e),
            final(world)@ == old(world)@.after_monster_decision(e),
            final(world)@.wf(),
    {
        let ghost before = world@;
        if world.run_state != RunState::Ticking || e.id >= world.entities.len() {
            return MonsterAction::Idle;
        }
        if world.entities[e.id].monster.is_none() {
            return MonsterAction::Idle;
        }
        let here = match world.entities[e.id].position {
            Some(p) => Coord { x: p.x, y: p.y },
            None => {
                return MonsterAction::Idle;
            },
        };
        let sees_player = match &world.entities[e.id].viewshed {
            Some(v) => contains_point(&v.visible_tiles, world.player_pos),
            None => {
                return MonsterAction::Idle;
            },
        };
        assert(before.entity_wf(e.id as int));
        if here.within_melee_reach(&world.player_pos) {
            world.entities[e.id].wants_to_melee = Some(WantsToMelee { target: world.player });
            proof {
                let rec = EntitySpec {
                    wants_to_melee: Some(WantsToMelee { target: before.player }),
                    ..before.entities[e.id as int]
                };
                assert(world@.entities =~= before.entities.update(e.id as int, rec));
                assert(world@.dungeon =~= before.dungeon);
                lemma_with_entity_wf(before, e.id as int, rec);
            }
            MonsterAction::Attack
        } else if sees_player {
            let from = world.map.xy_idx(here.x, here.y);
            let to = world.map.xy_idx(world.player_pos.x, world.player_pos.y);
            MonsterAction::Chase { from, to }
        } else {
            MonsterAction::Idle
        }
    }

    /// Ends the turn of a monster that chases: it follows the path that was
    /// found for one step.
    pub fn end_turn(&mut self, world: &mut World, e: Entity, path: &crate::pathing::NavigationPath)
        -> (moved: bool)
        requires
            old(world)@.wf(),
        ensures
            final(world)@ == old(world)@.after_path_step(e, path.success, path.steps@),
            moved == old(world)@.takes_step(e, path.success, path.steps@),
            final(world)@.wf(),
    {
        crate::pathing::take_path_step(world, e, path)
    }
}

} // verus!
