//! The effect of food.

use vstd::prelude::*;
use crate::components::{Entity, EntitySpec, HungerClock, HungerState};
use crate::world::{lemma_with_entity_wf, World, WorldSpec};

verus! {

/// How many turns a meal keeps hunger away.
pub const WELL_FED_TURNS: i32 = 20;

impl WorldSpec {
    /// The world once `target` has eaten: its hunger clock, if it has one,
    /// shows well fed for `WELL_FED_TURNS` turns.
    pub open spec fn after_meal(self, target: Entity) -> WorldSpec {
        if target.id < self.entities.len() && self.entities[target.id as int].hunger_clock is Some {
            self.with_entity(
                target.id as int,
                EntitySpec {
                    hunger_clock: Some(
                        HungerClock { state: HungerState::WellFed, duration: WELL_FED_TURNS },
                    ),
                    ..self.entities[target.id as int]
                },
            )
        } else {
            self
        }
    }
}

/// Feeds `target`.
pub fn well_fed(world: &mut World, target: Entity)
    requires
        old(world)@.wf(),
    ensures
        final(world)@ == old(world)@.after_meal(target),
        final(world)@.wf(),
{
    let ghost before = world@;
    if target.id < world.entities.len() && world.entities[target.id].hunger_clock.is_some() {
        world.entities[target.id].hunger_clock = Some(
            HungerClock { state: HungerState::WellFed, duration: WELL_FED_TURNS },
        );
        proof {
            let rec = EntitySpec {
                hunger_clock: Some(
                    HungerClock { state: HungerState::WellFed, duration: WELL_FED_TURNS },
                ),
                ..before.entities[target.id as int]
            };
            assert(world@.entities =~= before.entities.update(target.id as int, rec));
            assert(world@.dungeon =~= before.dungeon);
            assert(before.entity_wf(target.id as int));
            lemma_with_entity_wf(before, target.id as int, rec);
        }
    }
}

} // verus!
