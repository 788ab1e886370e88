//! What making an entity means for the world, and the order in which the
//! kinds of entities are drawn.

use vstd::prelude::*;
use crate::components::EntitySpec;
use crate::world::WorldSpec;

verus! {
/// The order in which entities are drawn: the player on top, then monsters,
/// then items.
pub const PLAYER_RENDER_ORDER: i32 = 0;

pub const MONSTER_RENDER_ORDER: i32 = 1;

pub const ITEM_RENDER_ORDER: i32 = 2;

impl WorldSpec {
    /// The world with one more entity, whose record is `rec`.
    pub open spec fn with_spawned(self, rec: EntitySpec) -> WorldSpec {
        WorldSpec { entities: self.entities.push(rec), ..self }
    }
}

} // verus!
