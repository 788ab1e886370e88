//! The entries of the game log. An entry records what happened and to whom;
//! turning it into a line of text is left to whoever shows the log.

use vstd::prelude::*;
use crate::components::Name;

verus! {

#[derive(Debug)]
pub enum LogEntry {
    /// The greeting at the start of a game.
    Welcome,
    /// A melee hit that got through the target's defense.
    Hits { attacker: Option<Name>, target: Option<Name>, amount: i32 },
    /// A melee attack that the target's defense absorbed.
    UnableToHurt { attacker: Option<Name>, target: Option<Name> },
    /// A creature other than the player died.
    Dies { victim: Option<Name> },
    /// The player picked an item up.
    PicksUp { item: Option<Name> },
    /// The player dropped an item.
    Drops { item: Option<Name> },
    /// The player tried to pick up where nothing lies.
    NothingToPickUp,
    /// The player used an item that healed.
    Heals { item: Option<Name>, amount: i32 },
    /// The player used an item that hurt `target`.
    Inflicts { item: Option<Name>, target: Option<Name>, amount: i32 },
    /// The player used an item that confused `target`.
    Confuses { item: Option<Name>, target: Option<Name> },
    /// The player went down a level and caught their breath.
    Descends,
    /// The player moved to another level.
    ChangesLevel,
    /// The player noticed something that was hidden.
    Spots { what: Option<Name> },
    /// Something on the floor was set off.
    Triggers { what: Option<Name> },
}

} // verus!
