//! The settings that creatures and items are made from.

use vstd::prelude::*;
use crate::components::{Color, MAX_SIGHT_RANGE};

verus! {

#[derive(Clone, Copy, Debug, PartialEq, Eq, Structural)]
pub struct ViewRange {
    pub tile_count: i32,
}

#[derive(Clone, Copy, Debug, PartialEq, Eq, Structural)]
pub struct Stats {
    pub max_hp: i32,
    pub starting_hp: i32,
    pub defense: i32,
    pub power: i32,
}

#[derive(Debug)]
pub struct Player {
    pub name: String,
    pub chr: char,
    pub fg_color: Color,
    pub bg_color: Color,
    pub view_range: ViewRange,
    pub stats: Stats,
}

#[derive(Debug)]
pub struct Monster {
    pub name: String,
    pub chr: char,
    pub stats: Stats,
}

#[derive(Debug)]
pub struct Monsters {
    pub orc: Monster,
    pub goblin: Monster,
    pub fg_color: Color,
    pub bg_color: Color,
    pub view_range: ViewRange,
}

#[derive(Clone, Copy, Debug, PartialEq, Eq, Structural)]
pub struct Rooms {
    pub max_count: i32,
    pub min_size: i32,
    pub max_size: i32,
    pub max_monsters: i32,
    pub max_items: i32,
}

#[derive(Debug)]
pub struct Item {
    pub name: String,
    pub chr: char,
    pub fg_color: Color,
    pub bg_color: Color,
    pub power: i32,
    pub range: Option<i32>,
    pub radius: Option<i32>,
    pub duration: Option<i32>,
}

#[derive(Debug)]
pub struct Items {
    pub health_potion: Item,
    pub fireball_scroll: Item,
    pub magic_missile_scroll: Item,
    pub confusion_scroll: Item,
}

#[derive(Clone, Copy, Debug, PartialEq, Eq, Structural)]
pub struct MapArea {
    pub width: i32,
    pub height: i32,
}

#[derive(Clone, Copy, Debug, PartialEq, Eq, Structural)]
pub struct TextArea {
    pub height: i32,
}

impl ViewRange {
    /// The range is one that a field of view is computed for.
    pub open spec fn in_limits(self) -> bool {
        -MAX_SIGHT_RANGE <= self.tile_count <= MAX_SIGHT_RANGE
    }

    /// Whether the range is one that a field of view is computed for.
    pub fn is_in_limits(&self) -> (r: bool)
        ensures
            r == self.in_limits(),
    {
        -MAX_SIGHT_RANGE <= self.tile_count && self.tile_count <= MAX_SIGHT_RANGE
    }
}

impl Item {
    /// The item can be made into a scroll that is cast from afar.
    pub open spec fn is_ranged(self) -> bool {
        self.range is Some
    }

    /// The item can be made into a scroll with an area of effect that a
    /// field of view is computed for.
    pub open spec fn has_area(self) -> bool {
        self.radius matches Some(r) && -MAX_SIGHT_RANGE <= r <= MAX_SIGHT_RANGE
    }
}

} // verus!
