//! The sizes of the screen areas, and what the menus list.

use vstd::prelude::*;
use crate::components::{Color, Entity};
use crate::config::{MapArea, TextArea};
use crate::world::{World, WorldSpec};

verus! {

/// The settings of the interface.
#[derive(Clone, Copy, Debug, PartialEq, Eq, Structural)]
pub struct Gui {
    pub bg_color: Color,
    pub fg_color: Color,
    pub cursor_color: Color,
    pub fullscreen: bool,
    pub map_area: MapArea,
    pub text_area: TextArea,
}

/// The layout of the screen: the map area on top, the text area below.
#[derive(Clone, Copy, Debug, PartialEq, Eq, Structural)]
pub struct GUI {
    pub map_area: MapArea,
    pub text_area: TextArea,
    pub width: i32,
    pub height: i32,
    pub fg_color: Color,
    pub bg_color: Color,
    pub cursor_color: Color,
}

/// The layout for the given settings: as wide as the map area, and as high
/// as the map area and the text area together.
pub fn new(cfg: &Gui) -> (gui: GUI)
    requires
        i32::MIN <= cfg.map_area.height + cfg.text_area.height <= i32::MAX,
    ensures
        gui == (GUI {
            map_area: cfg.map_area,
            text_area: cfg.text_area,
            width: cfg.map_area.width,
            height: (cfg.map_area.height + cfg.text_area.height) as i32,
            fg_color: cfg.fg_color,
            bg_color: cfg.bg_color,
            cursor_color: cfg.cursor_color,
        }),
{
    GUI {
        map_area: cfg.map_area,
        text_area: cfg.text_area,
        width: cfg.map_area.width,
        height: cfg.map_area.height + cfg.text_area.height,
        fg_color: cfg.fg_color,
        bg_color: cfg.bg_color,
        cursor_color: cfg.cursor_color,
    }
}

impl WorldSpec {
    /// Entity `i` is listed in the backpack of `owner`: it lies there and
    /// has a name.
    pub open spec fn listed_for(self, i: int, owner: Entity) -> bool {
        &&& self.entities[i].in_backpack matches Some(pack) && pack.owner == owner
        &&& self.entities[i].name is Some
    }

    /// What the backpack of `owner` lists among the entities before index
    /// `n`, in index order.
    pub open spec fn backpack(self, owner: Entity, n: int) -> Seq<Entity>
        decreases n,
    {
        if n <= 0 {
            Seq::empty()
        } else if self.listed_for(n - 1, owner) {
            self.backpack(owner, n - 1).push(Entity { id: (n - 1) as usize })
        } else {
            self.backpack(owner, n - 1)
        }
    }

    /// Entity `i` is named and stands on `(x, y)`.
    pub open spec fn named_at(self, i: int, x: int, y: int) -> bool {
        &&& self.entities[i].name is Some
        &&& self.entities[i].position matches Some(p) && p.x == x && p.y == y
    }

    /// The named entities before index `n` that stand on `(x, y)`.
    pub open spec fn named_on(self, x: int, y: int, n: int) -> Seq<Entity>
        decreases n,
    {
        if n <= 0 {
            Seq::empty()
        } else if self.named_at(n - 1, x, y) {
            self.named_on(x, y, n - 1).push(Entity { id: (n - 1) as usize })
        } else {
            self.named_on(x, y, n - 1)
        }
    }
}

/// The items that an item menu lists for `owner`: the named items in their
/// backpack, in index order. The letter `a` stands for the first.
pub fn backpack_of(world: &World, owner: Entity) -> (items: Vec<Entity>)
    ensures
        items@ == world@.backpack(owner, world@.entities.len() as int),
{
    let mut items: Vec<Entity> = Vec::new();
    let n: usize = world.entities.len();
    let mut i: usize = 0;
    while i < n
        invariant
            i <= n,
            n == world@.entities.len(),
            items@ == world@.backpack(owner, i as int),
        decreases n - i,
    {
        let carried = match world.entities[i].in_backpack {
            Some(pack) => pack.owner == owner,
            None => false,
        };
        if carried && world.entities[i].name.is_some() {
            items.push(Entity { id: i });
        }
        i += 1;
    }
    items
}

/// The named entities that stand on `(x, y)`: what a tooltip there shows.
pub fn named_entities_at(world: &World, x: i32, y: i32) -> (found: Vec<Entity>)
    ensures
        found@ == world@.named_on(x as int, y as int, world@.entities.len() as int),
{
    let mut found: Vec<Entity> = Vec::new();
    let n: usize = world.entities.len();
    let mut i: usize = 0;
    while i < n
        invariant
            i <= n,
            n == world@.entities.len(),
            found@ == world@.named_on(x as int, y as int, i as int),
        decreases n - i,
    {
        let here = match world.entities[i].position {
            Some(p) => p.x == x && p.y == y,
            None => false,
        };
        if here && world.entities[i].name.is_some() {
            found.push(Entity { id: i });
        }
        i += 1;
    }
    found
}

} // verus!
