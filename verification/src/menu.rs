//! The decisions behind the menus: which entry is highlighted after a key,
//! and which item a letter picks. Drawing the menus is left to the caller.

use vstd::prelude::*;
use crate::components::Entity;

verus! {

/// The entries of the main menu, from top to bottom.
#[derive(Clone, Copy, Debug, PartialEq, Eq, Hash, Structural)]
pub enum Selection {
    ContinuePlaying,
    NewGame,
    SaveGame,
    LoadGame,
    Credits,
    Quit,
}

/// What the main menu reports for one frame.
#[derive(Clone, Copy, Debug, PartialEq, Eq, Structural)]
pub enum MainMenuResult {
    NoSelection { selected: Selection },
    Selected { selected: Selection },
}

/// The keys the main menu tells apart.
#[derive(Clone, Copy, Debug, PartialEq, Eq, Structural)]
pub enum MenuKey {
    Escape,
    Up,
    Down,
    Return,
    Other,
}

/// What an item menu reports for one frame.
#[derive(Clone, Copy, Debug, PartialEq, Eq, Structural)]
pub enum ItemMenuResult {
    Cancel,
    NoResponse,
    Selected,
}

/// The keys an item menu tells apart: escape, or a key with the number of
/// the letter it stands for (`a` is 0), or -1 for a key that is no letter.
#[derive(Clone, Copy, Debug, PartialEq, Eq, Structural)]
pub enum ItemMenuKey {
    Escape,
    Letter { option: i32 },
}

impl Selection {
    /// The entry above, wrapping from the first to the last.
    pub open spec fn spec_above(self) -> Selection {
        match self {
            Selection::ContinuePlaying => Selection::Quit,
            Selection::NewGame => Selection::ContinuePlaying,
            Selection::SaveGame => Selection::NewGame,
            Selection::LoadGame => Selection::SaveGame,
            Selection::Credits => Selection::LoadGame,
            Selection::Quit => Selection::Credits,
        }
    }

    /// The entry below, wrapping from the last to the first.
    pub open spec fn spec_below(self) -> Selection {
        match self {
            Selection::ContinuePlaying => Selection::NewGame,
            Selection::NewGame => Selection::SaveGame,
            Selection::SaveGame => Selection::LoadGame,
            Selection::LoadGame => Selection::Credits,
            Selection::Credits => Selection::Quit,
            Selection::Quit => Selection::ContinuePlaying,
        }
    }

    /// The entry highlighted after moving up. Without a saved game the load
    /// entry is not shown, and moving up onto it lands on the new-game entry.
    pub open spec fn spec_up(self, save_exists: bool) -> Selection {
        if self.spec_above() == Selection::LoadGame && !save_exists {
            Selection::NewGame
        } else {
            self.spec_above()
        }
    }

    /// The entry highlighted after moving down. Without a saved game the
    /// load entry is not shown, and moving down onto it lands on the quit
    /// entry.
    pub open spec fn spec_down(self, save_exists: bool) -> Selection {
        if self.spec_below() == Selection::LoadGame && !save_exists {
            Selection::Quit
        } else {
            self.spec_below()
        }
    }

    /// The entry highlighted after moving up.
    pub fn up(self, save_exists: bool) -> (r: Selection)
        ensures
            r == self.spec_up(save_exists),
    {
        let above = match self {
            Selection::ContinuePlaying => Selection::Quit,
            Selection::NewGame => Selection::ContinuePlaying,
            Selection::SaveGame => Selection::NewGame,
            Selection::LoadGame => Selection::SaveGame,
            Selection::Credits => Selection::LoadGame,
            Selection::Quit => Selection::Credits,
        };
        if above == Selection::LoadGame && !save_exists {
            Selection::NewGame
        } else {
            above
        }
    }

    /// The entry highlighted after moving down.
    pub fn down(self, save_exists: bool) -> (r: Selection)
        ensures
            r == self.spec_down(save_exists),
    {
        let below = match self {
            Selection::ContinuePlaying => Selection::NewGame,
            Selection::NewGame => Selection::SaveGame,
            Selection::SaveGame => Selection::LoadGame,
            Selection::LoadGame => Selection::Credits,
            Selection::Credits => Selection::Quit,
            Selection::Quit => Selection::ContinuePlaying,
        };
        if below == Selection::LoadGame && !save_exists {
            Selection::Quit
        } else {
            below
        }
    }
}

/// What the main menu reports when `key` arrives while `selection` is
/// highlighted.
pub open spec fn spec_main_menu_key(
    selection: Selection,
    key: Option<MenuKey>,
    save_exists: bool,
) -> MainMenuResult {
    match key {
        None => MainMenuResult::NoSelection { selected: selection },
        Some(MenuKey::Escape) => MainMenuResult::NoSelection {
            selected: Selection::ContinuePlaying,
        },
        Some(MenuKey::Up) => MainMenuResult::NoSelection {
            selected: selection.spec_up(save_exists),
        },
        Some(MenuKey::Down) => MainMenuResult::NoSelection {
            selected: selection.spec_down(save_exists),
        },
        Some(MenuKey::Return) => MainMenuResult::Selected { selected: selection },
        Some(MenuKey::Other) => MainMenuResult::NoSelection { selected: selection },
    }
}

/// The main menu's answer to one frame's key: escape goes back to the first
/// entry, up and down move the highlight, return picks the highlighted
/// entry, anything else changes nothing.
pub fn main_menu_key(selection: Selection, key: Option<MenuKey>, save_exists: bool) -> (r:
    MainMenuResult)
    ensures
        r == spec_main_menu_key(selection, key, save_exists),
{
    match key {
        None => MainMenuResult::NoSelection { selected: selection },
        Some(MenuKey::Escape) => MainMenuResult::NoSelection {
            selected: Selection::ContinuePlaying,
        },
        Some(MenuKey::Up) => MainMenuResult::NoSelection { selected: selection.up(save_exists) },
        Some(MenuKey::Down) => MainMenuResult::NoSelection {
            selected: selection.down(save_exists),
        },
        Some(MenuKey::Return) => MainMenuResult::Selected { selected: selection },
        Some(MenuKey::Other) => MainMenuResult::NoSelection { selected: selection },
    }
}

/// What an item menu that lists `items` reports when `key` arrives.
pub open spec fn spec_item_menu_key(items: Seq<Entity>, key: Option<ItemMenuKey>) -> (
    ItemMenuResult,
    Option<Entity>,
) {
    match key {
        None => (ItemMenuResult::NoResponse, None),
        Some(ItemMenuKey::Escape) => (ItemMenuResult::Cancel, None),
        Some(ItemMenuKey::Letter { option }) => if -1 < option < items.len() {
            (ItemMenuResult::Selected, Some(items[option as int]))
        } else {
            (ItemMenuResult::NoResponse, None)
        },
    }
}

/// An item menu's answer to one frame's key: escape cancels, a letter that
/// stands for a listed item selects it, anything else is no response.
pub fn item_menu_key(items: &Vec<Entity>, key: Option<ItemMenuKey>) -> (r: (
    ItemMenuResult,
    Option<Entity>,
))
    ensures
        r == spec_item_menu_key(items@, key),
{
    match key {
        None => (ItemMenuResult::NoResponse, None),
        Some(ItemMenuKey::Escape) => (ItemMenuResult::Cancel, None),
        Some(ItemMenuKey::Letter { option }) => {
            if option > -1 && (option as usize) < items.len() {
                (ItemMenuResult::Selected, Some(items[option as usize]))
            } else {
                (ItemMenuResult::NoResponse, None)
            }
        },
    }
}

/// Moving the highlight never lands on the load entry while there is no
/// saved game to load.
pub proof fn lemma_hidden_entry_is_skipped(selection: Selection)
    ensures
        selection.spec_up(false) != Selection::LoadGame,
        selection.spec_down(false) != Selection::LoadGame,
{
}

} // verus!
