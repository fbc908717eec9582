//! The turn scheduler's states and the menu result types shared with the
//! external input and render collaborators.

use vstd::prelude::*;

use crate::entity::Entity;

verus! {

/// Selectable main menu entries.
#[derive(PartialEq, Eq, Structural, Copy, Clone, Debug)]
pub enum MainMenuSelection {
    NewGame,
    LoadGame,
    Quit,
}

/// The outcome of one frame of main-menu interaction.
#[derive(PartialEq, Eq, Structural, Copy, Clone, Debug)]
pub enum MainMenuResult {
    /// The cursor moved (or stayed); no entry was chosen yet.
    NoSelection(MainMenuSelection),
    /// An entry was chosen.
    Selected(MainMenuSelection),
}

/// The outcome of one frame of an item-selection or targeting dialog.
#[derive(PartialEq, Eq, Structural, Copy, Clone, Debug)]
pub enum ItemMenuResult<T> {
    Cancel,
    NoResponse,
    Selected(T),
}

/// The scheduler's states: the game is either running one of the pipeline
/// phases or waiting on an external collaborator.
#[derive(PartialEq, Eq, Structural, Copy, Clone, Debug)]
pub enum RunState {
    AwaitingInput,
    PreRun,
    PlayerTurn,
    MonsterTurn,
    ShowInventory,
    ShowDropItem,
    /// The targeting overlay is open for a ranged item.
    ShowTargeting { range: i32, item: Entity },
    /// The main menu is open with this entry highlighted.
    MainMenu { menu_selection: MainMenuSelection },
    SaveGame,
    NextLevel,
}

/// One frame of main-menu navigation: up and down move the highlight,
/// skipping the load entry when no save exists; return selects; escape
/// moves the highlight to quitting.
pub fn main_menu_navigate(
    selection: MainMenuSelection,
    key: MainMenuKey,
    save_exists: bool,
) -> (r: MainMenuResult)
    ensures
        r == spec_menu_navigate(selection, key, save_exists),
{
    match key {
        MainMenuKey::Escape => MainMenuResult::NoSelection(MainMenuSelection::Quit),
        MainMenuKey::Up => {
            let next = match selection {
                MainMenuSelection::NewGame => MainMenuSelection::Quit,
                MainMenuSelection::LoadGame => MainMenuSelection::NewGame,
                MainMenuSelection::Quit => if save_exists {
                    MainMenuSelection::LoadGame
                } else {
                    MainMenuSelection::NewGame
                },
            };
            MainMenuResult::NoSelection(next)
        },
        MainMenuKey::Down => {
            let next = match selection {
                MainMenuSelection::NewGame => if save_exists {
                    MainMenuSelection::LoadGame
                } else {
                    MainMenuSelection::Quit
                },
                MainMenuSelection::LoadGame => MainMenuSelection::Quit,
                MainMenuSelection::Quit => MainMenuSelection::NewGame,
            };
            MainMenuResult::NoSelection(next)
        },
        MainMenuKey::Enter => MainMenuResult::Selected(selection),
        MainMenuKey::Other => MainMenuResult::NoSelection(selection),
    }
}

/// The decoded keys the main menu reacts to.
#[derive(PartialEq, Eq, Structural, Copy, Clone, Debug)]
pub enum MainMenuKey {
    Up,
    Down,
    Enter,
    Escape,
    Other,
}

/// What one frame of menu navigation yields.
pub open spec fn spec_menu_navigate(
    selection: MainMenuSelection,
    key: MainMenuKey,
    save_exists: bool,
) -> MainMenuResult {
    match key {
        MainMenuKey::Escape => MainMenuResult::NoSelection(MainMenuSelection::Quit),
        MainMenuKey::Up => MainMenuResult::NoSelection(
            match selection {
                MainMenuSelection::NewGame => MainMenuSelection::Quit,
                MainMenuSelection::LoadGame => MainMenuSelection::NewGame,
                MainMenuSelection::Quit => if save_exists {
                    MainMenuSelection::LoadGame
                } else {
                    MainMenuSelection::NewGame
                },
            },
        ),
        MainMenuKey::Down => MainMenuResult::NoSelection(
            match selection {
                MainMenuSelection::NewGame => if save_exists {
                    MainMenuSelection::LoadGame
                } else {
                    MainMenuSelection::Quit
                },
                MainMenuSelection::LoadGame => MainMenuSelection::Quit,
                MainMenuSelection::Quit => MainMenuSelection::NewGame,
            },
        ),
        MainMenuKey::Enter => MainMenuResult::Selected(selection),
        MainMenuKey::Other => MainMenuResult::NoSelection(selection),
    }
}

} // verus!
