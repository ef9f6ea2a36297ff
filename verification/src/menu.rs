use vstd::prelude::*;

use crate::gui::{MainMenuResult, MainMenuSelection};
use crate::states::{letter_index, letter_to_option, Key, RunState};

verus! {

/// The entry above `selection` in the main menu, wrapping round; "Load game" is
/// skipped when there is no saved game.
pub open spec fn entry_above(selection: MainMenuSelection, save_exists: bool) -> MainMenuSelection {
    match selection {
        MainMenuSelection::NewGame => MainMenuSelection::Quit,
        MainMenuSelection::LoadGame => MainMenuSelection::NewGame,
        MainMenuSelection::Quit => if save_exists {
            MainMenuSelection::LoadGame
        } else {
            MainMenuSelection::NewGame
        },
    }
}

/// The entry below `selection` in the main menu, wrapping round; "Load game" is
/// skipped when there is no saved game.
pub open spec fn entry_below(selection: MainMenuSelection, save_exists: bool) -> MainMenuSelection {
    match selection {
        MainMenuSelection::NewGame => if save_exists {
            MainMenuSelection::LoadGame
        } else {
            MainMenuSelection::Quit
        },
        MainMenuSelection::LoadGame => MainMenuSelection::Quit,
        MainMenuSelection::Quit => MainMenuSelection::NewGame,
    }
}

/// What the main menu does with one frame's key, from the entry highlighted.
pub open spec fn main_menu_step(
    selection: MainMenuSelection,
    key: Option<Key>,
    save_exists: bool,
) -> MainMenuResult {
    match key {
        None => MainMenuResult::NoSelection { selected: selection },
        Some(Key::Escape) => MainMenuResult::NoSelection { selected: MainMenuSelection::Quit },
        Some(Key::Up) => MainMenuResult::NoSelection { selected: entry_above(selection, save_exists) },
        Some(Key::Down) => MainMenuResult::NoSelection { selected: entry_below(selection, save_exists) },
        Some(Key::Return) => MainMenuResult::Selected { selected: selection },
        Some(_) => MainMenuResult::NoSelection { selected: selection },
    }
}

/// The main menu's answer to a frame: Escape highlights "Quit", the up and down
/// arrows move the highlight, Return chooses the highlighted entry. Outside the
/// main menu state "New game" is highlighted.
pub fn main_menu(runstate: &RunState, key: Option<Key>, save_exists: bool) -> (r: MainMenuResult)
    ensures
        r == (match runstate {
            RunState::MainMenu { menu_selection } => main_menu_step(*menu_selection, key, save_exists),
            _ => MainMenuResult::NoSelection { selected: MainMenuSelection::NewGame },
        }),
{
    if let RunState::MainMenu { menu_selection: selection } = runstate {
        let selection = *selection;
        match key {
            None => MainMenuResult::NoSelection { selected: selection },
            Some(key) => match key {
                Key::Escape => MainMenuResult::NoSelection { selected: MainMenuSelection::Quit },
                Key::Up => {
                    let new_selection = match selection {
                        MainMenuSelection::NewGame => MainMenuSelection::Quit,
                        MainMenuSelection::LoadGame => MainMenuSelection::NewGame,
                        MainMenuSelection::Quit => {
                            if save_exists {
                                MainMenuSelection::LoadGame
                            } else {
                                MainMenuSelection::NewGame
                            }
                        },
                    };
                    MainMenuResult::NoSelection { selected: new_selection }
                },
                Key::Down => {
                    let new_selection = match selection {
                        MainMenuSelection::NewGame => {
                            if save_exists {
                                MainMenuSelection::LoadGame
                            } else {
                                MainMenuSelection::Quit
                            }
                        },
                        MainMenuSelection::LoadGame => MainMenuSelection::Quit,
                        MainMenuSelection::Quit => MainMenuSelection::NewGame,
                    };
                    MainMenuResult::NoSelection { selected: new_selection }
                },
                Key::Return => MainMenuResult::Selected { selected: selection },
                _ => MainMenuResult::NoSelection { selected: selection },
            },
        }
    } else {
        MainMenuResult::NoSelection { selected: MainMenuSelection::NewGame }
    }
}

/// Moving the highlight down undoes moving it up, and the other way round, on
/// every entry the menu can highlight (not "Load game" when there is no save).
pub proof fn lemma_menu_up_down_undo(selection: MainMenuSelection, save_exists: bool)
    requires
        save_exists || selection != MainMenuSelection::LoadGame,
    ensures
        entry_below(entry_above(selection, save_exists), save_exists) == selection,
        entry_above(entry_below(selection, save_exists), save_exists) == selection,
        save_exists || entry_above(selection, save_exists) != MainMenuSelection::LoadGame,
        save_exists || entry_below(selection, save_exists) != MainMenuSelection::LoadGame,
{
}

/// What the game must do outside its state once the main menu has answered.
#[derive(Clone, Copy, Debug, PartialEq, Eq, Structural)]
pub enum MenuCommand {
    /// Nothing more.
    Stay,
    /// Load the saved game.
    LoadGame,
    /// Leave the game.
    Quit,
}

/// The state the game goes on in after the main menu's answer, and what must be done
/// besides: a highlighted entry keeps the menu open on it; "New game" runs the world
/// once before the first turn; "Load game" loads the save and awaits input;
/// "Quit" leaves.
pub fn menu_outcome(result: MainMenuResult) -> (r: (RunState, MenuCommand))
    ensures
        match result {
            MainMenuResult::NoSelection { selected } => r.0 == (RunState::MainMenu { menu_selection: selected })
                && r.1 == MenuCommand::Stay,
            MainMenuResult::Selected { selected } => match selected {
                MainMenuSelection::NewGame => r.0 == RunState::PreRun && r.1 == MenuCommand::Stay,
                MainMenuSelection::LoadGame => r.0 == RunState::AwaitingInput && r.1 == MenuCommand::LoadGame,
                MainMenuSelection::Quit => r.0 == (RunState::MainMenu { menu_selection: MainMenuSelection::Quit })
                    && r.1 == MenuCommand::Quit,
            },
        },
{
    match result {
        MainMenuResult::NoSelection { selected } => (RunState::MainMenu { menu_selection: selected }, MenuCommand::Stay),
        MainMenuResult::Selected { selected } => match selected {
            MainMenuSelection::NewGame => (RunState::PreRun, MenuCommand::Stay),
            MainMenuSelection::LoadGame => (RunState::AwaitingInput, MenuCommand::LoadGame),
            MainMenuSelection::Quit => (RunState::MainMenu { menu_selection: MainMenuSelection::Quit }, MenuCommand::Quit),
        },
    }
}

/// What a frame of the inventory screen did.
#[derive(Clone, Copy, Debug, PartialEq, Eq, Structural)]
pub enum ItemMenuResult {
    Cancel,
    NoResponse,
    Selected,
    Action,
}

/// The inventory screen's answer to a key: with no item selected, a letter
/// selects the item of that index and Escape cancels; with an item selected,
/// a capital letter picks the interaction of that index.
#[derive(Clone, Copy, Debug, PartialEq, Eq, Structural)]
pub enum InventoryChoice {
    Cancel,
    NoResponse,
    /// The item at this index is selected.
    SelectItem(usize),
    /// The interaction at this index is started.
    Interact(usize),
}

impl InventoryChoice {
    /// The menu result this choice is reported as.
    pub fn result(&self) -> (r: ItemMenuResult)
        ensures
            r == match *self {
                InventoryChoice::Cancel => ItemMenuResult::Cancel,
                InventoryChoice::NoResponse => ItemMenuResult::NoResponse,
                InventoryChoice::SelectItem(_) => ItemMenuResult::Selected,
                InventoryChoice::Interact(_) => ItemMenuResult::Action,
            },
    {
        match self {
            InventoryChoice::Cancel => ItemMenuResult::Cancel,
            InventoryChoice::NoResponse => ItemMenuResult::NoResponse,
            InventoryChoice::SelectItem(_) => ItemMenuResult::Selected,
            InventoryChoice::Interact(_) => ItemMenuResult::Action,
        }
    }
}

/// What the inventory screen does with a key.
pub open spec fn inventory_choice_spec(
    key: Option<Key>,
    shift: bool,
    item_count: usize,
    item_selected: bool,
    interaction_count: usize,
) -> InventoryChoice {
    match key {
        None => InventoryChoice::NoResponse,
        Some(k) => if item_selected && letter_index(k) >= 0 && shift {
            if letter_index(k) < interaction_count {
                InventoryChoice::Interact(letter_index(k) as usize)
            } else {
                InventoryChoice::NoResponse
            }
        } else if k == Key::Escape {
            InventoryChoice::Cancel
        } else if 0 <= letter_index(k) < item_count {
            InventoryChoice::SelectItem(letter_index(k) as usize)
        } else {
            InventoryChoice::NoResponse
        },
    }
}

/// The inventory screen's answer to one frame's key, given how many items the
/// container holds, whether an item is selected and, if so, how many
/// interactions it offers.
pub fn inventory_choice(
    key: Option<Key>,
    shift: bool,
    item_count: usize,
    item_selected: bool,
    interaction_count: usize,
) -> (c: InventoryChoice)
    ensures
        c == inventory_choice_spec(key, shift, item_count, item_selected, interaction_count),
{
    match key {
        None => InventoryChoice::NoResponse,
        Some(k) => {
            let selection = letter_to_option(k);
            if item_selected && selection >= 0 && shift {
                if (selection as usize) < interaction_count {
                    InventoryChoice::Interact(selection as usize)
                } else {
                    InventoryChoice::NoResponse
                }
            } else if k == Key::Escape {
                InventoryChoice::Cancel
            } else if selection >= 0 && (selection as usize) < item_count {
                InventoryChoice::SelectItem(selection as usize)
            } else {
                InventoryChoice::NoResponse
            }
        },
    }
}

} // verus!
