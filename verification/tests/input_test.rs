use weirdark::gui::MainMenuSelection::{LoadGame, NewGame, Quit};
use weirdark::gui::{
    check_range, interact_gui, GuiIntent, InteractionType, MainMenuResult, MainMenuSelection,
};
use weirdark::menu::{inventory_choice, main_menu, menu_outcome, InventoryChoice, ItemMenuResult, MenuCommand};
use weirdark::player::{
    handle_other_input, player_input, toggle_gas_overlay, toggle_power_overlay, InputAction,
    OtherInputAction, Player,
};
use weirdark::states::{letter_to_option, Key, RunState};
use weirdark::camera::Camera;
use weirdark::vectors::Vector3i;

fn menu(selection: MainMenuSelection) -> RunState {
    RunState::MainMenu { menu_selection: selection }
}

#[test]
fn main_menu_moves_and_wraps_the_highlight() {
    let down = main_menu(&menu(NewGame), Some(Key::Down), true);
    assert_eq!(down, MainMenuResult::NoSelection { selected: LoadGame });
    let down = main_menu(&menu(NewGame), Some(Key::Down), false);
    assert_eq!(down, MainMenuResult::NoSelection { selected: Quit });
    let up = main_menu(&menu(NewGame), Some(Key::Up), true);
    assert_eq!(up, MainMenuResult::NoSelection { selected: Quit });
    let up = main_menu(&menu(Quit), Some(Key::Up), false);
    assert_eq!(up, MainMenuResult::NoSelection { selected: NewGame });
    let up = main_menu(&menu(Quit), Some(Key::Up), true);
    assert_eq!(up, MainMenuResult::NoSelection { selected: LoadGame });
    let down = main_menu(&menu(Quit), Some(Key::Down), true);
    assert_eq!(down, MainMenuResult::NoSelection { selected: NewGame });
}

#[test]
fn main_menu_up_then_down_returns_to_the_entry() {
    for save in [false, true] {
        for start in [NewGame, LoadGame, Quit] {
            if !save && start == LoadGame {
                continue;
            }
            let moved = match main_menu(&menu(start), Some(Key::Up), save) {
                MainMenuResult::NoSelection { selected } => selected,
                MainMenuResult::Selected { .. } => panic!("no entry is chosen by an arrow"),
            };
            let back = main_menu(&menu(moved), Some(Key::Down), save);
            assert_eq!(back, MainMenuResult::NoSelection { selected: start });
        }
    }
}

#[test]
fn main_menu_escape_return_and_other_states() {
    assert_eq!(
        main_menu(&menu(LoadGame), Some(Key::Escape), true),
        MainMenuResult::NoSelection { selected: Quit }
    );
    assert_eq!(
        main_menu(&menu(LoadGame), Some(Key::Return), true),
        MainMenuResult::Selected { selected: LoadGame }
    );
    assert_eq!(
        main_menu(&menu(Quit), None, true),
        MainMenuResult::NoSelection { selected: Quit }
    );
    assert_eq!(
        main_menu(&menu(Quit), Some(Key::X), true),
        MainMenuResult::NoSelection { selected: Quit }
    );
    assert_eq!(
        main_menu(&RunState::AwaitingInput, Some(Key::Return), true),
        MainMenuResult::NoSelection { selected: NewGame }
    );
}

#[test]
fn letters_give_their_alphabet_index() {
    assert_eq!(letter_to_option(Key::A), 0);
    assert_eq!(letter_to_option(Key::E), 4);
    assert_eq!(letter_to_option(Key::Z), 25);
    assert_eq!(letter_to_option(Key::Escape), -1);
    assert_eq!(letter_to_option(Key::Other(7)), -1);
}

#[test]
fn inventory_selects_items_and_interactions() {
    assert_eq!(inventory_choice(None, false, 3, false, 0), InventoryChoice::NoResponse);
    assert_eq!(inventory_choice(Some(Key::B), false, 3, false, 0), InventoryChoice::SelectItem(1));
    assert_eq!(inventory_choice(Some(Key::D), false, 3, false, 0), InventoryChoice::NoResponse);
    assert_eq!(inventory_choice(Some(Key::Escape), false, 3, false, 0), InventoryChoice::Cancel);
    assert_eq!(inventory_choice(Some(Key::A), true, 3, true, 2), InventoryChoice::Interact(0));
    assert_eq!(inventory_choice(Some(Key::C), true, 3, true, 2), InventoryChoice::NoResponse);
    assert_eq!(inventory_choice(Some(Key::C), false, 3, true, 2), InventoryChoice::SelectItem(2));
    assert_eq!(InventoryChoice::Cancel.result(), ItemMenuResult::Cancel);
    assert_eq!(InventoryChoice::NoResponse.result(), ItemMenuResult::NoResponse);
    assert_eq!(InventoryChoice::SelectItem(1).result(), ItemMenuResult::Selected);
    assert_eq!(InventoryChoice::Interact(0).result(), ItemMenuResult::Action);
}

#[test]
fn check_range_keeps_the_cursor_in_range() {
    let source = Vector3i::new(0, 0, 0);
    let mouse = Vector3i::new(5, 5, 0);
    match check_range(2, source, Vector3i::new(1, 0, 0), Vector3i::east(), mouse, Some(4)) {
        RunState::InteractGUI { range, target, prev_mouse_position, selected_entity, .. } => {
            assert_eq!(range, 2);
            assert_eq!(target, Vector3i::new(2, 0, 0));
            assert_eq!(prev_mouse_position, mouse);
            assert_eq!(selected_entity, Some(4));
        }
        other => panic!("unexpected state {:?}", other),
    }
    match check_range(2, source, Vector3i::new(2, 0, 0), Vector3i::east(), mouse, None) {
        RunState::InteractGUI { target, .. } => assert_eq!(target, Vector3i::new(2, 0, 0)),
        other => panic!("unexpected state {:?}", other),
    }
}

fn gui(
    selected: Option<u32>,
    key: Option<Key>,
    entities: &Vec<u32>,
    interactions: &Vec<InteractionType>,
) -> (RunState, Option<GuiIntent>) {
    let p = Vector3i::new(3, 3, 0);
    // The view that puts the mouse at (300, 300) over `p`.
    let mut cameras = vec![(Vector3i::new(-197, -260, 0), Camera::new(true))];
    interact_gui(5, p, p, p, selected, (300, 300), &mut cameras, key, entities, interactions, true)
}

#[test]
fn interact_gui_escape_and_inventory_key() {
    let none: Vec<u32> = vec![];
    let no_ix: Vec<InteractionType> = vec![];
    assert!(matches!(gui(None, Some(Key::Escape), &none, &no_ix), (RunState::AwaitingInput, None)));
    assert!(matches!(
        gui(Some(9), Some(Key::Escape), &none, &no_ix),
        (RunState::InteractGUI { selected_entity: None, .. }, None)
    ));
    assert!(matches!(gui(Some(9), Some(Key::I), &none, &no_ix), (RunState::AwaitingInput, None)));
}

#[test]
fn interact_gui_selects_and_interacts() {
    let entities: Vec<u32> = vec![11, 12];
    let ix = vec![InteractionType::PickUpInteraction, InteractionType::OpenInteraction];
    assert!(matches!(
        gui(None, Some(Key::B), &entities, &ix),
        (RunState::InteractGUI { selected_entity: Some(12), .. }, None)
    ));
    assert!(matches!(
        gui(None, Some(Key::C), &entities, &ix),
        (RunState::InteractGUI { selected_entity: None, .. }, None)
    ));
    assert!(matches!(
        gui(Some(11), Some(Key::A), &entities, &ix),
        (RunState::Ticking, Some(GuiIntent::PickUp(0)))
    ));
    assert!(matches!(
        gui(Some(11), Some(Key::B), &entities, &ix),
        (RunState::Ticking, Some(GuiIntent::Open(1)))
    ));
    assert!(matches!(
        gui(Some(11), Some(Key::C), &entities, &ix),
        (RunState::InteractGUI { selected_entity: Some(11), .. }, None)
    ));
}

#[test]
fn interact_gui_moves_the_cursor_and_passes_other_keys_on() {
    let none: Vec<u32> = vec![];
    let no_ix: Vec<InteractionType> = vec![];
    match gui(None, Some(Key::Numpad9), &none, &no_ix) {
        (RunState::InteractGUI { target, .. }, None) => assert_eq!(target, Vector3i::new(4, 2, 0)),
        other => panic!("unexpected result {:?}", other),
    }
    match gui(None, Some(Key::Period), &none, &no_ix) {
        (RunState::InteractGUI { target, .. }, None) => assert_eq!(target, Vector3i::new(3, 3, -1)),
        other => panic!("unexpected result {:?}", other),
    }
    match gui(None, Some(Key::P), &none, &no_ix) {
        (RunState::HandleOtherInput { next_runstate, key }, None) => {
            assert_eq!(key, Key::P);
            assert!(matches!(*next_runstate, RunState::InteractGUI { .. }));
        }
        other => panic!("unexpected result {:?}", other),
    }
    assert!(matches!(gui(None, Some(Key::Return), &none, &no_ix), (RunState::InteractGUI { .. }, None)));
}

#[test]
fn interact_gui_follows_the_mouse_within_range() {
    let none: Vec<u32> = vec![];
    let no_ix: Vec<InteractionType> = vec![];
    let source = Vector3i::new(0, 0, 0);
    // The view that puts the mouse at (20, 20) over (10, -1, 0).
    let mut cameras = vec![(Vector3i::new(90, 16, 0), Camera::new(true))];
    let r = interact_gui(3, source, source, source, None, (20, 20), &mut cameras, None, &none, &no_ix, true);
    match r {
        (RunState::InteractGUI { target, .. }, None) => assert_eq!(target, Vector3i::new(3, -1, 0)),
        other => panic!("unexpected result {:?}", other),
    }
}

#[test]
fn player_input_maps_keys_to_actions() {
    let player = Vector3i::new(4, 4, 0);
    let view = Vector3i::new(0, 0, 0);
    assert!(matches!(player_input(None, player, (0, 0), view), (RunState::AwaitingInput, InputAction::Nothing)));
    assert!(matches!(
        player_input(Some(Key::Up), player, (0, 0), view),
        (RunState::Ticking, InputAction::Move(v)) if v == Vector3i::north()
    ));
    assert!(matches!(
        player_input(Some(Key::Q), player, (0, 0), view),
        (RunState::Ticking, InputAction::MoveCamera(v)) if v == Vector3i::new(0, 0, 1)
    ));
    assert!(matches!(player_input(Some(Key::Space), player, (0, 0), view), (RunState::Ticking, InputAction::Wait)));
    assert!(matches!(player_input(Some(Key::B), player, (0, 0), view), (RunState::Ticking, InputAction::TriggerBreath)));
    assert!(matches!(player_input(Some(Key::R), player, (0, 0), view), (RunState::Ticking, InputAction::ResetCamera)));
    assert!(matches!(player_input(Some(Key::L), player, (0, 0), view), (RunState::Ticking, InputAction::ToggleLight)));
    match player_input(Some(Key::K), player, (100, 37), view) {
        (RunState::InteractGUI { range, source, target, prev_mouse_position, selected_entity }, InputAction::Nothing) => {
            assert_eq!(range, 200);
            assert_eq!(source, player);
            assert_eq!(target, player);
            assert_eq!(prev_mouse_position, Vector3i::new(0, 0, 0));
            assert_eq!(selected_entity, None);
        }
        other => panic!("unexpected result {:?}", other),
    }
    assert!(matches!(
        player_input(Some(Key::P), player, (0, 0), view),
        (RunState::HandleOtherInput { key: Key::P, .. }, InputAction::Nothing)
    ));
}

#[test]
fn other_input_toggles_overlays_and_opens_inventory() {
    assert!(matches!(
        handle_other_input(Some(3), Key::Escape, RunState::AwaitingInput),
        (RunState::SaveGame, OtherInputAction::Nothing)
    ));
    assert!(matches!(
        handle_other_input(Some(3), Key::I, RunState::AwaitingInput),
        (RunState::ShowInventory { id: 3, selected_item: None }, OtherInputAction::Nothing)
    ));
    assert!(matches!(
        handle_other_input(Some(3), Key::P, RunState::Ticking),
        (RunState::Ticking, OtherInputAction::TogglePowerOverlay)
    ));
    assert!(matches!(
        handle_other_input(Some(3), Key::G, RunState::Ticking),
        (RunState::Ticking, OtherInputAction::ToggleGasOverlay)
    ));
    assert!(matches!(
        handle_other_input(None, Key::P, RunState::Ticking),
        (RunState::Ticking, OtherInputAction::Nothing)
    ));
}

#[test]
fn overlays_toggle_independently() {
    let mut players = vec![Player::new(), Player::new()];
    toggle_power_overlay(&mut players);
    assert!(players.iter().all(|p| p.power_overlay && !p.gas_overlay));
    toggle_gas_overlay(&mut players);
    assert!(players.iter().all(|p| p.power_overlay && p.gas_overlay));
    toggle_power_overlay(&mut players);
    assert!(players.iter().all(|p| !p.power_overlay && p.gas_overlay));
}

#[test]
fn menu_answers_lead_to_the_next_state() {
    assert!(matches!(
        menu_outcome(MainMenuResult::NoSelection { selected: LoadGame }),
        (RunState::MainMenu { menu_selection: LoadGame }, MenuCommand::Stay)
    ));
    assert!(matches!(menu_outcome(MainMenuResult::Selected { selected: NewGame }), (RunState::PreRun, MenuCommand::Stay)));
    assert!(matches!(
        menu_outcome(MainMenuResult::Selected { selected: LoadGame }),
        (RunState::AwaitingInput, MenuCommand::LoadGame)
    ));
    assert!(matches!(menu_outcome(MainMenuResult::Selected { selected: Quit }).1, MenuCommand::Quit));
}

#[test]
fn interact_gui_brings_active_cameras_to_the_target_level() {
    let none: Vec<u32> = vec![];
    let no_ix: Vec<InteractionType> = vec![];
    let target = Vector3i::new(4, 4, 2);
    let mut cameras = vec![(Vector3i::new(1, 1, 5), Camera::new(true)), (Vector3i::new(7, 7, 9), Camera::new(false))];
    let r = interact_gui(3, target, target, target, None, (300, 300), &mut cameras, None, &none, &no_ix, true);
    assert!(matches!(r, (RunState::InteractGUI { prev_mouse_position, .. }, None) if prev_mouse_position == target));
    assert_eq!(cameras[0].0, Vector3i::new(1, 1, 2));
    assert_eq!(cameras[1].0, Vector3i::new(7, 7, 9));
}
