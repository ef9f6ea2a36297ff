use vstd::prelude::*;

use crate::map::mouse_to_map;
use crate::states::{Key, RunState};
use crate::vectors::Vector3i;

verus! {

/// Width of the whole terminal, in cells.
pub const TERMINAL_WIDTH: i32 = 200;

/// The player's display preferences.
#[derive(Clone, Copy, Debug)]
pub struct Player {
    pub power_overlay: bool,
    pub gas_overlay: bool,
}

impl Player {
    /// A player with both overlays off.
    pub fn new() -> (p: Player)
        ensures
            !p.power_overlay,
            !p.gas_overlay,
    {
        Player { power_overlay: false, gas_overlay: false }
    }
}

/// The players with the power overlay of each switched over.
pub open spec fn power_overlays_toggled(players: Seq<Player>) -> Seq<Player> {
    players.map_values(|p: Player| Player { power_overlay: !p.power_overlay, gas_overlay: p.gas_overlay })
}

/// The players with the gas overlay of each switched over.
pub open spec fn gas_overlays_toggled(players: Seq<Player>) -> Seq<Player> {
    players.map_values(|p: Player| Player { power_overlay: p.power_overlay, gas_overlay: !p.gas_overlay })
}

/// Switching either overlay over twice leaves every player as they were, and the two
/// switches do not disturb each other.
pub proof fn lemma_overlays_toggle_back(players: Seq<Player>)
    ensures
        power_overlays_toggled(power_overlays_toggled(players)) == players,
        gas_overlays_toggled(gas_overlays_toggled(players)) == players,
        power_overlays_toggled(gas_overlays_toggled(players)) == gas_overlays_toggled(power_overlays_toggled(players)),
{
    assert(power_overlays_toggled(power_overlays_toggled(players)) =~= players);
    assert(gas_overlays_toggled(gas_overlays_toggled(players)) =~= players);
    assert(power_overlays_toggled(gas_overlays_toggled(players)) =~= gas_overlays_toggled(power_overlays_toggled(players)));
}

/// Every player's power overlay switched over.
pub fn toggle_power_overlay(players: &mut Vec<Player>)
    ensures
        final(players)@ == power_overlays_toggled(old(players)@),
        final(players)@.len() == old(players)@.len(),
        forall|i: int|
            0 <= i < final(players)@.len() ==> (#[trigger] final(players)@[i]).power_overlay
                == !old(players)@[i].power_overlay && final(players)@[i].gas_overlay == old(
                players,
            )@[i].gas_overlay,
{
    let mut i: usize = 0;
    while i < players.len()
        invariant
            0 <= i <= players.len(),
            players@.len() == old(players)@.len(),
            forall|j: int| i <= j < players@.len() ==> players@[j] == old(players)@[j],
            forall|j: int|
                0 <= j < i ==> (#[trigger] players@[j]).power_overlay == !old(players)@[j].power_overlay
                    && players@[j].gas_overlay == old(players)@[j].gas_overlay,
        decreases players.len() - i,
    {
        let p = players[i];
        players.set(i, Player { power_overlay: !p.power_overlay, gas_overlay: p.gas_overlay });
        i = i + 1;
    }
    assert(players@ =~= power_overlays_toggled(old(players)@));
}

/// Every player's gas overlay switched over.
pub fn toggle_gas_overlay(players: &mut Vec<Player>)
    ensures
        final(players)@ == gas_overlays_toggled(old(players)@),
        final(players)@.len() == old(players)@.len(),
        forall|i: int|
            0 <= i < final(players)@.len() ==> (#[trigger] final(players)@[i]).gas_overlay
                == !old(players)@[i].gas_overlay && final(players)@[i].power_overlay == old(
                players,
            )@[i].power_overlay,
{
    let mut i: usize = 0;
    while i < players.len()
        invariant
            0 <= i <= players.len(),
            players@.len() == old(players)@.len(),
            forall|j: int| i <= j < players@.len() ==> players@[j] == old(players)@[j],
            forall|j: int|
                0 <= j < i ==> (#[trigger] players@[j]).gas_overlay == !old(players)@[j].gas_overlay
                    && players@[j].power_overlay == old(players)@[j].power_overlay,
        decreases players.len() - i,
    {
        let p = players[i];
        players.set(i, Player { power_overlay: p.power_overlay, gas_overlay: !p.gas_overlay });
        i = i + 1;
    }
    assert(players@ =~= gas_overlays_toggled(old(players)@));
}

/// What the player's key asks the world to do, besides the next state.
#[derive(Clone, Copy, Debug, PartialEq, Eq, Structural)]
pub enum InputAction {
    /// Nothing besides the next state.
    Nothing,
    /// Try to move the player by this step.
    Move(Vector3i),
    /// Move the camera by this step.
    MoveCamera(Vector3i),
    /// Put the camera back on the player.
    ResetCamera,
    /// Switch the player's own light over.
    ToggleLight,
    /// Make the player take a breath.
    TriggerBreath,
    /// Let a turn pass, logging that the player waits.
    Wait,
}

/// The step a movement key asks for, if it is one.
pub open spec fn movement_step(key: Key) -> Option<Vector3i> {
    match key {
        Key::Period => Some(Vector3i::of(0, 0, -1)),
        Key::Comma => Some(Vector3i::of(0, 0, 1)),
        Key::Up | Key::Numpad8 => Some(Vector3i::of(0, -1, 0)),
        Key::Numpad9 => Some(Vector3i::of(1, -1, 0)),
        Key::Right | Key::Numpad6 => Some(Vector3i::of(1, 0, 0)),
        Key::Numpad3 => Some(Vector3i::of(1, 1, 0)),
        Key::Down | Key::Numpad2 => Some(Vector3i::of(0, 1, 0)),
        Key::Numpad1 => Some(Vector3i::of(-1, 1, 0)),
        Key::Left | Key::Numpad4 => Some(Vector3i::of(-1, 0, 0)),
        Key::Numpad7 => Some(Vector3i::of(-1, -1, 0)),
        _ => None,
    }
}

/// The camera step a free-look key asks for, if it is one.
pub open spec fn camera_step(key: Key) -> Option<Vector3i> {
    match key {
        Key::Q => Some(Vector3i::of(0, 0, 1)),
        Key::E => Some(Vector3i::of(0, 0, -1)),
        Key::A => Some(Vector3i::of(-1, 0, 0)),
        Key::D => Some(Vector3i::of(1, 0, 0)),
        Key::W => Some(Vector3i::of(0, -1, 0)),
        Key::S => Some(Vector3i::of(0, 1, 0)),
        _ => None,
    }
}

/// The state the game turns to on a key that the player's controls do not use.
pub open spec fn other_input_state(key: Key) -> RunState {
    RunState::HandleOtherInput { next_runstate: Box::new(RunState::AwaitingInput), key }
}

/// The player's controls: with no key the game waits; movement keys move the
/// player, free-look keys move the camera, R puts it back, L switches the light,
/// B takes a breath, Space or 5 waits a turn, K opens the look cursor on the
/// player; any other key is handed on. Only K reads the mouse.
pub fn player_input(
    key: Option<Key>,
    player_position: Vector3i,
    mouse_position: (i32, i32),
    viewport_position: Vector3i,
) -> (r: (RunState, InputAction))
    requires
        key == Some(Key::K) ==> {
            &&& crate::vectors::fits_i32(mouse_position.0 - crate::map::MAP_SCREEN_WIDTH / 2)
            &&& crate::vectors::fits_i32(mouse_position.1 - crate::map::MAP_SCREEN_HEIGHT / 2)
            &&& crate::vectors::fits_i32(
                mouse_position.0 - crate::map::MAP_SCREEN_WIDTH / 2 + viewport_position.x,
            )
            &&& crate::vectors::fits_i32(
                mouse_position.1 - crate::map::MAP_SCREEN_HEIGHT / 2 + viewport_position.y,
            )
        },
    ensures
        match key {
            None => r.0 == RunState::AwaitingInput && r.1 == InputAction::Nothing,
            Some(k) => if movement_step(k) is Some {
                r.0 == RunState::Ticking && r.1 == InputAction::Move(movement_step(k)->0)
            } else if camera_step(k) is Some {
                r.0 == RunState::Ticking && r.1 == InputAction::MoveCamera(camera_step(k)->0)
            } else if k == Key::Space || k == Key::Numpad5 {
                r.0 == RunState::Ticking && r.1 == InputAction::Wait
            } else if k == Key::B {
                r.0 == RunState::Ticking && r.1 == InputAction::TriggerBreath
            } else if k == Key::R {
                r.0 == RunState::Ticking && r.1 == InputAction::ResetCamera
            } else if k == Key::L {
                r.0 == RunState::Ticking && r.1 == InputAction::ToggleLight
            } else if k == Key::K {
                r.1 == InputAction::Nothing && r.0 == RunState::InteractGUI {
                    range: TERMINAL_WIDTH as usize,
                    target: player_position,
                    source: player_position,
                    prev_mouse_position: Vector3i::of(
                        mouse_position.0 - crate::map::MAP_SCREEN_WIDTH / 2 + viewport_position.x,
                        mouse_position.1 - crate::map::MAP_SCREEN_HEIGHT / 2 + viewport_position.y,
                        viewport_position.z as int,
                    ),
                    selected_entity: None,
                }
            } else {
                r.1 == InputAction::Nothing && r.0 == other_input_state(k)
            },
        },
{
    match key {
        None => (RunState::AwaitingInput, InputAction::Nothing),
        Some(k) => match k {
            Key::Period => (RunState::Ticking, InputAction::Move(Vector3i::down())),
            Key::Comma => (RunState::Ticking, InputAction::Move(Vector3i::up())),
            Key::Up | Key::Numpad8 => (RunState::Ticking, InputAction::Move(Vector3i::north())),
            Key::Numpad9 => (RunState::Ticking, InputAction::Move(Vector3i::north_east())),
            Key::Right | Key::Numpad6 => (RunState::Ticking, InputAction::Move(Vector3i::east())),
            Key::Numpad3 => (RunState::Ticking, InputAction::Move(Vector3i::south_east())),
            Key::Down | Key::Numpad2 => (RunState::Ticking, InputAction::Move(Vector3i::south())),
            Key::Numpad1 => (RunState::Ticking, InputAction::Move(Vector3i::south_west())),
            Key::Left | Key::Numpad4 => (RunState::Ticking, InputAction::Move(Vector3i::west())),
            Key::Numpad7 => (RunState::Ticking, InputAction::Move(Vector3i::north_west())),
            Key::Space | Key::Numpad5 => (RunState::Ticking, InputAction::Wait),
            Key::B => (RunState::Ticking, InputAction::TriggerBreath),
            Key::K => (
                RunState::InteractGUI {
                    range: TERMINAL_WIDTH as usize,
                    target: player_position,
                    source: player_position,
                    prev_mouse_position: mouse_to_map(mouse_position, viewport_position),
                    selected_entity: None,
                },
                InputAction::Nothing,
            ),
            Key::Q => (RunState::Ticking, InputAction::MoveCamera(Vector3i::new(0, 0, 1))),
            Key::E => (RunState::Ticking, InputAction::MoveCamera(Vector3i::new(0, 0, -1))),
            Key::A => (RunState::Ticking, InputAction::MoveCamera(Vector3i::new(-1, 0, 0))),
            Key::D => (RunState::Ticking, InputAction::MoveCamera(Vector3i::new(1, 0, 0))),
            Key::W => (RunState::Ticking, InputAction::MoveCamera(Vector3i::new(0, -1, 0))),
            Key::S => (RunState::Ticking, InputAction::MoveCamera(Vector3i::new(0, 1, 0))),
            Key::R => (RunState::Ticking, InputAction::ResetCamera),
            Key::L => (RunState::Ticking, InputAction::ToggleLight),
            _ => (
                RunState::HandleOtherInput {
                    next_runstate: Box::new(RunState::AwaitingInput),
                    key: k,
                },
                InputAction::Nothing,
            ),
        },
    }
}

/// What a key handed on from the player's controls does.
#[derive(Clone, Copy, Debug, PartialEq, Eq, Structural)]
pub enum OtherInputAction {
    Nothing,
    TogglePowerOverlay,
    ToggleGasOverlay,
}

/// Keys handed on from the player's controls, when the player carries a
/// container with id `container_id`: Escape saves the game, I opens the
/// inventory, P and G switch the power and gas overlays; otherwise, and when
/// the player carries no container, the game goes on to `sending_state`.
pub fn handle_other_input(container_id: Option<u32>, key: Key, sending_state: RunState) -> (r: (
    RunState,
    OtherInputAction,
))
    ensures
        match container_id {
            Some(id) => if key == Key::Escape {
                r.0 == RunState::SaveGame && r.1 == OtherInputAction::Nothing
            } else if key == Key::I {
                r.0 == (RunState::ShowInventory { id, selected_item: None }) && r.1
                    == OtherInputAction::Nothing
            } else if key == Key::P {
                r.0 == sending_state && r.1 == OtherInputAction::TogglePowerOverlay
            } else if key == Key::G {
                r.0 == sending_state && r.1 == OtherInputAction::ToggleGasOverlay
            } else {
                r.0 == sending_state && r.1 == OtherInputAction::Nothing
            },
            None => r.0 == sending_state && r.1 == OtherInputAction::Nothing,
        },
{
    match container_id {
        Some(id) => match key {
            Key::Escape => (RunState::SaveGame, OtherInputAction::Nothing),
            Key::I => (RunState::ShowInventory { id, selected_item: None }, OtherInputAction::Nothing),
            Key::P => (sending_state, OtherInputAction::TogglePowerOverlay),
            Key::G => (sending_state, OtherInputAction::ToggleGasOverlay),
            _ => (sending_state, OtherInputAction::Nothing),
        },
        None => (sending_state, OtherInputAction::Nothing),
    }
}

} // verus!
