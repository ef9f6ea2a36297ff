use vstd::prelude::*;

use crate::gui::MainMenuSelection;
use crate::vectors::Vector3i;

verus! {

/// A key of the keyboard, as the game reads it.
#[derive(Clone, Copy, Debug, PartialEq, Eq, Structural)]
pub enum Key {
    A,
    B,
    C,
    D,
    E,
    F,
    G,
    H,
    I,
    J,
    K,
    L,
    M,
    N,
    O,
    P,
    Q,
    R,
    S,
    T,
    U,
    V,
    W,
    X,
    Y,
    Z,
    Up,
    Down,
    Left,
    Right,
    Numpad1,
    Numpad2,
    Numpad3,
    Numpad4,
    Numpad5,
    Numpad6,
    Numpad7,
    Numpad8,
    Numpad9,
    Period,
    Comma,
    Space,
    Escape,
    Return,
    /// Any other key, by the code the window system gives it.
    Other(u32),
}

/// The position in the alphabet of a letter key, from 0 for `A`, or -1 for
/// any other key.
pub open spec fn letter_index(key: Key) -> int {
    match key {
        Key::A => 0,
        Key::B => 1,
        Key::C => 2,
        Key::D => 3,
        Key::E => 4,
        Key::F => 5,
        Key::G => 6,
        Key::H => 7,
        Key::I => 8,
        Key::J => 9,
        Key::K => 10,
        Key::L => 11,
        Key::M => 12,
        Key::N => 13,
        Key::O => 14,
        Key::P => 15,
        Key::Q => 16,
        Key::R => 17,
        Key::S => 18,
        Key::T => 19,
        Key::U => 20,
        Key::V => 21,
        Key::W => 22,
        Key::X => 23,
        Key::Y => 24,
        Key::Z => 25,
        _ => -1,
    }
}

/// The position in the alphabet of a letter key, from 0 for `A`, or -1 for
/// any other key; used to pick menu entries by letter.
pub fn letter_to_option(key: Key) -> (i: i32)
    ensures
        i == letter_index(key),
{
    match key {
        Key::A => 0,
        Key::B => 1,
        Key::C => 2,
        Key::D => 3,
        Key::E => 4,
        Key::F => 5,
        Key::G => 6,
        Key::H => 7,
        Key::I => 8,
        Key::J => 9,
        Key::K => 10,
        Key::L => 11,
        Key::M => 12,
        Key::N => 13,
        Key::O => 14,
        Key::P => 15,
        Key::Q => 16,
        Key::R => 17,
        Key::S => 18,
        Key::T => 19,
        Key::U => 20,
        Key::V => 21,
        Key::W => 22,
        Key::X => 23,
        Key::Y => 24,
        Key::Z => 25,
        _ => -1,
    }
}

/// What the game is doing between two frames.
#[derive(Debug)]
pub enum RunState {
    AwaitingInput,
    PreRun,
    Ticking,
    MainMenu { menu_selection: MainMenuSelection },
    SaveGame,
    InteractGUI {
        range: usize,
        source: Vector3i,
        target: Vector3i,
        prev_mouse_position: Vector3i,
        selected_entity: Option<u32>,
    },
    HandleOtherInput { next_runstate: Box<RunState>, key: Key },
    Simulation { steps: usize },
    ShowInventory { id: u32, selected_item: Option<u32> },
}

} // verus!
