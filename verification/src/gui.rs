use vstd::prelude::*;

use crate::camera::{get_viewport_position, set_camera_z, viewport_spec, Camera};
use crate::map::{mouse_to_map, MAP_SCREEN_HEIGHT, MAP_SCREEN_WIDTH};
use crate::states::{Key, RunState};
use crate::vectors::{abs, signum, Vector3i};

verus! {

/// The entries of the main menu.
#[derive(Clone, Copy, Debug, PartialEq, Eq, Structural)]
pub enum MainMenuSelection {
    NewGame,
    LoadGame,
    Quit,
}

/// What the main menu gives back after a frame: the entry highlighted, and
/// whether it was chosen.
#[derive(Clone, Copy, Debug, PartialEq, Eq, Structural)]
pub enum MainMenuResult {
    NoSelection { selected: MainMenuSelection },
    Selected { selected: MainMenuSelection },
}

/// The look cursor moved by `delta` when that keeps it within `range` of
/// `source` on every axis; otherwise it stays at `target`.
pub fn check_range(
    range: usize,
    source: Vector3i,
    target: Vector3i,
    delta: Vector3i,
    mouse_position: Vector3i,
    selected_entity: Option<u32>,
) -> (r: RunState)
    requires
        target.add_in_range(delta),
        source.sub_in_range(target.plus(delta)),
    ensures
        ({
            let moved = target.plus(delta);
            let within = abs(source.x - moved.x) <= range as i32 && abs(source.y - moved.y)
                <= range as i32 && abs(source.z - moved.z) <= range as i32;
            r == RunState::InteractGUI {
                range,
                source,
                target: if within {
                    moved
                } else {
                    target
                },
                prev_mouse_position: mouse_position,
                selected_entity,
            }
        }),
{
    let new_target = target.add(delta);
    let dx = source.x - new_target.x;
    let dy = source.y - new_target.y;
    let dz = source.z - new_target.z;
    let ax = if dx < 0 { -(dx as i64) } else { dx as i64 };
    let ay = if dy < 0 { -(dy as i64) } else { dy as i64 };
    let az = if dz < 0 { -(dz as i64) } else { dz as i64 };
    let r = range as i32 as i64;
    if ax <= r && ay <= r && az <= r {
        RunState::InteractGUI {
            range,
            source,
            target: new_target,
            prev_mouse_position: mouse_position,
            selected_entity,
        }
    } else {
        RunState::InteractGUI {
            range,
            source,
            target,
            prev_mouse_position: mouse_position,
            selected_entity,
        }
    }
}

/// How an interaction offered in the interaction screen is carried out.
#[derive(Clone, Copy, Debug, PartialEq, Eq, Structural)]
pub enum InteractionType {
    /// Through the entity's interactable component.
    ComponentInteraction,
    /// By picking the entity up.
    PickUpInteraction,
    /// By opening the entity.
    OpenInteraction,
}

/// The intent the player forms in the interaction screen, by the index of the
/// chosen interaction.
#[derive(Clone, Copy, Debug, PartialEq, Eq, Structural)]
pub enum GuiIntent {
    Interact(usize),
    PickUp(usize),
    Open(usize),
}

/// Where the look cursor goes when the mouse moved over the map: to the mouse's map
/// position, pulled back along each axis to within `range` of `source`. It stays
/// at `target` when the mouse's x did not change or the mouse is off the map.
pub open spec fn follow_mouse(
    range: usize,
    source: Vector3i,
    target: Vector3i,
    prev_mouse_position: Vector3i,
    mouse_pos: (i32, i32),
    mouse_position: Vector3i,
) -> Vector3i {
    if mouse_position.x != prev_mouse_position.x && mouse_pos.0 <= MAP_SCREEN_WIDTH && mouse_pos.1
        <= MAP_SCREEN_HEIGHT {
        let dx = mouse_position.x - source.x;
        let dy = mouse_position.y - source.y;
        Vector3i::of(
            (if abs(dx) < range { abs(dx) } else { range as int }) * signum(dx) + source.x,
            (if abs(dy) < range { abs(dy) } else { range as int }) * signum(dy) + source.y,
            target.z as int,
        )
    } else {
        target
    }
}

/// The step the look cursor takes for a key of the interaction screen, if any.
pub open spec fn look_step(key: Key) -> Option<Vector3i> {
    match key {
        Key::Period => Some(Vector3i::of(0, 0, -1)),
        Key::Comma => Some(Vector3i::of(0, 0, 1)),
        Key::Up | Key::Numpad8 => Some(Vector3i::of(0, -1, 0)),
        Key::Numpad9 => Some(Vector3i::of(1, -1, 0)),
        Key::Right | Key::Numpad6 => Some(Vector3i::of(1, 0, 0)),
        Key::Numpad3 => Some(Vector3i::of(1, 1, 0)),
        Key::Down | Key::Numpad2 => Some(Vector3i::of(0, 1, 0)),
        Key::Numpad1 => Some(Vector3i::of(-1, 1, 0)),
        Key::Left | Key::Numpad4 => Some(Vector3i::of(-1, 0, 0)),
        Key::Numpad7 => Some(Vector3i::of(-1, -1, 0)),
        _ => None,
    }
}

/// The menu letter a key picks in the interaction screen: `A` to `E` for the first
/// five entries.
pub open spec fn menu_letter(key: Key) -> Option<usize> {
    match key {
        Key::A => Some(0usize),
        Key::B => Some(1usize),
        Key::C => Some(2usize),
        Key::D => Some(3usize),
        Key::E => Some(4usize),
        _ => None,
    }
}

/// The look cursor after a step, kept within `range` of `source` on every axis.
pub open spec fn stepped_target(range: usize, source: Vector3i, target: Vector3i, delta: Vector3i) -> Vector3i {
    let moved = target.plus(delta);
    if abs(source.x - moved.x) <= range as i32 && abs(source.y - moved.y) <= range as i32 && abs(
        source.z - moved.z,
    ) <= range as i32 {
        moved
    } else {
        target
    }
}

/// The intent that the letter of index `idx` carries out on the selected entity: `A`
/// and `B` as the interaction offered under that letter says, `C` to `E` through the
/// interactable component.
pub open spec fn letter_intent(interactions: Seq<InteractionType>, idx: usize) -> GuiIntent {
    if idx >= 2 {
        GuiIntent::Interact(idx)
    } else {
        match interactions[idx as int] {
            InteractionType::ComponentInteraction => GuiIntent::Interact(idx),
            InteractionType::PickUpInteraction => GuiIntent::PickUp(idx),
            InteractionType::OpenInteraction => GuiIntent::Open(idx),
        }
    }
}

/// What the letter of index `idx` does. With no entity selected it selects the
/// entity of that letter on the tile, or none when the tile holds fewer. With one
/// selected it carries out the interaction of that letter, ticking on, when that many
/// are offered and there is a player; else the screen stays. The screen remembers
/// the mouse for `A`, `B` and `E`, and keeps the mouse it had for `C` and `D`.
pub open spec fn letter_result(
    range: usize,
    source: Vector3i,
    target: Vector3i,
    prev_mouse_position: Vector3i,
    selected_entity: Option<u32>,
    mouse_position: Vector3i,
    idx: usize,
    tile_entities: Seq<u32>,
    interactions: Seq<InteractionType>,
    player_present: bool,
) -> (RunState, Option<GuiIntent>) {
    let prev = if idx == 2 || idx == 3 {
        prev_mouse_position
    } else {
        mouse_position
    };
    let stay = |selected: Option<u32>|
        RunState::InteractGUI { range, source, target, prev_mouse_position: prev, selected_entity: selected };
    match selected_entity {
        None => (stay(if idx < tile_entities.len() { Some(tile_entities[idx as int]) } else { None }), None),
        Some(_) => if idx < interactions.len() && player_present {
            (RunState::Ticking, Some(letter_intent(interactions, idx)))
        } else {
            (stay(selected_entity), None)
        },
    }
}

/// What the interaction screen does with a key, after the cursor followed the mouse
/// to `target`: the next state and the intent formed, if any. `Escape` drops the
/// selected entity, or leaves the screen when none is selected; `I` leaves it; a step
/// key moves the cursor within `range` of `source`; a letter from `A` to `E` acts as
/// `letter_result` says; `Return` carries out the first interaction only when more
/// than forty are offered and there is a player; any other key is handed on.
pub open spec fn interact_gui_spec(
    range: usize,
    source: Vector3i,
    target: Vector3i,
    prev_mouse_position: Vector3i,
    selected_entity: Option<u32>,
    mouse_position: Vector3i,
    key: Option<Key>,
    tile_entities: Seq<u32>,
    interactions: Seq<InteractionType>,
    player_present: bool,
) -> (RunState, Option<GuiIntent>) {
    let stay = |prev: Vector3i, selected: Option<u32>|
        RunState::InteractGUI { range, source, target, prev_mouse_position: prev, selected_entity: selected };
    match key {
        None => (stay(prev_mouse_position, selected_entity), None),
        Some(k) => {
            if k == Key::Escape {
                if selected_entity is None {
                    (RunState::AwaitingInput, None)
                } else {
                    (stay(prev_mouse_position, None), None)
                }
            } else if k == Key::I {
                (RunState::AwaitingInput, None)
            } else if look_step(k) is Some {
                (
                    RunState::InteractGUI {
                        range,
                        source,
                        target: stepped_target(range, source, target, look_step(k)->0),
                        prev_mouse_position: mouse_position,
                        selected_entity,
                    },
                    None,
                )
            } else if menu_letter(k) is Some {
                letter_result(
                    range,
                    source,
                    target,
                    prev_mouse_position,
                    selected_entity,
                    mouse_position,
                    menu_letter(k)->0,
                    tile_entities,
                    interactions,
                    player_present,
                )
            } else if k == Key::Return {
                if interactions.len() > 40 && player_present {
                    (RunState::Ticking, Some(GuiIntent::Interact(0)))
                } else {
                    (stay(mouse_position, selected_entity), None)
                }
            } else {
                (
                    RunState::HandleOtherInput {
                        next_runstate: Box::new(stay(mouse_position, selected_entity)),
                        key: k,
                    },
                    None,
                )
            }
        },
    }
}

/// The look cursor follows the mouse: the mouse moved along x and lies over the map.
pub open spec fn mouse_moved(prev_mouse_position: Vector3i, mouse_pos: (i32, i32), mouse_position: Vector3i) -> bool {
    mouse_position.x != prev_mouse_position.x && mouse_pos.0 <= MAP_SCREEN_WIDTH && mouse_pos.1 <= MAP_SCREEN_HEIGHT
}

/// The distance from `source` to the mouse, and its size, fit an `i32` on x and y.
pub open spec fn mouse_reach_fits(source: Vector3i, mouse_position: Vector3i) -> bool {
    &&& i32::MIN < mouse_position.x - source.x <= i32::MAX
    &&& i32::MIN < mouse_position.y - source.y <= i32::MAX
}

/// The look cursor's new place when the mouse moved over the map.
fn follow_mouse_target(
    range: usize,
    source: Vector3i,
    target: Vector3i,
    prev_mouse_position: Vector3i,
    mouse_pos: (i32, i32),
    mouse_position: Vector3i,
) -> (t: Vector3i)
    requires
        range <= i32::MAX,
        mouse_moved(prev_mouse_position, mouse_pos, mouse_position) ==> mouse_reach_fits(source, mouse_position),
    ensures
        t == follow_mouse(range, source, target, prev_mouse_position, mouse_pos, mouse_position),
{
    if mouse_position.x != prev_mouse_position.x && mouse_pos.0 <= MAP_SCREEN_WIDTH && mouse_pos.1
        <= MAP_SCREEN_HEIGHT {
        let r = range as i32;
        let dx = mouse_position.x - source.x;
        let dy = mouse_position.y - source.y;
        let ax = if dx < 0 { -dx } else { dx };
        let ay = if dy < 0 { -dy } else { dy };
        let mx = if ax < r { ax } else { r };
        let my = if ay < r { ay } else { r };
        let sx: i32 = if dx > 0 { 1 } else if dx < 0 { -1 } else { 0 };
        let sy: i32 = if dy > 0 { 1 } else if dy < 0 { -1 } else { 0 };
        proof {
            crate::map_builders::small_cargo_ship::lemma_mul_unit(mx as int, sx as int);
            crate::map_builders::small_cargo_ship::lemma_mul_unit(my as int, sy as int);
        }
        Vector3i::new(mx * sx + source.x, my * sy + source.y, target.z)
    } else {
        target
    }
}

/// What one frame of the interaction screen needs to work without leaving the `i32`
/// range: `range` fits an `i32`; the distance to the mouse fits when the cursor
/// follows it; and a step key's step, from the followed cursor, fits, as does its
/// distance from `source`.
pub open spec fn interaction_fits(
    range: usize,
    source: Vector3i,
    target: Vector3i,
    prev_mouse_position: Vector3i,
    mouse_pos: (i32, i32),
    mouse_position: Vector3i,
    key: Option<Key>,
) -> bool {
    &&& range <= i32::MAX
    &&& mouse_moved(prev_mouse_position, mouse_pos, mouse_position) ==> mouse_reach_fits(source, mouse_position)
    &&& ({
        let t = follow_mouse(range, source, target, prev_mouse_position, mouse_pos, mouse_position);
        match key {
            Some(k) => match look_step(k) {
                Some(step) => t.add_in_range(step) && source.sub_in_range(t.plus(step)),
                None => true,
            },
            None => true,
        }
    })
}

/// Whether `v` fits an `i32`.
fn fits_wide(v: i64) -> (b: bool)
    ensures
        b == (i32::MIN <= v <= i32::MAX),
{
    -2147483648i64 <= v && v <= 2147483647i64
}

/// Whether one frame of the interaction screen can be worked out for these inputs.
pub fn interaction_inputs_fit(
    range: usize,
    source: Vector3i,
    target: Vector3i,
    prev_mouse_position: Vector3i,
    mouse_pos: (i32, i32),
    mouse_position: Vector3i,
    key: Option<Key>,
) -> (b: bool)
    ensures
        b == interaction_fits(range, source, target, prev_mouse_position, mouse_pos, mouse_position, key),
{
    if range > 2147483647usize {
        return false;
    }
    let moved = mouse_position.x != prev_mouse_position.x && mouse_pos.0 <= MAP_SCREEN_WIDTH && mouse_pos.1
        <= MAP_SCREEN_HEIGHT;
    let dx = mouse_position.x as i64 - source.x as i64;
    let dy = mouse_position.y as i64 - source.y as i64;
    if moved && !(dx > -2147483648i64 && dx <= 2147483647i64 && dy > -2147483648i64 && dy <= 2147483647i64) {
        return false;
    }
    let t = follow_mouse_target(range, source, target, prev_mouse_position, mouse_pos, mouse_position);
    let step = match key {
        Some(k) => match k {
            Key::Period => Some(Vector3i::down()),
            Key::Comma => Some(Vector3i::up()),
            Key::Up | Key::Numpad8 => Some(Vector3i::north()),
            Key::Numpad9 => Some(Vector3i::north_east()),
            Key::Right | Key::Numpad6 => Some(Vector3i::east()),
            Key::Numpad3 => Some(Vector3i::south_east()),
            Key::Down | Key::Numpad2 => Some(Vector3i::south()),
            Key::Numpad1 => Some(Vector3i::south_west()),
            Key::Left | Key::Numpad4 => Some(Vector3i::west()),
            Key::Numpad7 => Some(Vector3i::north_west()),
            _ => None,
        },
        None => None,
    };
    assert(step == (match key {
        Some(k) => look_step(k),
        None => None::<Vector3i>,
    }));
    match step {
        None => true,
        Some(d) => {
            let mx = t.x as i64 + d.x as i64;
            let my = t.y as i64 + d.y as i64;
            let mz = t.z as i64 + d.z as i64;
            fits_wide(mx) && fits_wide(my) && fits_wide(mz) && fits_wide(source.x as i64 - mx) && fits_wide(
                source.y as i64 - my,
            ) && fits_wide(source.z as i64 - mz)
        },
    }
}

/// The cameras once every active one stands on level `z`.
pub open spec fn cameras_on_level(cameras: Seq<(Vector3i, Camera)>, z: i32) -> Seq<(Vector3i, Camera)> {
    Seq::new(
        cameras.len(),
        |i: int|
            if cameras[i].1.is_active {
                (Vector3i { z, ..cameras[i].0 }, cameras[i].1)
            } else {
                cameras[i]
            },
    )
}

/// The map position under the mouse at `mouse_pos` on screen, with the view centred
/// on `view`.
pub open spec fn mouse_on_map(mouse_pos: (i32, i32), view: Vector3i) -> Vector3i {
    Vector3i {
        x: (mouse_pos.0 - MAP_SCREEN_WIDTH / 2 + view.x) as i32,
        y: (mouse_pos.1 - MAP_SCREEN_HEIGHT / 2 + view.y) as i32,
        z: view.z,
    }
}

/// The map position under the mouse can be worked out in the `i32` range.
pub open spec fn mouse_on_map_fits(mouse_pos: (i32, i32), view: Vector3i) -> bool {
    &&& crate::vectors::fits_i32(mouse_pos.0 - MAP_SCREEN_WIDTH / 2)
    &&& crate::vectors::fits_i32(mouse_pos.1 - MAP_SCREEN_HEIGHT / 2)
    &&& crate::vectors::fits_i32(mouse_pos.0 - MAP_SCREEN_WIDTH / 2 + view.x)
    &&& crate::vectors::fits_i32(mouse_pos.1 - MAP_SCREEN_HEIGHT / 2 + view.y)
}

/// The view the interaction screen reads the mouse through: that of the cameras once
/// the active ones stand on the level of `target`.
pub open spec fn gui_view(cameras: Seq<(Vector3i, Camera)>, target: Vector3i) -> Vector3i {
    viewport_spec(cameras_on_level(cameras, target.z))
}

/// One frame of the interaction screen: every active camera moves to the level of
/// `target`, the mouse is read on the map through the view they give, the look cursor
/// follows the mouse over the map, then the key pressed, if any, moves the cursor,
/// selects an entity on the tile or carries out one of the interactions offered.
pub fn interact_gui(
    range: usize,
    source: Vector3i,
    target: Vector3i,
    prev_mouse_position: Vector3i,
    selected_entity: Option<u32>,
    mouse_pos: (i32, i32),
    cameras: &mut Vec<(Vector3i, Camera)>,
    key: Option<Key>,
    tile_entities: &Vec<u32>,
    interactions: &Vec<InteractionType>,
    player_present: bool,
) -> (r: (RunState, Option<GuiIntent>))
    requires
        mouse_on_map_fits(mouse_pos, gui_view(old(cameras)@, target)),
        interaction_fits(
            range,
            source,
            target,
            prev_mouse_position,
            mouse_pos,
            mouse_on_map(mouse_pos, gui_view(old(cameras)@, target)),
            key,
        ),
    ensures
        final(cameras)@ == cameras_on_level(old(cameras)@, target.z),
        ({
            let mouse_position = mouse_on_map(mouse_pos, gui_view(old(cameras)@, target));
            r == interact_gui_spec(
                range,
                source,
                follow_mouse(range, source, target, prev_mouse_position, mouse_pos, mouse_position),
                prev_mouse_position,
                selected_entity,
                mouse_position,
                key,
                tile_entities@,
                interactions@,
                player_present,
            )
        }),
{
    set_camera_z(target.z, cameras);
    proof {
        assert(cameras@ =~= cameras_on_level(old(cameras)@, target.z));
    }
    let view = get_viewport_position(cameras);
    let mouse_position = mouse_to_map(mouse_pos, view);
    proof {
        assert(mouse_position == mouse_on_map(mouse_pos, view));
    }
    respond_to_key(
        range,
        source,
        target,
        prev_mouse_position,
        selected_entity,
        mouse_pos,
        mouse_position,
        key,
        tile_entities,
        interactions,
        player_present,
    )
}

/// What the interaction screen does in one frame once the mouse was read on the map at
/// `mouse_position`.
fn respond_to_key(
    range: usize,
    source: Vector3i,
    target: Vector3i,
    prev_mouse_position: Vector3i,
    selected_entity: Option<u32>,
    mouse_pos: (i32, i32),
    mouse_position: Vector3i,
    key: Option<Key>,
    tile_entities: &Vec<u32>,
    interactions: &Vec<InteractionType>,
    player_present: bool,
) -> (r: (RunState, Option<GuiIntent>))
    requires
        interaction_fits(range, source, target, prev_mouse_position, mouse_pos, mouse_position, key),
    ensures
        r == interact_gui_spec(
            range,
            source,
            follow_mouse(range, source, target, prev_mouse_position, mouse_pos, mouse_position),
            prev_mouse_position,
            selected_entity,
            mouse_position,
            key,
            tile_entities@,
            interactions@,
            player_present,
        ),
{
    let target = follow_mouse_target(
        range,
        source,
        target,
        prev_mouse_position,
        mouse_pos,
        mouse_position,
    );
    let k = match key {
        None => {
            return (
                RunState::InteractGUI { range, source, target, prev_mouse_position, selected_entity },
                None,
            );
        },
        Some(k) => k,
    };
    let step = match k {
        Key::Period => Some(Vector3i::down()),
        Key::Comma => Some(Vector3i::up()),
        Key::Up | Key::Numpad8 => Some(Vector3i::north()),
        Key::Numpad9 => Some(Vector3i::north_east()),
        Key::Right | Key::Numpad6 => Some(Vector3i::east()),
        Key::Numpad3 => Some(Vector3i::south_east()),
        Key::Down | Key::Numpad2 => Some(Vector3i::south()),
        Key::Numpad1 => Some(Vector3i::south_west()),
        Key::Left | Key::Numpad4 => Some(Vector3i::west()),
        Key::Numpad7 => Some(Vector3i::north_west()),
        _ => None,
    };
    let letter: Option<usize> = match k {
        Key::A => Some(0),
        Key::B => Some(1),
        Key::C => Some(2),
        Key::D => Some(3),
        Key::E => Some(4),
        _ => None,
    };
    if k == Key::Escape {
        if selected_entity.is_none() {
            (RunState::AwaitingInput, None)
        } else {
            (
                RunState::InteractGUI {
                    range,
                    source,
                    target,
                    prev_mouse_position,
                    selected_entity: None,
                },
                None,
            )
        }
    } else if k == Key::I {
        (RunState::AwaitingInput, None)
    } else if let Some(delta) = step {
        (check_range(range, source, target, delta, mouse_position, selected_entity), None)
    } else if let Some(idx) = letter {
        let prev = if idx < 2 || idx == 4 {
            mouse_position
        } else {
            prev_mouse_position
        };
        if selected_entity.is_none() {
            let selected = if tile_entities.len() > idx {
                Some(tile_entities[idx])
            } else {
                None
            };
            (RunState::InteractGUI { range, source, target, prev_mouse_position: prev, selected_entity: selected }, None)
        } else if interactions.len() > idx && player_present {
            let intent = if idx >= 2 {
                GuiIntent::Interact(idx)
            } else {
                match interactions[idx] {
                    InteractionType::ComponentInteraction => GuiIntent::Interact(idx),
                    InteractionType::PickUpInteraction => GuiIntent::PickUp(idx),
                    InteractionType::OpenInteraction => GuiIntent::Open(idx),
                }
            };
            (RunState::Ticking, Some(intent))
        } else {
            (RunState::InteractGUI { range, source, target, prev_mouse_position: prev, selected_entity }, None)
        }
    } else if k == Key::Return {
        if interactions.len() > 40 && player_present {
            (RunState::Ticking, Some(GuiIntent::Interact(0)))
        } else {
            (
                RunState::InteractGUI {
                    range,
                    source,
                    target,
                    prev_mouse_position: mouse_position,
                    selected_entity,
                },
                None,
            )
        }
    } else {
        (
            RunState::HandleOtherInput {
                next_runstate: Box::new(
                    RunState::InteractGUI {
                        range,
                        source,
                        target,
                        prev_mouse_position: mouse_position,
                        selected_entity,
                    },
                ),
                key: k,
            },
            None,
        )
    }
}

} // verus!
