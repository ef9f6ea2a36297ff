use rltk::RandomNumberGenerator;
use weirdark::camera::{
    get_viewport_position, reset_camera_position, set_camera_position, set_camera_z,
    toggle_camera_power_overlay, update_camera_position, Camera,
};
use weirdark::entities::atmospherics::Gas;
use weirdark::entities::components::{find_side, has_side, Blocker, Direction, Door, VisionBlocker};
use weirdark::entities::intents::Interactable;
use weirdark::entities::power_components::{power_state_description, PowerNode, PowerSwitch};
use weirdark::spawner::{duct_section, update_duct_char, update_duct_char_from_sides, wire_style};
use weirdark::vectors::Vector3i;

#[test]
fn door_opens_closes_and_comes_back() {
    let mut rng = RandomNumberGenerator::seeded(7);
    let mut door = Door::new(false, 1, 2, &mut rng);
    assert!(!door.open);
    assert_eq!(door.interaction_description, "Open");
    assert_eq!(door.state_description(), "closed");
    let id = door.interaction_id;
    door.open_close();
    assert!(door.open);
    assert_eq!(door.interaction_description, "Close");
    assert_eq!(Door::state_description(&door), "open");
    door.interact();
    assert!(!door.open);
    assert_eq!(door.interaction_description, "Open");
    assert_eq!(door.interaction_id, id);
    assert_eq!(Interactable::interaction_id(&door), id);
    assert_eq!((door.open_glyph, door.closed_glyph), (1, 2));
}

#[test]
fn switch_flips_and_describes_itself() {
    let mut rng = RandomNumberGenerator::seeded(3);
    let mut switch = PowerSwitch::new(true, &mut rng);
    assert_eq!(switch.interaction_description, "Turn off");
    assert_eq!(PowerSwitch::state_description(&switch), "on");
    switch.toggle();
    assert!(!switch.on);
    assert_eq!(switch.interaction_description, "Turn on");
    assert_eq!(PowerSwitch::state_description(&switch), "off");
    switch.toggle();
    assert!(switch.on);
    assert_eq!(switch.interaction_description, "Turn off");
    assert!(PowerNode::new(&mut rng).dirty);
}

#[test]
fn power_states_are_described() {
    assert_eq!(power_state_description(true, true), "on, powered");
    assert_eq!(power_state_description(true, false), "on, not powered");
    assert_eq!(power_state_description(false, true), "off, powered");
    assert_eq!(power_state_description(false, false), "off, not powered");
}

#[test]
fn gases_have_names() {
    assert_eq!(Gas::Oxygen.name(), "Oxygen");
    assert_eq!(Gas::Nitrogen.name(), "Nitrogen");
    assert_eq!(Gas::CarbonDioxide.name(), "CarbonDioxide");
}

#[test]
fn blockers_remove_the_first_occurrence_of_a_side() {
    let mut b = Blocker::new(vec![Direction::N, Direction::S, Direction::N], true);
    b.remove_side(Direction::N);
    assert_eq!(b.sides, vec![Direction::S, Direction::N]);
    b.remove_side(Direction::E);
    assert_eq!(b.sides, vec![Direction::S, Direction::N]);
    assert!(b.airtight);
    let c = Blocker::new_cardinal_sides(false);
    assert_eq!(c.sides, vec![Direction::N, Direction::E, Direction::S, Direction::W]);
    let all = Blocker::new_all_sides(true);
    assert_eq!(all.sides.len(), 6);
    assert!(has_side(&all.sides, Direction::UP));
    assert!(!has_side(&all.sides, Direction::NE));
    let mut v = VisionBlocker::new_cardinal_sides();
    v.remove_side(Direction::E);
    assert_eq!(v.sides, vec![Direction::N, Direction::S, Direction::W]);
    assert_eq!(find_side(&v.sides, Direction::W), Some(2));
    assert_eq!(find_side(&v.sides, Direction::E), None);
}

#[test]
fn duct_glyphs_follow_the_closed_sides() {
    assert_eq!(update_duct_char(&vec![]), '╬');
    assert_eq!(
        update_duct_char(&vec![Direction::N, Direction::S, Direction::E, Direction::W]),
        '■'
    );
    assert_eq!(update_duct_char(&vec![Direction::N, Direction::S]), '═');
    assert_eq!(update_duct_char(&vec![Direction::E, Direction::W, Direction::UP]), '║');
    assert_eq!(update_duct_char_from_sides(&vec![Direction::S, Direction::W]), '╗');
    assert_eq!(update_duct_char(&vec![Direction::N]), '╥');
}

#[test]
fn wire_styles_follow_the_step() {
    assert_eq!(wire_style(Vector3i::north()), (Direction::N, '|'));
    assert_eq!(wire_style(Vector3i::south()), (Direction::S, '|'));
    assert_eq!(wire_style(Vector3i::east()), (Direction::E, '-'));
    assert_eq!(wire_style(Vector3i::west()), (Direction::W, '-'));
    assert_eq!(wire_style(Vector3i::up()), (Direction::UP, '.'));
    assert_eq!(wire_style(Vector3i::down()), (Direction::DOWN, '.'));
    assert_eq!(wire_style(Vector3i::new(2, 0, 0)), (Direction::NW, '.'));
}

#[test]
fn duct_sections_close_the_sides_not_travelled() {
    let (dir, sides) = duct_section(Vector3i::north(), Vector3i::north(), Direction::N);
    assert_eq!(dir, Direction::N);
    assert!(!has_side(&sides, Direction::N));
    assert!(!has_side(&sides, Direction::S));
    assert!(has_side(&sides, Direction::E));
    assert!(has_side(&sides, Direction::W));
    assert!(has_side(&sides, Direction::UP));
    assert!(has_side(&sides, Direction::DOWN));
    let (dir, sides) = duct_section(Vector3i::down(), Vector3i::down(), Direction::DOWN);
    assert_eq!(dir, Direction::DOWN);
    assert!(sides.is_empty());
}

fn cams() -> Vec<(Vector3i, Camera)> {
    vec![
        (Vector3i::new(1, 1, 0), Camera::new(true)),
        (Vector3i::new(9, 9, 9), Camera::new(false)),
    ]
}

#[test]
fn cameras_move_only_when_active() {
    let mut c = cams();
    update_camera_position(Vector3i::new(1, -1, 2), &mut c);
    assert_eq!(c[0].0, Vector3i::new(2, 0, 2));
    assert_eq!(c[1].0, Vector3i::new(9, 9, 9));
    set_camera_z(-3, &mut c);
    assert_eq!(c[0].0, Vector3i::new(2, 0, -3));
    set_camera_position(Vector3i::new(5, 5, 5), &mut c);
    assert_eq!(c[0].0, Vector3i::new(5, 5, 5));
    reset_camera_position(Vector3i::new(0, 0, 1), &mut c);
    assert_eq!(c[0].0, Vector3i::new(0, 0, 1));
    assert_eq!(c[1].0, Vector3i::new(9, 9, 9));
    toggle_camera_power_overlay(&mut c);
    assert!(c[0].1.power_overlay);
    assert!(!c[1].1.power_overlay);
    assert_eq!(get_viewport_position(&c), Vector3i::new(0, 0, 1));
    let idle = vec![(Vector3i::new(3, 3, 3), Camera::new(false))];
    assert_eq!(get_viewport_position(&idle), Vector3i::new(0, 0, 0));
}

#[test]
fn cameras_moved_there_and_back_return() {
    let mut c = cams();
    let before: Vec<Vector3i> = c.iter().map(|(p, _)| *p).collect();
    update_camera_position(Vector3i::new(3, -2, 1), &mut c);
    update_camera_position(Vector3i::new(-3, 2, -1), &mut c);
    let after: Vec<Vector3i> = c.iter().map(|(p, _)| *p).collect();
    assert_eq!(before, after);
    toggle_camera_power_overlay(&mut c);
    toggle_camera_power_overlay(&mut c);
    assert!(c.iter().all(|(_, cam)| !cam.power_overlay));
}
