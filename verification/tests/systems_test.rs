use bimap::BiHashMap;
use rltk::RandomNumberGenerator;
use weirdark::ducting::{lay_ducting, DuctSection};
use weirdark::entities::components::{Blocker, Direction, Door};
use weirdark::map::entity_index::MapIndexSystem;
use weirdark::map::{PositionMap, Tile, TileKind, TileMap};
use weirdark::entities::power_components::PowerSwitch;
use weirdark::systems::event_system::{
    carry_out_interaction, check_entity_blocking, is_entity_blocked, mark_for_rebuild, resolve_move,
    run_state_after_events,
};
use weirdark::states::RunState;
use weirdark::systems::power_system::{
    begin_power_turn, get_devices_on_network, relabel_network, trace_circuit, BreakerSwitch, NetworkWire, NodeEntry,
    PowerNodeRecord,
};
use weirdark::spawner::update_duct_char;
use weirdark::systems::state_align_system::{
    align_door, align_doors, run_door_system, viewshed_affected, DoorAlignment, DoorState, Viewer,
};
use weirdark::vectors::Vector3i;
use weirdark::wiring::{lay_wiring, step_between, WireSection};

fn floor(cells: &[(i32, i32, i32)]) -> TileMap {
    let mut map = PositionMap::new();
    for &(x, y, z) in cells {
        map.insert(Vector3i::new(x, y, z), Tile::new(true, false, TileKind::BreathableAtmosphere));
    }
    map
}

#[test]
fn blockers_stop_moves_both_ways() {
    let wall = vec![(Vector3i::new(1, 0, 0), Blocker::new(vec![Direction::W], true))];
    let a = Vector3i::new(0, 0, 0);
    let b = Vector3i::new(1, 0, 0);
    assert!(is_entity_blocked(&wall, a, b));
    assert!(is_entity_blocked(&wall, b, a));
    assert!(!is_entity_blocked(&wall, a, Vector3i::new(0, 1, 0)));
    let wall_e = vec![(Vector3i::new(0, 0, 0), Blocker::new(vec![Direction::E], true))];
    assert!(is_entity_blocked(&wall_e, a, b));
    assert!(is_entity_blocked(&wall_e, b, a));
    assert!(!is_entity_blocked(&wall_e, a, Vector3i::new(0, 1, 0)));
}

#[test]
fn diagonal_moves_are_stopped_by_the_cells_passed() {
    let p = Vector3i::new(0, 0, 0);
    let t = Vector3i::new(1, 1, 0);
    let east_cell = vec![(Vector3i::new(1, 0, 0), Blocker::new_all_sides(true))];
    assert!(check_entity_blocking(&east_cell, p, t));
    let far = vec![(Vector3i::new(5, 5, 0), Blocker::new_all_sides(true))];
    assert!(!check_entity_blocking(&far, p, t));
}

#[test]
fn moves_end_on_passable_unblocked_tiles() {
    let map = floor(&[(0, 0, 0), (1, 0, 0), (0, 1, 0)]);
    let none: Vec<(Vector3i, Blocker)> = vec![];
    let here = Vector3i::new(0, 0, 0);
    assert_eq!(resolve_move(&map, &none, here, Vector3i::east()), Some(Vector3i::new(1, 0, 0)));
    assert_eq!(resolve_move(&map, &none, here, Vector3i::west()), None);
    let mut walled = map;
    walled.insert(Vector3i::new(0, 1, 0), Tile::new(false, true, TileKind::Hull));
    assert_eq!(resolve_move(&walled, &none, here, Vector3i::south()), None);
    let door = vec![(Vector3i::new(1, 0, 0), Blocker::new_cardinal_sides(true))];
    assert_eq!(resolve_move(&walled, &door, here, Vector3i::east()), None);
}

#[test]
fn doors_are_aligned_with_their_state() {
    let mut rng = RandomNumberGenerator::seeded(11);
    let mut door = Door::new(false, 5, 6, &mut rng);
    assert_eq!(
        align_door(&door, true, true, false, false),
        DoorAlignment { glyph: Some(6), blocker: true, vision_blocker: true, changed: true }
    );
    assert_eq!(
        align_door(&door, false, true, true, false),
        DoorAlignment { glyph: None, blocker: true, vision_blocker: false, changed: false }
    );
    door.open_close();
    assert_eq!(
        align_door(&door, true, true, true, true),
        DoorAlignment { glyph: Some(5), blocker: false, vision_blocker: false, changed: true }
    );
}

#[test]
fn viewsheds_near_changed_cells_are_redone() {
    let changed = vec![Vector3i::new(3, 4, 0)];
    assert!(viewshed_affected(&changed, Vector3i::new(0, 0, 0), 6));
    assert!(!viewshed_affected(&changed, Vector3i::new(0, 0, 0), 5));
    assert!(!viewshed_affected(&vec![], Vector3i::new(0, 0, 0), 50));
}

fn wire(x: i32, color: &str, id: u32) -> NetworkWire {
    NetworkWire { position: Vector3i::new(x, 0, 0), color_name: color.to_string(), entity_id: id }
}

#[test]
fn circuits_follow_wires_of_one_colour() {
    let wires = vec![wire(0, "red", 1), wire(1, "red", 2), wire(2, "blue", 3), wire(7, "red", 4)];
    let (mut ids, complete) = trace_circuit(&wires, &vec![], Vector3i::new(0, 0, 0), &"red".to_string(), false, false);
    assert!(complete);
    ids.sort();
    assert_eq!(ids, vec![1, 2]);
}

#[test]
fn circuits_cross_breaker_boxes_into_new_colours() {
    let wires = vec![wire(0, "red", 1), wire(1, "red", 2), wire(2, "blue", 3), wire(3, "blue", 5)];
    let breakers = vec![BreakerSwitch { position: Vector3i::new(2, 0, 0), on: true }];
    let (mut ids, complete) = trace_circuit(&wires, &breakers, Vector3i::new(0, 0, 0), &"red".to_string(), false, false);
    assert!(complete);
    ids.sort();
    assert_eq!(ids, vec![1, 2, 3, 5]);
}

#[test]
fn switched_off_breakers_stop_the_trace_when_switches_count() {
    let wires = vec![wire(0, "red", 1), wire(1, "blue", 2), wire(2, "blue", 3)];
    let off = vec![BreakerSwitch { position: Vector3i::new(1, 0, 0), on: false }];
    let (ids, complete) = trace_circuit(&wires, &off, Vector3i::new(0, 0, 0), &"red".to_string(), true, false);
    assert!(complete);
    assert_eq!(ids, vec![1]);
    let (mut ids, _) = trace_circuit(&wires, &off, Vector3i::new(0, 0, 0), &"red".to_string(), false, false);
    ids.sort();
    assert_eq!(ids, vec![1, 2, 3]);
}

#[test]
fn matching_colours_takes_only_wires_of_met_colours() {
    let wires = vec![wire(0, "red", 1), wire(0, "green", 7), wire(1, "red", 2)];
    let (mut ids, _) = trace_circuit(&wires, &vec![], Vector3i::new(0, 0, 0), &"red".to_string(), false, true);
    ids.sort();
    assert_eq!(ids, vec![1, 2]);
    let (mut all, _) = trace_circuit(&wires, &vec![], Vector3i::new(0, 0, 0), &"red".to_string(), false, false);
    all.sort();
    assert_eq!(all, vec![1, 2, 7]);
}

#[test]
fn dense_circuits_are_traced_to_the_end() {
    let mut wires = Vec::new();
    let mut id: u32 = 1;
    for x in 0..6 {
        for y in 0..6 {
            for z in 0..2 {
                wires.push(NetworkWire { position: Vector3i::new(x, y, z), color_name: "red".to_string(), entity_id: id });
                id += 1;
            }
        }
    }
    let (mut ids, complete) = trace_circuit(&wires, &vec![], Vector3i::new(2, 3, 0), &"red".to_string(), false, false);
    assert!(complete);
    ids.sort();
    assert_eq!(ids, (1..id).collect::<Vec<u32>>());
}

#[test]
fn devices_on_a_network_are_listed_in_order() {
    let nodes = vec![
        NodeEntry { entity_id: 10, network_id: 1, has_switch: true },
        NodeEntry { entity_id: 11, network_id: 1, has_switch: true },
        NodeEntry { entity_id: 12, network_id: 2, has_switch: true },
        NodeEntry { entity_id: 13, network_id: 1, has_switch: false },
        NodeEntry { entity_id: 14, network_id: 1, has_switch: true },
    ];
    assert_eq!(get_devices_on_network(&nodes, 10), vec![11, 14]);
    assert_eq!(get_devices_on_network(&nodes, 12), Vec::<u32>::new());
    assert_eq!(get_devices_on_network(&nodes, 99), Vec::<u32>::new());
}

#[test]
fn steps_between_neighbours() {
    assert_eq!(step_between(Vector3i::new(0, 0, 0), Vector3i::new(0, -1, 0)), Vector3i::north());
    assert_eq!(step_between(Vector3i::new(4, 4, 4), Vector3i::new(4, 4, 4)), Vector3i::new(0, 0, 0));
}

#[test]
fn wiring_is_laid_along_the_walk_once_per_colour() {
    let map: TileMap = PositionMap::new();
    let mut wires: Vec<WireSection> = vec![];
    let red = "red".to_string();
    let a = Vector3i::new(0, 0, 0);
    let b = Vector3i::new(2, 0, 0);
    lay_wiring(&mut wires, &map, a, b, &red, false, false);
    let positions: Vec<Vector3i> = wires.iter().map(|w| w.position).collect();
    assert_eq!(positions, vec![a, Vector3i::new(1, 0, 0), b]);
    assert_eq!(wires[1].direction, Direction::E);
    assert_eq!(wires[1].glyph, '-');
    assert!(wires.iter().all(|w| w.color_name == "red" && !w.data));
    lay_wiring(&mut wires, &map, b, a, &red, false, false);
    assert_eq!(wires.len(), 3);
    let blue = "blue".to_string();
    lay_wiring(&mut wires, &map, a, b, &blue, false, true);
    assert_eq!(wires.len(), 6);
    assert!(wires[3..].iter().all(|w| w.color_name == "blue" && w.data));
}

#[test]
fn ducting_is_capped_and_laid_once_per_position() {
    let map: TileMap = PositionMap::new();
    let mut ducts: Vec<DuctSection> = vec![];
    let a = Vector3i::new(0, 0, 0);
    let b = Vector3i::new(2, 0, 0);
    lay_ducting(&mut ducts, &map, a, b);
    let positions: Vec<Vector3i> = ducts.iter().map(|d| d.position).collect();
    assert_eq!(positions, vec![Vector3i::new(0, 0, -1), a, Vector3i::new(1, 0, 0), b]);
    assert_eq!(ducts[0].direction, Direction::UP);
    assert_eq!(ducts[0].glyph, '■');
    lay_ducting(&mut ducts, &map, a, b);
    let at_path = ducts.iter().filter(|d| d.position.z == 0).count();
    assert_eq!(at_path, 3);
}

#[test]
fn ducting_redraws_the_ducts_beside_it() {
    let map: TileMap = PositionMap::new();
    let beside = Vector3i::new(1, 1, 0);
    let sides = vec![Direction::N, Direction::E, Direction::S, Direction::W];
    let mut ducts: Vec<DuctSection> =
        vec![DuctSection { position: beside, direction: Direction::E, sides: sides.clone(), glyph: 'x' }];
    lay_ducting(&mut ducts, &map, Vector3i::new(0, 0, 0), Vector3i::new(2, 0, 0));
    assert_eq!(ducts[0].position, beside);
    assert_eq!(ducts[0].direction, Direction::E);
    assert!(ducts[0].sides.iter().all(|s| sides.contains(s)));
    assert_eq!(ducts[0].glyph, update_duct_char(&ducts[0].sides));
}

fn door_state(open: bool, x: i32, drawn: bool, had_blocker: bool) -> DoorState {
    DoorState {
        open,
        open_glyph: 1,
        closed_glyph: 2,
        position: Vector3i::new(x, 0, 0),
        drawn,
        opaque: true,
        had_blocker,
        had_vision_blocker: false,
    }
}

#[test]
fn doors_align_together() {
    let doors = vec![
        door_state(true, 0, true, true),
        door_state(false, 1, true, true),
        door_state(false, 2, true, false),
        door_state(true, 3, false, false),
    ];
    let (alignments, changed) = align_doors(&doors);
    assert_eq!(alignments.len(), 4);
    assert_eq!(alignments[0], DoorAlignment { glyph: Some(1), blocker: false, vision_blocker: false, changed: true });
    assert_eq!(alignments[1], DoorAlignment { glyph: Some(2), blocker: true, vision_blocker: true, changed: false });
    assert_eq!(alignments[2], DoorAlignment { glyph: Some(2), blocker: true, vision_blocker: true, changed: true });
    assert_eq!(alignments[3], DoorAlignment { glyph: None, blocker: false, vision_blocker: false, changed: false });
    assert_eq!(changed, vec![Vector3i::new(0, 0, 0), Vector3i::new(2, 0, 0)]);
}

#[test]
fn the_map_index_pairs_positions_with_entities() {
    let mut index: BiHashMap<Vector3i, u32> = BiHashMap::new();
    index.insert(Vector3i::new(9, 9, 9), 99);
    let a = Vector3i::new(1, 0, 0);
    let b = Vector3i::new(2, 0, 0);
    MapIndexSystem {}.run(&mut index, &vec![(1, a), (2, b), (3, a)]);
    assert_eq!(index.len(), 2);
    assert_eq!(index.get_by_left(&a), Some(&3));
    assert_eq!(index.get_by_left(&b), Some(&2));
    assert_eq!(index.get_by_right(&1), None);
    assert_eq!(index.get_by_left(&Vector3i::new(9, 9, 9)), None);
}

#[test]
fn ticking_goes_on_while_the_player_has_intents() {
    assert!(matches!(run_state_after_events(&vec![true], RunState::Ticking), RunState::Ticking));
    assert!(matches!(run_state_after_events(&vec![false], RunState::Ticking), RunState::AwaitingInput));
    assert!(matches!(run_state_after_events(&vec![false, true, false], RunState::AwaitingInput), RunState::Ticking));
    assert!(matches!(run_state_after_events(&vec![], RunState::PreRun), RunState::PreRun));
}

fn node(id: u32, x: i32, network_id: usize, is_wire: bool) -> PowerNodeRecord {
    PowerNodeRecord {
        entity_id: id,
        position: Some(Vector3i::new(x, 0, 0)),
        network_id,
        dirty: false,
        is_wire,
        switch_on: None,
        state_on: None,
        source_on: None,
    }
}

#[test]
fn a_power_turn_follows_switches_and_takes_dirty_networks_once() {
    let mut lamp = node(1, 0, 4, false);
    lamp.switch_on = Some(false);
    lamp.state_on = Some(true);
    lamp.dirty = true;
    let mut generator = node(2, 1, 4, false);
    generator.switch_on = Some(true);
    generator.source_on = Some(false);
    generator.dirty = true;
    let mut cable = node(3, 2, 9, true);
    cable.dirty = true;
    let plain = node(4, 3, 5, true);
    let (begun, dirty) = begin_power_turn(&vec![lamp, generator, cable, plain]);
    assert_eq!(dirty, vec![4, 9]);
    assert_eq!(begun[0].state_on, Some(false));
    assert_eq!(begun[1].source_on, Some(true));
    assert!(begun.iter().all(|n| !n.dirty));
    assert_eq!(begun[3], plain);
}

#[test]
fn relabelling_moves_traced_wires_in_and_detached_wires_out() {
    let wires = vec![wire(0, "red", 1), wire(1, "red", 2), wire(5, "red", 3)];
    let mut lamp = node(10, 1, 7, false);
    lamp.state_on = Some(true);
    let mut far_lamp = node(11, 9, 7, false);
    far_lamp.state_on = Some(true);
    let nodes = vec![node(1, 0, 2, true), node(2, 1, 7, true), node(3, 5, 7, true), lamp, far_lamp, node(4, 6, 8, true)];
    let fresh = vec![100, 101, 102, 103, 104, 105];
    let r = relabel_network(&nodes, &wires, &vec![1, 2], Vector3i::new(0, 0, 0), 7, &fresh);
    assert_eq!(r[0].network_id, 7);
    assert_eq!(r[1].network_id, 7);
    assert_eq!((r[2].network_id, r[2].dirty), (102, true));
    assert_eq!(r[3].network_id, 7);
    assert_eq!((r[4].network_id, r[4].dirty), (7, false));
    assert_eq!((r[5].network_id, r[5].dirty), (8, false));
}

#[test]
fn aligning_a_door_twice_changes_nothing_more() {
    let mut rng = RandomNumberGenerator::seeded(3);
    let mut door = Door::new(false, 5, 6, &mut rng);
    for _ in 0..2 {
        let first = align_door(&door, true, true, false, false);
        let again = align_door(&door, true, true, first.blocker, first.vision_blocker);
        assert_eq!(again, DoorAlignment { changed: false, ..first });
        door.open_close();
    }
}

#[test]
fn interactions_use_the_matching_switch_or_door() {
    let mut rng = RandomNumberGenerator::seeded(5);
    let switch = PowerSwitch::new(false, &mut rng);
    let door = Door::new(false, 5, 6, &mut rng);
    let (switch_id, door_id) = (switch.interaction_id, door.interaction_id);
    let mut s = Some(switch.clone());
    let mut d = Some(door.clone());
    assert!(carry_out_interaction(switch_id, &mut s, &mut d));
    assert!(s.as_ref().unwrap().on);
    assert!(!d.as_ref().unwrap().open || switch_id == door_id);
    let mut none_s: Option<PowerSwitch> = None;
    let mut d2 = Some(door.clone());
    assert!(carry_out_interaction(door_id, &mut none_s, &mut d2));
    assert!(d2.unwrap().open);
    let mut d3 = Some(door);
    let unused = if door_id == u32::MAX { 0 } else { door_id + 1 };
    assert!(!carry_out_interaction(unused, &mut None, &mut d3));
    assert!(!d3.unwrap().open);
}

#[test]
fn interactions_mark_the_target_and_the_nodes_at_its_breaker() {
    let nodes = vec![node(1, 0, 3, true), node(2, 4, 3, true), node(3, 4, 5, false), node(4, 7, 3, true)];
    let r = mark_for_rebuild(&nodes, 1, Some(Vector3i::new(4, 0, 0)));
    assert_eq!(r.iter().map(|n| n.dirty).collect::<Vec<bool>>(), vec![true, true, true, false]);
    let r = mark_for_rebuild(&nodes, 4, None);
    assert_eq!(r.iter().map(|n| n.dirty).collect::<Vec<bool>>(), vec![false, false, false, true]);
    assert_eq!(r[0], nodes[0]);
}

#[test]
fn the_door_system_redoes_views_near_changed_doors() {
    let doors = vec![door_state(true, 0, true, true), door_state(false, 20, true, true)];
    let viewers = vec![
        Viewer { position: Vector3i::new(3, 0, 0), view_distance: 6, dirty: false },
        Viewer { position: Vector3i::new(40, 0, 0), view_distance: 6, dirty: false },
        Viewer { position: Vector3i::new(40, 0, 0), view_distance: 6, dirty: true },
    ];
    let (alignments, dirty) = run_door_system(&doors, &viewers);
    assert_eq!(alignments[0], DoorAlignment { glyph: Some(1), blocker: false, vision_blocker: false, changed: true });
    assert_eq!(alignments[1], DoorAlignment { glyph: Some(2), blocker: true, vision_blocker: true, changed: false });
    assert_eq!(dirty, vec![true, false, true]);
}
