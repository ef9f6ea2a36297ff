use weirdark::map::pathfinding::{
    find_path_with_width, find_walkable_path, get_accessible_neighbours,
    get_accessible_neighbours_with_width, is_interior, wall_climb_path,
};
use weirdark::map::tile_blueprints::TileBlueprints;
use weirdark::map::{mouse_to_map, PositionMap, Tile, TileKind, TileMap};
use weirdark::vectors::Vector3i;

fn v(x: i32, y: i32, z: i32) -> Vector3i {
    Vector3i::new(x, y, z)
}

fn wall() -> Tile {
    Tile::new(false, true, TileKind::Hull)
}

fn air() -> Tile {
    Tile::new(true, false, TileKind::BreathableAtmosphere)
}

#[test]
fn a_read_gives_back_the_last_write() {
    let mut map: PositionMap<u32> = PositionMap::new();
    assert_eq!(map.get(v(1, 2, 3)), None);
    map.insert(v(1, 2, 3), 7);
    map.insert(v(-1, 2, 3), 8);
    assert_eq!(map.get(v(1, 2, 3)), Some(7));
    assert_eq!(map.get(v(-1, 2, 3)), Some(8));
    map.insert(v(1, 2, 3), 9);
    assert_eq!(map.get(v(1, 2, 3)), Some(9));
    assert!(map.contains(v(-1, 2, 3)));
    map.remove(v(-1, 2, 3));
    assert!(!map.contains(v(-1, 2, 3)));
    assert_eq!(map.get(v(1, 2, 3)), Some(9));
    map.insert(v(i32::MIN, i32::MAX, -1), 1);
    map.insert(v(i32::MAX, i32::MIN, 1), 2);
    assert_eq!(map.get(v(i32::MIN, i32::MAX, -1)), Some(1));
    assert_eq!(map.get(v(i32::MAX, i32::MIN, 1)), Some(2));
}

#[test]
fn blueprints_give_tiles_once_registered() {
    let mut blueprints = TileBlueprints::new();
    assert_eq!(blueprints.get_tile("hull"), None);
    blueprints.initalise();
    assert_eq!(blueprints.get_tile("hull"), Some(Tile::new(false, true, TileKind::Hull)));
    assert_eq!(blueprints.get_tile("glass_hull"), Some(Tile::new(false, false, TileKind::GlassHull)));
    assert_eq!(
        blueprints.get_tile("breathable_atmosphere"),
        Some(Tile::new(true, false, TileKind::BreathableAtmosphere))
    );
    assert_eq!(blueprints.get_tile("vacuume"), Some(Tile::new(true, false, TileKind::Vacuum)));
    assert_eq!(blueprints.get_tile("lava"), None);
    assert_eq!(Tile::new_empty_stp(), Tile::new(true, false, TileKind::EmptySpace));
    assert_eq!(Tile::new_vacuume(), Tile::new(true, false, TileKind::EmptyVacuum));
}

#[test]
fn tiles_are_named_by_their_blueprint() {
    let mut blueprints = TileBlueprints::new();
    blueprints.initalise();
    assert_eq!(blueprints.get_tile("hull").unwrap().name(), "Hull section");
    assert_eq!(blueprints.get_tile("glass_hull").unwrap().name(), "Glass hull section");
    assert_eq!(blueprints.get_tile("breathable_atmosphere").unwrap().name(), "Empty space");
    assert_eq!(blueprints.get_tile("vacuume").unwrap().name(), "Vacuume");
    assert_eq!(Tile::new_empty_stp().name(), "Empty space");
    assert_eq!(Tile::new_vacuume().name(), "Vacuume");
}

#[test]
fn the_mouse_is_placed_on_the_map_around_the_view() {
    assert_eq!(mouse_to_map((100, 37), v(0, 0, 0)), v(0, 0, 0));
    assert_eq!(mouse_to_map((0, 0), v(10, 20, 3)), v(-90, -17, 3));
}

#[test]
fn accessible_neighbours_leave_out_walls() {
    let mut map: TileMap = PositionMap::new();
    assert_eq!(
        get_accessible_neighbours(&map, v(0, 0, 0)),
        vec![v(-1, 0, 0), v(0, 1, 0), v(1, 0, 0), v(0, -1, 0)]
    );
    map.insert(v(1, 0, 0), wall());
    map.insert(v(0, 1, 0), air());
    assert_eq!(get_accessible_neighbours(&map, v(0, 0, 0)), vec![v(-1, 0, 0), v(0, 1, 0), v(0, -1, 0)]);
    assert_eq!(
        get_accessible_neighbours_with_width(&map, v(0, 0, 0), 2),
        vec![v(-1, 0, 0), v(0, 1, 0), v(0, -1, 0)]
    );
    assert_eq!(get_accessible_neighbours_with_width(&map, v(0, 0, 0), 4), vec![v(-1, 0, 0)]);
}

#[test]
fn walkable_paths_go_round_walls() {
    let mut map: TileMap = PositionMap::new();
    for y in -1..=1 {
        map.insert(v(1, y, 0), wall());
    }
    let path = find_walkable_path(&map, v(0, 0, 0), v(2, 0, 0));
    assert_eq!(path.first(), Some(&v(0, 0, 0)));
    assert_eq!(path.last(), Some(&v(2, 0, 0)));
    assert!(path.len() >= 7);
    for pair in path.windows(2) {
        let d = pair[1].sub(pair[0]);
        assert_eq!(d.x.abs() + d.y.abs() + d.z.abs(), 1);
        assert_ne!(map.get(pair[1]), Some(wall()));
    }
    assert_eq!(find_walkable_path(&map, v(3, 3, 0), v(3, 3, 0)), vec![v(3, 3, 0)]);
}

#[test]
fn walkable_paths_take_no_detour() {
    let open: TileMap = PositionMap::new();
    let straight = find_walkable_path(&open, v(0, 0, 0), v(5, 0, 0));
    assert_eq!(straight.len(), 6);
    let mut map: TileMap = PositionMap::new();
    for y in -1..=1 {
        map.insert(v(1, y, 0), wall());
    }
    let around = find_walkable_path(&map, v(0, 0, 0), v(2, 0, 0));
    assert_eq!(around.len(), 7);
    assert_eq!(around.last(), Some(&v(2, 0, 0)));
}

#[test]
fn paths_with_width_keep_clear_of_walls() {
    let map: TileMap = PositionMap::new();
    let path = find_path_with_width(&map, v(0, 0, 0), v(0, 3, 0), 2);
    assert_eq!(path, vec![v(0, 0, 0), v(0, 1, 0), v(0, 2, 0), v(0, 3, 0)]);
}

#[test]
fn wide_paths_go_round_a_narrow_gap() {
    let mut map: TileMap = PositionMap::new();
    for y in -5..=5 {
        if y != 0 {
            map.insert(v(0, y, 0), wall());
        }
    }
    let path = find_path_with_width(&map, v(-3, 0, 0), v(3, 0, 0), 4);
    assert_eq!(path.first(), Some(&v(-3, 0, 0)));
    assert_eq!(path.last(), Some(&v(3, 0, 0)));
    assert_eq!(path.len(), 21);
    assert!(!path.contains(&v(0, 0, 0)));
    let narrow = find_path_with_width(&map, v(-3, 0, 0), v(3, 0, 0), 1);
    assert_eq!(narrow.len(), 7);
}

#[test]
fn wall_climbs_run_up_beside_a_wall() {
    let mut map: TileMap = PositionMap::new();
    map.insert(v(0, 0, 0), air());
    map.insert(v(1, 0, 0), wall());
    let path = wall_climb_path(&map, v(0, 0, 0), v(0, 0, 2), false);
    assert_eq!(path, vec![v(0, 0, 0), v(0, 0, 0), v(0, 0, 1), v(0, 0, 2)]);
    let open: TileMap = PositionMap::new();
    assert!(wall_climb_path(&open, v(0, 0, 0), v(0, 0, 2), false).is_empty());
}

#[test]
fn interior_positions() {
    assert!(is_interior(v(0, 0, 0)));
    assert!(is_interior(v(0x7700_0000, -0x7700_0000, 0)));
    assert!(!is_interior(v(0x7700_0001, 0, 0)));
}

#[test]
fn entries_list_every_filed_position_once() {
    let mut map: PositionMap<u32> = PositionMap::new();
    assert!(map.entries().is_empty());
    map.insert(v(1, 0, 0), 1);
    map.insert(v(0, 1, 0), 2);
    map.insert(v(1, 0, 0), 3);
    let mut entries = map.entries();
    entries.sort_by_key(|(p, _)| (p.x, p.y, p.z));
    assert_eq!(entries, vec![(v(0, 1, 0), 2), (v(1, 0, 0), 3)]);
}

#[test]
fn gas_spreads_only_into_passable_tiles() {
    let mut map: TileMap = PositionMap::new();
    map.insert(v(0, -1, 0), air());
    map.insert(v(1, 1, 0), air());
    map.insert(v(-1, 0, 0), wall());
    assert_eq!(
        weirdark::systems::atmosphere_system::get_accessible_neighbours(&map, v(0, 0, 0)),
        vec![v(1, 1, 0), v(0, -1, 0)]
    );
}

#[test]
fn wall_climbs_find_a_wall_down_a_corridor() {
    let mut map: TileMap = PositionMap::new();
    for x in 0..6 {
        map.insert(v(x, 0, 0), air());
    }
    map.insert(v(6, 0, 0), wall());
    assert_eq!(map.len(), 7);
    let path = wall_climb_path(&map, v(0, 0, 0), v(5, 0, 2), false);
    assert!(!path.is_empty());
    assert_eq!(path[0], v(0, 0, 0));
    assert!(path.contains(&v(5, 0, 0)));
    assert_eq!(*path.last().unwrap(), v(5, 0, 2));
}
