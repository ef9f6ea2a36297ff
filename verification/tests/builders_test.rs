use rltk::RandomNumberGenerator;
use weirdark::ducting::DuctSection;
use weirdark::map::tile_blueprints::TileBlueprints;
use weirdark::map::{Tile, TileKind};
use weirdark::map_builders::common::{AreaType, Corridor, Room, ShipArea};
use weirdark::map_builders::empty_plain::EmptyPlainMapBuilder;
use weirdark::map_builders::ship_layout::{file_by_keys, file_under_key, sort_positions};
use weirdark::map_builders::ship_population::{get_wall_adjacent_position, Spawn};
use weirdark::map_builders::small_cargo_ship::SmallCargoShipMapBuilder;
use weirdark::map_builders::system_test_map::SystemTestMapBuilder;
use weirdark::vectors::Vector3i;
use weirdark::wiring::WireSection;

fn v(x: i32, y: i32, z: i32) -> Vector3i {
    Vector3i::new(x, y, z)
}

fn registered() -> TileBlueprints {
    let mut b = TileBlueprints::new();
    b.initalise();
    b
}

fn hull() -> Tile {
    Tile::new(false, true, TileKind::Hull)
}

fn air() -> Tile {
    Tile::new(true, false, TileKind::BreathableAtmosphere)
}

#[test]
fn the_test_plain_has_floor_room_and_pillars() {
    let map = EmptyPlainMapBuilder::build(v(20, 20, 0));
    assert_eq!(map.get(v(0, 0, 0)), Some(Tile::new(false, true, TileKind::WhiteWall)));
    assert_eq!(map.get(v(0, 0, 1)), Some(Tile::new(true, false, TileKind::EmptySpace)));
    assert_eq!(map.get(v(-20, -20, -3)), Some(Tile::new(true, false, TileKind::EmptySpace)));
    assert_eq!(map.get(v(13, 5, 1)), Some(Tile::new(false, true, TileKind::OrangePillar)));
    assert_eq!(map.get(v(13, 6, 1)), Some(Tile::new(true, false, TileKind::EmptySpace)));
    assert_eq!(map.get(v(-13, 3, 1)), Some(Tile::new(false, true, TileKind::GreenWall)));
    assert_eq!(map.get(v(-13, 6, 1)), Some(Tile::new(false, false, TileKind::GlassWall)));
    assert_eq!(map.get(v(-7, 12, 1)), Some(Tile::new(false, false, TileKind::GlassWall)));
    assert_eq!(map.get(v(-7, 0, 1)), Some(Tile::new(true, false, TileKind::EmptySpace)));
    assert_eq!(map.get(v(0, 0, 4)), None);
    assert_eq!(map.get(v(20, 0, 0)), None);
}

#[test]
fn positions_sort_by_x_then_y_then_z() {
    let sorted = sort_positions(&vec![v(2, 0, 0), v(1, 5, 0), v(1, 2, 3), v(1, 2, 1), v(2, 0, 0)]);
    assert_eq!(sorted, vec![v(1, 2, 1), v(1, 2, 3), v(1, 5, 0), v(2, 0, 0), v(2, 0, 0)]);
    assert!(sort_positions(&vec![]).is_empty());
}

#[test]
fn nodes_are_filed_by_ascending_keys() {
    let entries = file_by_keys(&vec![v(1, 0, 0), v(2, 0, 0), v(3, 0, 0)], &vec![5, -1, 5]);
    assert_eq!(entries, vec![(-1, v(2, 0, 0)), (5, v(3, 0, 0))]);
    let mut filed = entries;
    file_under_key(&mut filed, 0, v(9, 9, 9));
    assert_eq!(filed, vec![(-1, v(2, 0, 0)), (0, v(9, 9, 9)), (5, v(3, 0, 0))]);
}

#[test]
fn rooms_grow_out_of_the_free_side() {
    let mut rng = RandomNumberGenerator::seeded(5);
    let mut builder = SmallCargoShipMapBuilder::new(v(0, 0, 0), registered());
    let mut room = Room::new(v(0, 0, 0), v(5, 5, 4), "room".to_string(), AreaType::GenericRoom, true, &mut rng);
    assert_eq!(room.breaker_position, Some(v(0, 0, 0)));
    assert!(builder.build_room(&mut room));
    assert_eq!(room.nodes, vec![v(-1, 0, 0)]);
    assert_eq!(room.centre, v(-3, 0, 0));
    assert_eq!(builder.map.get(v(-3, 0, 0)), Some(air()));
    assert_eq!(builder.map.get(v(-3, 0, -1)), Some(hull()));
    assert_eq!(builder.map.get(v(-3, 0, 2)), Some(hull()));
    assert_eq!(builder.map.get(v(-5, 0, 0)), Some(hull()));
    assert_eq!(builder.map.get(v(-1, 0, 0)), Some(air()));
    assert_eq!(builder.map.get(v(0, 0, 0)), Some(air()));
}

#[test]
fn corridors_are_walled_along_their_route() {
    let mut rng = RandomNumberGenerator::seeded(9);
    let mut builder = SmallCargoShipMapBuilder::new(v(0, 0, 0), registered());
    let mut corridor =
        Corridor::new(v(0, 0, 0), v(4, 0, 0), 3, "hall".to_string(), AreaType::Corridor, false, &mut rng);
    assert_eq!(corridor.size, v(3, 3, 3));
    builder.build_corridor(&mut corridor);
    assert_eq!(builder.map.get(v(2, 0, 0)), Some(air()));
    assert_eq!(builder.map.get(v(2, 0, 1)), Some(air()));
    assert_eq!(builder.map.get(v(2, 0, -1)), Some(hull()));
    assert_eq!(builder.map.get(v(2, 1, 0)), Some(hull()));
    assert!(corridor.nodes.contains(&v(2, 1, 0)));
    assert!(!corridor.nodes.contains(&v(2, 0, 0)));
}

#[test]
fn wall_adjacent_positions_lie_beside_a_wall() {
    let mut rng = RandomNumberGenerator::seeded(2);
    let room = Room::new(v(10, 10, 0), v(7, 9, 4), "r".to_string(), AreaType::GenericRoom, false, &mut rng);
    let area = ShipArea::Room(room);
    for _ in 0..20 {
        let p = get_wall_adjacent_position(&area, &mut rng).expect("a wide room has walls");
        let beside_x = p.x == 10 - 2 || p.x == 10 + 2;
        let beside_y = p.y == 10 - 3 || p.y == 10 + 3;
        assert!(beside_x || beside_y);
        assert!((8..=12).contains(&p.x) && (7..=13).contains(&p.y));
        assert_eq!(p.z, 0);
    }
    let narrow = Room::new(v(0, 0, 0), v(2, 9, 4), "n".to_string(), AreaType::GenericRoom, false, &mut rng);
    assert_eq!(get_wall_adjacent_position(&ShipArea::Room(narrow), &mut rng), None);
}

#[test]
fn areas_without_doorways_get_nothing() {
    let mut rng = RandomNumberGenerator::seeded(4);
    let room = Room::new(v(0, 0, 0), v(7, 9, 4), "r".to_string(), AreaType::GenericRoom, true, &mut rng);
    let mut area = ShipArea::Room(room);
    assert!(SmallCargoShipMapBuilder::populate_area(&mut area, &mut rng).is_empty());
}

#[test]
fn generator_rooms_get_a_generator_lamp_breaker_and_doors() {
    let mut rng = RandomNumberGenerator::seeded(4);
    let mut room =
        Room::new(v(0, 0, 0), v(7, 9, 4), "engineering".to_string(), AreaType::GeneratorRoom, true, &mut rng);
    room.nodes.push(v(4, 0, 0));
    let mut area = ShipArea::Room(room);
    let spawns = SmallCargoShipMapBuilder::populate_area(&mut area, &mut rng);
    assert!(matches!(spawns[0], Spawn::BreakerBox(_)));
    assert_eq!(spawns[1], Spawn::CeilingLamp(v(0, 0, 1), true));
    assert_eq!(spawns[2], Spawn::PowerSource(v(0, 0, 0)));
    assert_eq!(spawns[3], Spawn::Door(v(4, 0, 0)));
    let cabinets = spawns.len() - 4;
    assert!(cabinets <= 4);
    assert!(spawns[4..].iter().all(|s| matches!(s, Spawn::StorageCabinet(_))));
    match &area {
        ShipArea::Room(r) => {
            assert!(r.power_connections.contains(&v(0, 0, 1)));
            assert!(r.power_connections.contains(&v(0, 0, 0)));
            assert!(matches!(spawns[0], Spawn::BreakerBox(b) if Some(b) == r.breaker_position));
        }
        ShipArea::Corridor(_) => panic!("the area stays a room"),
    }
}

#[test]
fn the_small_cargo_ship_is_laid_out_and_fitted() {
    let mut rng = RandomNumberGenerator::seeded(1);
    let mut builder = SmallCargoShipMapBuilder::new(v(0, 0, 0), registered());
    builder.build_map(&mut rng);
    let areas = &builder.areas;
    assert!(areas.len() >= 3);
    assert_eq!((areas.len() - 3) % 2, 0);
    match &areas[0] {
        ShipArea::Corridor(c) => {
            assert_eq!(c.start, v(0, 0, 0));
            assert_eq!(c.end, v(40, 0, 0));
            assert_eq!(c.width, 7);
            assert_eq!(c.area_name, "Main corridor");
        }
        ShipArea::Room(_) => panic!("the main corridor comes first"),
    }
    assert_eq!(areas[1].kind(), AreaType::Cockpit);
    assert_eq!(areas[2].kind(), AreaType::GeneratorRoom);
    for pair in areas[3..].chunks(2) {
        assert_eq!(pair[0].kind(), AreaType::GenericRoom);
        assert_eq!(pair[1].kind(), AreaType::GenericRoom);
    }
    assert!(builder.areas_fittable());
    let generator = builder.areas[2].position();
    let mut ducts: Vec<DuctSection> = vec![];
    let mut wires: Vec<WireSection> = vec![];
    let spawns = builder.spawn_entities(&mut rng, &mut ducts, &mut wires);
    assert!(spawns.contains(&Spawn::PowerSource(generator)));
    assert!(!wires.is_empty());
    assert!(!ducts.is_empty());
}

/// The writes of the system test map in the order its layout lays them.
fn system_test_layout(s: (i32, i32, i32)) -> std::collections::HashMap<(i32, i32, i32), &'static str> {
    let (sx, sy, sz) = s;
    let (hull, open, glass) = ("Hull section", "Open space", "Glass window");
    let mut m = std::collections::HashMap::new();
    for x in sx - 11..sx + 11 + 1 {
        for y in sy - 11..sy + 11 + 1 {
            for z in sz..sz + 3 {
                let t = if z == sz { hull } else { open };
                m.insert((x, y, z), t);
                m.insert((x + 43, y, z), t);
                if x == sx - 11 || x == sx + 11 || y == sy - 11 || y == sy + 11 {
                    m.insert((x, y, z), hull);
                    m.insert((x + 43, y, z), hull);
                    m.insert((x, y, z + 1), hull);
                    m.insert((x + 43, y, z + 1), hull);
                }
            }
        }
    }
    for x in sx + 11..sx + 11 + 21 + 1 {
        for y in sy - 2..sy + 2 + 1 {
            for z in sz..sz + 3 {
                if (x > sx + 11 && x < sx + 32) && (y == sy - 2 || y == sy + 2) {
                    m.insert((x, y, z), glass);
                    m.insert((x, y, z + 1), glass);
                } else if z == sz {
                    m.insert((x, y, z), hull);
                } else if (x == sx + 11 || x == sx + 32) && y != sy {
                    m.insert((x, y, z + 1), hull);
                    m.insert((x, y, z + 2), hull);
                } else if (x == sx + 11 || x == sx + 32) && z == sz + 2 {
                    m.insert((x, y, z + 1), hull);
                } else {
                    m.insert((x, y, z), open);
                }
            }
        }
    }
    for y in (sy - 6..sy - 3).chain(sy + 4..sy + 7) {
        m.insert((sx + 11, sy + y, sz + 1), glass);
        m.insert((sx + 32, sy + y, sz + 1), glass);
    }
    m
}

#[test]
fn system_test_map_lays_rooms_corridor_and_windows() {
    for start in [(0, 0, 0), (5, -3, 2), (-40, 17, -1)] {
        let mut builder = SystemTestMapBuilder::new(v(start.0, start.1, start.2));
        builder.rooms_and_corridor();
        let expected = system_test_layout(start);
        let entries = builder.map.entries();
        assert_eq!(entries.len(), expected.len());
        for (p, tile) in entries {
            assert_eq!(expected.get(&(p.x, p.y, p.z)).copied(), Some(tile.name().as_str()));
        }
    }
    let mut builder = SystemTestMapBuilder::new(v(0, 0, 0));
    builder.rooms_and_corridor();
    assert_eq!(builder.map.get(v(11, 0, 1)), Some(Tile::new(true, false, TileKind::OpenSpace)));
    assert_eq!(builder.map.get(v(11, 5, 1)), Some(Tile::new(false, false, TileKind::GlassWindow)));
    assert_eq!(builder.map.get(v(20, 2, 3)), Some(Tile::new(false, false, TileKind::GlassWindow)));
    assert_eq!(builder.map.get(v(0, 0, 3)), None);
}
