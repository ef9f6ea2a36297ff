use vstd::prelude::*;

use crate::map::{Tile, TileKind, TileMap};
use crate::vectors::Vector3i;

verus! {

/// The tile of the plain's walled test room at `(x, y)` on level 1, if it has one
/// there: green walls along its west and east sides but for a window in each,
/// along its north and south sides but for a doorway gap and a three-cell window.
pub open spec fn test_room_tile(x: int, y: int) -> Option<Tile> {
    let green = Tile { passable: false, opaque: true, kind: TileKind::GreenWall };
    let glass = Tile { passable: false, opaque: false, kind: TileKind::GlassWall };
    if !(-13 <= x < 0 && 0 <= y < 13) {
        None
    } else if (x == -13 || x == -1) && !(x == -13 && y == 6) && !(x == -1 && y == 6) {
        Some(green)
    } else if (y == 0 || y == 12) && !(x == -7 && y == 0) && !(x == -6 || x == -7 || x == -8) {
        Some(green)
    } else if (x == -13 && y == 6) || (x == -1 && y == 6) || (x == -6 && y == 12) || (x == -7 && y
        == 12) || (x == -8 && y == 12) {
        Some(glass)
    } else {
        None
    }
}

/// The tile the test plain of half size `size` holds at `p`: a white floor on level
/// 0 and empty space on the three levels below and above it, over the box from
/// `-size` up to `size`; the test room on level 1; an orange pillar at every fifth
/// cell along `x == 13` on level 1.
pub open spec fn plain_tile(size: Vector3i, p: Vector3i) -> Option<Tile> {
    if p.z == 1 && p.x == 13 && -size.y <= p.y < size.y && p.y % 5 == 0 {
        Some(Tile { passable: false, opaque: true, kind: TileKind::OrangePillar })
    } else if p.z == 1 && test_room_tile(p.x as int, p.y as int) is Some {
        test_room_tile(p.x as int, p.y as int)
    } else if -size.x <= p.x < size.x && -size.y <= p.y < size.y && -3 <= p.z < 4 {
        if p.z == 0 {
            Some(Tile { passable: false, opaque: true, kind: TileKind::WhiteWall })
        } else {
            Some(Tile { passable: true, opaque: false, kind: TileKind::EmptySpace })
        }
    } else {
        None
    }
}

/// The map `plain_tile` describes, with the floor laid up to row `(x, y)` of the box.
pub open spec fn floor_done(size: Vector3i, x: int, y: int, p: Vector3i) -> bool {
    &&& -size.x <= p.x < size.x
    &&& -size.y <= p.y < size.y
    &&& -3 <= p.z < 4
    &&& (p.x < x || (p.x == x && p.y < y))
}

/// Builds a flat test map.
pub struct EmptyPlainMapBuilder {}

impl EmptyPlainMapBuilder {
    /// The test plain of half size `map_size`: a white floor with empty space above
    /// and below, a walled room with windows on it, and a row of orange pillars.
    pub fn build(map_size: Vector3i) -> (map: TileMap)
        requires
            map_size.x > i32::MIN,
            map_size.y > i32::MIN,
        ensures
            forall|p: Vector3i| #[trigger] map@.contains_key(p) == plain_tile(map_size, p) is Some,
            forall|p: Vector3i| map@.contains_key(p) ==> map@[p] == plain_tile(map_size, p)->0,
    {
        let mut map = TileMap::new();
        let wall = Tile::new(false, true, TileKind::WhiteWall);
        let space = Tile::new(true, false, TileKind::EmptySpace);
        let mut x: i32 = -map_size.x;
        while x < map_size.x
            invariant
                map_size.x > i32::MIN,
                map_size.y > i32::MIN,
                -map_size.x <= x,
                x <= map_size.x || map_size.x < -map_size.x,
                wall == (Tile { passable: false, opaque: true, kind: TileKind::WhiteWall }),
                space == (Tile { passable: true, opaque: false, kind: TileKind::EmptySpace }),
                forall|p: Vector3i| #[trigger] map@.contains_key(p) == floor_done(map_size, x as int, -map_size.y as int, p),
                forall|p: Vector3i|
                    map@.contains_key(p) ==> map@[p] == (if p.z == 0 {
                        wall
                    } else {
                        space
                    }),
            decreases map_size.x - x,
        {
            let mut y: i32 = -map_size.y;
            while y < map_size.y
                invariant
                    map_size.x > i32::MIN,
                    map_size.y > i32::MIN,
                    -map_size.x <= x < map_size.x,
                    -map_size.y <= y,
                    y <= map_size.y || map_size.y < -map_size.y,
                    wall == (Tile { passable: false, opaque: true, kind: TileKind::WhiteWall }),
                    space == (Tile { passable: true, opaque: false, kind: TileKind::EmptySpace }),
                    forall|p: Vector3i| #[trigger] map@.contains_key(p) == floor_done(map_size, x as int, y as int, p),
                    forall|p: Vector3i|
                        map@.contains_key(p) ==> map@[p] == (if p.z == 0 {
                            wall
                        } else {
                            space
                        }),
                decreases map_size.y - y,
            {
                let mut z: i32 = -3;
                while z < 4
                    invariant
                        map_size.x > i32::MIN,
                        map_size.y > i32::MIN,
                        -map_size.x <= x < map_size.x,
                        -map_size.y <= y < map_size.y,
                        -3 <= z <= 4,
                        wall == (Tile { passable: false, opaque: true, kind: TileKind::WhiteWall }),
                        space == (Tile { passable: true, opaque: false, kind: TileKind::EmptySpace }),
                        forall|p: Vector3i|
                            #[trigger] map@.contains_key(p) == (floor_done(map_size, x as int, y as int, p) || (
                            p.x == x && p.y == y && -3 <= p.z < z)),
                        forall|p: Vector3i|
                            map@.contains_key(p) ==> map@[p] == (if p.z == 0 {
                                wall
                            } else {
                                space
                            }),
                    decreases 4 - z,
                {
                    let position = Vector3i::new(x, y, z);
                    if z == 0 {
                        map.insert(position, wall);
                    } else {
                        map.insert(position, space);
                    }
                    z = z + 1;
                }
                proof {
                    assert forall|p: Vector3i| #[trigger] map@.contains_key(p) == floor_done(map_size, x as int, y + 1, p) by {}
                }
                y = y + 1;
            }
            proof {
                assert forall|p: Vector3i| #[trigger] map@.contains_key(p) == floor_done(map_size, x + 1, -map_size.y as int, p) by {}
            }
            x = x + 1;
        }
        let ghost floor = map@;
        assert forall|p: Vector3i| #[trigger] floor.contains_key(p) == (-map_size.x <= p.x < map_size.x
            && -map_size.y <= p.y < map_size.y && -3 <= p.z < 4) by {
            assert(floor_done(map_size, x as int, -map_size.y as int, p) == (-map_size.x <= p.x
                < map_size.x && -map_size.y <= p.y < map_size.y && -3 <= p.z < 4));
        }
        let green = Tile::new(false, true, TileKind::GreenWall);
        let glass = Tile::new(false, false, TileKind::GlassWall);
        let mut x: i32 = -13;
        while x < 0
            invariant
                -13 <= x <= 0,
                green == (Tile { passable: false, opaque: true, kind: TileKind::GreenWall }),
                glass == (Tile { passable: false, opaque: false, kind: TileKind::GlassWall }),
                forall|p: Vector3i|
                    #[trigger] map@.contains_key(p) == (floor.contains_key(p) || (p.z == 1 && p.x < x
                        && test_room_tile(p.x as int, p.y as int) is Some)),
                forall|p: Vector3i|
                    map@.contains_key(p) ==> map@[p] == (if p.z == 1 && p.x < x && test_room_tile(
                        p.x as int,
                        p.y as int,
                    ) is Some {
                        test_room_tile(p.x as int, p.y as int)->0
                    } else {
                        floor[p]
                    }),
            decreases 0 - x,
        {
            let mut y: i32 = 0;
            while y < 13
                invariant
                    -13 <= x < 0,
                    0 <= y <= 13,
                    green == (Tile { passable: false, opaque: true, kind: TileKind::GreenWall }),
                    glass == (Tile { passable: false, opaque: false, kind: TileKind::GlassWall }),
                    forall|p: Vector3i|
                        #[trigger] map@.contains_key(p) == (floor.contains_key(p) || (p.z == 1 && (p.x < x
                            || (p.x == x && p.y < y)) && test_room_tile(p.x as int, p.y as int) is Some)),
                    forall|p: Vector3i|
                        map@.contains_key(p) ==> map@[p] == (if p.z == 1 && (p.x < x || (p.x == x && p.y
                            < y)) && test_room_tile(p.x as int, p.y as int) is Some {
                            test_room_tile(p.x as int, p.y as int)->0
                        } else {
                            floor[p]
                        }),
                decreases 13 - y,
            {
                let z: i32 = 1;
                let position = Vector3i::new(x, y, z);
                if (x == -13 || x == -1) && !(x == -13 && y == 6) && !(x == -1 && y == 6) {
                    map.remove(position);
                    map.insert(position, green);
                } else if (y == 0 || y == 12) && !(x == -7 && y == 0) && !(x == -6 || x == -7 || x == -8) {
                    map.remove(position);
                    map.insert(position, green);
                } else if (x == -13 && y == 6) || (x == -1 && y == 6) || (x == -6 && y == 12) || (x == -7
                    && y == 12) || (x == -8 && y == 12) {
                    map.remove(position);
                    map.insert(position, glass);
                }
                y = y + 1;
            }
            x = x + 1;
        }
        let ghost with_room = map@;
        let pillar = Tile::new(false, true, TileKind::OrangePillar);
        let mut y: i32 = -map_size.y;
        while y < map_size.y
            invariant
                map_size.y > i32::MIN,
                -map_size.y <= y,
                y <= map_size.y || y == -map_size.y,
                pillar == (Tile { passable: false, opaque: true, kind: TileKind::OrangePillar }),
                forall|p: Vector3i|
                    #[trigger] map@.contains_key(p) == (with_room.contains_key(p) || (p.z == 1 && p.x == 13
                        && -map_size.y <= p.y < y && p.y % 5 == 0)),
                forall|p: Vector3i|
                    map@.contains_key(p) ==> map@[p] == (if p.z == 1 && p.x == 13 && -map_size.y <= p.y < y
                        && p.y % 5 == 0 {
                        pillar
                    } else {
                        with_room[p]
                    }),
            decreases map_size.y - y,
        {
            if y % 5 == 0 {
                let position = Vector3i::new(13, y, 1);
                map.remove(position);
                map.insert(position, pillar);
            }
            y = y + 1;
        }
        proof {
            assert forall|p: Vector3i| #[trigger] map@.contains_key(p) == plain_tile(map_size, p) is Some by {
                if p.z == 1 && p.x == 13 && -map_size.y <= p.y < map_size.y && p.y % 5 == 0 {
                    assert(p.y < y);
                }
                if p.z == 1 && test_room_tile(p.x as int, p.y as int) is Some {
                    assert(p.x < 0);
                    assert(with_room.contains_key(p));
                }
                if -map_size.x <= p.x < map_size.x && -map_size.y <= p.y < map_size.y && -3 <= p.z < 4 {
                    assert(floor.contains_key(p));
                    assert(with_room.contains_key(p));
                }
                if map@.contains_key(p) {
                    if with_room.contains_key(p) {
                        if floor.contains_key(p) {
                            assert(plain_tile(map_size, p) is Some);
                        } else {
                            assert(p.z == 1 && test_room_tile(p.x as int, p.y as int) is Some);
                            assert(plain_tile(map_size, p) is Some);
                        }
                    } else {
                        assert(p.z == 1 && p.x == 13 && -map_size.y <= p.y < y && p.y % 5 == 0);
                        assert(p.y < map_size.y);
                        assert(plain_tile(map_size, p) is Some);
                    }
                }
                if plain_tile(map_size, p) is Some {
                    assert(map@.contains_key(p));
                }
            }
            assert forall|p: Vector3i| map@.contains_key(p) implies #[trigger] map@[p] == plain_tile(map_size, p)->0 by {
                if p.z == 1 && p.x == 13 && -map_size.y <= p.y < map_size.y && p.y % 5 == 0 {
                    assert(p.y < y);
                }
            }
        }
        map
    }
}

} // verus!
