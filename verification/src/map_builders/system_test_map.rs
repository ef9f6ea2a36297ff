use vstd::prelude::*;

use crate::map::{Tile, TileKind, TileMap};
use crate::vectors::Vector3i;

verus! {

/// The hull of the system test map.
pub open spec fn test_hull() -> Tile {
    Tile { passable: false, opaque: true, kind: TileKind::Hull }
}

/// The open space of the system test map.
pub open spec fn test_open() -> Tile {
    Tile { passable: true, opaque: false, kind: TileKind::OpenSpace }
}

/// The glass windows of the system test map.
pub open spec fn test_glass() -> Tile {
    Tile { passable: false, opaque: false, kind: TileKind::GlassWindow }
}

/// The tile of the two rooms and the corridor between them at the offset `(x, y, z)`
/// from the start, windows aside. Each room is 23 cells square around its centre, the
/// first at the start and the second 43 cells east of it: a hull floor on level 0, open
/// space on levels 1 and 2, and hull walls on its border from level 0 up to level 3.
/// The corridor, five cells wide, runs along `y == 0` between the rooms' facing walls:
/// a hull floor, open space on levels 1 and 2, and glass along both its sides from level
/// 0 to 3. Where it meets each room's wall the wall is hull up to level 4 but for a
/// doorway of open space on level 1 at `y == 0`, where it stops at level 3.
pub open spec fn system_test_base(x: int, y: int, z: int) -> Option<Tile> {
    if 11 < x < 32 && -2 <= y <= 2 {
        if y == -2 || y == 2 {
            if 0 <= z <= 3 {
                Some(test_glass())
            } else {
                None
            }
        } else if z == 0 {
            Some(test_hull())
        } else if 1 <= z <= 2 {
            Some(test_open())
        } else {
            None
        }
    } else if (x == 11 || x == 32) && -2 <= y <= 2 {
        if y == 0 && z == 1 {
            Some(test_open())
        } else if 0 <= z <= 3 || (y != 0 && z == 4) {
            Some(test_hull())
        } else {
            None
        }
    } else if (-11 <= x <= 11 || 32 <= x <= 54) && -11 <= y <= 11 {
        let rx = if x <= 11 {
            x
        } else {
            x - 43
        };
        if rx == -11 || rx == 11 || y == -11 || y == 11 {
            if 0 <= z <= 3 {
                Some(test_hull())
            } else {
                None
            }
        } else if z == 0 {
            Some(test_hull())
        } else if 1 <= z <= 2 {
            Some(test_open())
        } else {
            None
        }
    } else {
        None
    }
}

/// A window of the system test map lies at `p`: on level 1 of the walls at offsets 11
/// and 32 east of the start, in the rows four to six cells either side of twice
/// `start.y` (the rows are counted from `start.y` once more than the rooms are).
pub open spec fn system_test_window(start: Vector3i, p: Vector3i) -> bool {
    &&& p.x - start.x == 11 || p.x - start.x == 32
    &&& p.z - start.z == 1
    &&& (start.y - 6 <= p.y - start.y <= start.y - 4 || start.y + 4 <= p.y - start.y <= start.y + 6)
}

/// The tile the system test map built from `start` holds at `p`.
pub open spec fn system_test_tile(start: Vector3i, p: Vector3i) -> Option<Tile> {
    if system_test_window(start, p) {
        Some(test_glass())
    } else {
        system_test_base(p.x - start.x, p.y - start.y, p.z - start.z)
    }
}

/// What `p` holds once the tile `t`, if there is one, is laid over the map `old`.
pub open spec fn laid_over(old: Map<Vector3i, Tile>, t: Option<Tile>, p: Vector3i) -> Option<Tile> {
    match t {
        Some(tile) => Some(tile),
        None => if old.contains_key(p) {
            Some(old[p])
        } else {
            None
        },
    }
}

/// The building of the system test map fits the `i32` range from `start`.
pub open spec fn system_test_fits(start: Vector3i) -> bool {
    &&& i32::MIN <= start.x - 11
    &&& start.x + 54 <= i32::MAX
    &&& i32::MIN <= 2 * start.y - 6
    &&& 2 * start.y + 6 <= i32::MAX
    &&& i32::MIN <= start.y - 11
    &&& start.y + 11 <= i32::MAX
    &&& start.z + 4 <= i32::MAX
}

/// The offsets `(a, b, c)` come before `(x, y, z)` in the order the box is laid.
pub open spec fn laid_before(a: int, b: int, c: int, x: int, y: int, z: int) -> bool {
    a < x || (a == x && (b < y || (b == y && c < z)))
}

/// Only offsets in the box from `(-11, -11, 0)` to `(54, 11, 4)` hold a tile.
proof fn lemma_base_in_box(x: int, y: int, z: int)
    ensures
        system_test_base(x, y, z) is Some ==> -11 <= x <= 54 && -11 <= y <= 11 && 0 <= z <= 4,
{
}

/// The tile at the offset `(x, y, z)`, windows aside.
fn base_tile(x: i32, y: i32, z: i32) -> (t: Option<Tile>)
    ensures
        t == system_test_base(x as int, y as int, z as int),
{
    let hull = Tile::new(false, true, TileKind::Hull);
    let open = Tile::new(true, false, TileKind::OpenSpace);
    let glass = Tile::new(false, false, TileKind::GlassWindow);
    if 11 < x && x < 32 && -2 <= y && y <= 2 {
        if y == -2 || y == 2 {
            if 0 <= z && z <= 3 {
                Some(glass)
            } else {
                None
            }
        } else if z == 0 {
            Some(hull)
        } else if 1 <= z && z <= 2 {
            Some(open)
        } else {
            None
        }
    } else if (x == 11 || x == 32) && -2 <= y && y <= 2 {
        if y == 0 && z == 1 {
            Some(open)
        } else if (0 <= z && z <= 3) || (y != 0 && z == 4) {
            Some(hull)
        } else {
            None
        }
    } else if ((-11 <= x && x <= 11) || (32 <= x && x <= 54)) && -11 <= y && y <= 11 {
        let rx = if x <= 11 {
            x
        } else {
            x - 43
        };
        if rx == -11 || rx == 11 || y == -11 || y == 11 {
            if 0 <= z && z <= 3 {
                Some(hull)
            } else {
                None
            }
        } else if z == 0 {
            Some(hull)
        } else if 1 <= z && z <= 2 {
            Some(open)
        } else {
            None
        }
    } else {
        None
    }
}

/// Builds the map for trying out the ship's systems: two rooms joined by a corridor.
pub struct SystemTestMapBuilder {
    pub map: TileMap,
    pub start_position: Vector3i,
}

impl SystemTestMapBuilder {
    /// A builder with an empty map, to build from `start_position`.
    pub fn new(start_position: Vector3i) -> (b: SystemTestMapBuilder)
        ensures
            b.map@ == Map::<Vector3i, Tile>::empty(),
            b.start_position == start_position,
    {
        SystemTestMapBuilder { map: TileMap::new(), start_position }
    }

    /// Lays the two rooms, the corridor and the windows over the map: every position
    /// where `system_test_tile` gives a tile holds it, and every other keeps what it held.
    pub fn rooms_and_corridor(&mut self)
        requires
            system_test_fits(old(self).start_position),
        ensures
            final(self).start_position == old(self).start_position,
            forall|p: Vector3i|
                #[trigger] final(self).map@.contains_key(p) == (old(self).map@.contains_key(p)
                    || system_test_tile(old(self).start_position, p) is Some),
            forall|p: Vector3i|
                #[trigger] final(self).map@.contains_key(p) ==> Some(final(self).map@[p]) == laid_over(
                    old(self).map@,
                    system_test_tile(old(self).start_position, p),
                    p,
                ),
    {
        let s = self.start_position;
        let ghost old_map = self.map@;
        let mut x: i32 = -11;
        while x < 55
            invariant
                self.start_position == s,
                system_test_fits(s),
                -11 <= x <= 55,
                forall|p: Vector3i|
                    #[trigger] self.map@.contains_key(p) == (old_map.contains_key(p) || (laid_before(
                        p.x - s.x,
                        p.y - s.y,
                        p.z - s.z,
                        x as int,
                        -11,
                        0,
                    ) && system_test_base(p.x - s.x, p.y - s.y, p.z - s.z) is Some)),
                forall|p: Vector3i|
                    #[trigger] self.map@.contains_key(p) ==> Some(self.map@[p]) == laid_over(
                        old_map,
                        if laid_before(p.x - s.x, p.y - s.y, p.z - s.z, x as int, -11, 0) {
                            system_test_base(p.x - s.x, p.y - s.y, p.z - s.z)
                        } else {
                            None
                        },
                        p,
                    ),
            decreases 55 - x,
        {
            let mut y: i32 = -11;
            while y < 12
                invariant
                    self.start_position == s,
                    system_test_fits(s),
                    -11 <= x < 55,
                    -11 <= y <= 12,
                    forall|p: Vector3i|
                        #[trigger] self.map@.contains_key(p) == (old_map.contains_key(p) || (laid_before(
                            p.x - s.x,
                            p.y - s.y,
                            p.z - s.z,
                            x as int,
                            y as int,
                            0,
                        ) && system_test_base(p.x - s.x, p.y - s.y, p.z - s.z) is Some)),
                    forall|p: Vector3i|
                        #[trigger] self.map@.contains_key(p) ==> Some(self.map@[p]) == laid_over(
                            old_map,
                            if laid_before(p.x - s.x, p.y - s.y, p.z - s.z, x as int, y as int, 0) {
                                system_test_base(p.x - s.x, p.y - s.y, p.z - s.z)
                            } else {
                                None
                            },
                            p,
                        ),
                decreases 12 - y,
            {
                let mut z: i32 = 0;
                while z < 5
                    invariant
                        self.start_position == s,
                        system_test_fits(s),
                        -11 <= x < 55,
                        -11 <= y < 12,
                        0 <= z <= 5,
                        forall|p: Vector3i|
                            #[trigger] self.map@.contains_key(p) == (old_map.contains_key(p) || (laid_before(
                                p.x - s.x,
                                p.y - s.y,
                                p.z - s.z,
                                x as int,
                                y as int,
                                z as int,
                            ) && system_test_base(p.x - s.x, p.y - s.y, p.z - s.z) is Some)),
                        forall|p: Vector3i|
                            #[trigger] self.map@.contains_key(p) ==> Some(self.map@[p]) == laid_over(
                                old_map,
                                if laid_before(p.x - s.x, p.y - s.y, p.z - s.z, x as int, y as int, z as int) {
                                    system_test_base(p.x - s.x, p.y - s.y, p.z - s.z)
                                } else {
                                    None
                                },
                                p,
                            ),
                    decreases 5 - z,
                {
                    let position = Vector3i::new(s.x + x, s.y + y, s.z + z);
                    match base_tile(x, y, z) {
                        Some(t) => self.map.insert(position, t),
                        None => {},
                    }
                    z = z + 1;
                }
                proof {
                    assert forall|p: Vector3i|
                        system_test_base(p.x - s.x, p.y - s.y, p.z - s.z) is Some implies (laid_before(
                            p.x - s.x,
                            p.y - s.y,
                            p.z - s.z,
                            x as int,
                            y as int,
                            5,
                        ) == laid_before(p.x - s.x, p.y - s.y, p.z - s.z, x as int, y + 1, 0)) by {
                        lemma_base_in_box(p.x - s.x, p.y - s.y, p.z - s.z);
                    }
                }
                y = y + 1;
            }
            proof {
                assert forall|p: Vector3i|
                    system_test_base(p.x - s.x, p.y - s.y, p.z - s.z) is Some implies (laid_before(
                        p.x - s.x,
                        p.y - s.y,
                        p.z - s.z,
                        x as int,
                        12,
                        0,
                    ) == laid_before(p.x - s.x, p.y - s.y, p.z - s.z, x + 1, -11, 0)) by {
                    lemma_base_in_box(p.x - s.x, p.y - s.y, p.z - s.z);
                }
            }
            x = x + 1;
        }
        proof {
            assert forall|p: Vector3i|
                system_test_base(p.x - s.x, p.y - s.y, p.z - s.z) is Some implies laid_before(
                    p.x - s.x,
                    p.y - s.y,
                    p.z - s.z,
                    55,
                    -11,
                    0,
                ) by {
                lemma_base_in_box(p.x - s.x, p.y - s.y, p.z - s.z);
            }
        }
        let ghost rooms = self.map@;
        let glass = Tile::new(false, false, TileKind::GlassWindow);
        let mut y: i32 = s.y - 6;
        while y < s.y + 7
            invariant
                self.start_position == s,
                system_test_fits(s),
                s.y - 6 <= y <= s.y + 7,
                glass == test_glass(),
                forall|p: Vector3i|
                    #[trigger] self.map@.contains_key(p) == (rooms.contains_key(p) || (system_test_window(s, p)
                        && p.y - s.y < y)),
                forall|p: Vector3i|
                    #[trigger] self.map@.contains_key(p) ==> self.map@[p] == (if system_test_window(s, p)
                        && p.y - s.y < y {
                        glass
                    } else {
                        rooms[p]
                    }),
            decreases s.y + 7 - y,
        {
            if y <= s.y - 4 || s.y + 4 <= y {
                self.map.insert(Vector3i::new(s.x + 11, s.y + y, s.z + 1), glass);
                self.map.insert(Vector3i::new(s.x + 32, s.y + y, s.z + 1), glass);
            }
            y = y + 1;
        }
        proof {
            let fin = self.map@;
            assert forall|p: Vector3i| #[trigger] fin.contains_key(p) == (old_map.contains_key(p)
                || system_test_tile(s, p) is Some) by {
                if system_test_window(s, p) {
                    assert(p.y - s.y < y);
                }
            }
            assert forall|p: Vector3i| #[trigger] fin.contains_key(p) implies Some(fin[p]) == laid_over(
                old_map,
                system_test_tile(s, p),
                p,
            ) by {
                if system_test_window(s, p) {
                    assert(p.y - s.y < y);
                } else {
                    assert(rooms.contains_key(p));
                }
            }
        }
    }
}

} // verus!
