use vstd::prelude::*;

use crate::map::tile_blueprints::TileBlueprints;
use crate::map::{Tile, TileMap};
use crate::map_builders::common::{Room, ShipArea};
use crate::vectors::utils::{cardinal_neighbours_spec, get_cardinal_neighbours};
use crate::vectors::{abs, Vector3i};

verus! {

/// The column above `n`, from `hz` below to `hz` above, holds no tile.
pub open spec fn column_free(m: Map<Vector3i, Tile>, n: Vector3i, hz: int) -> bool {
    forall|z: int| -hz <= z <= hz ==> !#[trigger] m.contains_key(Vector3i::of(n.x as int, n.y as int, n.z + z))
}

/// The side a room grows towards from `c`: the last cardinal neighbour, in the
/// order north, east, south, west, whose column is free.
pub open spec fn open_side(m: Map<Vector3i, Tile>, c: Vector3i, hz: int) -> Option<Vector3i> {
    let s = cardinal_neighbours_spec(c);
    if column_free(m, s[3], hz) {
        Some(s[3])
    } else if column_free(m, s[2], hz) {
        Some(s[2])
    } else if column_free(m, s[1], hz) {
        Some(s[1])
    } else if column_free(m, s[0], hz) {
        Some(s[0])
    } else {
        None
    }
}

/// Where a room entered from `c` through `open` is centred.
pub open spec fn grown_centre(c: Vector3i, open: Vector3i, hx: int, hy: int) -> Vector3i {
    c.plus(Vector3i::of(hx + 1, hy + 1, 0).times(open.minus(c).normalized()))
}

/// A room grows into a free column next to its starting point: the side chosen is one
/// step north, east, south or west of `c` with a free column; when no such side has a
/// free column there is none; and the west side is taken whenever its column is free.
pub proof fn lemma_open_side_is_free_and_adjacent(m: Map<Vector3i, Tile>, c: Vector3i, hz: int)
    requires
        crate::vectors::utils::steps_fit(c),
    ensures
        open_side(m, c, hz) matches Some(n) ==> crate::map::pathfinding::cardinally_adjacent(c, n)
            && column_free(m, n, hz),
        open_side(m, c, hz) is None <==> forall|q: Vector3i|
            crate::map::pathfinding::cardinally_adjacent(c, q) ==> !#[trigger] column_free(m, q, hz),
        column_free(m, Vector3i { x: (c.x - 1) as i32, ..c }, hz) ==> open_side(m, c, hz) == Some(
            Vector3i { x: (c.x - 1) as i32, ..c },
        ),
{
    let s = cardinal_neighbours_spec(c);
    assert forall|q: Vector3i| crate::map::pathfinding::cardinally_adjacent(c, q) implies q == s[0] || q == s[1]
        || q == s[2] || q == s[3] by {
        crate::map::pathfinding::lemma_four_neighbours(c, q);
        let i = choose|i: int| 0 <= i < s.len() && s[i] == q;
    }
    assert forall|i: int| 0 <= i < 4 implies crate::map::pathfinding::cardinally_adjacent(c, #[trigger] s[i]) by {
        crate::map::pathfinding::lemma_four_neighbours(c, s[i]);
        assert(s.contains(s[i]));
    }
    assert(s[3] == Vector3i { x: (c.x - 1) as i32, ..c });
}

/// A room grown from `c` through the free side `open` has `open` on the edge of its
/// floor plan that faces `c`, and leaves `c` outside its floor plan.
pub proof fn lemma_grown_room_meets_its_door(c: Vector3i, open: Vector3i, hx: int, hy: int)
    requires
        crate::map::pathfinding::cardinally_adjacent(c, open),
        0 <= hx <= 0x10_0000,
        0 <= hy <= 0x10_0000,
        -0x7400_0000 <= c.x <= 0x7400_0000,
        -0x7400_0000 <= c.y <= 0x7400_0000,
        -0x7400_0000 <= c.z <= 0x7400_0000,
    ensures
        ({
            let rc = grown_centre(c, open, hx, hy);
            &&& rc.x - hx <= open.x <= rc.x + hx && rc.y - hy <= open.y <= rc.y + hy
            &&& !(rc.x - hx <= c.x <= rc.x + hx && rc.y - hy <= c.y <= rc.y + hy)
            &&& rc.z == c.z
            &&& (open.x == rc.x - hx || open.x == rc.x + hx || open.y == rc.y - hy || open.y == rc.y + hy)
        }),
{
    let d = open.minus(c);
    let n = d.normalized();
    let size = Vector3i::of(hx + 1, hy + 1, 0);
    let t = size.times(n);
    assert(size.x == hx + 1 && size.y == hy + 1 && size.z == 0);
    if open.x == c.x + 1 {
        assert(n.x == 1 && n.y == 0 && n.z == 0);
        assert(size.x * 1 == hx + 1 && size.y * 0 == 0 && size.z * 0 == 0);
        assert(t.x == hx + 1 && t.y == 0 && t.z == 0);
    } else if open.x == c.x - 1 {
        assert(n.x == -1 && n.y == 0 && n.z == 0);
        assert(size.x * -1 == -(hx + 1) && size.y * 0 == 0 && size.z * 0 == 0);
        assert(t.x == -(hx + 1) && t.y == 0 && t.z == 0);
    } else if open.y == c.y + 1 {
        assert(n.x == 0 && n.y == 1 && n.z == 0);
        assert(size.x * 0 == 0 && size.y * 1 == hy + 1 && size.z * 0 == 0);
        assert(t.x == 0 && t.y == hy + 1 && t.z == 0);
    } else {
        assert(n.x == 0 && n.y == -1 && n.z == 0);
        assert(size.x * 0 == 0 && size.y * -1 == -(hy + 1) && size.z * 0 == 0);
        assert(t.x == 0 && t.y == -(hy + 1) && t.z == 0);
    }
}

/// No tile stands in the box of half sizes `hx`, `hy`, `hz` around `rc`.
pub open spec fn space_free(m: Map<Vector3i, Tile>, rc: Vector3i, hx: int, hy: int, hz: int) -> bool {
    forall|x: int, y: int, z: int|
        -hx <= x <= hx && -hy <= y <= hy && -hz <= z <= hz ==> !#[trigger] m.contains_key(
            Vector3i::of(rc.x + x, rc.y + y, rc.z + z),
        )
}

/// `q` lies over the floor plan of half sizes `hx`, `hy` around `rc`.
pub open spec fn in_floor_plan(q: Vector3i, rc: Vector3i, hx: int, hy: int) -> bool {
    &&& rc.x - hx <= q.x <= rc.x + hx
    &&& rc.y - hy <= q.y <= rc.y + hy
}

/// The tile a built room puts at `q`: a hull floor one level down, two levels of
/// air walled in by hull at the edge of the floor plan, a hull ceiling, and an
/// empty level above it for ducts.
pub open spec fn room_column_tile(
    q: Vector3i,
    rc: Vector3i,
    hx: int,
    hy: int,
    hull: Tile,
    air: Tile,
    vacuum: Tile,
) -> Option<Tile> {
    if !in_floor_plan(q, rc, hx, hy) {
        None
    } else if q.z == rc.z - 1 {
        Some(hull)
    } else if q.z == rc.z || q.z == rc.z + 1 {
        if abs(q.x - rc.x) == hx || abs(q.y - rc.y) == hy {
            Some(hull)
        } else {
            Some(air)
        }
    } else if q.z == rc.z + 2 {
        Some(hull)
    } else if q.z == rc.z + 3 {
        Some(vacuum)
    } else {
        None
    }
}

/// The map once the columns of the floor plan of half sizes `hx`, `hy` around `rc`
/// are built, for the columns before offset `(x, y)` in row order.
pub open spec fn columns_built(
    m: Map<Vector3i, Tile>,
    rc: Vector3i,
    hx: int,
    hy: int,
    x: int,
    y: int,
    hull: Tile,
    air: Tile,
    vacuum: Tile,
) -> Map<Vector3i, Tile> {
    Map::new(
        |q: Vector3i|
            (column_done(q, rc, x, y) && room_column_tile(q, rc, hx, hy, hull, air, vacuum) is Some)
                || m.contains_key(q),
        |q: Vector3i|
            if column_done(q, rc, x, y) && room_column_tile(q, rc, hx, hy, hull, air, vacuum) is Some {
                room_column_tile(q, rc, hx, hy, hull, air, vacuum)->0
            } else {
                m[q]
            },
    )
}

/// The column of `q` comes before offset `(x, y)` from `rc` in row order.
pub open spec fn column_done(q: Vector3i, rc: Vector3i, x: int, y: int) -> bool {
    q.x - rc.x < x || (q.x - rc.x == x && q.y - rc.y < y)
}

/// The map after a room centred at `rc` is built from `c`, with doors at `nodes`.
pub open spec fn built_room_map(
    m: Map<Vector3i, Tile>,
    c: Vector3i,
    rc: Vector3i,
    hx: int,
    hy: int,
    nodes: Seq<Vector3i>,
    hull: Tile,
    air: Tile,
    vacuum: Tile,
) -> Map<Vector3i, Tile> {
    Map::new(
        |q: Vector3i|
            nodes.contains(q) || q == c || room_column_tile(q, rc, hx, hy, hull, air, vacuum) is Some
                || m.contains_key(q),
        |q: Vector3i|
            if nodes.contains(q) || q == c {
                air
            } else if room_column_tile(q, rc, hx, hy, hull, air, vacuum) is Some {
                room_column_tile(q, rc, hx, hy, hull, air, vacuum)->0
            } else {
                m[q]
            },
    )
}

/// The blueprint tile named `name`, or the breathable empty tile when none is registered.
pub open spec fn tile_or_empty(blueprints: TileBlueprints, name: Seq<char>) -> Tile {
    if blueprints.initialised && crate::map::tile_blueprints::blueprint_spec(name) is Some {
        crate::map::tile_blueprints::blueprint_spec(name)->0
    } else {
        Tile::new_empty_stp_spec()
    }
}

/// The blueprint tile named `name`, or the empty vacuum tile when none is registered.
pub open spec fn tile_or_vacuum(blueprints: TileBlueprints, name: Seq<char>) -> Tile {
    if blueprints.initialised && crate::map::tile_blueprints::blueprint_spec(name) is Some {
        crate::map::tile_blueprints::blueprint_spec(name)->0
    } else {
        Tile::new_vacuume_spec()
    }
}

/// `after` is the map `before` after a room of `size`, new and without doors, is tried
/// from `c`: grown towards its open side and built when its space is free, else the
/// map is left as it was.
pub open spec fn room_attempt(
    blueprints: TileBlueprints,
    before: Map<Vector3i, Tile>,
    after: Map<Vector3i, Tile>,
    c: Vector3i,
    size: Vector3i,
) -> bool {
    let hull = tile_or_empty(blueprints, "hull"@);
    let air = tile_or_empty(blueprints, "breathable_atmosphere"@);
    let vacuum = tile_or_vacuum(blueprints, "vacuume"@);
    let (hx, hy, hz) = (size.x / 2, size.y / 2, size.z / 2);
    match open_side(before, c, hz as int) {
        None => after == before,
        Some(open) => {
            let rc = grown_centre(c, open, hx as int, hy as int);
            if space_free(before, rc, hx as int, hy as int, hz as int) {
                after == built_room_map(
                    before,
                    c,
                    rc,
                    hx as int,
                    hy as int,
                    Seq::<Vector3i>::empty().push(open),
                    hull,
                    air,
                    vacuum,
                )
            } else {
                after == before
            }
        },
    }
}

/// What building a new room without doors does, as `build_room` states it, is a room
/// attempt.
pub proof fn lemma_room_attempt(
    blueprints: TileBlueprints,
    before: Map<Vector3i, Tile>,
    after: Map<Vector3i, Tile>,
    c: Vector3i,
    size: Vector3i,
    nodes_after: Seq<Vector3i>,
    built: bool,
    centre_after: Vector3i,
)
    requires
        ({
            let hull = tile_or_empty(blueprints, "hull"@);
            let air = tile_or_empty(blueprints, "breathable_atmosphere"@);
            let vacuum = tile_or_vacuum(blueprints, "vacuume"@);
            let (hx, hy, hz) = (size.x / 2, size.y / 2, size.z / 2);
            match open_side(before, c, hz as int) {
                None => !built && after == before,
                Some(open) => {
                    let rc = grown_centre(c, open, hx as int, hy as int);
                    &&& nodes_after == Seq::<Vector3i>::empty().push(open)
                    &&& built == space_free(before, rc, hx as int, hy as int, hz as int)
                    &&& built ==> after == built_room_map(
                        before,
                        c,
                        rc,
                        hx as int,
                        hy as int,
                        nodes_after,
                        hull,
                        air,
                        vacuum,
                    )
                    &&& !built ==> after == before
                },
            }
        }),
    ensures
        room_attempt(blueprints, before, after, c, size),
{
}

/// A room that can be grown on a map without leaving the grid.
pub open spec fn room_fits(room: Room) -> bool {
    &&& 0 <= room.size.x <= 0x10_0000
    &&& 0 <= room.size.y <= 0x10_0000
    &&& 0 <= room.size.z <= 0x10_0000
    &&& -0x7000_0000 <= room.centre.x <= 0x7000_0000
    &&& -0x7000_0000 <= room.centre.y <= 0x7000_0000
    &&& -0x7000_0000 <= room.centre.z <= 0x7000_0000
}

/// Multiplying by -1, 0 or 1.
pub proof fn lemma_mul_unit(a: int, d: int)
    requires
        -1 <= d <= 1,
    ensures
        a * d == (if d == 1 {
            a
        } else if d == 0 {
            0
        } else {
            -a
        }),
{
    if d == 1 {
        assert(a * d == a) by (nonlinear_arith)
            requires
                d == 1,
        ;
    } else if d == 0 {
        assert(a * d == 0) by (nonlinear_arith)
            requires
                d == 0,
        ;
    } else {
        assert(a * d == -a) by (nonlinear_arith)
            requires
                d == -1,
        ;
    }
}

/// Builds a ship on an empty map, one area at a time.
pub struct SmallCargoShipMapBuilder {
    pub map: TileMap,
    pub start_position: Vector3i,
    pub areas: Vec<ShipArea>,
    pub blueprints: TileBlueprints,
}

impl SmallCargoShipMapBuilder {
    /// A builder with an empty map that will start at `start_position`.
    pub fn new(start_position: Vector3i, blueprints: TileBlueprints) -> (b: SmallCargoShipMapBuilder)
        ensures
            b.map@ == Map::<Vector3i, Tile>::empty(),
            b.start_position == start_position,
            b.areas@ == Seq::<ShipArea>::empty(),
            b.blueprints == blueprints,
    {
        SmallCargoShipMapBuilder {
            map: TileMap::new(),
            start_position,
            areas: Vec::new(),
            blueprints,
        }
    }

    /// Builds the column of one floor plan cell `t`: hull below, two levels of air
    /// or, at the edge, of hull, a hull ceiling and an empty level above it.
    pub(crate) fn build_column(&mut self, t: Vector3i, edge: bool, hull: Tile, air: Tile, vacuum: Tile)
        requires
            -0x7400_0000 <= t.z <= 0x7400_0000,
        ensures
            final(self).map@ == old(self).map@.insert(Vector3i::of(t.x as int, t.y as int, t.z - 1), hull).insert(
                t,
                if edge {
                    hull
                } else {
                    air
                },
            ).insert(
                Vector3i::of(t.x as int, t.y as int, t.z + 1),
                if edge {
                    hull
                } else {
                    air
                },
            ).insert(Vector3i::of(t.x as int, t.y as int, t.z + 2), hull).insert(
                Vector3i::of(t.x as int, t.y as int, t.z + 3),
                vacuum,
            ),
            final(self).start_position == old(self).start_position,
            final(self).areas == old(self).areas,
            final(self).blueprints == old(self).blueprints,
    {
        let down = Vector3i::new(t.x, t.y, t.z - 1);
        let up1 = Vector3i::new(t.x, t.y, t.z + 1);
        let up2 = Vector3i::new(t.x, t.y, t.z + 2);
        let up3 = Vector3i::new(t.x, t.y, t.z + 3);
        self.map.insert(down, hull);
        self.map.insert(t, air);
        self.map.insert(up1, air);
        self.map.insert(up2, hull);
        self.map.insert(up3, vacuum);
        let ghost plain = self.map@;
        if edge {
            self.map.insert(t, hull);
            self.map.insert(up1, hull);
        }
        proof {
            let e = if edge { hull } else { air };
            assert(self.map@ =~= old(self).map@.insert(down, hull).insert(t, e).insert(up1, e).insert(
                up2,
                hull,
            ).insert(up3, vacuum));
        }
    }

    /// Builds the columns of the whole floor plan of half sizes `hx`, `hy` around `rc`.
    fn build_floor_plan(&mut self, rc: Vector3i, hx: i32, hy: i32, hull: Tile, air: Tile, vacuum: Tile)
        requires
            0 <= hx <= 0x10_0000,
            0 <= hy <= 0x10_0000,
            -0x7400_0000 <= rc.x <= 0x7400_0000,
            -0x7400_0000 <= rc.y <= 0x7400_0000,
            -0x7400_0000 <= rc.z <= 0x7400_0000,
        ensures
            final(self).map@ == columns_built(
                old(self).map@,
                rc,
                hx as int,
                hy as int,
                hx + 1,
                -hy,
                hull,
                air,
                vacuum,
            ),
            final(self).start_position == old(self).start_position,
            final(self).areas == old(self).areas,
            final(self).blueprints == old(self).blueprints,
            forall|q: Vector3i|
                rc.x - hx <= q.x <= rc.x + hx && rc.y - hy <= q.y <= rc.y + hy && rc.z - 1 <= q.z <= rc.z + 3
                    ==> #[trigger] final(self).map@.contains_key(q) && final(self).map@[q] == (if q.z == rc.z + 3 {
                    vacuum
                } else if q.z == rc.z - 1 || q.z == rc.z + 2 {
                    hull
                } else if q.x == rc.x - hx || q.x == rc.x + hx || q.y == rc.y - hy || q.y == rc.y + hy {
                    hull
                } else {
                    air
                }),
            forall|q: Vector3i|
                !(rc.x - hx <= q.x <= rc.x + hx && rc.y - hy <= q.y <= rc.y + hy && rc.z - 1 <= q.z <= rc.z + 3)
                    ==> (#[trigger] final(self).map@.contains_key(q) == old(self).map@.contains_key(q) && (
                old(self).map@.contains_key(q) ==> final(self).map@[q] == old(self).map@[q])),
    {
        let ghost m0 = self.map@;
        let mut x: i32 = -hx;
        assert(self.map@ =~= columns_built(m0, rc, hx as int, hy as int, -hx as int, -hy as int, hull, air, vacuum));
        while x <= hx
            invariant
                0 <= hx <= 0x10_0000,
                0 <= hy <= 0x10_0000,
                -0x7400_0000 <= rc.x <= 0x7400_0000,
                -0x7400_0000 <= rc.y <= 0x7400_0000,
                -0x7400_0000 <= rc.z <= 0x7400_0000,
                -hx <= x <= hx + 1,
                self.map@ == columns_built(m0, rc, hx as int, hy as int, x as int, -hy as int, hull, air, vacuum),
                self.start_position == old(self).start_position,
                self.areas == old(self).areas,
                self.blueprints == old(self).blueprints,
            decreases hx + 1 - x,
        {
            let mut y: i32 = -hy;
            while y <= hy
                invariant
                    0 <= hx <= 0x10_0000,
                    0 <= hy <= 0x10_0000,
                    -0x7400_0000 <= rc.x <= 0x7400_0000,
                    -0x7400_0000 <= rc.y <= 0x7400_0000,
                    -0x7400_0000 <= rc.z <= 0x7400_0000,
                    -hx <= x <= hx,
                    -hy <= y <= hy + 1,
                    self.map@ == columns_built(m0, rc, hx as int, hy as int, x as int, y as int, hull, air, vacuum),
                    self.start_position == old(self).start_position,
                    self.areas == old(self).areas,
                    self.blueprints == old(self).blueprints,
                decreases hy + 1 - y,
            {
                let t = Vector3i::new(rc.x + x, rc.y + y, rc.z);
                let edge = x == -hx || x == hx || y == -hy || y == hy;
                let ghost before = self.map@;
                self.build_column(t, edge, hull, air, vacuum);
                proof {
                    let next = columns_built(m0, rc, hx as int, hy as int, x as int, y + 1, hull, air, vacuum);
                    assert forall|q: Vector3i| #[trigger] self.map@.contains_key(q) == next.contains_key(q)
                        && (self.map@.contains_key(q) ==> self.map@[q] == next[q]) by {
                        if q.x == t.x && q.y == t.y && rc.z - 1 <= q.z <= rc.z + 3 {
                            assert(column_done(q, rc, x as int, y + 1));
                            assert(!column_done(q, rc, x as int, y as int));
                            assert(in_floor_plan(q, rc, hx as int, hy as int));
                        } else {
                            if column_done(q, rc, x as int, y + 1) && room_column_tile(q, rc, hx as int, hy as int, hull, air, vacuum) is Some {
                                assert(column_done(q, rc, x as int, y as int));
                            }
                        }
                    }
                    assert(self.map@ =~= next);
                }
                y = y + 1;
            }
            proof {
                let next = columns_built(m0, rc, hx as int, hy as int, x + 1, -hy as int, hull, air, vacuum);
                let cur = columns_built(m0, rc, hx as int, hy as int, x as int, hy + 1, hull, air, vacuum);
                assert forall|q: Vector3i| #[trigger] cur.contains_key(q) == next.contains_key(q)
                    && (cur.contains_key(q) ==> cur[q] == next[q]) by {
                    if room_column_tile(q, rc, hx as int, hy as int, hull, air, vacuum) is Some {
                        assert(in_floor_plan(q, rc, hx as int, hy as int));
                        assert(column_done(q, rc, x as int, hy + 1) == column_done(q, rc, x + 1, -hy as int));
                    }
                }
                assert(cur =~= next);
            }
            x = x + 1;
        }
        proof {
            let fin = self.map@;
            assert forall|q: Vector3i|
                rc.x - hx <= q.x <= rc.x + hx && rc.y - hy <= q.y <= rc.y + hy && rc.z - 1 <= q.z <= rc.z + 3 implies #[trigger] fin.contains_key(q)
                    && fin[q] == (if q.z == rc.z + 3 {
                    vacuum
                } else if q.z == rc.z - 1 || q.z == rc.z + 2 {
                    hull
                } else if q.x == rc.x - hx || q.x == rc.x + hx || q.y == rc.y - hy || q.y == rc.y + hy {
                    hull
                } else {
                    air
                }) by {
                assert(column_done(q, rc, hx + 1, -hy as int));
                assert(in_floor_plan(q, rc, hx as int, hy as int));
            }
        }
    }

    /// The hull tile, the breathable air tile and the vacuum tile this builder uses.
    pub(crate) fn building_tiles(&self) -> (r: (Tile, Tile, Tile))
        ensures
            r.0 == tile_or_empty(self.blueprints, "hull"@),
            r.1 == tile_or_empty(self.blueprints, "breathable_atmosphere"@),
            r.2 == tile_or_vacuum(self.blueprints, "vacuume"@),
    {
        let hull = match self.blueprints.get_tile("hull") {
            Some(t) => t,
            None => Tile::new_empty_stp(),
        };
        let air = match self.blueprints.get_tile("breathable_atmosphere") {
            Some(t) => t,
            None => Tile::new_empty_stp(),
        };
        let vacuum = match self.blueprints.get_tile("vacuume") {
            Some(t) => t,
            None => Tile::new_vacuume(),
        };
        (hull, air, vacuum)
    }

    /// Grows `room` from its centre into the last free side of north, east, south
    /// and west, records that side as a door and builds the room there when its
    /// space is free. Returns whether the room was built.
    pub fn build_room(&mut self, room: &mut Room) -> (built: bool)
        requires
            room_fits(*old(room)),
        ensures
            ({
                let hull = tile_or_empty(old(self).blueprints, "hull"@);
                let air = tile_or_empty(old(self).blueprints, "breathable_atmosphere"@);
                let vacuum = tile_or_vacuum(old(self).blueprints, "vacuume"@);
                let c = old(room).centre;
                let (hx, hy, hz) = (
                    old(room).size.x / 2,
                    old(room).size.y / 2,
                    old(room).size.z / 2,
                );
                match open_side(old(self).map@, c, hz as int) {
                    None => !built && final(self).map@ == old(self).map@ && final(room).nodes@ == old(
                        room,
                    ).nodes@ && final(room).centre == c,
                    Some(open) => {
                        let rc = grown_centre(c, open, hx as int, hy as int);
                        &&& final(room).nodes@ == old(room).nodes@.push(open)
                        &&& built == space_free(old(self).map@, rc, hx as int, hy as int, hz as int)
                        &&& built ==> final(room).centre == rc && final(self).map@ == built_room_map(
                            old(self).map@,
                            c,
                            rc,
                            hx as int,
                            hy as int,
                            final(room).nodes@,
                            hull,
                            air,
                            vacuum,
                        )
                        &&& !built ==> final(room).centre == c && final(self).map@ == old(self).map@
                    },
                }
            }),
            built ==> ({
                let hull = tile_or_empty(old(self).blueprints, "hull"@);
                let air = tile_or_empty(old(self).blueprints, "breathable_atmosphere"@);
                let rc = final(room).centre;
                let (hx, hy) = (old(room).size.x / 2, old(room).size.y / 2);
                forall|q: Vector3i|
                    rc.x - hx <= q.x <= rc.x + hx && rc.y - hy <= q.y <= rc.y + hy && (q.z == rc.z || q.z == rc.z
                        + 1) && !final(room).nodes@.contains(q) && q != old(room).centre ==> #[trigger] final(self).map@.contains_key(q)
                        && final(self).map@[q] == (if q.x == rc.x - hx || q.x == rc.x + hx
                        || q.y == rc.y - hy || q.y == rc.y + hy {
                        hull
                    } else {
                        air
                    })
            }),
            final(room).size == old(room).size,
            final(room).area_id == old(room).area_id,
            final(room).area_name == old(room).area_name,
            final(room).area_type == old(room).area_type,
            final(room).breaker_position == old(room).breaker_position,
            final(room).power_connections == old(room).power_connections,
            final(self).start_position == old(self).start_position,
            final(self).areas == old(self).areas,
            final(self).blueprints == old(self).blueprints,
    {
        let (hull, air, vacuum) = self.building_tiles();
        let centre = room.centre;
        let neighbours = get_cardinal_neighbours(centre);
        let half_size_x = room.size.x / 2;
        let half_size_y = room.size.y / 2;
        let half_size_z = room.size.z / 2;
        let mut open_tile = centre;
        if self.column_is_free(neighbours[0], half_size_z) {
            open_tile = neighbours[0];
        }
        if self.column_is_free(neighbours[1], half_size_z) {
            open_tile = neighbours[1];
        }
        if self.column_is_free(neighbours[2], half_size_z) {
            open_tile = neighbours[2];
        }
        if self.column_is_free(neighbours[3], half_size_z) {
            open_tile = neighbours[3];
        }
        if open_tile == centre {
            return false;
        }
        room.nodes.push(open_tile);
        let direction = open_tile.sub(centre).normalize_delta();
        let grow = Vector3i::new(half_size_x + 1, half_size_y + 1, 0);
        proof {
            assert(-1 <= direction.x <= 1 && -1 <= direction.y <= 1 && -1 <= direction.z <= 1);
            lemma_mul_unit(grow.x as int, direction.x as int);
            lemma_mul_unit(grow.y as int, direction.y as int);
            lemma_mul_unit(grow.z as int, direction.z as int);
        }
        let room_centre = centre.add(
            grow.mul_components(direction),
        );
        if !self.space_is_free(room_centre, half_size_x, half_size_y, half_size_z) {
            return false;
        }
        let ghost m0 = self.map@;
        self.build_floor_plan(room_centre, half_size_x, half_size_y, hull, air, vacuum);
        let ghost m1 = self.map@;
        self.map.insert(centre, air);
        let mut i: usize = 0;
        while i < room.nodes.len()
            invariant
                0 <= i <= room.nodes.len(),
                self.map@ == Map::new(
                    |q: Vector3i| room.nodes@.subrange(0, i as int).contains(q) || m1.insert(centre, air).contains_key(q),
                    |q: Vector3i|
                        if room.nodes@.subrange(0, i as int).contains(q) {
                            air
                        } else {
                            m1.insert(centre, air)[q]
                        },
                ),
                self.start_position == old(self).start_position,
                self.areas == old(self).areas,
                self.blueprints == old(self).blueprints,
            decreases room.nodes.len() - i,
        {
            let node = room.nodes[i];
            let ghost before = self.map@;
            self.map.insert(node, air);
            proof {
                let next = Map::new(
                    |q: Vector3i| room.nodes@.subrange(0, i + 1).contains(q) || m1.insert(centre, air).contains_key(q),
                    |q: Vector3i|
                        if room.nodes@.subrange(0, i + 1).contains(q) {
                            air
                        } else {
                            m1.insert(centre, air)[q]
                        },
                );
                assert forall|q: Vector3i| #[trigger] room.nodes@.subrange(0, i + 1).contains(q)
                    == (room.nodes@.subrange(0, i as int).contains(q) || q == node) by {
                    if room.nodes@.subrange(0, i + 1).contains(q) {
                        let j = choose|j: int| 0 <= j < i + 1 && #[trigger] room.nodes@.subrange(0, i + 1)[j] == q;
                        if j < i {
                            assert(room.nodes@.subrange(0, i as int)[j] == q);
                        }
                    }
                    if room.nodes@.subrange(0, i as int).contains(q) {
                        let j = choose|j: int| 0 <= j < i && #[trigger] room.nodes@.subrange(0, i as int)[j] == q;
                        assert(room.nodes@.subrange(0, i + 1)[j] == q);
                    }
                    if q == node {
                        assert(room.nodes@.subrange(0, i + 1)[i as int] == q);
                    }
                }
                assert(self.map@ =~= next);
            }
            i = i + 1;
        }
        room.centre = room_centre;
        proof {
            assert(room.nodes@.subrange(0, room.nodes@.len() as int) =~= room.nodes@);
        }
        true
    }

    /// Whether the column above `n` is free from `hz` below to `hz` above.
    fn column_is_free(&self, n: Vector3i, hz: i32) -> (b: bool)
        requires
            0 <= hz <= 0x10_0000,
            -0x7400_0000 <= n.z <= 0x7400_0000,
        ensures
            b == column_free(self.map@, n, hz as int),
    {
        let mut z: i32 = -hz;
        while z <= hz
            invariant
                0 <= hz <= 0x10_0000,
                -0x7400_0000 <= n.z <= 0x7400_0000,
                -hz <= z <= hz + 1,
                forall|zz: int| -hz <= zz < z ==> !#[trigger] self.map@.contains_key(
                    Vector3i::of(n.x as int, n.y as int, n.z + zz),
                ),
            decreases hz + 1 - z,
        {
            let p = Vector3i::new(n.x, n.y, n.z + z);
            if self.map.contains(p) {
                assert(self.map@.contains_key(Vector3i::of(n.x as int, n.y as int, n.z + z)));
                return false;
            }
            z = z + 1;
        }
        true
    }

    /// Whether the box of half sizes `hx`, `hy`, `hz` around `rc` holds no tile.
    fn space_is_free(&self, rc: Vector3i, hx: i32, hy: i32, hz: i32) -> (b: bool)
        requires
            0 <= hx <= 0x10_0000,
            0 <= hy <= 0x10_0000,
            0 <= hz <= 0x10_0000,
            -0x7400_0000 <= rc.x <= 0x7400_0000,
            -0x7400_0000 <= rc.y <= 0x7400_0000,
            -0x7400_0000 <= rc.z <= 0x7400_0000,
        ensures
            b == space_free(self.map@, rc, hx as int, hy as int, hz as int),
    {
        let mut x: i32 = -hx;
        while x <= hx
            invariant
                0 <= hx <= 0x10_0000,
                0 <= hy <= 0x10_0000,
                0 <= hz <= 0x10_0000,
                -0x7400_0000 <= rc.x <= 0x7400_0000,
                -0x7400_0000 <= rc.y <= 0x7400_0000,
                -0x7400_0000 <= rc.z <= 0x7400_0000,
                -hx <= x <= hx + 1,
                forall|xx: int, yy: int, zz: int|
                    -hx <= xx < x && -hy <= yy <= hy && -hz <= zz <= hz ==> !#[trigger] self.map@.contains_key(
                        Vector3i::of(rc.x + xx, rc.y + yy, rc.z + zz),
                    ),
            decreases hx + 1 - x,
        {
            let mut y: i32 = -hy;
            while y <= hy
                invariant
                    0 <= hx <= 0x10_0000,
                    0 <= hy <= 0x10_0000,
                    0 <= hz <= 0x10_0000,
                    -0x7400_0000 <= rc.x <= 0x7400_0000,
                    -0x7400_0000 <= rc.y <= 0x7400_0000,
                    -0x7400_0000 <= rc.z <= 0x7400_0000,
                    -hx <= x <= hx,
                    -hy <= y <= hy + 1,
                    forall|xx: int, yy: int, zz: int|
                        -hx <= xx < x && -hy <= yy <= hy && -hz <= zz <= hz ==> !#[trigger] self.map@.contains_key(
                            Vector3i::of(rc.x + xx, rc.y + yy, rc.z + zz),
                        ),
                    forall|yy: int, zz: int|
                        -hy <= yy < y && -hz <= zz <= hz ==> !#[trigger] self.map@.contains_key(
                            Vector3i::of(rc.x + x, rc.y + yy, rc.z + zz),
                        ),
                decreases hy + 1 - y,
            {
                let mut z: i32 = -hz;
                while z <= hz
                    invariant
                        0 <= hx <= 0x10_0000,
                        0 <= hy <= 0x10_0000,
                        0 <= hz <= 0x10_0000,
                        -0x7400_0000 <= rc.x <= 0x7400_0000,
                        -0x7400_0000 <= rc.y <= 0x7400_0000,
                        -0x7400_0000 <= rc.z <= 0x7400_0000,
                        -hx <= x <= hx,
                        -hy <= y <= hy,
                        -hz <= z <= hz + 1,
                        forall|zz: int| -hz <= zz < z ==> !#[trigger] self.map@.contains_key(
                            Vector3i::of(rc.x + x, rc.y + y, rc.z + zz),
                        ),
                    decreases hz + 1 - z,
                {
                    let p = Vector3i::new(rc.x + x, rc.y + y, rc.z + z);
                    if self.map.contains(p) {
                        assert(self.map@.contains_key(Vector3i::of(rc.x + x, rc.y + y, rc.z + z)));
                        return false;
                    }
                    z = z + 1;
                }
                y = y + 1;
            }
            x = x + 1;
        }
        true
    }
}

} // verus!
