use vstd::prelude::*;

use crate::map::pathfinding::{find_path_with_width, is_route, is_walk, search_fits, within_reach, SEARCH_LIMIT};
use crate::map::tile_blueprints::TileBlueprints;
use crate::map::Tile;
use crate::map_builders::common::Corridor;
use crate::map_builders::small_cargo_ship::{tile_or_empty, SmallCargoShipMapBuilder};
use crate::vectors::utils::{cardinal_neighbours_spec, get_cardinal_neighbours};
use crate::vectors::Vector3i;

verus! {

/// `q` lies in the square of half width `h` around `c`, on its level.
pub open spec fn within_square(c: Vector3i, q: Vector3i, h: int) -> bool {
    &&& q.z == c.z
    &&& c.x - h <= q.x <= c.x + h
    &&& c.y - h <= q.y <= c.y + h
}

/// `q` lies in the square around one of the first `i` positions of `path`.
pub open spec fn squares_before(path: Seq<Vector3i>, h: int, i: int, q: Vector3i) -> bool {
    exists|j: int| 0 <= j < i && #[trigger] within_square(path[j], q, h)
}

/// `q` lies over the floor plan of a corridor of half width `h` along `path`.
pub open spec fn in_corridor_plan(path: Seq<Vector3i>, q: Vector3i, h: int) -> bool {
    squares_before(path, h, path.len() as int, q)
}

/// `q` comes before offset `(x, y)` from the `i`th position of `path` in the order
/// the corridor's floor plan is laid: square by square, each in row order.
pub open spec fn plan_done(path: Seq<Vector3i>, h: int, i: int, x: int, y: int, q: Vector3i) -> bool {
    ||| squares_before(path, h, i, q)
    ||| 0 <= i < path.len() && within_square(path[i], q, h) && (q.x - path[i].x < x || (q.x
        - path[i].x == x && q.y - path[i].y < y))
}

/// The tile a corridor puts `dz` levels above its floor plan where the map was
/// empty: a hull floor below, two levels of air, a hull ceiling and an empty level
/// above it for ducts.
pub open spec fn corridor_column_tile(dz: int, hull: Tile, air: Tile, vacuum: Tile) -> Option<Tile> {
    if dz == -1 || dz == 2 {
        Some(hull)
    } else if dz == 0 || dz == 1 {
        Some(air)
    } else if dz == 3 {
        Some(vacuum)
    } else {
        None
    }
}

/// The column over `p` is built: its cell on level `z0` is laid and was empty on `m`,
/// and `p` is one of the levels of the column.
pub open spec fn column_laid(
    m: Map<Vector3i, Tile>,
    path: Seq<Vector3i>,
    h: int,
    i: int,
    x: int,
    y: int,
    z0: int,
    p: Vector3i,
    hull: Tile,
    air: Tile,
    vacuum: Tile,
) -> bool {
    let q = Vector3i::of(p.x as int, p.y as int, z0);
    &&& plan_done(path, h, i, x, y, q)
    &&& !m.contains_key(q)
    &&& corridor_column_tile(p.z - z0, hull, air, vacuum) is Some
}

/// The map once the corridor floor plan is laid up to offset `(x, y)` of the `i`th
/// position of `path`: a column over every cell laid so far that was empty on `m`.
pub open spec fn corridor_floor(
    m: Map<Vector3i, Tile>,
    path: Seq<Vector3i>,
    h: int,
    i: int,
    x: int,
    y: int,
    z0: int,
    hull: Tile,
    air: Tile,
    vacuum: Tile,
) -> Map<Vector3i, Tile> {
    Map::new(
        |p: Vector3i| column_laid(m, path, h, i, x, y, z0, p, hull, air, vacuum) || m.contains_key(p),
        |p: Vector3i|
            if column_laid(m, path, h, i, x, y, z0, p, hull, air, vacuum) {
                corridor_column_tile(p.z - z0, hull, air, vacuum)->0
            } else {
                m[p]
            },
    )
}

/// `q` is a cell of the corridor: over its floor plan, and empty or impassable on `m`.
pub open spec fn corridor_cell(m: Map<Vector3i, Tile>, path: Seq<Vector3i>, h: int, q: Vector3i) -> bool {
    in_corridor_plan(path, q, h) && !(m.contains_key(q) && m[q].passable)
}

/// How many of the first `k` positions of `s` are corridor cells.
pub open spec fn cells_among(m: Map<Vector3i, Tile>, path: Seq<Vector3i>, h: int, s: Seq<Vector3i>, k: int) -> int
    decreases k,
{
    if k <= 0 {
        0
    } else {
        cells_among(m, path, h, s, k - 1) + if corridor_cell(m, path, h, s[k - 1]) {
            1int
        } else {
            0
        }
    }
}

/// A corridor cell with fewer than four of its cardinal neighbours among the
/// corridor cells: where the corridor gets its walls and its doorways.
pub open spec fn corridor_edge(m: Map<Vector3i, Tile>, path: Seq<Vector3i>, h: int, q: Vector3i) -> bool {
    corridor_cell(m, path, h, q) && cells_among(m, path, h, cardinal_neighbours_spec(q), 4) < 4
}

/// A corridor cell is an edge, where walls and doorways go, exactly when one of its
/// four cardinal neighbours is not a corridor cell.
pub proof fn lemma_corridor_edge_has_an_outside_neighbour(
    m: Map<Vector3i, Tile>,
    path: Seq<Vector3i>,
    h: int,
    q: Vector3i,
)
    ensures
        corridor_edge(m, path, h, q) <==> (corridor_cell(m, path, h, q) && exists|j: int|
            0 <= j < 4 && !corridor_cell(m, path, h, #[trigger] cardinal_neighbours_spec(q)[j])),
{
    let nb = cardinal_neighbours_spec(q);
    reveal_with_fuel(cells_among, 5);
    if corridor_cell(m, path, h, q) && cells_among(m, path, h, nb, 4) < 4 {
        if corridor_cell(m, path, h, nb[0]) && corridor_cell(m, path, h, nb[1]) && corridor_cell(m, path, h, nb[2]) {
            assert(!corridor_cell(m, path, h, nb[3]));
        } else if corridor_cell(m, path, h, nb[0]) && corridor_cell(m, path, h, nb[1]) {
            assert(!corridor_cell(m, path, h, nb[2]));
        } else if corridor_cell(m, path, h, nb[0]) {
            assert(!corridor_cell(m, path, h, nb[1]));
        } else {
            assert(!corridor_cell(m, path, h, nb[0]));
        }
    }
    if corridor_cell(m, path, h, q) && exists|j: int| 0 <= j < 4 && !corridor_cell(m, path, h, #[trigger] nb[j]) {
        let j = choose|j: int| 0 <= j < 4 && !corridor_cell(m, path, h, #[trigger] nb[j]);
        assert(cells_among(m, path, h, nb, 4) < 4);
    }
}

/// `floor` with hull on the two levels of air over each edge cell of the corridor
/// along `path` built on `m`, whose floor lies on level `z0`.
pub open spec fn corridor_walls(
    floor: Map<Vector3i, Tile>,
    m: Map<Vector3i, Tile>,
    path: Seq<Vector3i>,
    h: int,
    z0: int,
    hull: Tile,
) -> Map<Vector3i, Tile> {
    Map::new(
        |p: Vector3i|
            (corridor_edge(m, path, h, Vector3i::of(p.x as int, p.y as int, z0)) && (p.z == z0 || p.z
                == z0 + 1)) || floor.contains_key(p),
        |p: Vector3i|
            if corridor_edge(m, path, h, Vector3i::of(p.x as int, p.y as int, z0)) && (p.z == z0 || p.z
                == z0 + 1) {
                hull
            } else {
                floor[p]
            },
    )
}

/// The map after a corridor of half width `h` along `path` is built on `m`: columns
/// over the cells of its floor plan that were empty, then hull on the two levels of
/// air over each of its edge cells.
pub open spec fn built_corridor_map(
    m: Map<Vector3i, Tile>,
    path: Seq<Vector3i>,
    h: int,
    hull: Tile,
    air: Tile,
    vacuum: Tile,
) -> Map<Vector3i, Tile> {
    let z0 = path[0].z as int;
    corridor_walls(
        corridor_floor(m, path, h, path.len() as int, 0, 0, z0, hull, air, vacuum),
        m,
        path,
        h,
        z0,
        hull,
    )
}

/// A route the corridor search may give from `start` to `end`, keeping a passage
/// `width` cells wide clear where it can: the route found, without repeated positions
/// and no longer than any walk into open cells that keep the passage clear, or
/// `[start]` alone, only when no such walk of `n` steps with `(2n + 1)²` below
/// `SEARCH_LIMIT` reaches `end`.
pub open spec fn corridor_route(
    m: Map<Vector3i, Tile>,
    start: Vector3i,
    end: Vector3i,
    width: usize,
    path: Seq<Vector3i>,
) -> bool {
    &&& path.len() >= 1
    &&& path[0] == start
    &&& path == seq![start] || (path.last() == end && is_route(m, path, Some(width as int / 2)))
    &&& forall|i: int| 0 <= i < path.len() ==> within_reach(start, #[trigger] path[i], 141 * SEARCH_LIMIT)
    &&& path.no_duplicates()
    &&& forall|w: Seq<Vector3i>|
        #[trigger] is_walk(m, start, end, Some(width as int / 2), w) ==> path.len() <= w.len() && ((2
            * w.len() - 1) * (2 * w.len() - 1) < SEARCH_LIMIT ==> path.last() == end && is_route(
            m,
            path,
            Some(width as int / 2),
        ))
}

/// The breathable air tile is one that can be walked through.
pub proof fn lemma_air_passable(blueprints: TileBlueprints)
    ensures
        tile_or_empty(blueprints, "breathable_atmosphere"@).passable,
{
    reveal_strlit("glass_hull");
    reveal_strlit("hull");
    reveal_strlit("breathable_atmosphere");
    assert("breathable_atmosphere"@.len() != "glass_hull"@.len());
    assert("breathable_atmosphere"@.len() != "hull"@.len());
}

/// Whether `v` holds `p`.
fn holds_position(v: &Vec<Vector3i>, p: Vector3i) -> (b: bool)
    ensures
        b == v@.contains(p),
{
    let mut i: usize = 0;
    while i < v.len()
        invariant
            0 <= i <= v.len(),
            forall|j: int| 0 <= j < i ==> v@[j] != p,
        decreases v.len() - i,
    {
        if v[i] == p {
            return true;
        }
        i = i + 1;
    }
    false
}

/// The square of half width `h` around `c` lies on level `z0` and on the grid.
pub open spec fn square_fits(c: Vector3i, z0: int, h: int) -> bool {
    &&& c.z == z0
    &&& i32::MIN <= c.x - h
    &&& c.x + h <= i32::MAX
    &&& i32::MIN <= c.y - h
    &&& c.y + h <= i32::MAX
}

/// The corridor cells among those laid before offset `(x, y)` of the `i`th position
/// of `path`, each once.
pub open spec fn cells_laid(
    m: Map<Vector3i, Tile>,
    path: Seq<Vector3i>,
    h: int,
    i: int,
    x: int,
    y: int,
    tiles: Seq<Vector3i>,
) -> bool {
    &&& tiles.no_duplicates()
    &&& forall|q: Vector3i|
        #[trigger] tiles.contains(q) <==> plan_done(path, h, i, x, y, q) && !(m.contains_key(q)
            && m[q].passable)
}

impl SmallCargoShipMapBuilder {
    /// Lays the floor plan of a corridor of half width `h` along `path`: a column over
    /// every cell of it where the map is empty. Gives the corridor cells, each once.
    fn lay_corridor_floor(&mut self, path: &Vec<Vector3i>, h: i32, hull: Tile, air: Tile, vacuum: Tile) -> (tiles:
        Vec<Vector3i>)
        requires
            path@.len() >= 1,
            0 <= h <= 0x10_0000,
            -0x7400_0000 <= path@[0].z <= 0x7400_0000,
            air.passable,
            forall|i: int|
                0 <= i < path@.len() ==> square_fits(#[trigger] path@[i], path@[0].z as int, h as int),
        ensures
            final(self).map@ == corridor_floor(
                old(self).map@,
                path@,
                h as int,
                path@.len() as int,
                0,
                0,
                path@[0].z as int,
                hull,
                air,
                vacuum,
            ),
            tiles@.no_duplicates(),
            forall|q: Vector3i|
                #[trigger] tiles@.contains(q) <==> corridor_cell(old(self).map@, path@, h as int, q),
            final(self).start_position == old(self).start_position,
            final(self).areas == old(self).areas,
            final(self).blueprints == old(self).blueprints,
    {
        let ghost m0 = self.map@;
        let ghost z0 = path@[0].z as int;
        let ghost hh = h as int;
        let mut tiles: Vec<Vector3i> = Vec::new();
        let mut i: usize = 0;
        proof {
            assert(self.map@ =~= corridor_floor(m0, path@, hh, 0, -hh, -hh, z0, hull, air, vacuum));
        }
        while i < path.len()
            invariant
                path@.len() >= 1,
                0 <= h <= 0x10_0000,
                hh == h,
                z0 == path@[0].z,
                -0x7400_0000 <= z0 <= 0x7400_0000,
                air.passable,
                forall|k: int| 0 <= k < path@.len() ==> square_fits(#[trigger] path@[k], z0, hh),
                0 <= i <= path.len(),
                self.map@ == corridor_floor(m0, path@, hh, i as int, -hh, -hh, z0, hull, air, vacuum),
                cells_laid(m0, path@, hh, i as int, -hh, -hh, tiles@),
                self.start_position == old(self).start_position,
                self.areas == old(self).areas,
                self.blueprints == old(self).blueprints,
            decreases path.len() - i,
        {
            let c = path[i];
            assert(square_fits(path@[i as int], z0, hh));
            let mut x: i32 = -h;
            while x <= h
                invariant
                    path@.len() >= 1,
                    0 <= h <= 0x10_0000,
                    hh == h,
                    z0 == path@[0].z,
                    -0x7400_0000 <= z0 <= 0x7400_0000,
                    air.passable,
                    0 <= i < path.len(),
                    c == path@[i as int],
                    square_fits(c, z0, hh),
                    -h <= x <= h + 1,
                    self.map@ == corridor_floor(m0, path@, hh, i as int, x as int, -hh, z0, hull, air, vacuum),
                    cells_laid(m0, path@, hh, i as int, x as int, -hh, tiles@),
                    self.start_position == old(self).start_position,
                    self.areas == old(self).areas,
                    self.blueprints == old(self).blueprints,
                decreases h + 1 - x,
            {
                let mut y: i32 = -h;
                while y <= h
                    invariant
                        path@.len() >= 1,
                        0 <= h <= 0x10_0000,
                        hh == h,
                        z0 == path@[0].z,
                        -0x7400_0000 <= z0 <= 0x7400_0000,
                        air.passable,
                        0 <= i < path.len(),
                        c == path@[i as int],
                        square_fits(c, z0, hh),
                        -h <= x <= h,
                        -h <= y <= h + 1,
                        self.map@ == corridor_floor(m0, path@, hh, i as int, x as int, y as int, z0, hull, air, vacuum),
                        cells_laid(m0, path@, hh, i as int, x as int, y as int, tiles@),
                        self.start_position == old(self).start_position,
                        self.areas == old(self).areas,
                        self.blueprints == old(self).blueprints,
                    decreases h + 1 - y,
                {
                    let q = Vector3i::new(c.x + x, c.y + y, c.z);
                    let ghost before = self.map@;
                    let ghost tiles_before = tiles@;
                    proof {
                        assert(within_square(path@[i as int], q, hh));
                        assert forall|r: Vector3i| #[trigger]
                            plan_done(path@, hh, i as int, x as int, y + 1, r) == (plan_done(
                                path@,
                                hh,
                                i as int,
                                x as int,
                                y as int,
                                r,
                            ) || r == q) by {}
                    }
                    match self.map.get(q) {
                        None => {
                            proof {
                                assert(!plan_done(path@, hh, i as int, x as int, y as int, q));
                                assert(!m0.contains_key(q));
                            }
                            self.build_column(q, false, hull, air, vacuum);
                            tiles.push(q);
                            proof {
                                assert(!tiles_before.contains(q));
                                assert forall|r: Vector3i| #[trigger] tiles@.contains(r) == (
                                tiles_before.contains(r) || r == q) by {
                                    if tiles@.contains(r) {
                                        let k = choose|k: int| 0 <= k < tiles@.len() && tiles@[k] == r;
                                        if k < tiles_before.len() {
                                            assert(tiles_before[k] == r);
                                        }
                                    }
                                    if tiles_before.contains(r) {
                                        let k = choose|k: int| 0 <= k < tiles_before.len() && tiles_before[k] == r;
                                        assert(tiles@[k] == r);
                                    }
                                    if r == q {
                                        assert(tiles@[tiles@.len() - 1] == r);
                                    }
                                }
                            }
                        },
                        Some(t) => {
                            if !t.passable {
                                proof {
                                    assert(m0.contains_key(q) && m0[q] == t);
                                }
                                if !holds_position(&tiles, q) {
                                    tiles.push(q);
                                    proof {
                                        assert forall|r: Vector3i| #[trigger] tiles@.contains(r) == (
                                        tiles_before.contains(r) || r == q) by {
                                            if tiles@.contains(r) {
                                                let k = choose|k: int| 0 <= k < tiles@.len() && tiles@[k] == r;
                                                if k < tiles_before.len() {
                                                    assert(tiles_before[k] == r);
                                                }
                                            }
                                            if tiles_before.contains(r) {
                                                let k = choose|k: int|
                                                    0 <= k < tiles_before.len() && tiles_before[k] == r;
                                                assert(tiles@[k] == r);
                                            }
                                            if r == q {
                                                assert(tiles@[tiles@.len() - 1] == r);
                                            }
                                        }
                                    }
                                }
                            } else {
                                proof {
                                    if plan_done(path@, hh, i as int, x as int, y as int, q) && !m0.contains_key(q) {
                                        assert(tiles_before.contains(q));
                                    }
                                }
                            }
                        },
                    }
                    proof {
                        let next = corridor_floor(m0, path@, hh, i as int, x as int, y + 1, z0, hull, air, vacuum);
                        assert forall|p: Vector3i|
                            #[trigger] column_laid(m0, path@, hh, i as int, x as int, y + 1, z0, p, hull, air, vacuum)
                                == (column_laid(m0, path@, hh, i as int, x as int, y as int, z0, p, hull, air, vacuum)
                                || (p.x == q.x && p.y == q.y && !m0.contains_key(q)
                                && corridor_column_tile(p.z - z0, hull, air, vacuum) is Some)) by {
                            let r = Vector3i::of(p.x as int, p.y as int, z0);
                            assert(r == q <==> (p.x == q.x && p.y == q.y));
                        }
                        assert(self.map@ =~= next);
                        assert(cells_laid(m0, path@, hh, i as int, x as int, y + 1, tiles@));
                    }
                    y = y + 1;
                }
                proof {
                    assert forall|r: Vector3i| #[trigger]
                        plan_done(path@, hh, i as int, x as int, hh + 1, r) == plan_done(
                            path@,
                            hh,
                            i as int,
                            x + 1,
                            -hh,
                            r,
                        ) by {}
                    assert(corridor_floor(m0, path@, hh, i as int, x as int, hh + 1, z0, hull, air, vacuum)
                        =~= corridor_floor(m0, path@, hh, i as int, x + 1, -hh, z0, hull, air, vacuum));
                }
                x = x + 1;
            }
            proof {
                assert forall|r: Vector3i| #[trigger]
                    plan_done(path@, hh, i as int, hh + 1, -hh, r) == plan_done(
                        path@,
                        hh,
                        i + 1,
                        -hh,
                        -hh,
                        r,
                    ) by {
                    if within_square(path@[i as int], r, hh) {
                        assert(squares_before(path@, hh, i + 1, r));
                    }
                    if squares_before(path@, hh, i + 1, r) {
                        let j = choose|j: int| 0 <= j < i + 1 && #[trigger] within_square(path@[j], r, hh);
                        if j < i {
                            assert(squares_before(path@, hh, i as int, r));
                        }
                    }
                }
                assert(corridor_floor(m0, path@, hh, i as int, hh + 1, -hh, z0, hull, air, vacuum)
                    =~= corridor_floor(m0, path@, hh, i + 1, -hh, -hh, z0, hull, air, vacuum));
            }
            i = i + 1;
        }
        proof {
            assert forall|r: Vector3i| #[trigger]
                plan_done(path@, hh, path@.len() as int, -hh, -hh, r) == plan_done(
                    path@,
                    hh,
                    path@.len() as int,
                    0,
                    0,
                    r,
                ) by {}
            assert(corridor_floor(m0, path@, hh, path@.len() as int, -hh, -hh, z0, hull, air, vacuum)
                =~= corridor_floor(m0, path@, hh, path@.len() as int, 0, 0, z0, hull, air, vacuum));
        }
        tiles
    }
}

/// `floor` with hull over those edge cells of the corridor that are among the first
/// `j` of `tiles`.
pub open spec fn walls_done(
    floor: Map<Vector3i, Tile>,
    m: Map<Vector3i, Tile>,
    path: Seq<Vector3i>,
    h: int,
    z0: int,
    hull: Tile,
    tiles: Seq<Vector3i>,
    j: int,
) -> Map<Vector3i, Tile> {
    Map::new(
        |p: Vector3i|
            (tiles.subrange(0, j).contains(Vector3i::of(p.x as int, p.y as int, z0)) && corridor_edge(
                m,
                path,
                h,
                Vector3i::of(p.x as int, p.y as int, z0),
            ) && (p.z == z0 || p.z == z0 + 1)) || floor.contains_key(p),
        |p: Vector3i|
            if tiles.subrange(0, j).contains(Vector3i::of(p.x as int, p.y as int, z0)) && corridor_edge(
                m,
                path,
                h,
                Vector3i::of(p.x as int, p.y as int, z0),
            ) && (p.z == z0 || p.z == z0 + 1) {
                hull
            } else {
                floor[p]
            },
    )
}

impl SmallCargoShipMapBuilder {
    /// Puts hull on the two levels of air over each corridor cell of `tiles` that has
    /// fewer than four cardinal neighbours among them. Gives those cells, in the
    /// order of `tiles`.
    fn wall_corridor_edges(
        &mut self,
        tiles: &Vec<Vector3i>,
        hull: Tile,
        Ghost(m): Ghost<Map<Vector3i, Tile>>,
        Ghost(path): Ghost<Seq<Vector3i>>,
        Ghost(h): Ghost<int>,
        z0: i32,
    ) -> (nodes: Vec<Vector3i>)
        requires
            -0x7400_0000 <= z0 <= 0x7400_0000,
            tiles@.no_duplicates(),
            forall|q: Vector3i| #[trigger] tiles@.contains(q) <==> corridor_cell(m, path, h, q),
            forall|q: Vector3i|
                #[trigger] tiles@.contains(q) ==> q.z == z0 && i32::MIN < q.x < i32::MAX && i32::MIN
                    < q.y < i32::MAX,
        ensures
            final(self).map@ == corridor_walls(old(self).map@, m, path, h, z0 as int, hull),
            nodes@.no_duplicates(),
            forall|q: Vector3i| #[trigger] nodes@.contains(q) <==> corridor_edge(m, path, h, q),
            final(self).start_position == old(self).start_position,
            final(self).areas == old(self).areas,
            final(self).blueprints == old(self).blueprints,
    {
        let ghost floor = self.map@;
        let mut nodes: Vec<Vector3i> = Vec::new();
        let mut j: usize = 0;
        proof {
            assert(self.map@ =~= walls_done(floor, m, path, h, z0 as int, hull, tiles@, 0));
        }
        while j < tiles.len()
            invariant
                -0x7400_0000 <= z0 <= 0x7400_0000,
                tiles@.no_duplicates(),
                forall|q: Vector3i| #[trigger] tiles@.contains(q) <==> corridor_cell(m, path, h, q),
                forall|q: Vector3i|
                    #[trigger] tiles@.contains(q) ==> q.z == z0 && i32::MIN < q.x < i32::MAX && i32::MIN
                        < q.y < i32::MAX,
                0 <= j <= tiles.len(),
                self.map@ == walls_done(floor, m, path, h, z0 as int, hull, tiles@, j as int),
                nodes@.no_duplicates(),
                forall|q: Vector3i|
                    #[trigger] nodes@.contains(q) <==> tiles@.subrange(0, j as int).contains(q)
                        && corridor_edge(m, path, h, q),
                self.start_position == old(self).start_position,
                self.areas == old(self).areas,
                self.blueprints == old(self).blueprints,
            decreases tiles.len() - j,
        {
            let q = tiles[j];
            assert(tiles@.contains(q));
            let neighbours = get_cardinal_neighbours(q);
            let mut count: usize = 0;
            let mut k: usize = 0;
            while k < 4
                invariant
                    0 <= k <= 4,
                    neighbours@ == cardinal_neighbours_spec(q),
                    forall|r: Vector3i| #[trigger] tiles@.contains(r) <==> corridor_cell(m, path, h, r),
                    count == cells_among(m, path, h, neighbours@, k as int),
                    count <= k,
                decreases 4 - k,
            {
                if holds_position(tiles, neighbours[k]) {
                    count = count + 1;
                }
                k = k + 1;
            }
            let ghost before = self.map@;
            let ghost nodes_before = nodes@;
            proof {
                assert forall|r: Vector3i| #[trigger] tiles@.subrange(0, j + 1).contains(r) == (
                tiles@.subrange(0, j as int).contains(r) || r == q) by {
                    if tiles@.subrange(0, j + 1).contains(r) {
                        let k = choose|k: int| 0 <= k < j + 1 && #[trigger] tiles@.subrange(0, j + 1)[k] == r;
                        if k < j {
                            assert(tiles@.subrange(0, j as int)[k] == r);
                        }
                    }
                    if tiles@.subrange(0, j as int).contains(r) {
                        let k = choose|k: int| 0 <= k < j && #[trigger] tiles@.subrange(0, j as int)[k] == r;
                        assert(tiles@.subrange(0, j + 1)[k] == r);
                    }
                    if r == q {
                        assert(tiles@.subrange(0, j + 1)[j as int] == r);
                    }
                }
                assert(!tiles@.subrange(0, j as int).contains(q)) by {
                    if tiles@.subrange(0, j as int).contains(q) {
                        let k = choose|k: int| 0 <= k < j && #[trigger] tiles@.subrange(0, j as int)[k] == q;
                        assert(tiles@[k] == tiles@[j as int]);
                    }
                }
            }
            if count < 4 {
                proof {
                    assert(!nodes_before.contains(q));
                }
                let above = Vector3i::new(q.x, q.y, q.z + 1);
                self.map.insert(q, hull);
                self.map.insert(above, hull);
                nodes.push(q);
                proof {
                    assert forall|r: Vector3i| #[trigger] nodes@.contains(r) == (nodes_before.contains(r)
                        || r == q) by {
                        if nodes@.contains(r) {
                            let k = choose|k: int| 0 <= k < nodes@.len() && nodes@[k] == r;
                            if k < nodes_before.len() {
                                assert(nodes_before[k] == r);
                            }
                        }
                        if nodes_before.contains(r) {
                            let k = choose|k: int| 0 <= k < nodes_before.len() && nodes_before[k] == r;
                            assert(nodes@[k] == r);
                        }
                        if r == q {
                            assert(nodes@[nodes@.len() - 1] == r);
                        }
                    }
                    assert forall|a: int, b: int|
                        0 <= a < nodes@.len() && 0 <= b < nodes@.len() && a != b implies nodes@[a]
                        != nodes@[b] by {
                        if a < nodes_before.len() && b < nodes_before.len() {
                            assert(nodes_before[a] != nodes_before[b]);
                        } else if a < nodes_before.len() {
                            assert(nodes_before.contains(nodes@[a]));
                        } else if b < nodes_before.len() {
                            assert(nodes_before.contains(nodes@[b]));
                        }
                    }
                }
            }
            proof {
                let next = walls_done(floor, m, path, h, z0 as int, hull, tiles@, j + 1);
                assert forall|p: Vector3i| #[trigger] next.contains_key(p) == self.map@.contains_key(p)
                    && (next.contains_key(p) ==> next[p] == self.map@[p]) by {
                    let r = Vector3i::of(p.x as int, p.y as int, z0 as int);
                    assert(r == q <==> (p.x == q.x && p.y == q.y));
                }
                assert(self.map@ =~= next);
            }
            j = j + 1;
        }
        proof {
            assert(tiles@.subrange(0, tiles@.len() as int) =~= tiles@);
            let done = walls_done(floor, m, path, h, z0 as int, hull, tiles@, tiles@.len() as int);
            let target = corridor_walls(floor, m, path, h, z0 as int, hull);
            assert forall|p: Vector3i| #[trigger] done.contains_key(p) == target.contains_key(p) && (
            done.contains_key(p) ==> done[p] == target[p]) by {
                let r = Vector3i::of(p.x as int, p.y as int, z0 as int);
                if corridor_edge(m, path, h, r) {
                    assert(tiles@.contains(r));
                }
            }
            assert(done =~= target);
        }
        nodes
    }
}

/// What building a corridor along `path` does: `new_map` is `old_map` with the
/// corridor built, and `new_nodes` is `old_nodes` followed by the corridor's edge
/// cells, each once.
pub open spec fn corridor_built(
    old_map: Map<Vector3i, Tile>,
    new_map: Map<Vector3i, Tile>,
    old_nodes: Seq<Vector3i>,
    new_nodes: Seq<Vector3i>,
    path: Seq<Vector3i>,
    h: int,
    hull: Tile,
    air: Tile,
    vacuum: Tile,
) -> bool {
    let added = new_nodes.subrange(old_nodes.len() as int, new_nodes.len() as int);
    &&& new_map == built_corridor_map(old_map, path, h, hull, air, vacuum)
    &&& new_nodes.len() >= old_nodes.len()
    &&& new_nodes.subrange(0, old_nodes.len() as int) == old_nodes
    &&& added.no_duplicates()
    &&& forall|q: Vector3i| #[trigger] added.contains(q) <==> corridor_edge(old_map, path, h, q)
}

impl SmallCargoShipMapBuilder {
    /// Builds `corridor` along the route the search finds from its start to its end,
    /// keeping a passage of its width clear: a column of hull floor, two levels of
    /// air, hull ceiling and an empty level over every cell of the route's floor plan
    /// where the map is empty; then hull on both levels of air over every cell of the
    /// corridor (empty or impassable before) with fewer than four cardinal
    /// neighbours in the corridor. Those edge cells become the corridor's nodes.
    pub fn build_corridor(&mut self, corridor: &mut Corridor)
        requires
            search_fits(old(corridor).start, SEARCH_LIMIT as int, old(corridor).width as int / 2),
            old(corridor).width <= 0x20_0000,
            -0x7400_0000 <= old(corridor).start.z <= 0x7400_0000,
        ensures
            exists|path: Seq<Vector3i>|
                corridor_route(
                    old(self).map@,
                    old(corridor).start,
                    old(corridor).end,
                    old(corridor).width,
                    path,
                ) && #[trigger] corridor_built(
                    old(self).map@,
                    final(self).map@,
                    old(corridor).nodes@,
                    final(corridor).nodes@,
                    path,
                    old(corridor).width as int / 2,
                    tile_or_empty(old(self).blueprints, "hull"@),
                    tile_or_empty(old(self).blueprints, "breathable_atmosphere"@),
                    Tile::new_vacuume_spec(),
                ),
            final(corridor).start == old(corridor).start,
            final(corridor).end == old(corridor).end,
            final(corridor).width == old(corridor).width,
            final(corridor).area_id == old(corridor).area_id,
            final(corridor).area_name == old(corridor).area_name,
            final(corridor).area_type == old(corridor).area_type,
            final(corridor).connected_areas == old(corridor).connected_areas,
            final(corridor).breaker_position == old(corridor).breaker_position,
            final(corridor).power_connections == old(corridor).power_connections,
            final(corridor).size == old(corridor).size,
            final(self).start_position == old(self).start_position,
            final(self).areas == old(self).areas,
            final(self).blueprints == old(self).blueprints,
    {
        let (hull, air, _) = self.building_tiles();
        let vacuum = Tile::new_vacuume();
        proof {
            lemma_air_passable(self.blueprints);
        }
        let ghost m0 = self.map@;
        let path = find_path_with_width(&self.map, corridor.start, corridor.end, corridor.width);
        let half_width = (corridor.width / 2) as i32;
        let ghost hh = half_width as int;
        let z0 = corridor.start.z;
        proof {
            assert forall|k: int| 0 <= k < path@.len() implies square_fits(
                #[trigger] path@[k],
                path@[0].z as int,
                hh,
            ) by {
                assert(within_reach(corridor.start, path@[k], 141 * SEARCH_LIMIT));
            }
        }
        let tiles = self.lay_corridor_floor(&path, half_width, hull, air, vacuum);
        proof {
            assert forall|q: Vector3i| #[trigger] tiles@.contains(q) implies q.z == z0 && i32::MIN
                < q.x < i32::MAX && i32::MIN < q.y < i32::MAX by {
                assert(corridor_cell(m0, path@, hh, q));
                let j = choose|j: int| 0 <= j < path@.len() && #[trigger] within_square(path@[j], q, hh);
                assert(within_reach(corridor.start, path@[j], 141 * SEARCH_LIMIT));
            }
        }
        let nodes = self.wall_corridor_edges(&tiles, hull, Ghost(m0), Ghost(path@), Ghost(hh), z0);
        let ghost old_nodes = corridor.nodes@;
        crate::map::pathfinding::append_all(&mut corridor.nodes, &nodes);
        proof {
            assert(corridor.nodes@.subrange(0, old_nodes.len() as int) =~= old_nodes);
            assert(corridor.nodes@.subrange(old_nodes.len() as int, corridor.nodes@.len() as int) =~= nodes@);
            assert(corridor_built(
                m0,
                self.map@,
                old_nodes,
                corridor.nodes@,
                path@,
                hh,
                hull,
                air,
                vacuum,
            ));
        }
    }
}

} // verus!
