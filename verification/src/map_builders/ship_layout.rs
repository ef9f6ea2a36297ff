use vstd::prelude::*;

use rltk::RandomNumberGenerator;

use crate::map::pathfinding::{search_fits, SEARCH_LIMIT};
use crate::map_builders::common::{AreaType, Corridor, Room, ShipArea};
use crate::map_builders::ship_corridors::{corridor_built, corridor_edge, corridor_route, within_square};
use crate::map::tile_blueprints::TileBlueprints;
use crate::map::Tile;
use crate::map_builders::small_cargo_ship::{
    lemma_room_attempt, room_attempt, room_fits, tile_or_empty, SmallCargoShipMapBuilder,
};
use crate::vectors::Vector3i;

verus! {

broadcast use vstd::seq_lib::group_to_multiset_ensures;

/// `a` comes before `b` in the order of positions: by x, then by y, then by z.
pub open spec fn position_before(a: Vector3i, b: Vector3i) -> bool {
    ||| a.x < b.x
    ||| a.x == b.x && a.y < b.y
    ||| a.x == b.x && a.y == b.y && a.z < b.z
}

/// The positions of `s` are in ascending order.
pub open spec fn positions_sorted(s: Seq<Vector3i>) -> bool {
    forall|i: int, j: int| 0 <= i < j < s.len() ==> !position_before(#[trigger] s[j], #[trigger] s[i])
}

/// The positions of `v` in ascending order. Equal positions are the same value, so
/// the order of equal positions among themselves makes no difference to the result.
pub fn sort_positions(v: &Vec<Vector3i>) -> (r: Vec<Vector3i>)
    ensures
        positions_sorted(r@),
        r@.to_multiset() == v@.to_multiset(),
        r@.len() == v@.len(),
{
    let mut r: Vec<Vector3i> = Vec::new();
    let mut i: usize = 0;
    while i < v.len()
        invariant
            0 <= i <= v.len(),
            positions_sorted(r@),
            r@.to_multiset() == v@.subrange(0, i as int).to_multiset(),
            r@.len() == i,
        decreases v.len() - i,
    {
        let e = v[i];
        let mut k: usize = 0;
        while k < r.len() && !(e.x < r[k].x || (e.x == r[k].x && (e.y < r[k].y || (e.y == r[k].y
            && e.z < r[k].z))))
            invariant
                0 <= k <= r.len(),
                forall|j: int| 0 <= j < k ==> !position_before(e, #[trigger] r@[j]),
            decreases r.len() - k,
        {
            k = k + 1;
        }
        let ghost before = r@;
        r.insert(k, e);
        proof {
            assert(v@.subrange(0, i + 1) =~= v@.subrange(0, i as int).push(e));
            assert forall|a: int, b: int| 0 <= a < b < r@.len() implies !position_before(
                #[trigger] r@[b],
                #[trigger] r@[a],
            ) by {
                if b < k {
                    assert(r@[a] == before[a] && r@[b] == before[b]);
                } else if b == k {
                    assert(r@[a] == before[a]);
                } else if a < k {
                    assert(r@[a] == before[a] && r@[b] == before[b - 1]);
                    if k < before.len() {
                        assert(position_before(e, before[k as int]));
                        assert(!position_before(before[b - 1], before[k as int]) || b - 1 == k);
                    }
                } else if a == k {
                    assert(r@[b] == before[b - 1]);
                    assert(position_before(e, before[k as int]));
                    assert(!position_before(before[b - 1], before[k as int]) || b - 1 == k);
                } else {
                    assert(r@[a] == before[a - 1] && r@[b] == before[b - 1]);
                }
            }
        }
        i = i + 1;
    }
    proof {
        assert(v@.subrange(0, v@.len() as int) =~= v@);
    }
    r
}

/// The entries of `s` are in strictly ascending order of their keys.
pub open spec fn keys_ascending(s: Seq<(i32, Vector3i)>) -> bool {
    forall|i: int, j: int| 0 <= i < j < s.len() ==> (#[trigger] s[i]).0 < (#[trigger] s[j]).0
}

/// Files `node` under `key` in `entries`, which are kept in ascending order of key;
/// a node already filed under `key` is replaced.
pub fn file_under_key(entries: &mut Vec<(i32, Vector3i)>, key: i32, node: Vector3i)
    requires
        keys_ascending(old(entries)@),
    ensures
        keys_ascending(final(entries)@),
        final(entries)@.len() <= old(entries)@.len() + 1,
        final(entries)@.contains((key, node)),
        forall|e: (i32, Vector3i)|
            #[trigger] final(entries)@.contains(e) <==> (e == (key, node) || (old(entries)@.contains(e)
                && e.0 != key)),
{
    let mut k: usize = 0;
    while k < entries.len() && entries[k].0 < key
        invariant
            0 <= k <= entries.len(),
            keys_ascending(entries@),
            forall|j: int| 0 <= j < k ==> (#[trigger] entries@[j]).0 < key,
        decreases entries.len() - k,
    {
        k = k + 1;
    }
    let ghost before = entries@;
    if k < entries.len() && entries[k].0 == key {
        entries.set(k, (key, node));
        proof {
            assert forall|e: (i32, Vector3i)| #[trigger] entries@.contains(e) <==> (e == (key, node) || (
            before.contains(e) && e.0 != key)) by {
                if entries@.contains(e) {
                    let j = choose|j: int| 0 <= j < entries@.len() && entries@[j] == e;
                    if j != k {
                        assert(before[j] == e);
                    }
                }
                if before.contains(e) && e.0 != key {
                    let j = choose|j: int| 0 <= j < before.len() && before[j] == e;
                    assert(j != k);
                    assert(entries@[j] == e);
                }
                if e == (key, node) {
                    assert(entries@[k as int] == e);
                }
            }
        }
    } else {
        entries.insert(k, (key, node));
        proof {
            assert forall|i: int, j: int| 0 <= i < j < entries@.len() implies (
            #[trigger] entries@[i]).0 < (#[trigger] entries@[j]).0 by {
                if j < k {
                    assert(entries@[i] == before[i] && entries@[j] == before[j]);
                } else if j == k {
                    assert(entries@[i] == before[i]);
                } else if i < k {
                    assert(entries@[i] == before[i] && entries@[j] == before[j - 1]);
                    assert(before[k as int].0 > key);
                    assert(j - 1 == k || before[k as int].0 < before[j - 1].0);
                } else if i == k {
                    assert(entries@[j] == before[j - 1]);
                    assert(before[k as int].0 > key);
                    assert(j - 1 == k || before[k as int].0 < before[j - 1].0);
                } else {
                    assert(entries@[i] == before[i - 1] && entries@[j] == before[j - 1]);
                }
            }
            assert forall|e: (i32, Vector3i)| #[trigger] entries@.contains(e) <==> (e == (key, node) || (
            before.contains(e) && e.0 != key)) by {
                if entries@.contains(e) {
                    let j = choose|j: int| 0 <= j < entries@.len() && entries@[j] == e;
                    if j < k {
                        assert(before[j] == e);
                    } else if j > k {
                        assert(before[j - 1] == e);
                    }
                }
                if before.contains(e) && e.0 != key {
                    let j = choose|j: int| 0 <= j < before.len() && before[j] == e;
                    if j < k {
                        assert(entries@[j] == e);
                    } else {
                        assert(entries@[j + 1] == e);
                    }
                }
                if e == (key, node) {
                    assert(entries@[k as int] == e);
                }
            }
        }
    }
}

/// `entries` files each node of `nodes` under the key at the same index of `keys`,
/// in ascending order of key; of the nodes given the same key, the last one stays.
pub open spec fn filed_by_keys(nodes: Seq<Vector3i>, keys: Seq<i32>, entries: Seq<(i32, Vector3i)>) -> bool {
    &&& keys_ascending(entries)
    &&& forall|e: (i32, Vector3i)|
        #[trigger] entries.contains(e) <==> exists|j: int|
            0 <= j < nodes.len() && #[trigger] keys[j] == e.0 && nodes[j] == e.1 && forall|l: int|
                j < l < nodes.len() ==> #[trigger] keys[l] != e.0
}

/// Files each node of `nodes` under the key at the same index of `keys`, a later node
/// replacing an earlier one under the same key; the entries come in ascending order
/// of key.
pub fn file_by_keys(nodes: &Vec<Vector3i>, keys: &Vec<i32>) -> (entries: Vec<(i32, Vector3i)>)
    requires
        keys@.len() == nodes@.len(),
    ensures
        filed_by_keys(nodes@, keys@, entries@),
        entries@.len() <= nodes@.len(),
{
    let mut entries: Vec<(i32, Vector3i)> = Vec::new();
    let mut i: usize = 0;
    while i < nodes.len()
        invariant
            keys@.len() == nodes@.len(),
            0 <= i <= nodes.len(),
            filed_by_keys(nodes@.subrange(0, i as int), keys@.subrange(0, i as int), entries@),
            entries@.len() <= i,
        decreases nodes.len() - i,
    {
        let ghost before = entries@;
        file_under_key(&mut entries, keys[i], nodes[i]);
        proof {
            let ns = nodes@.subrange(0, i + 1);
            let ks = keys@.subrange(0, i + 1);
            let ns0 = nodes@.subrange(0, i as int);
            let ks0 = keys@.subrange(0, i as int);
            assert forall|e: (i32, Vector3i)| #[trigger] entries@.contains(e) <==> exists|j: int|
                0 <= j < ns.len() && #[trigger] ks[j] == e.0 && ns[j] == e.1 && forall|l: int|
                    j < l < ns.len() ==> #[trigger] ks[l] != e.0 by {
                if entries@.contains(e) {
                    if e == (keys@[i as int], nodes@[i as int]) {
                        assert(ks[i as int] == e.0 && ns[i as int] == e.1);
                    } else {
                        assert(before.contains(e) && e.0 != keys@[i as int]);
                        let j = choose|j: int|
                            0 <= j < ns0.len() && #[trigger] ks0[j] == e.0 && ns0[j] == e.1 && forall|l: int|
                                j < l < ns0.len() ==> #[trigger] ks0[l] != e.0;
                        assert(ks[j] == e.0 && ns[j] == e.1);
                        assert forall|l: int| j < l < ns.len() implies #[trigger] ks[l] != e.0 by {
                            if l < i {
                                assert(ks0[l] == ks[l]);
                            }
                        }
                    }
                }
                if exists|j: int|
                    0 <= j < ns.len() && #[trigger] ks[j] == e.0 && ns[j] == e.1 && forall|l: int|
                        j < l < ns.len() ==> #[trigger] ks[l] != e.0 {
                    let j = choose|j: int|
                        0 <= j < ns.len() && #[trigger] ks[j] == e.0 && ns[j] == e.1 && forall|l: int|
                            j < l < ns.len() ==> #[trigger] ks[l] != e.0;
                    if j == i {
                        assert(e == (keys@[i as int], nodes@[i as int]));
                    } else {
                        assert(ks[i as int] != e.0);
                        assert(ks0[j] == e.0 && ns0[j] == e.1);
                        assert forall|l: int| j < l < ns0.len() implies #[trigger] ks0[l] != e.0 by {
                            assert(ks[l] == ks0[l]);
                        }
                        assert(before.contains(e));
                    }
                }
            }
        }
        i = i + 1;
    }
    proof {
        assert(nodes@.subrange(0, nodes@.len() as int) =~= nodes@);
        assert(keys@.subrange(0, keys@.len() as int) =~= keys@);
    }
    entries
}

/// `a` is a room of `area_type`, named `name`, of size `size`.
pub open spec fn is_room(a: ShipArea, area_type: AreaType, name: Seq<char>, size: Vector3i) -> bool {
    a matches ShipArea::Room(r) && r.area_type == area_type && r.area_name@ == name && r.size == size
}

/// `a` and `b` are a generic room and its mirror image: two generic rooms of one
/// square floor plan, between 5 and 9 cells wide, 4 levels high.
pub open spec fn generic_pair(a: ShipArea, b: ShipArea) -> bool {
    &&& a matches ShipArea::Room(r)
    &&& b matches ShipArea::Room(m)
    &&& r.area_type == AreaType::GenericRoom
    &&& m.area_type == AreaType::GenericRoom
    &&& r.area_name@ == "generic"@
    &&& m.area_name@ == "generic"@
    &&& r.size == m.size
    &&& 5 <= r.size.x <= 9
    &&& r.size.y == r.size.x
    &&& r.size.z == 4
}

/// The areas a ship layout adds after the first `n0`: the main corridor from
/// `start`, the cockpit, the engineering room, then generic rooms in mirrored pairs,
/// at most one pair for each node of the main corridor.
pub open spec fn ship_areas(areas: Seq<ShipArea>, n0: int, start: Vector3i) -> bool {
    let pairs = (areas.len() - n0 - 3) / 2;
    &&& areas.len() >= n0 + 3
    &&& (areas.len() - n0 - 3) % 2 == 0
    &&& areas[n0] matches ShipArea::Corridor(c) && c.start == start && c.end == Vector3i::of(
        start.x + 40,
        start.y as int,
        start.z as int,
    ) && c.width == 7 && c.area_type == AreaType::Corridor && c.area_name@ == "Main corridor"@
        && pairs <= c.nodes@.len()
    &&& is_room(areas[n0 + 1], AreaType::Cockpit, "cockpit"@, Vector3i::of(7, 9, 4))
    &&& is_room(areas[n0 + 2], AreaType::GeneratorRoom, "engineering"@, Vector3i::of(7, 9, 4))
    &&& forall|k: int| 0 <= k < pairs ==> generic_pair(#[trigger] areas[n0 + 3 + 2 * k], areas[n0 + 4 + 2 * k])
}

/// `maps` are the map before and after each of the `tried` rooms (centre and size) in
/// turn is attempted.
pub open spec fn rooms_attempted(
    blueprints: TileBlueprints,
    maps: Seq<Map<Vector3i, Tile>>,
    tried: Seq<(Vector3i, Vector3i)>,
) -> bool {
    &&& maps.len() == tried.len() + 1
    &&& forall|k: int|
        0 <= k < tried.len() ==> #[trigger] room_attempt(blueprints, maps[k], maps[k + 1], tried[k].0, tried[k].1)
}

/// A generic room tried at one of `nodes` or at its mirror image across the x axis, of
/// a square floor plan 5 to 9 cells wide, 4 levels high.
pub open spec fn generic_try(t: (Vector3i, Vector3i), nodes: Seq<Vector3i>) -> bool {
    &&& 5 <= t.1.x <= 9
    &&& t.1.y == t.1.x
    &&& t.1.z == 4
    &&& nodes.contains(t.0) || nodes.contains(Vector3i::of(t.0.x as int, -t.0.y, t.0.z as int))
}

/// `m` is `m0` with the main corridor from `start` built along a route the corridor
/// search gave, its nodes `nodes`, then the cockpit past its east end, the engineering
/// room past its west end and generic rooms at its nodes tried in turn, each built
/// where it fits.
pub open spec fn ship_map_built(
    blueprints: TileBlueprints,
    m0: Map<Vector3i, Tile>,
    m: Map<Vector3i, Tile>,
    start: Vector3i,
    nodes: Seq<Vector3i>,
) -> bool {
    let end = Vector3i::of(start.x + 40, start.y as int, start.z as int);
    exists|path: Seq<Vector3i>, maps: Seq<Map<Vector3i, Tile>>, tried: Seq<(Vector3i, Vector3i)>|
        #![trigger corridor_route(m0, start, end, 7, path), rooms_attempted(blueprints, maps, tried)]
        corridor_route(m0, start, end, 7, path) && corridor_built(
            m0,
            maps[0],
            Seq::<Vector3i>::empty(),
            nodes,
            path,
            3,
            tile_or_empty(blueprints, "hull"@),
            tile_or_empty(blueprints, "breathable_atmosphere"@),
            Tile::new_vacuume_spec(),
        ) && rooms_attempted(blueprints, maps, tried) && maps.last() == m && tried.len() >= 2 && tried[0]
            == (Vector3i::of(start.x + 43, start.y as int, start.z as int), Vector3i::of(7, 9, 4))
            && tried[1] == (Vector3i::of(start.x - 3, start.y as int, start.z as int), Vector3i::of(7, 9, 4))
            && forall|k: int| 2 <= k < tried.len() ==> #[trigger] generic_try(tried[k], nodes)
}

/// One more room attempt extends the attempts so far.
proof fn lemma_attempted_push(
    blueprints: TileBlueprints,
    maps: Seq<Map<Vector3i, Tile>>,
    tried: Seq<(Vector3i, Vector3i)>,
    m: Map<Vector3i, Tile>,
    t: (Vector3i, Vector3i),
)
    requires
        rooms_attempted(blueprints, maps, tried),
        room_attempt(blueprints, maps.last(), m, t.0, t.1),
    ensures
        rooms_attempted(blueprints, maps.push(m), tried.push(t)),
        maps.push(m)[0] == maps[0],
        forall|k: int| 0 <= k < tried.len() ==> #[trigger] tried.push(t)[k] == tried[k],
{
    let maps2 = maps.push(m);
    let tried2 = tried.push(t);
    assert forall|k: int| 0 <= k < tried2.len() implies #[trigger] room_attempt(
        blueprints,
        maps2[k],
        maps2[k + 1],
        tried2[k].0,
        tried2[k].1,
    ) by {
        if k < tried.len() {
            assert(maps2[k] == maps[k]);
            assert(tried2[k] == tried[k]);
            if k + 1 < maps.len() {
                assert(maps2[k + 1] == maps[k + 1]);
            }
        }
    }
}

/// A position that rooms can be grown from and mirrored across the x axis.
pub open spec fn room_seat(p: Vector3i) -> bool {
    &&& -0x6F00_0000 <= p.x <= 0x6F00_0000
    &&& -0x6F00_0000 <= p.y <= 0x6F00_0000
    &&& -0x6F00_0000 <= p.z <= 0x6F00_0000
}

impl SmallCargoShipMapBuilder {
    /// Lays out the ship from the start position: a main corridor 40 cells east,
    /// 7 wide; a cockpit past its east end and an engineering room past its west
    /// end; then, from each node of the corridor in an order the generator shuffles,
    /// a generic room and its mirror image across the x axis, trying odd sizes from
    /// 5 to 9 down to 5 until both can be built.
    pub fn build_map(&mut self, rng: &mut RandomNumberGenerator)
        requires
            -0x6600_0000 <= old(self).start_position.x <= 0x6600_0000,
            -0x6600_0000 <= old(self).start_position.y <= 0x6600_0000,
            -0x6600_0000 <= old(self).start_position.z <= 0x6600_0000,
        ensures
            final(self).areas@.subrange(0, old(self).areas@.len() as int) == old(self).areas@,
            ship_areas(final(self).areas@, old(self).areas@.len() as int, old(self).start_position),
            ship_map_built(
                old(self).blueprints,
                old(self).map@,
                final(self).map@,
                old(self).start_position,
                final(self).areas@[old(self).areas@.len() as int].nodes_spec(),
            ),
            final(self).start_position == old(self).start_position,
            final(self).blueprints == old(self).blueprints,
    {
        let ghost n0 = self.areas@.len() as int;
        let ghost old_areas = self.areas@;
        let start = self.start_position;
        let end = Vector3i::new(start.x + 40, start.y, start.z);
        let mut back_bone = Corridor::new(
            start,
            end,
            7,
            "Main corridor".to_owned(),
            AreaType::Corridor,
            true,
            rng,
        );
        let ghost m_before = self.map@;
        self.build_corridor(&mut back_bone);
        let ghost m_corr = self.map@;
        let ghost bb_nodes = back_bone.nodes@;
        let ghost cpath = choose|path: Seq<Vector3i>|
            corridor_route(m_before, start, end, 7, path) && #[trigger] corridor_built(
                m_before,
                m_corr,
                Seq::<Vector3i>::empty(),
                bb_nodes,
                path,
                3,
                crate::map_builders::small_cargo_ship::tile_or_empty(self.blueprints, "hull"@),
                crate::map_builders::small_cargo_ship::tile_or_empty(self.blueprints, "breathable_atmosphere"@),
                crate::map::Tile::new_vacuume_spec(),
            );
        let ghost mut maps: Seq<Map<Vector3i, Tile>> = seq![m_corr];
        let ghost mut tried: Seq<(Vector3i, Vector3i)> = Seq::empty();
        let mut open_nodes: Vec<Vector3i> = Vec::new();
        crate::map::pathfinding::append_all(&mut open_nodes, &back_bone.nodes);
        proof {
            let path = choose|path: Seq<Vector3i>|
                corridor_route(m_before, start, end, 7, path) && #[trigger] corridor_built(
                    m_before,
                    self.map@,
                    Seq::<Vector3i>::empty(),
                    back_bone.nodes@,
                    path,
                    3,
                    crate::map_builders::small_cargo_ship::tile_or_empty(self.blueprints, "hull"@),
                    crate::map_builders::small_cargo_ship::tile_or_empty(
                        self.blueprints,
                        "breathable_atmosphere"@,
                    ),
                    crate::map::Tile::new_vacuume_spec(),
                );
            assert(back_bone.nodes@.subrange(0, back_bone.nodes@.len() as int) =~= back_bone.nodes@);
            assert forall|q: Vector3i| #[trigger] open_nodes@.contains(q) implies room_seat(q) by {
                assert(corridor_edge(m_before, path, 3, q));
                let j = choose|j: int| 0 <= j < path.len() && #[trigger] within_square(path[j], q, 3);
                assert(crate::map::pathfinding::within_reach(start, path[j], 141 * SEARCH_LIMIT));
            }
        }
        let ghost corridor_nodes = back_bone.nodes@.len();
        self.areas.push(ShipArea::Corridor(back_bone));
        let stern_room_position = Vector3i::new(start.x + 43, start.y, start.z);
        let mut stern_room = Room::new(
            stern_room_position,
            Vector3i::new(7, 9, 4),
            "cockpit".to_owned(),
            AreaType::Cockpit,
            true,
            rng,
        );
        let ghost mb = self.map@;
        let ghost r0 = stern_room;
        let stern_built = self.build_room(&mut stern_room);
        proof {
            lemma_room_attempt(self.blueprints, mb, self.map@, r0.centre, r0.size, stern_room.nodes@, stern_built, stern_room.centre);
            lemma_attempted_push(self.blueprints, maps, tried, self.map@, (r0.centre, r0.size));
            maps = maps.push(self.map@);
            tried = tried.push((r0.centre, r0.size));
        }
        self.areas.push(ShipArea::Room(stern_room));
        let aft_room_position = Vector3i::new(start.x - 3, start.y, start.z);
        let mut aft_room = Room::new(
            aft_room_position,
            Vector3i::new(7, 9, 4),
            "engineering".to_owned(),
            AreaType::GeneratorRoom,
            true,
            rng,
        );
        let ghost mb = self.map@;
        let ghost r0 = aft_room;
        let aft_built = self.build_room(&mut aft_room);
        proof {
            lemma_room_attempt(self.blueprints, mb, self.map@, r0.centre, r0.size, aft_room.nodes@, aft_built, aft_room.centre);
            lemma_attempted_push(self.blueprints, maps, tried, self.map@, (r0.centre, r0.size));
            maps = maps.push(self.map@);
            tried = tried.push((r0.centre, r0.size));
        }
        self.areas.push(ShipArea::Room(aft_room));
        let sorted_nodes = sort_positions(&open_nodes);
        let mut keys: Vec<i32> = Vec::new();
        let mut k: usize = 0;
        while k < sorted_nodes.len()
            invariant
                0 <= k <= sorted_nodes.len(),
                keys@.len() == k,
            decreases sorted_nodes.len() - k,
        {
            keys.push(crate::rng::random_int(rng));
            k = k + 1;
        }
        let shuffled_nodes = file_by_keys(&sorted_nodes, &keys);
        proof {
            assert forall|e: (i32, Vector3i)| #[trigger] shuffled_nodes@.contains(e) implies room_seat(e.1)
                && bb_nodes.contains(e.1) by {
                let j = choose|j: int|
                    0 <= j < sorted_nodes@.len() && #[trigger] keys@[j] == e.0 && sorted_nodes@[j] == e.1
                        && forall|l: int| j < l < sorted_nodes@.len() ==> #[trigger] keys@[l] != e.0;
                assert(sorted_nodes@.contains(e.1));
                assert(sorted_nodes@.to_multiset().count(e.1) > 0);
                assert(open_nodes@.to_multiset().count(e.1) > 0);
                assert(open_nodes@.contains(e.1));
                assert(open_nodes@ =~= bb_nodes);
            }
            assert(self.areas@.subrange(0, n0) =~= old_areas);
        }
        let mut e: usize = 0;
        while e < shuffled_nodes.len()
            invariant
                0 <= e <= shuffled_nodes.len(),
                shuffled_nodes@.len() <= corridor_nodes,
                0 <= n0,
                forall|x: (i32, Vector3i)| #[trigger] shuffled_nodes@.contains(x) ==> room_seat(x.1)
                    && bb_nodes.contains(x.1),
                self.areas@[n0].nodes_spec() == bb_nodes,
                corridor_route(m_before, start, end, 7, cpath),
                corridor_built(
                    m_before,
                    maps[0],
                    Seq::<Vector3i>::empty(),
                    bb_nodes,
                    cpath,
                    3,
                    crate::map_builders::small_cargo_ship::tile_or_empty(self.blueprints, "hull"@),
                    crate::map_builders::small_cargo_ship::tile_or_empty(self.blueprints, "breathable_atmosphere"@),
                    crate::map::Tile::new_vacuume_spec(),
                ),
                rooms_attempted(self.blueprints, maps, tried),
                maps.last() == self.map@,
                tried.len() >= 2,
                tried[0] == (Vector3i::of(start.x + 43, start.y as int, start.z as int), Vector3i::of(7, 9, 4)),
                tried[1] == (Vector3i::of(start.x - 3, start.y as int, start.z as int), Vector3i::of(7, 9, 4)),
                forall|k: int| 2 <= k < tried.len() ==> #[trigger] generic_try(tried[k], bb_nodes),
                self.areas@.len() >= n0 + 3,
                (self.areas@.len() - n0 - 3) % 2 == 0,
                (self.areas@.len() - n0 - 3) / 2 <= e,
                self.areas@.subrange(0, n0) == old_areas,
                self.areas@[n0] matches ShipArea::Corridor(c) && c.start == start && c.end == end
                    && c.width == 7 && c.area_type == AreaType::Corridor && c.area_name@
                    == "Main corridor"@ && c.nodes@.len() == corridor_nodes,
                is_room(self.areas@[n0 + 1], AreaType::Cockpit, "cockpit"@, Vector3i::of(7, 9, 4)),
                is_room(self.areas@[n0 + 2], AreaType::GeneratorRoom, "engineering"@, Vector3i::of(7, 9, 4)),
                forall|k: int|
                    0 <= k < (self.areas@.len() - n0 - 3) / 2 ==> generic_pair(
                        #[trigger] self.areas@[n0 + 3 + 2 * k],
                        self.areas@[n0 + 4 + 2 * k],
                    ),
                self.start_position == start,
                self.blueprints == old(self).blueprints,
            decreases shuffled_nodes.len() - e,
        {
            let node = shuffled_nodes[e].1;
            assert(shuffled_nodes@.contains(shuffled_nodes@[e as int]));
            let first = crate::rng::range(rng, 5, 10);
            let mut dimension: i32 = first | 1;
            assert(5 <= first < 10 ==> 5 <= (first | 1) <= 9) by (bit_vector);
            let ghost areas_before = self.areas@;
            let ghost tried_before = tried;
            let ghost m_corr0 = maps[0];
            assert(shuffled_nodes@.contains(shuffled_nodes@[e as int]));
            while dimension >= 5
                invariant_except_break
                    self.areas@ == areas_before,
                invariant
                    dimension <= 9,
                    room_seat(node),
                    bb_nodes.contains(node),
                    rooms_attempted(self.blueprints, maps, tried),
                    maps.last() == self.map@,
                    maps[0] == m_corr0,
                    tried.len() >= tried_before.len(),
                    forall|k: int| 0 <= k < tried_before.len() ==> #[trigger] tried[k] == tried_before[k],
                    forall|k: int| tried_before.len() <= k < tried.len() ==> #[trigger] generic_try(tried[k], bb_nodes),
                    self.start_position == start,
                    self.blueprints == old(self).blueprints,
                ensures
                    rooms_attempted(self.blueprints, maps, tried),
                    maps.last() == self.map@,
                    maps[0] == m_corr0,
                    tried.len() >= tried_before.len(),
                    forall|k: int| 0 <= k < tried_before.len() ==> #[trigger] tried[k] == tried_before[k],
                    forall|k: int| tried_before.len() <= k < tried.len() ==> #[trigger] generic_try(tried[k], bb_nodes),

                    self.areas@ == areas_before || (self.areas@ == areas_before.push(
                        self.areas@[areas_before.len() as int],
                    ).push(self.areas@[areas_before.len() + 1int]) && generic_pair(
                        self.areas@[areas_before.len() as int],
                        self.areas@[areas_before.len() + 1int],
                    )),
                    self.start_position == start,
                    self.blueprints == old(self).blueprints,
                decreases dimension,
            {
                let area_size = Vector3i::new(dimension, dimension, 4);
                let mut room = Room::new(
                    node,
                    area_size,
                    "generic".to_owned(),
                    AreaType::GenericRoom,
                    true,
                    rng,
                );
                let mirror = Vector3i::new(1, -1, 1);
                let mirrored_position = node.mul_components(mirror);
                let mut mirrored_room = Room::new(
                    mirrored_position,
                    area_size,
                    "generic".to_owned(),
                    AreaType::GenericRoom,
                    true,
                    rng,
                );
                let ghost mb = self.map@;
                let ghost r0 = room;
                let built = self.build_room(&mut room);
                proof {
                    lemma_room_attempt(self.blueprints, mb, self.map@, r0.centre, r0.size, room.nodes@, built, room.centre);
                    lemma_attempted_push(self.blueprints, maps, tried, self.map@, (r0.centre, r0.size));
                    let old_tried = tried;
                    maps = maps.push(self.map@);
                    tried = tried.push((r0.centre, r0.size));
                    assert(generic_try(tried[tried.len() - 1], bb_nodes));
                    assert forall|k: int| tried_before.len() <= k < tried.len() implies #[trigger] generic_try(tried[k], bb_nodes) by {
                        if k < old_tried.len() {
                            assert(tried[k] == old_tried[k]);
                        }
                    }
                    assert forall|k: int| 0 <= k < tried_before.len() implies #[trigger] tried[k] == tried_before[k] by {
                        assert(tried[k] == old_tried[k]);
                    }
                }
                let both = if built {
                    let ghost mb2 = self.map@;
                    let ghost m0 = mirrored_room;
                    let built_mirror = self.build_room(&mut mirrored_room);
                    proof {
                        lemma_room_attempt(
                            self.blueprints,
                            mb2,
                            self.map@,
                            m0.centre,
                            m0.size,
                            mirrored_room.nodes@,
                            built_mirror,
                            mirrored_room.centre,
                        );
                        lemma_attempted_push(self.blueprints, maps, tried, self.map@, (m0.centre, m0.size));
                        let old_tried = tried;
                        maps = maps.push(self.map@);
                        tried = tried.push((m0.centre, m0.size));
                        assert(Vector3i::of(m0.centre.x as int, -m0.centre.y, m0.centre.z as int) == node);
                        assert(generic_try(tried[tried.len() - 1], bb_nodes));
                        assert forall|k: int| tried_before.len() <= k < tried.len() implies #[trigger] generic_try(tried[k], bb_nodes) by {
                            if k < old_tried.len() {
                                assert(tried[k] == old_tried[k]);
                            }
                        }
                        assert forall|k: int| 0 <= k < tried_before.len() implies #[trigger] tried[k] == tried_before[k] by {
                            assert(tried[k] == old_tried[k]);
                        }
                    }
                    built_mirror
                } else {
                    false
                };
                if both {
                    self.areas.push(ShipArea::Room(room));
                    self.areas.push(ShipArea::Room(mirrored_room));
                    break;
                } else {
                    dimension = dimension - 1;
                }
            }
            proof {
                if self.areas@ != areas_before {
                    let pairs = (areas_before.len() - n0 - 3) / 2;
                    let r = self.areas@[areas_before.len() as int];
                    let m = self.areas@[areas_before.len() + 1int];
                    assert(self.areas@ == areas_before.push(r).push(m));
                    lemma_two_pushed(areas_before, r, m, n0);
                    assert forall|k: int|
                        0 <= k < (self.areas@.len() - n0 - 3) / 2 implies generic_pair(
                            #[trigger] self.areas@[n0 + 3 + 2 * k],
                            self.areas@[n0 + 4 + 2 * k],
                        ) by {
                        if k < pairs {
                            assert(self.areas@[n0 + 3 + 2 * k] == areas_before[n0 + 3 + 2 * k]);
                            assert(self.areas@[n0 + 4 + 2 * k] == areas_before[n0 + 4 + 2 * k]);
                        } else {
                            assert(k == pairs);
                        }
                    }
                    assert(self.areas@[n0] == areas_before[n0]);
                    assert(self.areas@[n0 + 1] == areas_before[n0 + 1]);
                    assert(self.areas@[n0 + 2] == areas_before[n0 + 2]);
                }
            }
            e = e + 1;
        }
        proof {
            assert(end == Vector3i::of(start.x + 40, start.y as int, start.z as int));
            assert(m_before == old(self).map@);
            assert(corridor_route(m_before, start, end, 7, cpath));
            assert(rooms_attempted(self.blueprints, maps, tried));
            assert(self.areas@[n0].nodes_spec() == bb_nodes);
        }
    }
}

/// Pushing two items keeps what came before them.
proof fn lemma_two_pushed(s: Seq<ShipArea>, r: ShipArea, m: ShipArea, n0: int)
    requires
        0 <= n0 <= s.len(),
    ensures
        s.push(r).push(m).subrange(0, n0) == s.subrange(0, n0),
        forall|i: int| 0 <= i < s.len() ==> #[trigger] s.push(r).push(m)[i] == s[i],
        s.push(r).push(m)[s.len() as int] == r,
        s.push(r).push(m)[s.len() + 1int] == m,
        s.push(r).push(m).len() == s.len() + 2,
{
    assert(s.push(r).push(m).subrange(0, n0) =~= s.subrange(0, n0));
}

} // verus!
