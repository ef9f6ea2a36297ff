use vstd::prelude::*;

use rltk::RandomNumberGenerator;

use crate::map_builders::common::{AreaType, ShipArea};
use crate::map_builders::small_cargo_ship::SmallCargoShipMapBuilder;
use crate::vectors::Vector3i;

verus! {

/// Something the ship's builder puts into an area.
#[derive(Clone, Copy, Debug, PartialEq, Eq, Structural)]
pub enum Spawn {
    /// The area's breaker box.
    BreakerBox(Vector3i),
    /// A lit ceiling lamp; red in the generator room, white elsewhere.
    CeilingLamp(Vector3i, bool),
    /// A running generator.
    PowerSource(Vector3i),
    /// A closed door.
    Door(Vector3i),
    /// A storage cabinet with an item in it.
    StorageCabinet(Vector3i),
}

/// Where a spawn stands.
pub open spec fn spawn_position(s: Spawn) -> Vector3i {
    match s {
        Spawn::BreakerBox(p) => p,
        Spawn::CeilingLamp(p, _) => p,
        Spawn::PowerSource(p) => p,
        Spawn::Door(p) => p,
        Spawn::StorageCabinet(p) => p,
    }
}

/// `p` is a position beside a wall of an area at `pos` of size `size`: one cell in
/// from an x wall, along it but two cells clear of the y walls, or one cell in from
/// a y wall, along it but two cells clear of the x walls.
pub open spec fn wall_adjacent(pos: Vector3i, size: Vector3i, p: Vector3i) -> bool {
    let hx = size.x / 2;
    let hy = size.y / 2;
    let dx = p.x - pos.x;
    let dy = p.y - pos.y;
    &&& p.z == pos.z
    &&& ((dx == -hx + 1 || dx == hx - 1) && -hy + 2 <= dy < hy - 1) || ((dy == -hy + 1 || dy == hy
        - 1) && -hx + 2 <= dx < hx - 1)
}

/// An area that the builder can furnish without leaving the grid: its position and
/// doorways inside it, each doorway's offset from the position fitting too.
pub open spec fn area_fits(a: ShipArea) -> bool {
    let pos = a.position_spec();
    let size = a.size_spec();
    &&& -0x7000_0000 <= pos.x <= 0x7000_0000
    &&& -0x7000_0000 <= pos.y <= 0x7000_0000
    &&& -0x7000_0000 <= pos.z <= 0x7000_0000
    &&& 0 <= size.x <= 0x10_0000
    &&& 0 <= size.y <= 0x10_0000
    &&& size.x < 3 || size.y < 3 || (size.x / 2 >= 2 && size.y / 2 >= 2)
    &&& a.nodes_spec().len() <= 0x7fff_ffff
    &&& forall|i: int|
        0 <= i < a.nodes_spec().len() ==> {
            let n = #[trigger] a.nodes_spec()[i];
            &&& -0x7000_0000 <= n.x <= 0x7000_0000
            &&& -0x7000_0000 <= n.y <= 0x7000_0000
            &&& -0x7000_0000 <= n.z <= 0x7000_0000
            &&& -0x7000_0000 <= n.x - pos.x <= 0x7000_0000
            &&& -0x7000_0000 <= n.y - pos.y <= 0x7000_0000
            &&& -0x7000_0000 <= n.z - pos.z <= 0x7000_0000
        }
}

/// A random position beside one of the walls of `area`, or `None` when the area is
/// narrower than three cells.
pub fn get_wall_adjacent_position(area: &ShipArea, rng: &mut RandomNumberGenerator) -> (r: Option<
    Vector3i,
>)
    requires
        area_fits(*area),
    ensures
        r is None <==> (area.size_spec().x < 3 || area.size_spec().y < 3),
        r matches Some(p) ==> wall_adjacent(area.position_spec(), area.size_spec(), p),
{
    let area_pos = area.position();
    let size = area.size();
    let size_x = size.x;
    let size_y = size.y;
    if size_x < 3 || size_y < 3 {
        return None;
    }
    let half_x = size_x / 2;
    let half_y = size_y / 2;
    let (x, y) = if crate::rng::range(rng, 0, 2) == 0 {
        (
            if crate::rng::range(rng, 0, 2) == 0 {
                -half_x + 1
            } else {
                half_x - 1
            },
            crate::rng::range(rng, -half_y + 2, half_y - 1),
        )
    } else {
        (
            crate::rng::range(rng, -half_x + 2, half_x - 1),
            if crate::rng::range(rng, 0, 2) == 0 {
                -half_y + 1
            } else {
                half_y - 1
            },
        )
    };
    Some(Vector3i::new(area_pos.x + x, area_pos.y + y, area_pos.z))
}

/// Where the breaker box goes for an area entered from `side`: two cells into the
/// area, one cell to the side given by `left_right`.
pub open spec fn breaker_spot(pos: Vector3i, side: Vector3i, left_right: int) -> Vector3i {
    let direction = pos.minus(side).normalized();
    let offset = if direction == Vector3i::of(0, -1, 0) {
        Vector3i::of(left_right, 1, 0)
    } else if direction == Vector3i::of(1, 0, 0) {
        Vector3i::of(-1, left_right, 0)
    } else if direction == Vector3i::of(0, 1, 0) {
        Vector3i::of(left_right, -1, 0)
    } else {
        Vector3i::of(1, left_right, 0)
    };
    side.plus(offset).plus(direction.scaled(2))
}

/// `p` is a free spot for a storage cabinet in `area`: beside a wall, off the
/// positions already `taken`, and more than one cell (rounded) from every doorway.
pub open spec fn cabinet_spot(area: ShipArea, p: Vector3i, taken: Seq<Vector3i>) -> bool {
    &&& wall_adjacent(area.position_spec(), area.size_spec(), p)
    &&& !taken.contains(p)
    &&& forall|i: int|
        0 <= i < area.nodes_spec().len() ==> (#[trigger] area.nodes_spec()[i]).distance_squared(p) > 2
}

/// What furnishing `area` from its doorway `side_index`, with the breaker to side
/// `left_right`, gives: the breaker box (but in a corridor), the ceiling lamp, the
/// generator in the generator room, a door at each doorway (but in a corridor), then
/// at most four storage cabinets, each on a free spot.
pub open spec fn furnished(area: ShipArea, spawns: Seq<Spawn>, side_index: int, left_right: int) -> bool {
    let nodes = area.nodes_spec();
    let pos = area.position_spec();
    let kind = area.kind_spec();
    let breaker = breaker_spot(pos, nodes[side_index], left_right);
    let lamp = Vector3i::of(pos.x as int, pos.y as int, pos.z + 1);
    let head = (if kind != AreaType::Corridor {
        seq![Spawn::BreakerBox(breaker)]
    } else {
        Seq::empty()
    }) + seq![Spawn::CeilingLamp(lamp, kind == AreaType::GeneratorRoom)] + (if kind
        == AreaType::GeneratorRoom {
        seq![Spawn::PowerSource(pos)]
    } else {
        Seq::empty()
    });
    let doors = if kind != AreaType::Corridor {
        nodes.map_values(|n: Vector3i| Spawn::Door(n))
    } else {
        Seq::empty()
    };
    let cabinets = spawns.subrange((head.len() + doors.len()) as int, spawns.len() as int);
    let taken = (if kind != AreaType::Corridor {
        seq![breaker]
    } else {
        Seq::empty()
    }) + seq![lamp];
    &&& 0 <= side_index < nodes.len()
    &&& left_right == -1 || left_right == 1
    &&& spawns.len() >= head.len() + doors.len()
    &&& spawns.subrange(0, head.len() as int) == head
    &&& spawns.subrange(head.len() as int, (head.len() + doors.len()) as int) == doors
    &&& cabinets.len() <= 4
    &&& kind == AreaType::Corridor ==> cabinets.len() == 0
    &&& forall|k: int|
        0 <= k < cabinets.len() ==> (#[trigger] cabinets[k]) is StorageCabinet && cabinet_spot(
            area,
            spawn_position(cabinets[k]),
            taken + cabinets.subrange(0, k).map_values(|s: Spawn| spawn_position(s)),
        )
}

/// Whether every doorway of `nodes` lies more than one cell, rounded, from `p`.
fn clear_of_doorways(nodes: &Vec<Vector3i>, p: Vector3i) -> (b: bool)
    ensures
        b == forall|i: int| 0 <= i < nodes@.len() ==> (#[trigger] nodes@[i]).distance_squared(p) > 2,
{
    let mut i: usize = 0;
    while i < nodes.len()
        invariant
            0 <= i <= nodes.len(),
            forall|j: int| 0 <= j < i ==> (#[trigger] nodes@[j]).distance_squared(p) > 2,
        decreases nodes.len() - i,
    {
        let d = nodes[i].distance_to_int(p);
        if d <= 1 {
            proof {
                let n = nodes@[i as int];
                let d2 = n.distance_squared(p);
                assert(Vector3i::is_rounded_root(d2, d as int));
                assert(d2 <= 2) by (nonlinear_arith)
                    requires
                        d2 <= d * d + d,
                        0 <= d <= 1,
                ;
            }
            return false;
        }
        proof {
            let n = nodes@[i as int];
            let d2 = n.distance_squared(p);
            assert(d2 > 2) by (nonlinear_arith)
                requires
                    d * d - d < d2,
                    d >= 2,
            ;
        }
        i = i + 1;
    }
    true
}

/// Whether `v` holds `p`.
fn holds(v: &Vec<Vector3i>, p: Vector3i) -> (b: bool)
    ensures
        b == v@.contains(p),
{
    let mut i: usize = 0;
    while i < v.len()
        invariant
            0 <= i <= v.len(),
            forall|j: int| 0 <= j < i ==> v@[j] != p,
        decreases v.len() - i,
    {
        if v[i] == p {
            return true;
        }
        i = i + 1;
    }
    false
}

impl SmallCargoShipMapBuilder {
    /// Furnishes `area`: picks one of its doorways and a side at random, puts the
    /// breaker box two cells in from that doorway and one cell to that side (but in a
    /// corridor), a lit ceiling lamp over the area's position (red in the generator
    /// room), a generator at the position of the generator room, a closed door at each
    /// doorway (but in a corridor), and between one and four storage cabinets, each
    /// tried at up to ten random spots beside a wall until one is free. The lamp and the
    /// generator become the area's power connections. An area without doorways gets
    /// nothing.
    pub fn populate_area(area: &mut ShipArea, rng: &mut RandomNumberGenerator) -> (spawns: Vec<Spawn>)
        requires
            area_fits(*old(area)),
        ensures
            old(area).nodes_spec().len() == 0 ==> spawns@.len() == 0 && *final(area) == *old(area),
            old(area).nodes_spec().len() > 0 ==> {
                let pos = old(area).position_spec();
                let kind = old(area).kind_spec();
                &&& exists|side_index: int, left_right: int|
                    #[trigger] furnished(*old(area), spawns@, side_index, left_right)
                        && final(area).breaker_spec() == (if kind != AreaType::Corridor {
                        Some(breaker_spot(pos, old(area).nodes_spec()[side_index], left_right))
                    } else {
                        old(area).breaker_spec()
                    })
                &&& final(area).connections_spec() == old(area).connections_spec() + seq![
                    Vector3i::of(pos.x as int, pos.y as int, pos.z + 1),
                ] + (if kind == AreaType::GeneratorRoom {
                    seq![pos]
                } else {
                    Seq::empty()
                })
                &&& old(area).same_but_power(*final(area))
            },
    {
        let mut spawns: Vec<Spawn> = Vec::new();
        let node_count = area.nodes().len();
        if node_count == 0 {
            return spawns;
        }
        let ghost a0 = *area;
        let adjacent_to = crate::rng::range(rng, 0, node_count as i32) as usize;
        let left_right: i32 = if crate::rng::range(rng, 0, 2) == 0 {
            -1
        } else {
            1
        };
        let side = area.nodes()[adjacent_to];
        let position = area.position();
        assert(-0x7000_0000 <= side.x <= 0x7000_0000);
        let direction = position.sub(side).normalize_delta();
        let offset = if direction.eq(&Vector3i::north()) {
            Vector3i::new(left_right, 1, 0)
        } else if direction.eq(&Vector3i::east()) {
            Vector3i::new(-1, left_right, 0)
        } else if direction.eq(&Vector3i::south()) {
            Vector3i::new(left_right, -1, 0)
        } else {
            Vector3i::new(1, left_right, 0)
        };
        let kind = area.kind();
        let breaker = side.add(offset).add(direction.mul(2));
        assert(breaker == breaker_spot(position, side, left_right as int));
        let mut entity_positions: Vec<Vector3i> = Vec::new();
        let mut connections: Vec<Vector3i> = Vec::new();
        if kind != AreaType::Corridor {
            spawns.push(Spawn::BreakerBox(breaker));
            area.set_breaker(breaker);
            entity_positions.push(breaker);
        }
        let lamp = Vector3i::new(position.x, position.y, position.z + 1);
        spawns.push(Spawn::CeilingLamp(lamp, kind == AreaType::GeneratorRoom));
        connections.push(lamp);
        entity_positions.push(lamp);
        if kind == AreaType::GeneratorRoom {
            spawns.push(Spawn::PowerSource(position));
            connections.push(position);
        }
        let ghost head = spawns@;
        assert(head =~= (if kind != AreaType::Corridor {
            seq![Spawn::BreakerBox(breaker)]
        } else {
            Seq::empty()
        }) + seq![Spawn::CeilingLamp(lamp, kind == AreaType::GeneratorRoom)] + (if kind
            == AreaType::GeneratorRoom {
            seq![Spawn::PowerSource(position)]
        } else {
            Seq::empty()
        }));
        let ghost taken = entity_positions@;
        let ghost doors = if kind != AreaType::Corridor {
            a0.nodes_spec().map_values(|n: Vector3i| Spawn::Door(n))
        } else {
            Seq::empty()
        };
        if kind != AreaType::Corridor {
            let mut i: usize = 0;
            while i < area.nodes().len()
                invariant
                    0 <= i <= area.nodes_spec().len(),
                    area.nodes_spec() == a0.nodes_spec(),
                    spawns@ == head + a0.nodes_spec().subrange(0, i as int).map_values(|n: Vector3i| Spawn::Door(n)),
                decreases area.nodes_spec().len() - i,
            {
                let node = area.nodes()[i];
                spawns.push(Spawn::Door(node));
                proof {
                    assert(a0.nodes_spec().subrange(0, i + 1).map_values(|n: Vector3i| Spawn::Door(n))
                        =~= a0.nodes_spec().subrange(0, i as int).map_values(|n: Vector3i| Spawn::Door(n)).push(
                        Spawn::Door(node),
                    ));
                }
                i = i + 1;
            }
            proof {
                assert(a0.nodes_spec().subrange(0, a0.nodes_spec().len() as int) =~= a0.nodes_spec());
            }
            let cabinets = crate::rng::range(rng, 1, 5);
            let mut c: i32 = 0;
            while c < cabinets
                invariant
                    0 <= c <= cabinets < 5,
                    area_fits(a0),
                    area.position_spec() == a0.position_spec(),
                    area.size_spec() == a0.size_spec(),
                    area.nodes_spec() == a0.nodes_spec(),
                    kind == a0.kind_spec(),
                    kind != AreaType::Corridor,
                    spawns@.len() >= head.len() + doors.len(),
                    spawns@.subrange(0, (head.len() + doors.len()) as int) == head + doors,
                    spawns@.len() - head.len() - doors.len() <= c,
                    entity_positions@ == taken + spawns@.subrange(
                        (head.len() + doors.len()) as int,
                        spawns@.len() as int,
                    ).map_values(|s: Spawn| spawn_position(s)),
                    forall|k: int|
                        0 <= k < spawns@.len() - head.len() - doors.len() ==> {
                            let cab = #[trigger] spawns@[head.len() + doors.len() + k];
                            &&& cab is StorageCabinet
                            &&& cabinet_spot(
                                a0,
                                spawn_position(cab),
                                taken + spawns@.subrange(
                                    (head.len() + doors.len()) as int,
                                    head.len() + doors.len() + k,
                                ).map_values(|s: Spawn| spawn_position(s)),
                            )
                        },
                decreases cabinets - c,
            {
                let mut placed = false;
                let mut attempts: i32 = 0;
                while !placed && attempts < 10
                    invariant
                        0 <= attempts <= 10,
                        area_fits(a0),
                        area.position_spec() == a0.position_spec(),
                        area.size_spec() == a0.size_spec(),
                        area.nodes_spec() == a0.nodes_spec(),
                        spawns@.len() >= head.len() + doors.len(),
                        spawns@.subrange(0, (head.len() + doors.len()) as int) == head + doors,
                        spawns@.len() - head.len() - doors.len() <= c + if placed { 1int } else { 0 },
                        entity_positions@ == taken + spawns@.subrange(
                            (head.len() + doors.len()) as int,
                            spawns@.len() as int,
                        ).map_values(|s: Spawn| spawn_position(s)),
                        forall|k: int|
                            0 <= k < spawns@.len() - head.len() - doors.len() ==> {
                                let cab = #[trigger] spawns@[head.len() + doors.len() + k];
                                &&& cab is StorageCabinet
                                &&& cabinet_spot(
                                    a0,
                                    spawn_position(cab),
                                    taken + spawns@.subrange(
                                        (head.len() + doors.len()) as int,
                                        head.len() + doors.len() + k,
                                    ).map_values(|s: Spawn| spawn_position(s)),
                                )
                            },
                    decreases 10 - attempts + if placed { 0int } else { 1int },
                {
                    proof {
                        assert(area_fits(*area)) by {
                            assert(area.nodes_spec() == a0.nodes_spec());
                        }
                    }
                    if let Some(cabinet_position) = get_wall_adjacent_position(area, rng) {
                        if !holds(&entity_positions, cabinet_position) && clear_of_doorways(
                            area.nodes(),
                            cabinet_position,
                        ) {
                            placed = true;
                            let ghost before = spawns@;
                            let ghost before_taken = entity_positions@;
                            let ghost base = (head.len() + doors.len()) as int;
                            spawns.push(Spawn::StorageCabinet(cabinet_position));
                            entity_positions.push(cabinet_position);
                            proof {
                                assert(spawns@.subrange(0, base) =~= before.subrange(0, base));
                                assert(spawns@.subrange(base, spawns@.len() as int) =~= before.subrange(
                                    base,
                                    before.len() as int,
                                ).push(Spawn::StorageCabinet(cabinet_position)));
                                assert(entity_positions@ =~= taken + spawns@.subrange(
                                    base,
                                    spawns@.len() as int,
                                ).map_values(|s: Spawn| spawn_position(s)));
                                assert forall|k: int|
                                    0 <= k < spawns@.len() - base implies {
                                        let cab = #[trigger] spawns@[base + k];
                                        &&& cab is StorageCabinet
                                        &&& cabinet_spot(
                                            a0,
                                            spawn_position(cab),
                                            taken + spawns@.subrange(base, base + k).map_values(
                                                |s: Spawn| spawn_position(s),
                                            ),
                                        )
                                    } by {
                                    assert(spawns@.subrange(base, base + k) =~= before.subrange(base, base + k));
                                    if k == spawns@.len() - base - 1 {
                                        assert(spawns@.subrange(base, base + k) =~= before.subrange(
                                            base,
                                            before.len() as int,
                                        ));
                                        assert(taken + spawns@.subrange(base, base + k).map_values(
                                            |s: Spawn| spawn_position(s),
                                        ) =~= before_taken);
                                    } else {
                                        assert(spawns@[base + k] == before[base + k]);
                                    }
                                }
                            }
                        }
                    }
                    attempts = attempts + 1;
                }
                c = c + 1;
            }
        }
        area.add_power_connections(&connections);
        proof {
            let h = head.len() as int;
            let d = doors.len() as int;
            let cabinets = spawns@.subrange(h + d, spawns@.len() as int);
            assert(taken =~= (if kind != AreaType::Corridor {
                    seq![breaker]
                } else {
                    Seq::empty()
                }) + seq![lamp]);
            if kind == AreaType::Corridor {
                assert(spawns@ =~= head);
            } else {
                let pre = spawns@.subrange(0, h + d);
                assert forall|i: int| 0 <= i < d implies spawns@[h + i] == doors[i] by {
                    assert(pre[h + i] == spawns@[h + i]);
                    assert((head + doors)[h + i] == doors[i]);
                }
                assert forall|i: int| 0 <= i < h implies spawns@[i] == head[i] by {
                    assert(pre[i] == spawns@[i]);
                    assert((head + doors)[i] == head[i]);
                }
            }
            assert(spawns@.subrange(0, head.len() as int) =~= head);
            assert(spawns@.subrange(head.len() as int, (head.len() + doors.len()) as int) =~= doors);
            assert forall|k: int| 0 <= k < cabinets.len() implies (#[trigger] cabinets[k]) is StorageCabinet
                && cabinet_spot(
                a0,
                spawn_position(cabinets[k]),
                (if kind != AreaType::Corridor {
                    seq![breaker]
                } else {
                    Seq::empty()
                }) + seq![lamp] + cabinets.subrange(0, k).map_values(|s: Spawn| spawn_position(s)),
            ) by {
                assert(cabinets[k] == spawns@[head.len() + doors.len() + k]);
                assert(cabinets.subrange(0, k) =~= spawns@.subrange(
                    (head.len() + doors.len()) as int,
                    head.len() + doors.len() + k,
                ));
            }
            assert(furnished(a0, spawns@, adjacent_to as int, left_right as int));
        }
        spawns
    }
}

} // verus!
