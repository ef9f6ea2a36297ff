use vstd::prelude::*;

use rltk::RandomNumberGenerator;

use crate::ducting::{ducts_view, glyphs_match, lay_ducting, lemma_ducting_keeps_layout, sides_distinct, DuctSection};
use crate::map::pathfinding::{interior, map_interior};
use crate::map::Tile;
use crate::map_builders::common::{AreaType, ShipArea};
use crate::map_builders::ship_population::{area_fits, breaker_spot, furnished, Spawn};
use crate::map_builders::small_cargo_ship::SmallCargoShipMapBuilder;
use crate::vectors::Vector3i;
use crate::wiring::{
    lay_wiring, lemma_wiring_follows_route, lemma_wiring_keeps_one_wire_per_colour, one_wire_per_colour,
    wires_view, WireSection,
};

verus! {

/// An area the builder can fit out: it can be furnished, and its breaker and its
/// power connections lie well inside the grid.
pub open spec fn fittable(a: ShipArea) -> bool {
    &&& area_fits(a)
    &&& a.breaker_spec() matches Some(b) ==> interior(b)
    &&& forall|i: int| 0 <= i < a.connections_spec().len() ==> interior(#[trigger] a.connections_spec()[i])
}

/// The spawns of each area, one after the other.
pub open spec fn all_spawns(parts: Seq<Seq<Spawn>>) -> Seq<Spawn>
    decreases parts.len(),
{
    if parts.len() == 0 {
        Seq::empty()
    } else {
        all_spawns(parts.drop_last()) + parts.last()
    }
}

/// `furnishing` is what furnishing `area` may give: nothing for an area without
/// doorways, else a furnishing from one of its doorways to one side.
pub open spec fn furnishing_of(area: ShipArea, furnishing: Seq<Spawn>) -> bool {
    if area.nodes_spec().len() == 0 {
        furnishing.len() == 0
    } else {
        exists|side_index: int, left_right: int| #[trigger] furnished(area, furnishing, side_index, left_right)
    }
}

/// A breaker box placed from a doorway lies within three cells of it.
proof fn lemma_breaker_near(pos: Vector3i, side: Vector3i, left_right: int)
    requires
        left_right == -1 || left_right == 1,
        -0x7000_0000 <= side.x <= 0x7000_0000,
        -0x7000_0000 <= side.y <= 0x7000_0000,
        -0x7000_0000 <= side.z <= 0x7000_0000,
    ensures
        interior(breaker_spot(pos, side, left_right)),
{
}

impl SmallCargoShipMapBuilder {
    /// Furnishes every area, in order; gives what each area gets, one area after the
    /// other.
    pub fn furnish_areas(&mut self, rng: &mut RandomNumberGenerator) -> (spawns: Vec<Spawn>)
        requires
            forall|i: int| 0 <= i < old(self).areas@.len() ==> fittable(#[trigger] old(self).areas@[i]),
        ensures
            final(self).areas@.len() == old(self).areas@.len(),
            forall|i: int|
                0 <= i < final(self).areas@.len() ==> fittable(#[trigger] final(self).areas@[i]) && old(
                    self,
                ).areas@[i].same_but_power(final(self).areas@[i]),
            exists|parts: Seq<Seq<Spawn>>|
                parts.len() == old(self).areas@.len() && spawns@ == #[trigger] all_spawns(parts) && forall|
                    i: int,
                | 0 <= i < parts.len() ==> furnishing_of(old(self).areas@[i], #[trigger] parts[i]),
            final(self).map == old(self).map,
            final(self).start_position == old(self).start_position,
            final(self).blueprints == old(self).blueprints,
    {
        let ghost areas0 = self.areas@;
        let ghost mut parts: Seq<Seq<Spawn>> = Seq::empty();
        let mut spawns: Vec<Spawn> = Vec::new();
        let mut i: usize = 0;
        while i < self.areas.len()
            invariant
                0 <= i <= self.areas@.len(),
                self.areas@.len() == areas0.len(),
                forall|k: int| 0 <= k < areas0.len() ==> fittable(#[trigger] areas0[k]),
                forall|k: int| i <= k < areas0.len() ==> #[trigger] self.areas@[k] == areas0[k],
                forall|k: int|
                    0 <= k < i ==> fittable(#[trigger] self.areas@[k]) && areas0[k].same_but_power(self.areas@[k]),
                parts.len() == i,
                spawns@ == all_spawns(parts),
                forall|k: int| 0 <= k < i ==> furnishing_of(areas0[k], #[trigger] parts[k]),
                self.map == old(self).map,
                self.start_position == old(self).start_position,
                self.blueprints == old(self).blueprints,
            decreases self.areas@.len() - i,
        {
            let ghost before = self.areas@;
            let mut area = self.areas.remove(i);
            proof {
                assert(area == areas0[i as int]);
                assert(fittable(area));
            }
            let ghost a0 = area;
            let part = SmallCargoShipMapBuilder::populate_area(&mut area, rng);
            proof {
                if a0.nodes_spec().len() > 0 {
                    let (si, lr) = choose|si: int, lr: int|
                        #[trigger] furnished(a0, part@, si, lr) && area.breaker_spec() == (if a0.kind_spec()
                            != AreaType::Corridor {
                            Some(breaker_spot(a0.position_spec(), a0.nodes_spec()[si], lr))
                        } else {
                            a0.breaker_spec()
                        });
                    assert(-0x7000_0000 <= a0.nodes_spec()[si].x <= 0x7000_0000);
                    lemma_breaker_near(a0.position_spec(), a0.nodes_spec()[si], lr);
                    assert forall|k: int| 0 <= k < area.connections_spec().len() implies interior(
                        #[trigger] area.connections_spec()[k],
                    ) by {
                        if k < a0.connections_spec().len() {
                            assert(area.connections_spec()[k] == a0.connections_spec()[k]);
                        }
                    }
                    assert(area_fits(area)) by {
                        assert(area.nodes_spec() == a0.nodes_spec());
                    }
                }
                assert(fittable(area));
            }
            self.areas.insert(i, area);
            let ghost spawns_before = spawns@;
            let mut j: usize = 0;
            while j < part.len()
                invariant
                    0 <= j <= part.len(),
                    spawns@ == spawns_before + part@.subrange(0, j as int),
                decreases part.len() - j,
            {
                spawns.push(part[j]);
                proof {
                    assert(spawns_before + part@.subrange(0, j + 1) =~= (spawns_before + part@.subrange(
                        0,
                        j as int,
                    )).push(part@[j as int]));
                }
                j = j + 1;
            }
            proof {
                assert(part@.subrange(0, part@.len() as int) =~= part@);
                let old_parts = parts;
                parts = parts.push(part@);
                assert(parts.drop_last() =~= old_parts);
                assert(spawns@ == all_spawns(parts));
                assert forall|k: int| 0 <= k < i + 1 implies furnishing_of(areas0[k], #[trigger] parts[k]) by {
                    if k < i {
                        assert(parts[k] == old_parts[k]);
                    }
                }
                assert forall|k: int| i + 1 <= k < areas0.len() implies #[trigger] self.areas@[k] == areas0[k] by {
                    assert(self.areas@[k] == before[k]);
                }
                assert forall|k: int| 0 <= k < i + 1 implies fittable(#[trigger] self.areas@[k])
                    && areas0[k].same_but_power(self.areas@[k]) by {
                    if k < i {
                        assert(self.areas@[k] == before[k]);
                    }
                }
            }
            i = i + 1;
        }
        spawns
    }
}

/// The duct runs of `areas`: from three levels above each generic room or cockpit
/// that has a breaker, to above the room's x on row 0 for a generic room, and to the
/// generator room (`None`) for the cockpit.
pub open spec fn duct_runs(areas: Seq<ShipArea>) -> Seq<(Vector3i, Option<Vector3i>)>
    decreases areas.len(),
{
    if areas.len() == 0 {
        Seq::empty()
    } else {
        let rest = duct_runs(areas.drop_last());
        let a = areas.last();
        let p = a.position_spec();
        let top = Vector3i::of(p.x as int, p.y as int, p.z + 3);
        if a.breaker_spec() is Some && a.kind_spec() == AreaType::GenericRoom {
            rest.push((top, Some(Vector3i::of(top.x as int, 0, top.z as int))))
        } else if a.breaker_spec() is Some && a.kind_spec() == AreaType::Cockpit {
            rest.push((top, None))
        } else {
            rest
        }
    }
}

/// The position and the breaker of the last generator room of `areas` that has a
/// breaker; the origin for both when there is none.
pub open spec fn generator_of(areas: Seq<ShipArea>) -> (Vector3i, Vector3i)
    decreases areas.len(),
{
    if areas.len() == 0 {
        (Vector3i::of(0, 0, 0), Vector3i::of(0, 0, 0))
    } else {
        let a = areas.last();
        if a.breaker_spec() is Some && a.kind_spec() == AreaType::GeneratorRoom {
            (a.position_spec(), a.breaker_spec()->0)
        } else {
            generator_of(areas.drop_last())
        }
    }
}

/// The breakers of `areas`, each once, in the order first met.
pub open spec fn breakers_of(areas: Seq<ShipArea>) -> Seq<Vector3i>
    decreases areas.len(),
{
    if areas.len() == 0 {
        Seq::empty()
    } else {
        let rest = breakers_of(areas.drop_last());
        match areas.last().breaker_spec() {
            Some(b) => if rest.contains(b) {
                rest
            } else {
                rest.push(b)
            },
            None => rest,
        }
    }
}

/// Each power connection of `areas` with the breaker of its area, in order.
pub open spec fn devices_of(areas: Seq<ShipArea>) -> Seq<(Vector3i, Vector3i)>
    decreases areas.len(),
{
    if areas.len() == 0 {
        Seq::empty()
    } else {
        let rest = devices_of(areas.drop_last());
        let a = areas.last();
        match a.breaker_spec() {
            Some(b) => rest + a.connections_spec().map_values(|d: Vector3i| (b, d)),
            None => rest,
        }
    }
}

/// Whether `v` holds `p`.
fn holds_breaker(v: &Vec<Vector3i>, p: Vector3i) -> (b: bool)
    ensures
        b == v@.contains(p),
{
    let mut i: usize = 0;
    while i < v.len()
        invariant
            0 <= i <= v.len(),
            forall|j: int| 0 <= j < i ==> v@[j] != p,
        decreases v.len() - i,
    {
        if v[i] == p {
            return true;
        }
        i = i + 1;
    }
    false
}

/// What fitting out the ship takes from its areas: the duct runs, the generator
/// room's position and breaker, the breakers, and the devices with their breakers.
pub struct FittingPlan {
    pub duct_runs: Vec<(Vector3i, Option<Vector3i>)>,
    pub generator_room: Vector3i,
    pub generator_breaker: Vector3i,
    pub breakers: Vec<Vector3i>,
    pub devices: Vec<(Vector3i, Vector3i)>,
}

impl SmallCargoShipMapBuilder {
    /// Reads the fitting plan off the areas.
    pub fn fitting_plan(&self) -> (plan: FittingPlan)
        requires
            forall|i: int| 0 <= i < self.areas@.len() ==> area_fits(#[trigger] self.areas@[i]),
        ensures
            plan.duct_runs@ == duct_runs(self.areas@),
            (plan.generator_room, plan.generator_breaker) == generator_of(self.areas@),
            plan.breakers@ == breakers_of(self.areas@),
            plan.devices@ == devices_of(self.areas@),
    {
        let mut plan = FittingPlan {
            duct_runs: Vec::new(),
            generator_room: Vector3i::new_equi(0),
            generator_breaker: Vector3i::new_equi(0),
            breakers: Vec::new(),
            devices: Vec::new(),
        };
        let mut i: usize = 0;
        while i < self.areas.len()
            invariant
                0 <= i <= self.areas@.len(),
                forall|k: int| 0 <= k < self.areas@.len() ==> area_fits(#[trigger] self.areas@[k]),
                plan.duct_runs@ == duct_runs(self.areas@.subrange(0, i as int)),
                (plan.generator_room, plan.generator_breaker) == generator_of(self.areas@.subrange(0, i as int)),
                plan.breakers@ == breakers_of(self.areas@.subrange(0, i as int)),
                plan.devices@ == devices_of(self.areas@.subrange(0, i as int)),
            decreases self.areas@.len() - i,
        {
            let ghost prefix = self.areas@.subrange(0, i + 1);
            proof {
                assert(prefix.drop_last() =~= self.areas@.subrange(0, i as int));
                assert(prefix.last() == self.areas@[i as int]);
            }
            let area = &self.areas[i];
            assert(area_fits(self.areas@[i as int]));
            let position = area.position();
            let kind = area.kind();
            match area.breaker() {
                Some(breaker) => {
                    if !holds_breaker(&plan.breakers, breaker) {
                        plan.breakers.push(breaker);
                    }
                    let top = Vector3i::new(position.x, position.y, position.z + 3);
                    if kind == AreaType::GenericRoom {
                        plan.duct_runs.push((top, Some(Vector3i::new(top.x, 0, top.z))));
                    } else if kind == AreaType::Cockpit {
                        plan.duct_runs.push((top, None));
                    }
                    if kind == AreaType::GeneratorRoom {
                        plan.generator_breaker = breaker;
                        plan.generator_room = position;
                    }
                    let connections = area.connections();
                    let ghost devices_before = plan.devices@;
                    let ghost runs_now = plan.duct_runs@;
                    let ghost breakers_now = plan.breakers@;
                    let ghost room_now = plan.generator_room;
                    let ghost breaker_now = plan.generator_breaker;
                    let mut k: usize = 0;
                    while k < connections.len()
                        invariant
                            0 <= k <= connections@.len(),
                            plan.duct_runs@ == runs_now,
                            plan.breakers@ == breakers_now,
                            plan.generator_room == room_now,
                            plan.generator_breaker == breaker_now,
                            plan.devices@ == devices_before + connections@.subrange(0, k as int).map_values(
                                |d: Vector3i| (breaker, d),
                            ),
                        decreases connections@.len() - k,
                    {
                        plan.devices.push((breaker, connections[k]));
                        proof {
                            assert(devices_before + connections@.subrange(0, k + 1).map_values(
                                |d: Vector3i| (breaker, d),
                            ) =~= (devices_before + connections@.subrange(0, k as int).map_values(
                                |d: Vector3i| (breaker, d),
                            )).push((breaker, connections@[k as int])));
                        }
                        k = k + 1;
                    }
                    proof {
                        assert(connections@.subrange(0, connections@.len() as int) =~= connections@);
                    }
                },
                None => {},
            }
            proof {
                assert(prefix.last().position_spec() == position);
                assert(prefix.last().kind_spec() == kind);
                assert(duct_runs(prefix) == plan.duct_runs@);
                assert(generator_of(prefix) == (plan.generator_room, plan.generator_breaker));
            }
            i = i + 1;
        }
        proof {
            assert(self.areas@.subrange(0, self.areas@.len() as int) =~= self.areas@);
        }
        plan
    }
}

/// A position with room to spare inside the grid.
pub open spec fn well_placed(p: Vector3i) -> bool {
    &&& -0x7100_0000 <= p.x <= 0x7100_0000
    &&& -0x7100_0000 <= p.y <= 0x7100_0000
    &&& -0x7100_0000 <= p.z <= 0x7100_0000
}

/// The plan read off fittable areas keeps to the grid.
proof fn lemma_plan_bounds(areas: Seq<ShipArea>)
    requires
        forall|i: int| 0 <= i < areas.len() ==> fittable(#[trigger] areas[i]),
    ensures
        forall|k: int|
            0 <= k < duct_runs(areas).len() ==> well_placed((#[trigger] duct_runs(areas)[k]).0) && (duct_runs(
                areas,
            )[k].1 matches Some(e) ==> well_placed(e)),
        well_placed(generator_of(areas).0),
        interior(generator_of(areas).1),
        forall|k: int| 0 <= k < breakers_of(areas).len() ==> interior(#[trigger] breakers_of(areas)[k]),
        forall|k: int|
            0 <= k < devices_of(areas).len() ==> interior((#[trigger] devices_of(areas)[k]).0) && interior(
                devices_of(areas)[k].1,
            ),
    decreases areas.len(),
{
    if areas.len() > 0 {
        let rest = areas.drop_last();
        assert forall|i: int| 0 <= i < rest.len() implies fittable(#[trigger] rest[i]) by {
            assert(rest[i] == areas[i]);
        }
        lemma_plan_bounds(rest);
        let a = areas.last();
        assert(fittable(areas[areas.len() - 1]));
        let runs = duct_runs(areas);
        assert forall|k: int| 0 <= k < runs.len() implies well_placed((#[trigger] runs[k]).0) && (runs[k].1 matches Some(
            e,
        ) ==> well_placed(e)) by {
            if k < duct_runs(rest).len() {
                assert(runs[k] == duct_runs(rest)[k]);
            }
        }
        let bs = breakers_of(areas);
        assert forall|k: int| 0 <= k < bs.len() implies interior(#[trigger] bs[k]) by {
            if k < breakers_of(rest).len() {
                assert(bs[k] == breakers_of(rest)[k]);
            }
        }
        let ds = devices_of(areas);
        assert forall|k: int| 0 <= k < ds.len() implies interior((#[trigger] ds[k]).0) && interior(ds[k].1) by {
            if k < devices_of(rest).len() {
                assert(ds[k] == devices_of(rest)[k]);
            } else {
                let j = k - devices_of(rest).len();
                assert(ds[k] == (a.breaker_spec()->0, a.connections_spec()[j]));
            }
        }
    }
}

/// The map with the generator room's roof taken away first, then the first `k`
/// duct runs' ceilings opened with breathable empty space.
pub open spec fn roofs_opened(m: Map<Vector3i, Tile>, runs: Seq<(Vector3i, Option<Vector3i>)>, k: int) -> Map<
    Vector3i,
    Tile,
>
    decreases k,
{
    if k <= 0 {
        m
    } else {
        let top = runs[k - 1].0;
        roofs_opened(m, runs, k - 1).insert(
            Vector3i::of(top.x as int, top.y as int, top.z - 1),
            Tile::new_empty_stp_spec(),
        )
    }
}

/// Where the ducting of `run` ends: at the run's end (the top of the generator room
/// at `generator_room` for `None`), one row further towards row 0.
pub open spec fn duct_end(run: (Vector3i, Option<Vector3i>), generator_room: Vector3i) -> Vector3i {
    let top = run.0;
    let target = match run.1 {
        Some(e) => e,
        None => Vector3i::of(generator_room.x as int, generator_room.y as int, generator_room.z + 3),
    };
    let toward: int = if top.y > 0 {
        1
    } else if top.y < 0 {
        -1
    } else {
        0
    };
    Vector3i::of(target.x as int, target.y + toward, target.z as int)
}

/// `after` is `before` with ducting laid on `m` from `top` to `end`: a cap below `top`,
/// then a section at each position of a route the wiring may follow, climbing from the
/// roof end, that holds no duct yet.
pub open spec fn ducts_laid(
    m: Map<Vector3i, Tile>,
    before: Seq<crate::ducting::DuctView>,
    after: Seq<crate::ducting::DuctView>,
    top: Vector3i,
    end: Vector3i,
) -> bool {
    exists|path: Seq<Vector3i>|
        #[trigger] crate::wiring::wiring_route(m, top, end, true, path) && after == crate::ducting::ducting_after(
            before.push(crate::ducting::duct_cap(top)),
            path,
            0,
            top,
            crate::entities::components::Direction::UP,
            0,
        )
}

/// `states` are the ducts before and after each of the first `n` of `runs` in turn is
/// laid, each on the map as it stands then: `m` with the ceilings below the earlier
/// runs' tops opened.
pub open spec fn duct_runs_chain(
    m: Map<Vector3i, Tile>,
    runs: Seq<(Vector3i, Option<Vector3i>)>,
    generator_room: Vector3i,
    states: Seq<Seq<crate::ducting::DuctView>>,
    n: int,
) -> bool {
    &&& states.len() == n + 1
    &&& forall|k: int|
        0 <= k < n ==> #[trigger] ducts_laid(
            roofs_opened(m, runs, k),
            states[k],
            states[k + 1],
            runs[k].0,
            duct_end(runs[k], generator_room),
        )
}

/// `after` is `before` with the ducting of each of `runs` laid in turn on `m` as it
/// then stands.
pub open spec fn duct_runs_laid(
    m: Map<Vector3i, Tile>,
    before: Seq<crate::ducting::DuctView>,
    after: Seq<crate::ducting::DuctView>,
    runs: Seq<(Vector3i, Option<Vector3i>)>,
    generator_room: Vector3i,
) -> bool {
    exists|states: Seq<Seq<crate::ducting::DuctView>>|
        #[trigger] duct_runs_chain(m, runs, generator_room, states, runs.len() as int) && states[0] == before
            && states.last() == after
}

/// The hexadecimal digit `d` as an upper-case character.
pub open spec fn hex_digit(d: int) -> char {
    if d < 10 {
        (48 + d) as char
    } else {
        (55 + d) as char
    }
}

/// The upper-case hexadecimal digits of `n`, most significant first, without leading
/// zeros.
pub open spec fn hex_digits(n: nat) -> Seq<char>
    decreases n,
{
    if n < 16 {
        seq![hex_digit(n as int)]
    } else {
        hex_digits(n / 16).push(hex_digit((n % 16) as int))
    }
}

/// How `std` writes an `i32` with `{:X}`: the upper-case hexadecimal digits of its
/// two's complement bits, without padding.
pub open spec fn i32_hex(v: i32) -> Seq<char> {
    if v < 0 {
        hex_digits((v + 0x1_0000_0000) as nat)
    } else {
        hex_digits(v as nat)
    }
}

/// The name std writes for a colour of the given red, green and blue with
/// `#{:X}{:X}{:X}`: `#` and the three numbers in upper-case hexadecimal, without
/// padding.
pub open spec fn hex_colour_text(r: i32, g: i32, b: i32) -> Seq<char> {
    seq!['#'] + i32_hex(r) + i32_hex(g) + i32_hex(b)
}

/// Names a colour `#` and its red, green and blue in upper-case hexadecimal, each
/// without padding, through `std::format!`.
#[verifier::external_body]
fn hex_colour_name(r: i32, g: i32, b: i32) -> (s: String)
    ensures
        s@ == hex_colour_text(r, g, b),
{
    format!("#{:X}{:X}{:X}", r, g, b)
}

/// `after` is `before` with a wire of colour `colour` laid from `from` to `to` on a route
/// the wiring may follow, climbing from the roof end.
pub open spec fn wire_laid(
    m: Map<Vector3i, Tile>,
    before: Seq<crate::wiring::WireView>,
    after: Seq<crate::wiring::WireView>,
    from: Vector3i,
    to: Vector3i,
    colour: Seq<char>,
    data: bool,
) -> bool {
    exists|path: Seq<Vector3i>|
        #[trigger] crate::wiring::wiring_route(m, from, to, true, path) && after
            == crate::wiring::wiring_after(before, path, from, colour, data)
}

/// A colour the generator may pick for a breaker's devices: the name of a red, green
/// and blue each below 256.
pub open spec fn breaker_colour(colour: Seq<char>) -> bool {
    exists|r: i32, g: i32, b: i32|
        0 <= r < 256 && 0 <= g < 256 && 0 <= b < 256 && colour == #[trigger] hex_colour_text(r, g, b)
}

/// `after` is `before`, with a data wire of colour `colour` laid from `device.1` to
/// `breaker` when `device` belongs to that breaker.
pub open spec fn device_step(
    m: Map<Vector3i, Tile>,
    before: Seq<crate::wiring::WireView>,
    after: Seq<crate::wiring::WireView>,
    device: (Vector3i, Vector3i),
    breaker: Vector3i,
    colour: Seq<char>,
) -> bool {
    if device.0 == breaker {
        wire_laid(m, before, after, device.1, breaker, colour, true)
    } else {
        after == before
    }
}

/// `states` are the wires before and after each of `devices` in turn is wired to
/// `breaker`.
pub open spec fn devices_chain(
    m: Map<Vector3i, Tile>,
    states: Seq<Seq<crate::wiring::WireView>>,
    devices: Seq<(Vector3i, Vector3i)>,
    breaker: Vector3i,
    colour: Seq<char>,
) -> bool {
    &&& states.len() == devices.len() + 1
    &&& forall|k: int|
        0 <= k < devices.len() ==> #[trigger] device_step(m, states[k], states[k + 1], devices[k], breaker, colour)
}

/// `after` is `before` with a data wire of colour `colour` laid, in order, from each of
/// `devices` that belongs to `breaker` to that breaker.
pub open spec fn devices_wired(
    m: Map<Vector3i, Tile>,
    before: Seq<crate::wiring::WireView>,
    after: Seq<crate::wiring::WireView>,
    devices: Seq<(Vector3i, Vector3i)>,
    breaker: Vector3i,
    colour: Seq<char>,
) -> bool {
    exists|states: Seq<Seq<crate::wiring::WireView>>|
        #[trigger] devices_chain(m, states, devices, breaker, colour) && states[0] == before
            && states.last() == after
}

/// `after` is `before` with a red wire laid from `generator_breaker` to `breaker`, then
/// the devices of `breaker` wired to it in a colour the generator picks.
pub open spec fn breaker_step(
    m: Map<Vector3i, Tile>,
    before: Seq<crate::wiring::WireView>,
    after: Seq<crate::wiring::WireView>,
    breaker: Vector3i,
    devices: Seq<(Vector3i, Vector3i)>,
    generator_breaker: Vector3i,
) -> bool {
    exists|red: Seq<crate::wiring::WireView>, colour: Seq<char>|
        #![trigger devices_wired(m, red, after, devices, breaker, colour)]
        wire_laid(m, before, red, generator_breaker, breaker, "RED"@, false) && breaker_colour(colour)
            && devices_wired(m, red, after, devices, breaker, colour)
}

/// `states` are the wires before and after each of `breakers` in turn is wired.
pub open spec fn breakers_chain(
    m: Map<Vector3i, Tile>,
    states: Seq<Seq<crate::wiring::WireView>>,
    breakers: Seq<Vector3i>,
    devices: Seq<(Vector3i, Vector3i)>,
    generator_breaker: Vector3i,
) -> bool {
    &&& states.len() == breakers.len() + 1
    &&& forall|k: int|
        0 <= k < breakers.len() ==> #[trigger] breaker_step(
            m,
            states[k],
            states[k + 1],
            breakers[k],
            devices,
            generator_breaker,
        )
}

/// `after` is `before` with, for each of `breakers` in order, a red wire laid from
/// `generator_breaker` to it, then its devices wired to it in a colour the generator
/// picks.
pub open spec fn breakers_wired(
    m: Map<Vector3i, Tile>,
    before: Seq<crate::wiring::WireView>,
    after: Seq<crate::wiring::WireView>,
    breakers: Seq<Vector3i>,
    devices: Seq<(Vector3i, Vector3i)>,
    generator_breaker: Vector3i,
) -> bool {
    exists|states: Seq<Seq<crate::wiring::WireView>>|
        #[trigger] breakers_chain(m, states, breakers, devices, generator_breaker) && states[0] == before
            && states.last() == after
}

impl SmallCargoShipMapBuilder {
    /// Takes away the generator room's roof, then lays each duct run: from its top to
    /// its end (the top of the generator room for `None`), one row towards row 0
    /// further, opening the ceiling below its top.
    fn lay_duct_runs(
        &mut self,
        ducts: &mut Vec<DuctSection>,
        runs: &Vec<(Vector3i, Option<Vector3i>)>,
        generator_room: Vector3i,
    )
        requires
            map_interior(old(self).map@),
            well_placed(generator_room),
            forall|k: int|
                0 <= k < runs@.len() ==> well_placed((#[trigger] runs@[k]).0) && (runs@[k].1 matches Some(e)
                    ==> well_placed(e)),
            sides_distinct(old(ducts)@),
        ensures
            final(self).map@ == roofs_opened(
                old(self).map@.remove(
                    Vector3i::of(generator_room.x as int, generator_room.y as int, generator_room.z + 2),
                ),
                runs@,
                runs@.len() as int,
            ),
            map_interior(final(self).map@),
            sides_distinct(final(ducts)@),
            glyphs_match(ducts_view(old(ducts)@)) ==> glyphs_match(ducts_view(final(ducts)@)),
            duct_runs_laid(
                old(self).map@.remove(
                    Vector3i::of(generator_room.x as int, generator_room.y as int, generator_room.z + 2),
                ),
                ducts_view(old(ducts)@),
                ducts_view(final(ducts)@),
                runs@,
                generator_room,
            ),
            final(self).areas == old(self).areas,
            final(self).start_position == old(self).start_position,
            final(self).blueprints == old(self).blueprints,
    {
        let ghost glyphs_before = glyphs_match(ducts_view(ducts@));
        let roof = Vector3i::new(generator_room.x, generator_room.y, generator_room.z + 2);
        self.map.remove(roof);
        let ghost base = self.map@;
        let ghost mut laid: Seq<Seq<crate::ducting::DuctView>> = seq![ducts_view(ducts@)];
        let generator_top = Vector3i::new(generator_room.x, generator_room.y, generator_room.z + 3);
        let mut k: usize = 0;
        while k < runs.len()
            invariant
                0 <= k <= runs@.len(),
                well_placed(generator_room),
                forall|j: int|
                    0 <= j < runs@.len() ==> well_placed((#[trigger] runs@[j]).0) && (runs@[j].1 matches Some(e)
                        ==> well_placed(e)),
                generator_top == Vector3i::of(generator_room.x as int, generator_room.y as int, generator_room.z + 3),
                self.map@ == roofs_opened(base, runs@, k as int),
                map_interior(self.map@),
                sides_distinct(ducts@),
                glyphs_before ==> glyphs_match(ducts_view(ducts@)),
                duct_runs_chain(base, runs@, generator_room, laid, k as int),
                laid[0] == ducts_view(old(ducts)@),
                laid.last() == ducts_view(ducts@),
                self.areas == old(self).areas,
                self.start_position == old(self).start_position,
                self.blueprints == old(self).blueprints,
            decreases runs@.len() - k,
        {
            let (top, end) = runs[k];
            assert(well_placed(runs@[k as int].0));
            let target = match end {
                Some(e) => e,
                None => generator_top,
            };
            let toward: i32 = if top.y > 0 {
                1
            } else if top.y < 0 {
                -1
            } else {
                0
            };
            let duct_end = Vector3i::new(target.x, target.y + toward, target.z);
            let ghost ducts_before = ducts_view(ducts@);
            lay_ducting(ducts, &self.map, top, duct_end);
            proof {
                assert(duct_end == crate::map_builders::ship_fittings::duct_end(runs@[k as int], generator_room));
                assert(ducts_laid(self.map@, ducts_before, ducts_view(ducts@), top, duct_end));
                let old_laid = laid;
                laid = laid.push(ducts_view(ducts@));
                assert forall|j: int| 0 <= j < k + 1 implies #[trigger] ducts_laid(
                    roofs_opened(base, runs@, j),
                    laid[j],
                    laid[j + 1],
                    runs@[j].0,
                    crate::map_builders::ship_fittings::duct_end(runs@[j], generator_room),
                ) by {
                    if j < k {
                        assert(laid[j] == old_laid[j]);
                        assert(laid[j + 1] == old_laid[j + 1]);
                    } else {
                        assert(laid[j] == ducts_before);
                    }
                }
            }
            proof {
                if glyphs_before {
                    let path = choose|path: Seq<Vector3i>|
                        crate::wiring::wiring_route(self.map@, top, duct_end, true, path) && ducts_view(ducts@)
                            == #[trigger] crate::ducting::ducting_after(
                            ducts_before.push(crate::ducting::duct_cap(top)),
                            path,
                            0,
                            top,
                            crate::entities::components::Direction::UP,
                            0,
                        );
                    let capped = ducts_before.push(crate::ducting::duct_cap(top));
                    assert(glyphs_match(capped)) by {
                        assert(crate::ducting::duct_cap(top).2 =~= set![
                            crate::entities::components::Direction::N,
                            crate::entities::components::Direction::S,
                            crate::entities::components::Direction::W,
                            crate::entities::components::Direction::E,
                        ]);
                        assert forall|i: int| 0 <= i < capped.len() implies (#[trigger] capped[i]).3 == crate::ducting::glyph_of(
                            capped[i].2,
                        ) by {
                            if i < ducts_before.len() {
                                assert(capped[i] == ducts_before[i]);
                            }
                        }
                    }
                    lemma_ducting_keeps_layout(capped, path, 0, top, crate::entities::components::Direction::UP, 0);
                }
            }
            let below = Vector3i::new(top.x, top.y, top.z - 1);
            self.map.insert(below, Tile::new_empty_stp());
            k = k + 1;
        }
    }

    /// Lays, for each breaker in order, a red wire from the generator room's breaker
    /// to it, then a wire of a colour the generator picks from each of its devices to
    /// it, carrying data.
    fn wire_breakers(
        &self,
        rng: &mut RandomNumberGenerator,
        wires: &mut Vec<WireSection>,
        breakers: &Vec<Vector3i>,
        devices: &Vec<(Vector3i, Vector3i)>,
        generator_breaker: Vector3i,
    )
        requires
            map_interior(self.map@),
            interior(generator_breaker),
            forall|k: int| 0 <= k < breakers@.len() ==> interior(#[trigger] breakers@[k]),
            forall|k: int|
                0 <= k < devices@.len() ==> interior((#[trigger] devices@[k]).0) && interior(devices@[k].1),
        ensures
            wires_view(final(wires)@).len() >= wires_view(old(wires)@).len(),
            wires_view(final(wires)@).subrange(0, old(wires)@.len() as int) == wires_view(old(wires)@),
            one_wire_per_colour(wires_view(old(wires)@)) ==> one_wire_per_colour(wires_view(final(wires)@)),
            breakers_wired(
                self.map@,
                wires_view(old(wires)@),
                wires_view(final(wires)@),
                breakers@,
                devices@,
                generator_breaker,
            ),
    {
        let ghost w0 = wires_view(wires@);
        let ghost distinct0 = one_wire_per_colour(w0);
        let red = "RED".to_owned();
        let ghost mut laid: Seq<Seq<crate::wiring::WireView>> = seq![w0];
        let mut i: usize = 0;
        while i < breakers.len()
            invariant
                0 <= i <= breakers@.len(),
                map_interior(self.map@),
                interior(generator_breaker),
                forall|k: int| 0 <= k < breakers@.len() ==> interior(#[trigger] breakers@[k]),
                forall|k: int|
                    0 <= k < devices@.len() ==> interior((#[trigger] devices@[k]).0) && interior(devices@[k].1),
                wires_view(wires@).len() >= w0.len(),
                wires_view(wires@).subrange(0, w0.len() as int) == w0,
                distinct0 ==> one_wire_per_colour(wires_view(wires@)),
                red@ == "RED"@,
                breakers_chain(self.map@, laid, breakers@.subrange(0, i as int), devices@, generator_breaker),
                laid[0] == w0,
                laid.last() == wires_view(wires@),
            decreases breakers@.len() - i,
        {
            let position = breakers[i];
            let r = crate::rng::range(rng, 0, 256);
            let g = crate::rng::range(rng, 0, 256);
            let b = crate::rng::range(rng, 0, 256);
            let color_name = hex_colour_name(r, g, b);
            let ghost mid = wires_view(wires@);
            self.lay_wire_kept(wires, generator_breaker, position, &red, false, Ghost(w0), Ghost(distinct0));
            let ghost red_state = wires_view(wires@);
            let ghost mut steps: Seq<Seq<crate::wiring::WireView>> = seq![red_state];
            proof {
                assert(breaker_colour(color_name@)) by {
                    assert(color_name@ == hex_colour_text(r, g, b));
                }
            }
            let mut j: usize = 0;
            while j < devices.len()
                invariant
                    0 <= j <= devices@.len(),
                    map_interior(self.map@),
                    interior(position),
                    forall|k: int|
                        0 <= k < devices@.len() ==> interior((#[trigger] devices@[k]).0) && interior(devices@[k].1),
                    wires_view(wires@).len() >= w0.len(),
                    wires_view(wires@).subrange(0, w0.len() as int) == w0,
                    distinct0 ==> one_wire_per_colour(wires_view(wires@)),
                    devices_chain(self.map@, steps, devices@.subrange(0, j as int), position, color_name@),
                    steps[0] == red_state,
                    steps.last() == wires_view(wires@),
                decreases devices@.len() - j,
            {
                let (breaker_position, device_position) = devices[j];
                let ghost before_device = wires_view(wires@);
                if breaker_position == position {
                    assert(interior(devices@[j as int].1));
                    self.lay_wire_kept(
                        wires,
                        device_position,
                        breaker_position,
                        &color_name,
                        true,
                        Ghost(w0),
                        Ghost(distinct0),
                    );
                }
                proof {
                    let old_steps = steps;
                    steps = steps.push(wires_view(wires@));
                    let ds = devices@.subrange(0, j + 1);
                    assert forall|k: int| 0 <= k < ds.len() implies #[trigger] device_step(
                        self.map@,
                        steps[k],
                        steps[k + 1],
                        ds[k],
                        position,
                        color_name@,
                    ) by {
                        if k < j {
                            assert(steps[k] == old_steps[k]);
                            assert(steps[k + 1] == old_steps[k + 1]);
                            assert(ds[k] == devices@.subrange(0, j as int)[k]);
                        } else {
                            assert(steps[k] == before_device);
                            assert(ds[k] == devices@[j as int]);
                        }
                    }
                }
                j = j + 1;
            }
            proof {
                assert(devices@.subrange(0, devices@.len() as int) =~= devices@);
                assert(devices_chain(self.map@, steps, devices@, position, color_name@));
                assert(devices_wired(self.map@, red_state, wires_view(wires@), devices@, position, color_name@));
                assert(breaker_step(self.map@, mid, wires_view(wires@), position, devices@, generator_breaker));
                let old_laid = laid;
                laid = laid.push(wires_view(wires@));
                let bs = breakers@.subrange(0, i + 1);
                assert forall|k: int| 0 <= k < bs.len() implies #[trigger] breaker_step(
                    self.map@,
                    laid[k],
                    laid[k + 1],
                    bs[k],
                    devices@,
                    generator_breaker,
                ) by {
                    if k < i {
                        assert(laid[k] == old_laid[k]);
                        assert(laid[k + 1] == old_laid[k + 1]);
                        assert(bs[k] == breakers@.subrange(0, i as int)[k]);
                    } else {
                        assert(laid[k] == mid);
                        assert(bs[k] == position);
                    }
                }
            }
            i = i + 1;
        }
        assert(breakers@.subrange(0, breakers@.len() as int) =~= breakers@);
        assert(breakers_chain(self.map@, laid, breakers@, devices@, generator_breaker));
    }

    /// Lays one wire of the fitting out, keeping the wires laid before it.
    fn lay_wire_kept(
        &self,
        wires: &mut Vec<WireSection>,
        from: Vector3i,
        to: Vector3i,
        color_name: &String,
        data: bool,
        Ghost(w0): Ghost<Seq<crate::wiring::WireView>>,
        Ghost(distinct0): Ghost<bool>,
    )
        requires
            map_interior(self.map@),
            interior(from),
            interior(to),
            wires_view(old(wires)@).len() >= w0.len(),
            wires_view(old(wires)@).subrange(0, w0.len() as int) == w0,
            distinct0 ==> one_wire_per_colour(wires_view(old(wires)@)),
        ensures
            wires_view(final(wires)@).len() >= w0.len(),
            wires_view(final(wires)@).subrange(0, w0.len() as int) == w0,
            distinct0 ==> one_wire_per_colour(wires_view(final(wires)@)),
            wire_laid(self.map@, wires_view(old(wires)@), wires_view(final(wires)@), from, to, color_name@, data),
    {
        let ghost before = wires_view(wires@);
        lay_wiring(wires, &self.map, from, to, color_name, true, data);
        proof {
            let path = choose|path: Seq<Vector3i>|
                crate::wiring::wiring_route(self.map@, from, to, true, path) && wires_view(wires@)
                    == #[trigger] crate::wiring::wiring_after(before, path, from, color_name@, data);
            lemma_wiring_follows_route(before, path, from, color_name@, data);
            if distinct0 {
                lemma_wiring_keeps_one_wire_per_colour(before, path, from, color_name@, data);
            }
            let after = wires_view(wires@);
            assert(after.subrange(0, before.len() as int) == before);
            assert forall|k: int| 0 <= k < w0.len() implies after[k] == w0[k] by {
                assert(after.subrange(0, before.len() as int)[k] == after[k]);
                assert(before.subrange(0, w0.len() as int)[k] == before[k]);
            }
            assert(after.subrange(0, w0.len() as int) =~= w0);
        }
    }
}

impl SmallCargoShipMapBuilder {
    /// Whether every area can be fitted out.
    pub fn areas_fittable(&self) -> (b: bool)
        ensures
            b == forall|i: int| 0 <= i < self.areas@.len() ==> fittable(#[trigger] self.areas@[i]),
    {
        let mut i: usize = 0;
        while i < self.areas.len()
            invariant
                0 <= i <= self.areas@.len(),
                forall|k: int| 0 <= k < i ==> fittable(#[trigger] self.areas@[k]),
            decreases self.areas@.len() - i,
        {
            if !area_fittable(&self.areas[i]) {
                return false;
            }
            i = i + 1;
        }
        true
    }

    /// Fits the ship out: furnishes every area, takes away the generator room's roof,
    /// runs ducts from above each generic room and the cockpit, opening their
    /// ceilings, and wires every breaker to the generator room's breaker in red and
    /// every device to its breaker in a colour of its own. Gives what the areas got.
    /// The ducts are laid along the areas' duct runs, and the wires by breaker, as
    /// `duct_runs_laid` and `breakers_wired` state.
    pub fn spawn_entities(
        &mut self,
        rng: &mut RandomNumberGenerator,
        ducts: &mut Vec<DuctSection>,
        wires: &mut Vec<WireSection>,
    ) -> (spawns: Vec<Spawn>)
        requires
            forall|i: int| 0 <= i < old(self).areas@.len() ==> fittable(#[trigger] old(self).areas@[i]),
            map_interior(old(self).map@),
            sides_distinct(old(ducts)@),
        ensures
            final(self).areas@.len() == old(self).areas@.len(),
            forall|i: int|
                0 <= i < final(self).areas@.len() ==> #[trigger] old(self).areas@[i].same_but_power(
                    final(self).areas@[i],
                ),
            exists|parts: Seq<Seq<Spawn>>|
                parts.len() == old(self).areas@.len() && spawns@ == #[trigger] all_spawns(parts) && forall|
                    i: int,
                | 0 <= i < parts.len() ==> furnishing_of(old(self).areas@[i], #[trigger] parts[i]),
            ({
                let g = generator_of(final(self).areas@).0;
                final(self).map@ == roofs_opened(
                    old(self).map@.remove(Vector3i::of(g.x as int, g.y as int, g.z + 2)),
                    duct_runs(final(self).areas@),
                    duct_runs(final(self).areas@).len() as int,
                )
            }),
            sides_distinct(final(ducts)@),
            glyphs_match(ducts_view(old(ducts)@)) ==> glyphs_match(ducts_view(final(ducts)@)),
            ({
                let g = generator_of(final(self).areas@).0;
                duct_runs_laid(
                    old(self).map@.remove(Vector3i::of(g.x as int, g.y as int, g.z + 2)),
                    ducts_view(old(ducts)@),
                    ducts_view(final(ducts)@),
                    duct_runs(final(self).areas@),
                    g,
                )
            }),
            breakers_wired(
                final(self).map@,
                wires_view(old(wires)@),
                wires_view(final(wires)@),
                breakers_of(final(self).areas@),
                devices_of(final(self).areas@),
                generator_of(final(self).areas@).1,
            ),
            wires_view(final(wires)@).len() >= wires_view(old(wires)@).len(),
            wires_view(final(wires)@).subrange(0, old(wires)@.len() as int) == wires_view(old(wires)@),
            one_wire_per_colour(wires_view(old(wires)@)) ==> one_wire_per_colour(wires_view(final(wires)@)),
            final(self).start_position == old(self).start_position,
            final(self).blueprints == old(self).blueprints,
    {
        let spawns = self.furnish_areas(rng);
        proof {
            assert(forall|i: int| 0 <= i < self.areas@.len() ==> fittable(#[trigger] self.areas@[i]));
            assert forall|i: int| 0 <= i < self.areas@.len() implies area_fits(#[trigger] self.areas@[i]) by {
                assert(fittable(self.areas@[i]));
            }
            lemma_plan_bounds(self.areas@);
        }
        let plan = self.fitting_plan();
        let ghost areas_now = self.areas@;
        self.lay_duct_runs(ducts, &plan.duct_runs, plan.generator_room);
        self.wire_breakers(rng, wires, &plan.breakers, &plan.devices, plan.generator_breaker);
        proof {
            assert(self.areas@ == areas_now);
        }
        spawns
    }
}

/// Whether `area` can be fitted out.
fn area_fittable(area: &ShipArea) -> (b: bool)
    ensures
        b == fittable(*area),
{
    let position = area.position();
    let size = area.size();
    if !(-0x7000_0000 <= position.x && position.x <= 0x7000_0000 && -0x7000_0000 <= position.y
        && position.y <= 0x7000_0000 && -0x7000_0000 <= position.z && position.z <= 0x7000_0000) {
        return false;
    }
    if !(0 <= size.x && size.x <= 0x10_0000 && 0 <= size.y && size.y <= 0x10_0000) {
        return false;
    }
    if !(size.x < 3 || size.y < 3 || (size.x / 2 >= 2 && size.y / 2 >= 2)) {
        return false;
    }
    let nodes = area.nodes();
    if nodes.len() > 0x7fff_ffff {
        return false;
    }
    let mut i: usize = 0;
    while i < nodes.len()
        invariant
            0 <= i <= nodes@.len(),
            nodes@ == area.nodes_spec(),
            position == area.position_spec(),
            forall|k: int|
                0 <= k < i ==> {
                    let n = #[trigger] nodes@[k];
                    &&& -0x7000_0000 <= n.x <= 0x7000_0000
                    &&& -0x7000_0000 <= n.y <= 0x7000_0000
                    &&& -0x7000_0000 <= n.z <= 0x7000_0000
                    &&& -0x7000_0000 <= n.x - position.x <= 0x7000_0000
                    &&& -0x7000_0000 <= n.y - position.y <= 0x7000_0000
                    &&& -0x7000_0000 <= n.z - position.z <= 0x7000_0000
                },
        decreases nodes@.len() - i,
    {
        let n = nodes[i];
        let (ox, oy, oz) = (
            n.x as i64 - position.x as i64,
            n.y as i64 - position.y as i64,
            n.z as i64 - position.z as i64,
        );
        if !(-0x7000_0000 <= n.x && n.x <= 0x7000_0000 && -0x7000_0000 <= n.y && n.y <= 0x7000_0000
            && -0x7000_0000 <= n.z && n.z <= 0x7000_0000 && -0x7000_0000i64 <= ox && ox <= 0x7000_0000i64
            && -0x7000_0000i64 <= oy && oy <= 0x7000_0000i64 && -0x7000_0000i64 <= oz && oz <= 0x7000_0000i64) {
            assert(area.nodes_spec()[i as int] == n);
            assert(position == area.position_spec());
            assert(!area_fits(*area));
            return false;
        }
        i = i + 1;
    }
    if let Some(b) = area.breaker() {
        if !crate::map::pathfinding::is_interior(b) {
            return false;
        }
    }
    let connections = area.connections();
    let mut k: usize = 0;
    while k < connections.len()
        invariant
            0 <= k <= connections@.len(),
            connections@ == area.connections_spec(),
            forall|j: int| 0 <= j < k ==> interior(#[trigger] connections@[j]),
        decreases connections@.len() - k,
    {
        if !crate::map::pathfinding::is_interior(connections[k]) {
            assert(area.connections_spec()[k as int] == connections@[k as int]);
            return false;
        }
        k = k + 1;
    }
    true
}

} // verus!
