use vstd::prelude::*;

use crate::entities::components::Direction;
use crate::map::pathfinding::{
    climb_direction, climb_route, climbable_from, far_end, find_walkable_path, first_end, interior, is_route, is_walk, map_interior, on_grid, wall_climb_path,
    within_reach, SEARCH_LIMIT,
};
use crate::map::TileMap;
use crate::spawner::wire_style_spec;
use crate::vectors::{abs, Vector3i};

verus! {

/// The step from `from` to `to` as the wiring and ducting read it: one of the six
/// unit steps when `to` is that step away, zero when they are equal, and `(2, 2, 2)`
/// for any other pair, which is no unit step.
pub open spec fn unit_step(from: Vector3i, to: Vector3i) -> Vector3i {
    if to.x == from.x && to.y == from.y - 1 && to.z == from.z {
        Vector3i::of(0, -1, 0)
    } else if to.x == from.x - 1 && to.y == from.y && to.z == from.z {
        Vector3i::of(-1, 0, 0)
    } else if to.x == from.x && to.y == from.y + 1 && to.z == from.z {
        Vector3i::of(0, 1, 0)
    } else if to.x == from.x + 1 && to.y == from.y && to.z == from.z {
        Vector3i::of(1, 0, 0)
    } else if to.x == from.x && to.y == from.y && to.z == from.z + 1 {
        Vector3i::of(0, 0, 1)
    } else if to.x == from.x && to.y == from.y && to.z == from.z - 1 {
        Vector3i::of(0, 0, -1)
    } else if to == from {
        Vector3i::of(0, 0, 0)
    } else {
        Vector3i::of(2, 2, 2)
    }
}

/// The step from `from` to `to`, as `unit_step` reads it.
pub fn step_between(from: Vector3i, to: Vector3i) -> (s: Vector3i)
    ensures
        s == unit_step(from, to),
{
    let (fx, fy, fz) = (from.x as i64, from.y as i64, from.z as i64);
    let (tx, ty, tz) = (to.x as i64, to.y as i64, to.z as i64);
    if tx == fx && ty == fy - 1 && tz == fz {
        Vector3i::new(0, -1, 0)
    } else if tx == fx - 1 && ty == fy && tz == fz {
        Vector3i::new(-1, 0, 0)
    } else if tx == fx && ty == fy + 1 && tz == fz {
        Vector3i::new(0, 1, 0)
    } else if tx == fx + 1 && ty == fy && tz == fz {
        Vector3i::new(1, 0, 0)
    } else if tx == fx && ty == fy && tz == fz + 1 {
        Vector3i::new(0, 0, 1)
    } else if tx == fx && ty == fy && tz == fz - 1 {
        Vector3i::new(0, 0, -1)
    } else if tx == fx && ty == fy && tz == fz {
        Vector3i::new(0, 0, 0)
    } else {
        Vector3i::new(2, 2, 2)
    }
}

/// A section of wire laid on the ship.
pub struct WireSection {
    pub position: Vector3i,
    /// The name of the wire's colour; wires of one name form one circuit.
    pub color_name: String,
    pub direction: Direction,
    pub glyph: char,
    /// Whether the wire carries data as well as power.
    pub data: bool,
}

/// A wire section as plain values: position, colour name, direction, glyph, data.
pub type WireView = (Vector3i, Seq<char>, Direction, char, bool);

/// The plain values of a wire section.
pub open spec fn wire_view(w: WireSection) -> WireView {
    (w.position, w.color_name@, w.direction, w.glyph, w.data)
}

/// The plain values of each wire section of `s`, in order.
pub open spec fn wires_view(s: Seq<WireSection>) -> Seq<WireView> {
    s.map_values(|w: WireSection| wire_view(w))
}

/// A wire of colour `color` lies at `p`.
pub open spec fn wired_at(wires: Seq<WireView>, p: Vector3i, color: Seq<char>) -> bool {
    exists|i: int| 0 <= i < wires.len() && (#[trigger] wires[i]).0 == p && wires[i].1 == color
}

/// The wires after a wire of colour `color` is laid along `path`, the last section
/// laid at `prev`: a position that already holds a wire of that colour is passed
/// over; every other gets a section facing and looking as the step to it from the
/// last section laid.
pub open spec fn wiring_after(
    wires: Seq<WireView>,
    path: Seq<Vector3i>,
    prev: Vector3i,
    color: Seq<char>,
    data: bool,
) -> Seq<WireView>
    decreases path.len(),
{
    if path.len() == 0 {
        wires
    } else {
        let p = path[0];
        if wired_at(wires, p, color) {
            wiring_after(wires, path.drop_first(), prev, color, data)
        } else {
            let style = wire_style_spec(unit_step(prev, p));
            wiring_after(wires.push((p, color, style.0, style.1, data)), path.drop_first(), p, color, data)
        }
    }
}

/// A route the wiring may follow from `start_position` to `target`: on one level the
/// walk the search gives, without repeated positions and no longer than any walk
/// between the two, or `[start_position]` alone, only when no walk of `n` steps with
/// `(2n + 1)²` below `SEARCH_LIMIT` reaches the target; between levels the climbing
/// route the search gives, or nothing; a climb that starts at the first end when a
/// wall beside it can be climbed.
pub open spec fn wiring_route(
    m: Map<Vector3i, crate::map::Tile>,
    start_position: Vector3i,
    target: Vector3i,
    roof_preferred: bool,
    path: Seq<Vector3i>,
) -> bool {
    if start_position.z == target.z {
        &&& path.len() >= 1
        &&& path[0] == start_position
        &&& path == seq![start_position] || (path.last() == target && is_route(m, path, None))
        &&& forall|i: int| 0 <= i < path.len() ==> on_grid(#[trigger] path[i])
        &&& path.no_duplicates()
        &&& forall|w: Seq<Vector3i>|
            #[trigger] is_walk(m, start_position, target, None, w) ==> path.len() <= w.len() && ((2
                * w.len() - 1) * (2 * w.len() - 1) < SEARCH_LIMIT ==> path.last() == target && is_route(
                m,
                path,
                None,
            ))
    } else {
        &&& path.len() == 0 || exists|pos: Vector3i, a: Seq<Vector3i>, w: Seq<Vector3i>, b: Seq<Vector3i>|
            #[trigger] climb_route(m, start_position, target, roof_preferred, pos, a, w, b) && path
                == a + w + b
        &&& climbable_from(
            m,
            first_end(start_position, target, roof_preferred),
            abs(far_end(start_position, target, roof_preferred).z as int),
            climb_direction(start_position, target, roof_preferred),
        ) ==> exists|a: Seq<Vector3i>, w: Seq<Vector3i>, b: Seq<Vector3i>|
            #[trigger] climb_route(
                m,
                start_position,
                target,
                roof_preferred,
                first_end(start_position, target, roof_preferred),
                a,
                w,
                b,
            ) && path == a + w + b
    }
}

/// Lays a wire of colour `color_name` from `start_position` to `target`: along the
/// walk between them when they share a level, else along a route that climbs a wall,
/// from the roof end when `roof_preferred`. Positions that already hold a wire of
/// that colour are passed over.
pub fn lay_wiring(
    wires: &mut Vec<WireSection>,
    map: &TileMap,
    start_position: Vector3i,
    target: Vector3i,
    color_name: &String,
    roof_preferred: bool,
    data: bool,
)
    requires
        map_interior(map@),
        interior(start_position),
        interior(target),
    ensures
        exists|path: Seq<Vector3i>|
            wiring_route(map@, start_position, target, roof_preferred, path) && wires_view(final(wires)@)
                == #[trigger] wiring_after(wires_view(old(wires)@), path, start_position, color_name@, data),
{
    let path = if start_position.z == target.z {
        find_walkable_path(map, start_position, target)
    } else {
        wall_climb_path(map, start_position, target, roof_preferred)
    };
    let ghost goal = wiring_after(wires_view(wires@), path@, start_position, color_name@, data);
    let mut prev_position = start_position;
    let mut i: usize = 0;
    assert(path@.subrange(0, path@.len() as int) =~= path@);
    while i < path.len()
        invariant
            0 <= i <= path.len(),
            goal == wiring_after(
                wires_view(wires@),
                path@.subrange(i as int, path@.len() as int),
                prev_position,
                color_name@,
                data,
            ),
        decreases path.len() - i,
    {
        let position = path[i];
        let ghost rest = path@.subrange(i as int, path@.len() as int);
        proof {
            assert(rest.drop_first() =~= path@.subrange(i + 1, path@.len() as int));
            assert(rest[0] == position);
        }
        let mut wire_present = false;
        let mut k: usize = 0;
        while k < wires.len()
            invariant
                0 <= k <= wires.len(),
                wire_present == exists|j: int|
                    0 <= j < k && (#[trigger] wires@[j]).position == position && wires@[j].color_name@
                        == color_name@,
            decreases wires.len() - k,
        {
            if wires[k].position == position && wires[k].color_name == *color_name {
                wire_present = true;
            }
            k = k + 1;
        }
        proof {
            let wv = wires_view(wires@);
            if wire_present {
                let j = choose|j: int|
                    0 <= j < wires@.len() && (#[trigger] wires@[j]).position == position
                        && wires@[j].color_name@ == color_name@;
                assert(wv[j].0 == position && wv[j].1 == color_name@);
            } else {
                assert forall|j: int| 0 <= j < wv.len() implies !((#[trigger] wv[j]).0 == position && wv[j].1
                    == color_name@) by {
                    assert(wv[j] == wire_view(wires@[j]));
                }
            }
        }
        if !wire_present {
            let step = step_between(prev_position, position);
            let (direction, glyph) = crate::spawner::wire_style(step);
            let ghost before = wires@;
            wires.push(
                WireSection { position, color_name: color_name.clone(), direction, glyph, data },
            );
            proof {
                assert(wires_view(wires@) =~= wires_view(before).push(
                    (position, color_name@, direction, glyph, data),
                ));
            }
            prev_position = position;
        }
        i = i + 1;
    }
    proof {
        assert(path@.subrange(0, path@.len() as int) =~= path@);
        if start_position.z == target.z {
            assert forall|i: int| 0 <= i < path@.len() implies on_grid(#[trigger] path@[i]) by {
                assert(within_reach(start_position, path@[i], 141 * SEARCH_LIMIT));
            }
        }
        assert(wiring_route(map@, start_position, target, roof_preferred, path@));
    }
}

/// No position holds two wires of one colour.
pub open spec fn one_wire_per_colour(wires: Seq<WireView>) -> bool {
    forall|i: int, j: int|
        0 <= i < j < wires.len() ==> !((#[trigger] wires[i]).0 == (#[trigger] wires[j]).0 && wires[i].1
            == wires[j].1)
}

/// Laying a wire keeps one wire of each colour per position: where no position held
/// two wires of one colour before, none does after.
pub proof fn lemma_wiring_keeps_one_wire_per_colour(
    wires: Seq<WireView>,
    path: Seq<Vector3i>,
    prev: Vector3i,
    color: Seq<char>,
    data: bool,
)
    requires
        one_wire_per_colour(wires),
    ensures
        one_wire_per_colour(wiring_after(wires, path, prev, color, data)),
    decreases path.len(),
{
    if path.len() > 0 {
        let p = path[0];
        if wired_at(wires, p, color) {
            lemma_wiring_keeps_one_wire_per_colour(wires, path.drop_first(), prev, color, data);
        } else {
            let style = wire_style_spec(unit_step(prev, p));
            let next = wires.push((p, color, style.0, style.1, data));
            assert forall|i: int, j: int| 0 <= i < j < next.len() implies !((#[trigger] next[i]).0 == (
            #[trigger] next[j]).0 && next[i].1 == next[j].1) by {
                if j == wires.len() {
                    assert(next[i] == wires[i]);
                } else {
                    assert(next[i] == wires[i] && next[j] == wires[j]);
                }
            }
            lemma_wiring_keeps_one_wire_per_colour(next, path.drop_first(), p, color, data);
        }
    }
}

/// Laying a wire keeps the wires already laid, in order, adds only sections of its
/// colour on positions of its route, and leaves every position of the route with a
/// wire of its colour.
pub proof fn lemma_wiring_follows_route(
    wires: Seq<WireView>,
    path: Seq<Vector3i>,
    prev: Vector3i,
    color: Seq<char>,
    data: bool,
)
    ensures
        ({
            let r = wiring_after(wires, path, prev, color, data);
            &&& r.len() >= wires.len()
            &&& r.subrange(0, wires.len() as int) == wires
            &&& forall|k: int|
                wires.len() <= k < r.len() ==> (#[trigger] r[k]).1 == color && r[k].4 == data
                    && path.contains(r[k].0)
            &&& forall|i: int| 0 <= i < path.len() ==> wired_at(r, #[trigger] path[i], color)
            &&& forall|q: Vector3i, c: Seq<char>| #[trigger] wired_at(wires, q, c) ==> wired_at(r, q, c)
        }),
    decreases path.len(),
{
    let r = wiring_after(wires, path, prev, color, data);
    if path.len() == 0 {
        assert(wires.subrange(0, wires.len() as int) =~= wires);
    } else {
        let p = path[0];
        let rest = path.drop_first();
        let next = if wired_at(wires, p, color) {
            wires
        } else {
            let style = wire_style_spec(unit_step(prev, p));
            wires.push((p, color, style.0, style.1, data))
        };
        let next_prev = if wired_at(wires, p, color) {
            prev
        } else {
            p
        };
        assert(r == wiring_after(next, rest, next_prev, color, data));
        lemma_wiring_follows_route(next, rest, next_prev, color, data);
        assert(next.len() >= wires.len());
        assert forall|k: int| 0 <= k < wires.len() implies next[k] == wires[k] by {}
        assert(r.subrange(0, wires.len() as int) =~= wires) by {
            assert forall|k: int| 0 <= k < wires.len() implies r[k] == wires[k] by {
                assert(r.subrange(0, next.len() as int)[k] == r[k]);
            }
        }
        assert forall|k: int| wires.len() <= k < r.len() implies (#[trigger] r[k]).1 == color && r[k].4
            == data && path.contains(r[k].0) by {
            if k >= next.len() {
                assert(rest.contains(r[k].0));
                let j = choose|j: int| 0 <= j < rest.len() && rest[j] == r[k].0;
                assert(path[j + 1] == r[k].0);
            } else {
                assert(r.subrange(0, next.len() as int)[k] == r[k]);
                assert(next[k].0 == p);
                assert(path[0] == r[k].0);
            }
        }
        assert forall|q: Vector3i, c: Seq<char>| #[trigger] wired_at(wires, q, c) implies wired_at(
            r,
            q,
            c,
        ) by {
            let j = choose|j: int| 0 <= j < wires.len() && (#[trigger] wires[j]).0 == q && wires[j].1 == c;
            assert(next[j] == wires[j]);
            assert(wired_at(next, q, c));
        }
        assert forall|i: int| 0 <= i < path.len() implies wired_at(r, #[trigger] path[i], color) by {
            if i == 0 {
                if wired_at(wires, p, color) {
                    assert(wired_at(next, p, color));
                } else {
                    assert(next[wires.len() as int].0 == p);
                    assert(wired_at(next, p, color));
                }
            } else {
                assert(rest[i - 1] == path[i]);
            }
        }
    }
}

/// Where every position of the route already holds a wire of the colour, laying the
/// wire changes nothing.
proof fn lemma_wiring_on_wired_route(wires: Seq<WireView>, path: Seq<Vector3i>, prev: Vector3i, color: Seq<char>, data: bool)
    requires
        forall|i: int| 0 <= i < path.len() ==> wired_at(wires, #[trigger] path[i], color),
    ensures
        wiring_after(wires, path, prev, color, data) == wires,
    decreases path.len(),
{
    if path.len() > 0 {
        assert(wired_at(wires, path[0], color));
        assert forall|i: int| 0 <= i < path.drop_first().len() implies wired_at(
            wires,
            #[trigger] path.drop_first()[i],
            color,
        ) by {
            assert(path.drop_first()[i] == path[i + 1]);
        }
        lemma_wiring_on_wired_route(wires, path.drop_first(), prev, color, data);
    }
}

/// Laying a wire along the same route a second time adds nothing, wherever the
/// second laying starts from.
pub proof fn lemma_wiring_twice(
    wires: Seq<WireView>,
    path: Seq<Vector3i>,
    prev: Vector3i,
    again_from: Vector3i,
    color: Seq<char>,
    data: bool,
)
    ensures
        wiring_after(wiring_after(wires, path, prev, color, data), path, again_from, color, data)
            == wiring_after(wires, path, prev, color, data),
{
    lemma_wiring_follows_route(wires, path, prev, color, data);
    lemma_wiring_on_wired_route(wiring_after(wires, path, prev, color, data), path, again_from, color, data);
}

/// Every position of a route the wiring may follow is on the grid with its neighbours.
pub proof fn lemma_route_on_grid(
    m: Map<Vector3i, crate::map::Tile>,
    start_position: Vector3i,
    target: Vector3i,
    roof_preferred: bool,
    path: Seq<Vector3i>,
)
    requires
        wiring_route(m, start_position, target, roof_preferred, path),
    ensures
        forall|i: int| 0 <= i < path.len() ==> on_grid(#[trigger] path[i]),
{
    if start_position.z != target.z && path.len() > 0 {
        let (pos, a, w, b) = choose|pos: Vector3i, a: Seq<Vector3i>, w: Seq<Vector3i>, b: Seq<Vector3i>|
            #[trigger] climb_route(m, start_position, target, roof_preferred, pos, a, w, b) && path == a + w
                + b;
        assert forall|i: int| 0 <= i < path.len() implies on_grid(#[trigger] path[i]) by {
            assert(path[i] == (a + w + b)[i]);
        }
    }
}

} // verus!
