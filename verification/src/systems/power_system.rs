use vstd::prelude::*;

use crate::vectors::utils::{cardinal_neighbours_with_z_spec, get_cardinal_neighbours_with_z, steps_fit};
use crate::vectors::Vector3i;

verus! {

/// A wire of the ship as the power network reads it.
pub struct NetworkWire {
    pub position: Vector3i,
    pub color_name: String,
    pub entity_id: u32,
}

/// A breaker box and whether its switch is on.
#[derive(Clone, Copy, Debug, PartialEq, Eq, Structural)]
pub struct BreakerSwitch {
    pub position: Vector3i,
    pub on: bool,
}

/// The largest number of positions a circuit trace that matches colours takes from
/// its stack.
pub const TRACE_LIMIT: usize = 1_000_000;

/// `ids` holds the id of a wire at `p`.
pub open spec fn joined_at(wires: Seq<NetworkWire>, ids: Seq<u32>, p: Vector3i) -> bool {
    exists|j: int| 0 <= j < wires.len() && (#[trigger] wires[j]).position == p && ids.contains(wires[j].entity_id)
}

/// `p` is `start`, one of its six neighbours, or a neighbour of a position where
/// `ids` holds a wire.
pub open spec fn next_to_circuit(wires: Seq<NetworkWire>, ids: Seq<u32>, start: Vector3i, p: Vector3i) -> bool {
    ||| p == start
    ||| cardinal_neighbours_with_z_spec(start).contains(p)
    ||| exists|q: Vector3i| #[trigger] joined_at(wires, ids, q) && cardinal_neighbours_with_z_spec(q).contains(p)
}

/// Every id of `ids` is the id of a wire that lies next to the circuit from `start`.
pub open spec fn circuit_connected(wires: Seq<NetworkWire>, ids: Seq<u32>, start: Vector3i) -> bool {
    forall|k: int|
        0 <= k < ids.len() ==> exists|i: int|
            0 <= i < wires.len() && (#[trigger] wires[i]).entity_id == #[trigger] ids[k]
                && next_to_circuit(wires, ids, start, wires[i].position)
}

/// `colors` holds a colour of the name `c`.
pub open spec fn colour_met(colors: Seq<String>, c: Seq<char>) -> bool {
    exists|i: int| 0 <= i < colors.len() && (#[trigger] colors[i])@ == c
}

/// A position waiting on the trace's stack: `start`, or one holding a wire of a
/// colour met so far, next to the circuit.
pub open spec fn waiting_ok(
    wires: Seq<NetworkWire>,
    ids: Seq<u32>,
    colors: Seq<String>,
    start: Vector3i,
    p: Vector3i,
) -> bool {
    &&& next_to_circuit(wires, ids, start, p)
    &&& p == start || exists|j: int|
        0 <= j < wires.len() && (#[trigger] wires[j]).position == p && colour_met(colors, wires[j].color_name@)
}

/// Whether `colors` holds a colour of the name of `color`.
fn has_colour(colors: &Vec<String>, color: &String) -> (b: bool)
    ensures
        b == colour_met(colors@, color@),
{
    let mut i: usize = 0;
    while i < colors.len()
        invariant
            0 <= i <= colors.len(),
            forall|j: int| 0 <= j < i ==> (#[trigger] colors@[j])@ != color@,
        decreases colors.len() - i,
    {
        if colors[i] == *color {
            return true;
        }
        i = i + 1;
    }
    false
}

/// Whether `ids` holds `id`.
fn has_id(ids: &Vec<u32>, id: u32) -> (b: bool)
    ensures
        b == ids@.contains(id),
{
    let mut i: usize = 0;
    while i < ids.len()
        invariant
            0 <= i <= ids.len(),
            forall|j: int| 0 <= j < i ==> ids@[j] != id,
        decreases ids.len() - i,
    {
        if ids[i] == id {
            return true;
        }
        i = i + 1;
    }
    false
}

/// The first breaker box at `p`, if any.
fn breaker_at(breakers: &Vec<BreakerSwitch>, p: Vector3i) -> (r: Option<BreakerSwitch>)
    ensures
        r matches Some(b) ==> breakers@.contains(b) && b.position == p,
        r is None ==> forall|i: int| 0 <= i < breakers@.len() ==> (#[trigger] breakers@[i]).position != p,
{
    let mut i: usize = 0;
    while i < breakers.len()
        invariant
            0 <= i <= breakers.len(),
            forall|j: int| 0 <= j < i ==> (#[trigger] breakers@[j]).position != p,
        decreases breakers.len() - i,
    {
        if breakers[i].position == p {
            return Some(breakers[i]);
        }
        i = i + 1;
    }
    None
}

/// Taking in one more wire keeps every position next to the circuit next to it.
proof fn lemma_circuit_grows(wires: Seq<NetworkWire>, ids: Seq<u32>, id: u32, start: Vector3i)
    ensures
        forall|p: Vector3i|
            next_to_circuit(wires, ids, start, p) ==> #[trigger] next_to_circuit(wires, ids.push(id), start, p),
        forall|p: Vector3i| joined_at(wires, ids, p) ==> #[trigger] joined_at(wires, ids.push(id), p),
{
    assert forall|p: Vector3i| joined_at(wires, ids, p) implies #[trigger] joined_at(wires, ids.push(id), p) by {
        let j = choose|j: int|
            0 <= j < wires.len() && (#[trigger] wires[j]).position == p && ids.contains(wires[j].entity_id);
        let k = choose|k: int| 0 <= k < ids.len() && ids[k] == wires[j].entity_id;
        assert(ids.push(id)[k] == wires[j].entity_id);
    }
    assert forall|p: Vector3i| next_to_circuit(wires, ids, start, p) implies #[trigger] next_to_circuit(
        wires,
        ids.push(id),
        start,
        p,
    ) by {
        if p != start && !cardinal_neighbours_with_z_spec(start).contains(p) {
            let q = choose|q: Vector3i|
                #[trigger] joined_at(wires, ids, q) && cardinal_neighbours_with_z_spec(q).contains(p);
            assert(joined_at(wires, ids.push(id), q));
        }
    }
}

/// Meeting one more colour keeps every colour met.
proof fn lemma_colours_grow(colors: Seq<String>, c: String)
    ensures
        forall|n: Seq<char>| colour_met(colors, n) ==> #[trigger] colour_met(colors.push(c), n),
        colour_met(colors.push(c), c@),
{
    assert forall|n: Seq<char>| colour_met(colors, n) implies #[trigger] colour_met(colors.push(c), n) by {
        let i = choose|i: int| 0 <= i < colors.len() && (#[trigger] colors[i])@ == n;
        assert(colors.push(c)[i] == colors[i]);
    }
    assert(colors.push(c)[colors.len() as int] == c);
}

/// The stack and the wires taken in keep their invariant.
pub open spec fn trace_ok(
    wires: Seq<NetworkWire>,
    ids: Seq<u32>,
    colors: Seq<String>,
    stack: Seq<Vector3i>,
    start: Vector3i,
) -> bool {
    &&& ids.no_duplicates()
    &&& circuit_connected(wires, ids, start)
    &&& forall|k: int| 0 <= k < stack.len() ==> waiting_ok(wires, ids, colors, start, #[trigger] stack[k])
}

/// A breaker box stands at `p`.
pub open spec fn has_breaker(breakers: Seq<BreakerSwitch>, p: Vector3i) -> bool {
    exists|b: int| 0 <= b < breakers.len() && (#[trigger] breakers[b]).position == p
}

/// The trace goes on to the wire `w` from a position next to it: through the breaker
/// box at its position when one stands there (whose switches are all on, with
/// `respect_switches`); elsewhere when `w` has the colour the trace started with.
pub open spec fn trace_reaches(
    breakers: Seq<BreakerSwitch>,
    w: NetworkWire,
    start_color: Seq<char>,
    respect_switches: bool,
) -> bool {
    if has_breaker(breakers, w.position) {
        respect_switches ==> forall|b: int|
            0 <= b < breakers.len() && (#[trigger] breakers[b]).position == w.position ==> breakers[b].on
    } else {
        w.color_name@ == start_color
    }
}

/// `p` lies next to a position of `done`.
pub open spec fn next_to_done(done: Set<Vector3i>, p: Vector3i) -> bool {
    exists|q: Vector3i| #[trigger] done.contains(q) && cardinal_neighbours_with_z_spec(q).contains(p)
}

/// Every wire the trace reaches from a position of `done` is taken in, or waits on the
/// stack with its colour met.
pub open spec fn frontier_ok(
    wires: Seq<NetworkWire>,
    breakers: Seq<BreakerSwitch>,
    ids: Seq<u32>,
    colors: Seq<String>,
    stack: Seq<Vector3i>,
    done: Set<Vector3i>,
    start_color: Seq<char>,
    respect_switches: bool,
    match_colours: bool,
) -> bool {
    forall|j: int|
        0 <= j < wires.len() && next_to_done(done, (#[trigger] wires[j]).position) && trace_reaches(
            breakers,
            wires[j],
            start_color,
            respect_switches,
        ) ==> ids.contains(wires[j].entity_id) || (stack.contains(wires[j].position) && (!match_colours
            || colour_met(colors, wires[j].color_name@)))
}

/// No two wires share an id.
pub open spec fn ids_distinct(wires: Seq<NetworkWire>) -> bool {
    forall|a: int, b: int|
        0 <= a < wires.len() && 0 <= b < wires.len() && (#[trigger] wires[a]).entity_id == (
        #[trigger] wires[b]).entity_id ==> a == b
}

/// Wires at `p` that a trace took in, or met with its colour, as far as the `around`
/// part of the frontier is concerned: every wire the trace reaches at one of the first
/// `n` neighbours of `p` is taken in or waits on the stack with its colour met.
pub open spec fn around_ok(
    wires: Seq<NetworkWire>,
    breakers: Seq<BreakerSwitch>,
    ids: Seq<u32>,
    colors: Seq<String>,
    stack: Seq<Vector3i>,
    p: Vector3i,
    n: int,
    start_color: Seq<char>,
    respect_switches: bool,
    match_colours: bool,
) -> bool {
    forall|j: int|
        0 <= j < wires.len() && cardinal_neighbours_with_z_spec(p).subrange(0, n).contains(
            (#[trigger] wires[j]).position,
        ) && trace_reaches(breakers, wires[j], start_color, respect_switches) ==> ids.contains(
            wires[j].entity_id,
        ) || (stack.contains(wires[j].position) && (!match_colours || colour_met(colors, wires[j].color_name@)))
}

/// `id` is the id of a wire at a position of `done`.
pub open spec fn id_from(wires: Seq<NetworkWire>, id: u32, done: Set<Vector3i>) -> bool {
    exists|w: int| 0 <= w < wires.len() && (#[trigger] wires[w]).entity_id == id && done.contains(wires[w].position)
}

/// Every id taken in is that of a wire at a position of `done`.
pub open spec fn taken_from(wires: Seq<NetworkWire>, ids: Seq<u32>, done: Set<Vector3i>) -> bool {
    forall|k: int| 0 <= k < ids.len() ==> #[trigger] id_from(wires, ids[k], done)
}

/// Taking more positions as done keeps every id taken from a done position.
proof fn lemma_taken_from_grows(wires: Seq<NetworkWire>, ids: Seq<u32>, done: Set<Vector3i>, more: Set<Vector3i>)
    requires
        taken_from(wires, ids, done),
        done.subset_of(more),
    ensures
        taken_from(wires, ids, more),
{
    assert forall|k: int| 0 <= k < ids.len() implies #[trigger] id_from(wires, ids[k], more) by {
        assert(id_from(wires, ids[k], done));
        let w = choose|w: int| 0 <= w < wires.len() && (#[trigger] wires[w]).entity_id == ids[k] && done.contains(wires[w].position);
        assert(more.contains(wires[w].position));
    }
}

/// The frontier stays whole when the stack and the colours met only grow.
proof fn lemma_frontier_grows(
    wires: Seq<NetworkWire>,
    breakers: Seq<BreakerSwitch>,
    ids: Seq<u32>,
    colors: Seq<String>,
    stack: Seq<Vector3i>,
    colors2: Seq<String>,
    stack2: Seq<Vector3i>,
    done: Set<Vector3i>,
    p: Vector3i,
    n: int,
    start_color: Seq<char>,
    respect_switches: bool,
    match_colours: bool,
)
    requires
        forall|c: Seq<char>| colour_met(colors, c) ==> #[trigger] colour_met(colors2, c),
        forall|x: Vector3i| stack.contains(x) ==> #[trigger] stack2.contains(x),
    ensures
        frontier_ok(wires, breakers, ids, colors, stack, done, start_color, respect_switches, match_colours)
            ==> frontier_ok(wires, breakers, ids, colors2, stack2, done, start_color, respect_switches, match_colours),
        around_ok(wires, breakers, ids, colors, stack, p, n, start_color, respect_switches, match_colours)
            ==> around_ok(wires, breakers, ids, colors2, stack2, p, n, start_color, respect_switches, match_colours),
{
}

/// Every wire at `q` has its id among `ids`.
pub open spec fn all_taken_at(wires: Seq<NetworkWire>, ids: Seq<u32>, q: Vector3i) -> bool {
    forall|j: int| 0 <= j < wires.len() && (#[trigger] wires[j]).position == q ==> ids.contains(wires[j].entity_id)
}

/// What bounds a trace that takes in every wire at the positions it reaches: each
/// position taken from the stack has all its wires taken in; every push is recorded as
/// the pair of the position being expanded and the wire that called for it; a recorded
/// wire not yet taken in still waits on the stack with no entry of the expanded
/// position above it; and what was pushed is what was taken or still waits.
pub open spec fn pushes_bounded(
    wires: Seq<NetworkWire>,
    ids: Seq<u32>,
    stack: Seq<Vector3i>,
    expanded: Set<Vector3i>,
    pushed: Set<(Vector3i, int)>,
    count: int,
) -> bool {
    &&& forall|q: Vector3i| #[trigger] expanded.contains(q) ==> all_taken_at(wires, ids, q)
    &&& pushed.finite()
    &&& forall|pr: (Vector3i, int)|
        #[trigger] pushed.contains(pr) ==> 0 <= pr.1 < wires.len() && expanded.contains(pr.0) && steps_fit(pr.0)
            && cardinal_neighbours_with_z_spec(pr.0).contains(wires[pr.1].position)
    &&& forall|pr: (Vector3i, int)|
        #[trigger] pushed.contains(pr) && !ids.contains(wires[pr.1].entity_id) ==> exists|k: int|
            0 <= k < stack.len() && stack[k] == wires[pr.1].position && forall|l: int|
                k < l < stack.len() ==> #[trigger] stack[l] != pr.0
    &&& stack.len() + count == 1 + pushed.len()
}

/// A position is none of its six neighbours, and those are six different positions.
proof fn lemma_neighbours_apart(q: Vector3i)
    requires
        steps_fit(q),
    ensures
        !cardinal_neighbours_with_z_spec(q).contains(q),
        forall|a: int, b: int|
            0 <= a < b < 6 ==> #[trigger] cardinal_neighbours_with_z_spec(q)[a] != #[trigger] cardinal_neighbours_with_z_spec(q)[b],
{
    let nb = cardinal_neighbours_with_z_spec(q);
    assert(nb.len() == 6);
    if nb.contains(q) {
        let i = choose|i: int| 0 <= i < nb.len() && nb[i] == q;
        assert(false);
    }
}

/// Taking in more wires keeps a trace bounded.
proof fn lemma_bounded_grows(
    wires: Seq<NetworkWire>,
    ids: Seq<u32>,
    ids2: Seq<u32>,
    stack: Seq<Vector3i>,
    expanded: Set<Vector3i>,
    pushed: Set<(Vector3i, int)>,
    count: int,
)
    requires
        pushes_bounded(wires, ids, stack, expanded, pushed, count),
        forall|x: u32| ids.contains(x) ==> #[trigger] ids2.contains(x),
    ensures
        pushes_bounded(wires, ids2, stack, expanded, pushed, count),
{
    assert forall|q: Vector3i| #[trigger] expanded.contains(q) implies all_taken_at(wires, ids2, q) by {
        assert forall|j: int| 0 <= j < wires.len() && (#[trigger] wires[j]).position == q implies ids2.contains(
            wires[j].entity_id,
        ) by {
            assert(all_taken_at(wires, ids, q));
        }
    }
}

/// Taking the top position `p` off the stack, once all its wires are taken in, keeps a
/// trace bounded with `p` expanded; and every wire recorded as pushed from `p` was
/// taken in already.
proof fn lemma_bounded_pop(
    wires: Seq<NetworkWire>,
    ids: Seq<u32>,
    stack: Seq<Vector3i>,
    expanded: Set<Vector3i>,
    pushed: Set<(Vector3i, int)>,
    count: int,
    p: Vector3i,
)
    requires
        pushes_bounded(wires, ids, stack, expanded, pushed, count),
        stack.len() >= 1,
        stack.last() == p,
        steps_fit(p),
        all_taken_at(wires, ids, p),
    ensures
        pushes_bounded(wires, ids, stack.drop_last(), expanded.insert(p), pushed, count + 1),
        forall|j: int| #[trigger] pushed.contains((p, j)) ==> ids.contains(wires[j].entity_id),
{
    let s2 = stack.drop_last();
    let ex = expanded.insert(p);
    assert forall|q: Vector3i| #[trigger] ex.contains(q) implies all_taken_at(wires, ids, q) by {}
    assert forall|pr: (Vector3i, int)| #[trigger] pushed.contains(pr) && !ids.contains(wires[pr.1].entity_id) implies exists|k: int|
        0 <= k < s2.len() && s2[k] == wires[pr.1].position && forall|l: int|
            k < l < s2.len() ==> #[trigger] s2[l] != pr.0 by {
        let k = choose|k: int|
            0 <= k < stack.len() && stack[k] == wires[pr.1].position && forall|l: int|
                k < l < stack.len() ==> #[trigger] stack[l] != pr.0;
        if k == stack.len() - 1 {
            assert(wires[pr.1].position == p);
            assert(ids.contains(wires[pr.1].entity_id));
        }
        assert forall|l: int| k < l < s2.len() implies #[trigger] s2[l] != pr.0 by {
            assert(s2[l] == stack[l]);
        }
        assert(s2[k] == stack[k]);
    }
    assert forall|j: int| #[trigger] pushed.contains((p, j)) implies ids.contains(wires[j].entity_id) by {
        let pr = (p, j);
        lemma_neighbours_apart(p);
        if !ids.contains(wires[j].entity_id) {
            let k = choose|k: int|
                0 <= k < stack.len() && stack[k] == wires[pr.1].position && forall|l: int|
                    k < l < stack.len() ==> #[trigger] stack[l] != pr.0;
            if k < stack.len() - 1 {
                assert(stack[stack.len() - 1] != p);
            } else {
                assert(cardinal_neighbours_with_z_spec(p).contains(p));
            }
        }
    }
}

/// Pushing the position of wire `j`, not yet taken in, while expanding `q` keeps a
/// trace bounded with the push recorded.
proof fn lemma_bounded_push(
    wires: Seq<NetworkWire>,
    ids: Seq<u32>,
    stack: Seq<Vector3i>,
    expanded: Set<Vector3i>,
    pushed: Set<(Vector3i, int)>,
    count: int,
    q: Vector3i,
    j: int,
)
    requires
        pushes_bounded(wires, ids, stack, expanded, pushed, count),
        expanded.contains(q),
        steps_fit(q),
        0 <= j < wires.len(),
        !ids.contains(wires[j].entity_id),
        !pushed.contains((q, j)),
        cardinal_neighbours_with_z_spec(q).contains(wires[j].position),
    ensures
        pushes_bounded(wires, ids, stack.push(wires[j].position), expanded, pushed.insert((q, j)), count),
{
    let s2 = stack.push(wires[j].position);
    let p2 = pushed.insert((q, j));
    assert forall|pr: (Vector3i, int)| #[trigger] p2.contains(pr) && !ids.contains(wires[pr.1].entity_id) implies exists|k: int|
        0 <= k < s2.len() && s2[k] == wires[pr.1].position && forall|l: int|
            k < l < s2.len() ==> #[trigger] s2[l] != pr.0 by {
        if pr == (q, j) {
            assert(s2[stack.len() as int] == wires[j].position);
        } else {
            let k = choose|k: int|
                0 <= k < stack.len() && stack[k] == wires[pr.1].position && forall|l: int|
                    k < l < stack.len() ==> #[trigger] stack[l] != pr.0;
            assert(all_taken_at(wires, ids, pr.0));
            assert forall|l: int| k < l < s2.len() implies #[trigger] s2[l] != pr.0 by {
                if l < stack.len() {
                    assert(s2[l] == stack[l]);
                } else {
                    if wires[j].position == pr.0 {
                        assert(ids.contains(wires[j].entity_id));
                    }
                }
            }
            assert(s2[k] == stack[k]);
        }
    }
}

/// The `n`th neighbour of `q` is found at index `n`.
proof fn lemma_neighbour_index(q: Vector3i, n: int)
    requires
        steps_fit(q),
        0 <= n < 6,
    ensures
        neighbour_index(q, cardinal_neighbours_with_z_spec(q)[n]) == n,
{
    lemma_neighbours_apart(q);
    let nb = cardinal_neighbours_with_z_spec(q);
    if n == 1 {
        assert(nb[0] != nb[1]);
    } else if n == 2 {
        assert(nb[0] != nb[2] && nb[1] != nb[2]);
    } else if n == 3 {
        assert(nb[0] != nb[3] && nb[1] != nb[3] && nb[2] != nb[3]);
    } else if n == 4 {
        assert(nb[0] != nb[4] && nb[1] != nb[4] && nb[2] != nb[4] && nb[3] != nb[4]);
    } else if n == 5 {
        assert(nb[0] != nb[5] && nb[1] != nb[5] && nb[2] != nb[5] && nb[3] != nb[5] && nb[4] != nb[5]);
    }
}

/// Which of the six neighbours of `q` is `p`.
pub open spec fn neighbour_index(q: Vector3i, p: Vector3i) -> int {
    let nb = cardinal_neighbours_with_z_spec(q);
    if p == nb[0] {
        0
    } else if p == nb[1] {
        1
    } else if p == nb[2] {
        2
    } else if p == nb[3] {
        3
    } else if p == nb[4] {
        4
    } else {
        5
    }
}

/// A number written with digits `a` and `b < 6` in base 6 is written so only once,
/// and stays below `6 * n` when `a < n`.
proof fn lemma_base_six(a1: int, b1: int, a2: int, b2: int, n: int)
    by (nonlinear_arith)
    requires
        0 <= a1 < n,
        0 <= b1 < 6,
        0 <= a2 < n,
        0 <= b2 < 6,
    ensures
        0 <= 6 * a1 + b1 < 6 * n,
        6 * a1 + b1 == 6 * a2 + b2 ==> a1 == a2 && b1 == b2,
{
}

/// At most six pushes are recorded for each wire: one from each of its neighbours.
proof fn lemma_pushes_at_most(wires: Seq<NetworkWire>, pushed: Set<(Vector3i, int)>)
    requires
        pushed.finite(),
        forall|pr: (Vector3i, int)|
            #[trigger] pushed.contains(pr) ==> 0 <= pr.1 < wires.len() && steps_fit(pr.0)
                && cardinal_neighbours_with_z_spec(pr.0).contains(wires[pr.1].position),
    ensures
        pushed.len() <= 6 * wires.len(),
{
    let w = wires.len() as int;
    let f = |pr: (Vector3i, int)| 6 * pr.1 + neighbour_index(pr.0, wires[pr.1].position);
    assert forall|pr: (Vector3i, int)| #[trigger] pushed.contains(pr) implies 0 <= neighbour_index(
        pr.0,
        wires[pr.1].position,
    ) < 6 && cardinal_neighbours_with_z_spec(pr.0)[neighbour_index(pr.0, wires[pr.1].position)]
        == wires[pr.1].position by {
        let nb = cardinal_neighbours_with_z_spec(pr.0);
        let i = choose|i: int| 0 <= i < nb.len() && nb[i] == wires[pr.1].position;
    }
    assert forall|p1: (Vector3i, int), p2: (Vector3i, int)|
        pushed.contains(p1) && pushed.contains(p2) && #[trigger] f(p1) == #[trigger] f(p2) implies p1 == p2 by {
        lemma_base_six(
            p1.1,
            neighbour_index(p1.0, wires[p1.1].position),
            p2.1,
            neighbour_index(p2.0, wires[p2.1].position),
            w,
        );
        let i = neighbour_index(p1.0, wires[p1.1].position);
        let (a, b) = (cardinal_neighbours_with_z_spec(p1.0)[i], cardinal_neighbours_with_z_spec(p2.0)[i]);
        assert(a == b);
        assert(a.x == b.x && a.y == b.y && a.z == b.z);
        if i == 0 || i == 1 {
            assert(p1.0.z == p2.0.z && p1.0.x == p2.0.x && p1.0.y == p2.0.y);
        } else if i == 2 || i == 4 {
            assert(p1.0.y == p2.0.y && p1.0.x == p2.0.x && p1.0.z == p2.0.z);
        } else {
            assert(p1.0.x == p2.0.x && p1.0.y == p2.0.y && p1.0.z == p2.0.z);
        }
        assert(p1.0 == p2.0);
    }
    let image = pushed.map(f);
    vstd::set_lib::lemma_map_size(pushed, image, f);
    vstd::set_lib::lemma_int_range(0, 6 * w);
    assert forall|x: int| #[trigger] image.contains(x) implies vstd::set_lib::set_int_range(0, 6 * w).contains(x) by {
        let pr = choose|pr: (Vector3i, int)| pushed.contains(pr) && f(pr) == x;
        lemma_base_six(pr.1, neighbour_index(pr.0, wires[pr.1].position), 0, 0, w);
    }
    vstd::set_lib::lemma_len_subset(image, vstd::set_lib::set_int_range(0, 6 * w));
}

/// Traces the circuit of wires from `start`: depth first from the last position
/// found, it takes in the wires at each position it reaches (with `match_colours`,
/// only those of a colour met so far), and goes on to a neighbouring position, up,
/// down or cardinal, whose wire is not yet taken in when a breaker box stands there
/// (whose switch is on, with `respect_switches`), which adds that wire's colour, or
/// when the wire's colour is one met so far. Gives the ids of the wires taken in,
/// each once, and whether the trace ran to its end rather than giving up. The wires
/// at `start` are always taken in (with
/// `match_colours`, those of the start colour); when the trace ran to its end and no
/// two wires share an id, so is every wire it reaches next to the circuit. Without
/// `match_colours` a position is pushed at most once for each wire and neighbour, and
/// the trace always runs to its end; with it, the trace gives up after `TRACE_LIMIT`
/// positions, for want of a proof that it always ends.
pub fn trace_circuit(
    wires: &Vec<NetworkWire>,
    breakers: &Vec<BreakerSwitch>,
    start: Vector3i,
    start_color: &String,
    respect_switches: bool,
    match_colours: bool,
) -> (r: (Vec<u32>, bool))
    requires
        steps_fit(start),
        forall|i: int| 0 <= i < wires@.len() ==> steps_fit(#[trigger] wires@[i].position),
    ensures
        r.0@.no_duplicates(),
        circuit_connected(wires@, r.0@, start),
        forall|j: int|
            0 <= j < wires@.len() && (#[trigger] wires@[j]).position == start && (!match_colours
                || wires@[j].color_name@ == start_color@) ==> r.0@.contains(wires@[j].entity_id),
        r.1 && ids_distinct(wires@) ==> forall|j: int|
            0 <= j < wires@.len() && next_to_circuit(wires@, r.0@, start, (#[trigger] wires@[j]).position)
                && wires@[j].position != start && trace_reaches(
                breakers@,
                wires@[j],
                start_color@,
                respect_switches,
            ) ==> r.0@.contains(wires@[j].entity_id),
        !match_colours ==> r.1,
{
    let mut unchanged_wires: Vec<Vector3i> = Vec::new();
    unchanged_wires.push(start);
    let mut prev_colors: Vec<String> = Vec::new();
    prev_colors.push(start_color.clone());
    let mut network_wires: Vec<u32> = Vec::new();
    let mut count: usize = 0;
    let ghost mut pops: int = 0;
    let ghost mut done: Set<Vector3i> = Set::empty();
    let ghost mut pushed: Set<(Vector3i, int)> = Set::empty();
    proof {
        assert(prev_colors@[0]@ == start_color@);
        assert(frontier_ok(wires@, breakers@, network_wires@, prev_colors@, unchanged_wires@, done, start_color@, respect_switches, match_colours));
    }
    while unchanged_wires.len() > 0 && (!match_colours || count < TRACE_LIMIT)
        invariant
            steps_fit(start),
            forall|i: int| 0 <= i < wires@.len() ==> steps_fit(#[trigger] wires@[i].position),
            count <= TRACE_LIMIT,
            match_colours ==> count == pops,
            !match_colours ==> count == 0,
            0 <= pops,
            trace_ok(wires@, network_wires@, prev_colors@, unchanged_wires@, start),
            prev_colors@.len() >= 1,
            prev_colors@[0]@ == start_color@,
            pops == 0 ==> unchanged_wires@ == seq![start] && done == Set::<Vector3i>::empty()
                && network_wires@.len() == 0,
            pops >= 1 ==> done.contains(start) && forall|j: int|
                0 <= j < wires@.len() && (#[trigger] wires@[j]).position == start && (!match_colours
                    || wires@[j].color_name@ == start_color@) ==> network_wires@.contains(wires@[j].entity_id),
            taken_from(wires@, network_wires@, done),
            frontier_ok(wires@, breakers@, network_wires@, prev_colors@, unchanged_wires@, done, start_color@, respect_switches, match_colours),
            !match_colours ==> pushes_bounded(wires@, network_wires@, unchanged_wires@, done, pushed, pops),
        decreases (if match_colours { TRACE_LIMIT - count } else { 6 * wires@.len() + 1 - pops }),
    {
        let ghost top = unchanged_wires@.last();
        let ghost full_stack = unchanged_wires@;
        let ghost done_before = done;
        let ghost first = pops == 0;
        proof {
            assert(waiting_ok(wires@, network_wires@, prev_colors@, start, unchanged_wires@[unchanged_wires@.len() - 1]));
        }
        let wire_position = unchanged_wires.pop().unwrap();
        if match_colours {
            count = count + 1;
        }
        proof {
            pops = pops + 1;
        }
        proof {
            assert(wire_position == top);
            assert(full_stack == unchanged_wires@.push(wire_position));
            if first {
                assert(wire_position == start);
            }
            done = done.insert(wire_position);
            lemma_taken_from_grows(wires@, network_wires@, done_before, done);
        }
        let mut i: usize = 0;
        while i < wires.len()
            invariant
                0 <= i <= wires.len(),
                waiting_ok(wires@, network_wires@, prev_colors@, start, wire_position),
                trace_ok(wires@, network_wires@, prev_colors@, unchanged_wires@, start),
                forall|j: int|
                    0 <= j < i ==> (#[trigger] wires@[j]).position == wire_position && (!match_colours
                        || colour_met(prev_colors@, wires@[j].color_name@)) ==> network_wires@.contains(
                        wires@[j].entity_id,
                    ),
                prev_colors@.len() >= 1,
                prev_colors@[0]@ == start_color@,
                done == done_before.insert(wire_position),
                full_stack == unchanged_wires@.push(wire_position),
                first ==> wire_position == start && done_before == Set::<Vector3i>::empty(),
                !first ==> done_before.contains(start) && forall|j: int|
                    0 <= j < wires@.len() && (#[trigger] wires@[j]).position == start && (!match_colours
                        || wires@[j].color_name@ == start_color@) ==> network_wires@.contains(wires@[j].entity_id),
                taken_from(wires@, network_wires@, done),
                frontier_ok(wires@, breakers@, network_wires@, prev_colors@, full_stack, done_before, start_color@, respect_switches, match_colours),
                !match_colours ==> pushes_bounded(wires@, network_wires@, full_stack, done_before, pushed, pops - 1),
            decreases wires.len() - i,
        {
            if wires[i].position == wire_position && (!match_colours || has_colour(
                &prev_colors,
                &wires[i].color_name,
            )) {
                let id = wires[i].entity_id;
                if !has_id(&network_wires, id) {
                    let ghost before = network_wires@;
                    network_wires.push(id);
                    proof {
                        lemma_circuit_grows(wires@, before, id, start);
                        assert(network_wires@[before.len() as int] == id);
                        assert forall|k: int| 0 <= k < network_wires@.len() implies exists|j: int|
                            0 <= j < wires@.len() && (#[trigger] wires@[j]).entity_id
                                == #[trigger] network_wires@[k] && next_to_circuit(
                                wires@,
                                network_wires@,
                                start,
                                wires@[j].position,
                            ) by {
                            if k == before.len() {
                                assert(wires@[i as int].entity_id == network_wires@[k]);
                            } else {
                                assert(network_wires@[k] == before[k]);
                                let j = choose|j: int|
                                    0 <= j < wires@.len() && (#[trigger] wires@[j]).entity_id
                                        == #[trigger] before[k] && next_to_circuit(
                                        wires@,
                                        before,
                                        start,
                                        wires@[j].position,
                                    );
                                assert(next_to_circuit(wires@, network_wires@, start, wires@[j].position));
                            }
                        }
                        assert forall|k: int| 0 <= k < unchanged_wires@.len() implies waiting_ok(
                            wires@,
                            network_wires@,
                            prev_colors@,
                            start,
                            #[trigger] unchanged_wires@[k],
                        ) by {
                            assert(waiting_ok(wires@, before, prev_colors@, start, unchanged_wires@[k]));
                        }
                        assert forall|j: int|
                            0 <= j <= i && (#[trigger] wires@[j]).position == wire_position && (!match_colours
                                || colour_met(prev_colors@, wires@[j].color_name@)) implies network_wires@.contains(
                            wires@[j].entity_id,
                        ) by {
                            if j < i {
                                let k = choose|k: int| 0 <= k < before.len() && before[k] == wires@[j].entity_id;
                                assert(network_wires@[k] == before[k]);
                            } else {
                                assert(network_wires@[before.len() as int] == id);
                            }
                        }
                        assert forall|k: int| 0 <= k < network_wires@.len() implies #[trigger] id_from(wires@, network_wires@[k], done) by {
                            if k == before.len() {
                                assert(wires@[i as int].entity_id == network_wires@[k]);
                                assert(done.contains(wires@[i as int].position));
                            } else {
                                assert(network_wires@[k] == before[k]);
                                assert(id_from(wires@, before[k], done));
                            }
                        }
                        assert forall|x: u32| before.contains(x) implies network_wires@.contains(x) by {
                            let k = choose|k: int| 0 <= k < before.len() && before[k] == x;
                            assert(network_wires@[k] == before[k]);
                        }
                        if !match_colours {
                            lemma_bounded_grows(wires@, before, network_wires@, full_stack, done_before, pushed, pops - 1);
                        }
                    }
                }
            }
            i = i + 1;
        }
        proof {
            assert(colour_met(prev_colors@, start_color@)) by {
                assert(prev_colors@[0]@ == start_color@);
            }
            if wire_position != start {
                let j = choose|j: int|
                    0 <= j < wires@.len() && (#[trigger] wires@[j]).position == wire_position && colour_met(
                        prev_colors@,
                        wires@[j].color_name@,
                    );
                assert(network_wires@.contains(wires@[j].entity_id));
                assert(joined_at(wires@, network_wires@, wire_position));
            }
            assert(frontier_ok(wires@, breakers@, network_wires@, prev_colors@, unchanged_wires@, done_before, start_color@, respect_switches, match_colours)) by {
                assert forall|j: int|
                    0 <= j < wires@.len() && next_to_done(done_before, (#[trigger] wires@[j]).position) && trace_reaches(
                        breakers@,
                        wires@[j],
                        start_color@,
                        respect_switches,
                    ) implies network_wires@.contains(wires@[j].entity_id) || (unchanged_wires@.contains(wires@[j].position) && (!match_colours
                        || colour_met(prev_colors@, wires@[j].color_name@))) by {
                    if !network_wires@.contains(wires@[j].entity_id) {
                        assert(full_stack.contains(wires@[j].position));
                        let k = choose|k: int| 0 <= k < full_stack.len() && full_stack[k] == wires@[j].position;
                        if k < unchanged_wires@.len() {
                            assert(unchanged_wires@[k] == full_stack[k]);
                        }
                    }
                }
            }
            assert(around_ok(wires@, breakers@, network_wires@, prev_colors@, unchanged_wires@, wire_position, 0, start_color@, respect_switches, match_colours));
            if !match_colours {
                assert(all_taken_at(wires@, network_wires@, wire_position));
                if wire_position != start {
                    let j = choose|j: int|
                        0 <= j < wires@.len() && (#[trigger] wires@[j]).position == wire_position && colour_met(
                            prev_colors@,
                            wires@[j].color_name@,
                        );
                    assert(steps_fit(wires@[j].position));
                }
                lemma_bounded_pop(wires@, network_wires@, full_stack, done_before, pushed, pops - 1, wire_position);
                assert(full_stack.drop_last() == unchanged_wires@);
            }
        }
        let neighbours = get_cardinal_neighbours_with_z(wire_position);
        let mut n: usize = 0;
        while n < neighbours.len()
            invariant
                0 <= n <= neighbours.len(),
                neighbours@ == cardinal_neighbours_with_z_spec(wire_position),
                wire_position == start || joined_at(wires@, network_wires@, wire_position),
                forall|i: int| 0 <= i < wires@.len() ==> steps_fit(#[trigger] wires@[i].position),
                steps_fit(start),
                trace_ok(wires@, network_wires@, prev_colors@, unchanged_wires@, start),
                prev_colors@.len() >= 1,
                prev_colors@[0]@ == start_color@,
                done == done_before.insert(wire_position),
                done.contains(start),
                forall|j: int|
                    0 <= j < wires@.len() && (#[trigger] wires@[j]).position == start && (!match_colours
                        || wires@[j].color_name@ == start_color@) ==> network_wires@.contains(wires@[j].entity_id),
                taken_from(wires@, network_wires@, done),
                frontier_ok(wires@, breakers@, network_wires@, prev_colors@, unchanged_wires@, done_before, start_color@, respect_switches, match_colours),
                around_ok(wires@, breakers@, network_wires@, prev_colors@, unchanged_wires@, wire_position, n as int, start_color@, respect_switches, match_colours),
                !match_colours ==> pushes_bounded(wires@, network_wires@, unchanged_wires@, done, pushed, pops),
                steps_fit(wire_position),
                !match_colours ==> forall|jj: int|
                    #[trigger] pushed.contains((wire_position, jj)) ==> network_wires@.contains(wires@[jj].entity_id)
                        || neighbour_index(wire_position, wires@[jj].position) < n,
            decreases neighbours.len() - n,
        {
            let neighbour = neighbours[n];
            assert(cardinal_neighbours_with_z_spec(wire_position).contains(neighbour));
            let mut j: usize = 0;
            while j < wires.len()
                invariant
                    0 <= j <= wires.len(),
                    0 <= n < 6,
                    neighbour == cardinal_neighbours_with_z_spec(wire_position)[n as int],
                    cardinal_neighbours_with_z_spec(wire_position).contains(neighbour),
                    wire_position == start || joined_at(wires@, network_wires@, wire_position),
                    trace_ok(wires@, network_wires@, prev_colors@, unchanged_wires@, start),
                    prev_colors@.len() >= 1,
                    prev_colors@[0]@ == start_color@,
                    frontier_ok(wires@, breakers@, network_wires@, prev_colors@, unchanged_wires@, done_before, start_color@, respect_switches, match_colours),
                    around_ok(wires@, breakers@, network_wires@, prev_colors@, unchanged_wires@, wire_position, n as int, start_color@, respect_switches, match_colours),
                    forall|jj: int|
                        0 <= jj < j && (#[trigger] wires@[jj]).position == neighbour && trace_reaches(
                            breakers@,
                            wires@[jj],
                            start_color@,
                            respect_switches,
                        ) ==> network_wires@.contains(wires@[jj].entity_id) || (unchanged_wires@.contains(neighbour)
                            && (!match_colours || colour_met(prev_colors@, wires@[jj].color_name@))),
                    !match_colours ==> pushes_bounded(wires@, network_wires@, unchanged_wires@, done, pushed, pops),
                    steps_fit(wire_position),
                    done.contains(wire_position),
                    !match_colours ==> forall|jj: int|
                        #[trigger] pushed.contains((wire_position, jj)) ==> network_wires@.contains(wires@[jj].entity_id)
                            || neighbour_index(wire_position, wires@[jj].position) < n
                            || (neighbour_index(wire_position, wires@[jj].position) == n && jj < j),
                decreases wires.len() - j,
            {
                if wires[j].position == neighbour && !has_id(&network_wires, wires[j].entity_id) {
                    proof {
                        assert(next_to_circuit(wires@, network_wires@, start, neighbour));
                    }
                    match breaker_at(breakers, neighbour) {
                        Some(b) => {
                            if !respect_switches || b.on {
                                let ghost colors_before = prev_colors@;
                                let ghost stack_before = unchanged_wires@;
                                unchanged_wires.push(neighbour);
                                proof {
                                    if !match_colours {
                                        lemma_neighbour_index(wire_position, n as int);
                                        if pushed.contains((wire_position, j as int)) {
                                            assert(neighbour_index(wire_position, wires@[j as int].position) == n);
                                        }
                                        lemma_bounded_push(wires@, network_wires@, stack_before, done, pushed, pops, wire_position, j as int);
                                        pushed = pushed.insert((wire_position, j as int));
                                    }
                                }
                                prev_colors.push(wires[j].color_name.clone());
                                proof {
                                    lemma_colours_grow(colors_before, prev_colors@[colors_before.len() as int]);
                                    assert(prev_colors@ == colors_before.push(prev_colors@[colors_before.len() as int]));
                                    assert forall|k: int| 0 <= k < unchanged_wires@.len() implies waiting_ok(
                                        wires@,
                                        network_wires@,
                                        prev_colors@,
                                        start,
                                        #[trigger] unchanged_wires@[k],
                                    ) by {
                                        if k < stack_before.len() {
                                            assert(unchanged_wires@[k] == stack_before[k]);
                                            assert(waiting_ok(wires@, network_wires@, colors_before, start, stack_before[k]));
                                            if stack_before[k] != start {
                                                let w = choose|w: int|
                                                    0 <= w < wires@.len() && (#[trigger] wires@[w]).position
                                                        == stack_before[k] && colour_met(
                                                        colors_before,
                                                        wires@[w].color_name@,
                                                    );
                                                assert(colour_met(prev_colors@, wires@[w].color_name@));
                                            }
                                        } else {
                                            assert(colour_met(prev_colors@, wires@[j as int].color_name@));
                                        }
                                    }
                                    assert forall|x: Vector3i| stack_before.contains(x) implies #[trigger] unchanged_wires@.contains(x) by {
                                        let k = choose|k: int| 0 <= k < stack_before.len() && stack_before[k] == x;
                                        assert(unchanged_wires@[k] == stack_before[k]);
                                    }
                                    assert(unchanged_wires@[stack_before.len() as int] == neighbour);
                                    lemma_frontier_grows(wires@, breakers@, network_wires@, colors_before, stack_before, prev_colors@, unchanged_wires@, done_before, wire_position, n as int, start_color@, respect_switches, match_colours);
                                    assert(prev_colors@[0] == colors_before[0]);
                                }
                            } else {
                                proof {
                                    assert(!trace_reaches(breakers@, wires@[j as int], start_color@, respect_switches));
                                }
                            }
                        },
                        None => {
                            if has_colour(&prev_colors, &wires[j].color_name) {
                                let ghost stack_before = unchanged_wires@;
                                unchanged_wires.push(neighbour);
                                proof {
                                    if !match_colours {
                                        lemma_neighbour_index(wire_position, n as int);
                                        if pushed.contains((wire_position, j as int)) {
                                            assert(neighbour_index(wire_position, wires@[j as int].position) == n);
                                        }
                                        lemma_bounded_push(wires@, network_wires@, stack_before, done, pushed, pops, wire_position, j as int);
                                        pushed = pushed.insert((wire_position, j as int));
                                    }
                                }
                                proof {
                                    assert forall|k: int| 0 <= k < unchanged_wires@.len() implies waiting_ok(
                                        wires@,
                                        network_wires@,
                                        prev_colors@,
                                        start,
                                        #[trigger] unchanged_wires@[k],
                                    ) by {
                                        if k < stack_before.len() {
                                            assert(unchanged_wires@[k] == stack_before[k]);
                                        }
                                    }
                                    assert forall|x: Vector3i| stack_before.contains(x) implies #[trigger] unchanged_wires@.contains(x) by {
                                        let k = choose|k: int| 0 <= k < stack_before.len() && stack_before[k] == x;
                                        assert(unchanged_wires@[k] == stack_before[k]);
                                    }
                                    assert(unchanged_wires@[stack_before.len() as int] == neighbour);
                                    lemma_frontier_grows(wires@, breakers@, network_wires@, prev_colors@, stack_before, prev_colors@, unchanged_wires@, done_before, wire_position, n as int, start_color@, respect_switches, match_colours);
                                }
                            } else {
                                proof {
                                    assert(colour_met(prev_colors@, start_color@)) by {
                                        assert(prev_colors@[0]@ == start_color@);
                                    }
                                    assert(!trace_reaches(breakers@, wires@[j as int], start_color@, respect_switches));
                                }
                            }
                        },
                    }
                }
                j = j + 1;
            }
            proof {
                let nb = cardinal_neighbours_with_z_spec(wire_position);
                assert forall|jj: int|
                    0 <= jj < wires@.len() && nb.subrange(0, n + 1).contains((#[trigger] wires@[jj]).position)
                        && trace_reaches(breakers@, wires@[jj], start_color@, respect_switches) implies network_wires@.contains(
                        wires@[jj].entity_id,
                    ) || (unchanged_wires@.contains(wires@[jj].position) && (!match_colours || colour_met(
                        prev_colors@,
                        wires@[jj].color_name@,
                    ))) by {
                    let m = choose|m: int| 0 <= m < n + 1 && #[trigger] nb.subrange(0, n + 1)[m] == wires@[jj].position;
                    if m < n {
                        assert(nb.subrange(0, n as int)[m] == wires@[jj].position);
                    }
                }
            }
            n = n + 1;
        }
        proof {
            let nb = cardinal_neighbours_with_z_spec(wire_position);
            assert(nb.subrange(0, 6) =~= nb);
            if !match_colours {
                lemma_pushes_at_most(wires@, pushed);
            }
            assert forall|j: int|
                0 <= j < wires@.len() && next_to_done(done, (#[trigger] wires@[j]).position) && trace_reaches(
                    breakers@,
                    wires@[j],
                    start_color@,
                    respect_switches,
                ) implies network_wires@.contains(wires@[j].entity_id) || (unchanged_wires@.contains(wires@[j].position)
                    && (!match_colours || colour_met(prev_colors@, wires@[j].color_name@))) by {
                let q = choose|q: Vector3i| #[trigger] done.contains(q) && cardinal_neighbours_with_z_spec(q).contains(wires@[j].position);
                if q == wire_position {
                    assert(nb.subrange(0, 6).contains(wires@[j].position));
                } else {
                    assert(next_to_done(done_before, wires@[j].position));
                }
            }
        }
    }
    let complete = unchanged_wires.len() == 0;
    proof {
        if complete && ids_distinct(wires@) {
            assert forall|j: int|
                0 <= j < wires@.len() && next_to_circuit(wires@, network_wires@, start, (#[trigger] wires@[j]).position)
                    && wires@[j].position != start && trace_reaches(
                    breakers@,
                    wires@[j],
                    start_color@,
                    respect_switches,
                ) implies network_wires@.contains(wires@[j].entity_id) by {
                let x = wires@[j].position;
                if !cardinal_neighbours_with_z_spec(start).contains(x) {
                    let q = choose|q: Vector3i| #[trigger] joined_at(wires@, network_wires@, q) && cardinal_neighbours_with_z_spec(q).contains(x);
                    let w = choose|w: int| 0 <= w < wires@.len() && (#[trigger] wires@[w]).position == q && network_wires@.contains(wires@[w].entity_id);
                    let k = choose|k: int| 0 <= k < network_wires@.len() && network_wires@[k] == wires@[w].entity_id;
                    assert(id_from(wires@, network_wires@[k], done));
                    let w2 = choose|w2: int| 0 <= w2 < wires@.len() && (#[trigger] wires@[w2]).entity_id == network_wires@[k] && done.contains(wires@[w2].position);
                    assert(w2 == w);
                    assert(done.contains(q));
                }
                assert(next_to_done(done, x));
            }
        }
    }
    (network_wires, complete)
}

/// A power node as the device list reads it: its entity, its network, and whether
/// the entity has a power switch.
#[derive(Clone, Copy, Debug, PartialEq, Eq, Structural)]
pub struct NodeEntry {
    pub entity_id: u32,
    pub network_id: usize,
    pub has_switch: bool,
}

/// The entities with a power switch among the first `k` nodes that are on network
/// `network_id`, but for `network_entity`, in order.
pub open spec fn switches_on_network(nodes: Seq<NodeEntry>, k: int, network_id: usize, network_entity: u32) -> Seq<u32>
    decreases k,
{
    if k <= 0 {
        Seq::empty()
    } else {
        let rest = switches_on_network(nodes, k - 1, network_id, network_entity);
        let n = nodes[k - 1];
        if n.network_id == network_id && n.entity_id != network_entity && n.has_switch {
            rest.push(n.entity_id)
        } else {
            rest
        }
    }
}

/// The network of the first node of `network_entity`, if it has one.
pub open spec fn network_of(nodes: Seq<NodeEntry>, network_entity: u32) -> Option<usize> {
    if exists|i: int| 0 <= i < nodes.len() && (#[trigger] nodes[i]).entity_id == network_entity {
        let i = choose|i: int|
            0 <= i < nodes.len() && (#[trigger] nodes[i]).entity_id == network_entity && forall|j: int|
                0 <= j < i ==> (#[trigger] nodes[j]).entity_id != network_entity;
        Some(nodes[i].network_id)
    } else {
        None
    }
}

/// The entities with a power switch on the same network as `network_entity`, but for
/// itself, in the order of `nodes`; none when `network_entity` has no node.
pub fn get_devices_on_network(nodes: &Vec<NodeEntry>, network_entity: u32) -> (r: Vec<u32>)
    ensures
        r@ == match network_of(nodes@, network_entity) {
            Some(id) => switches_on_network(nodes@, nodes@.len() as int, id, network_entity),
            None => Seq::empty(),
        },
{
    let mut found: Option<usize> = None;
    let mut i: usize = 0;
    while i < nodes.len()
        invariant
            0 <= i <= nodes.len(),
            found is None ==> forall|j: int| 0 <= j < i ==> (#[trigger] nodes@[j]).entity_id != network_entity,
            found matches Some(id) ==> exists|j: int|
                0 <= j < nodes@.len() && (#[trigger] nodes@[j]).entity_id == network_entity
                    && nodes@[j].network_id == id && forall|l: int|
                    0 <= l < j ==> (#[trigger] nodes@[l]).entity_id != network_entity,
        decreases nodes.len() - i,
    {
        if found.is_none() && nodes[i].entity_id == network_entity {
            found = Some(nodes[i].network_id);
        }
        i = i + 1;
    }
    let mut devices: Vec<u32> = Vec::new();
    match found {
        None => {
            proof {
                assert(!exists|i: int| 0 <= i < nodes@.len() && (#[trigger] nodes@[i]).entity_id == network_entity);
            }
        },
        Some(id) => {
            proof {
                let j = choose|j: int|
                    0 <= j < nodes@.len() && (#[trigger] nodes@[j]).entity_id == network_entity
                        && nodes@[j].network_id == id && forall|l: int|
                        0 <= l < j ==> (#[trigger] nodes@[l]).entity_id != network_entity;
                let c = choose|i: int|
                    0 <= i < nodes@.len() && (#[trigger] nodes@[i]).entity_id == network_entity && forall|l: int|
                        0 <= l < i ==> (#[trigger] nodes@[l]).entity_id != network_entity;
                if c < j {
                    assert(nodes@[c].entity_id != network_entity);
                } else if c > j {
                    assert(nodes@[j].entity_id != network_entity);
                }
                assert(network_of(nodes@, network_entity) == Some(id));
            }
            let mut k: usize = 0;
            while k < nodes.len()
                invariant
                    0 <= k <= nodes.len(),
                    devices@ == switches_on_network(nodes@, k as int, id, network_entity),
                decreases nodes.len() - k,
            {
                let n = nodes[k];
                if n.network_id == id && n.entity_id != network_entity && n.has_switch {
                    devices.push(n.entity_id);
                }
                k = k + 1;
            }
        },
    }
    devices
}

/// A power node as a turn of the power network reads and writes it.
#[derive(Clone, Copy, Debug, PartialEq, Eq, Structural)]
pub struct PowerNodeRecord {
    pub entity_id: u32,
    pub position: Option<Vector3i>,
    pub network_id: usize,
    pub dirty: bool,
    pub is_wire: bool,
    /// The entity's switch, if it has one.
    pub switch_on: Option<bool>,
    /// Whether the entity's powered state is on, if it has one.
    pub state_on: Option<bool>,
    /// Whether the entity's power source is on, if it has one.
    pub source_on: Option<bool>,
}

/// A node at the start of a turn: a powered state and a power source follow the
/// entity's switch, and the dirty mark is cleared.
pub open spec fn begun(n: PowerNodeRecord) -> PowerNodeRecord {
    let follow = |on: Option<bool>|
        match (on, n.switch_on) {
            (Some(_), Some(s)) => Some(s),
            _ => on,
        };
    PowerNodeRecord {
        entity_id: n.entity_id,
        position: n.position,
        network_id: n.network_id,
        dirty: false,
        is_wire: n.is_wire,
        switch_on: n.switch_on,
        state_on: follow(n.state_on),
        source_on: follow(n.source_on),
    }
}

/// Some node of `nodes` is marked dirty and on network `id`.
pub open spec fn dirty_on(nodes: Seq<PowerNodeRecord>, id: usize) -> bool {
    exists|i: int| 0 <= i < nodes.len() && (#[trigger] nodes[i]).dirty && nodes[i].network_id == id
}

/// Whether `ids` holds `id`.
fn has_network(ids: &Vec<usize>, id: usize) -> (b: bool)
    ensures
        b == ids@.contains(id),
{
    let mut i: usize = 0;
    while i < ids.len()
        invariant
            0 <= i <= ids.len(),
            forall|j: int| 0 <= j < i ==> ids@[j] != id,
        decreases ids.len() - i,
    {
        if ids[i] == id {
            return true;
        }
        i = i + 1;
    }
    false
}

/// Begins a turn of the power network: every node is turned on or off as its switch
/// stands and loses its dirty mark; gives the networks that a dirty node was on, each
/// once, in the order their first dirty node comes.
pub fn begin_power_turn(nodes: &Vec<PowerNodeRecord>) -> (r: (Vec<PowerNodeRecord>, Vec<usize>))
    ensures
        r.0@.len() == nodes@.len(),
        forall|i: int| 0 <= i < nodes@.len() ==> r.0@[i] == begun(#[trigger] nodes@[i]),
        forall|i: int|
            0 <= i < nodes@.len() ==> {
                let (n, m) = (#[trigger] nodes@[i], r.0@[i]);
                &&& n.switch_on is Some && n.state_on is Some ==> m.state_on == n.switch_on
                &&& n.switch_on is Some && n.source_on is Some ==> m.source_on == n.switch_on
                &&& n.switch_on is None ==> m.state_on == n.state_on && m.source_on == n.source_on
                &&& m.state_on is Some == n.state_on is Some
                &&& m.source_on is Some == n.source_on is Some
                &&& !m.dirty
                &&& m.entity_id == n.entity_id && m.position == n.position && m.network_id == n.network_id
                &&& m.is_wire == n.is_wire && m.switch_on == n.switch_on
            },
        r.1@.no_duplicates(),
        forall|id: usize| #[trigger] r.1@.contains(id) <==> dirty_on(nodes@, id),
{
    let mut out: Vec<PowerNodeRecord> = Vec::new();
    let mut dirty: Vec<usize> = Vec::new();
    let mut i: usize = 0;
    while i < nodes.len()
        invariant
            0 <= i <= nodes.len(),
            out@.len() == i,
            forall|k: int| 0 <= k < i ==> out@[k] == begun(#[trigger] nodes@[k]),
            dirty@.no_duplicates(),
            forall|id: usize| #[trigger] dirty@.contains(id) <==> dirty_on(nodes@.subrange(0, i as int), id),
        decreases nodes.len() - i,
    {
        let n = nodes[i];
        let state_on = match (n.state_on, n.switch_on) {
            (Some(_), Some(s)) => Some(s),
            _ => n.state_on,
        };
        let source_on = match (n.source_on, n.switch_on) {
            (Some(_), Some(s)) => Some(s),
            _ => n.source_on,
        };
        out.push(PowerNodeRecord {
            entity_id: n.entity_id,
            position: n.position,
            network_id: n.network_id,
            dirty: false,
            is_wire: n.is_wire,
            switch_on: n.switch_on,
            state_on,
            source_on,
        });
        let ghost before = dirty@;
        if n.dirty && !has_network(&dirty, n.network_id) {
            dirty.push(n.network_id);
        }
        proof {
            let done = nodes@.subrange(0, i as int);
            let next = nodes@.subrange(0, i + 1);
            assert(next == done.push(n));
            assert forall|id: usize| #[trigger] dirty@.contains(id) <==> dirty_on(next, id) by {
                assert(before.contains(id) <==> dirty_on(done, id));
                if dirty_on(done, id) {
                    let k = choose|k: int| 0 <= k < done.len() && (#[trigger] done[k]).dirty && done[k].network_id == id;
                    assert(next[k] == done[k]);
                }
                if dirty_on(next, id) && !(n.dirty && n.network_id == id) {
                    let k = choose|k: int| 0 <= k < next.len() && (#[trigger] next[k]).dirty && next[k].network_id == id;
                    assert(k != i);
                    assert(done[k] == next[k]);
                }
                if n.dirty && n.network_id == id {
                    assert(next[i as int] == n);
                }
                if dirty@.len() > before.len() {
                    assert(dirty@ == before.push(n.network_id));
                    if before.contains(id) {
                        let k = choose|k: int| 0 <= k < before.len() && before[k] == id;
                        assert(dirty@[k] == id);
                    }
                    if id == n.network_id {
                        assert(dirty@[before.len() as int] == id);
                    }
                } else {
                    assert(dirty@ == before);
                }
            }
        }
        i = i + 1;
    }
    proof {
        assert(nodes@.subrange(0, nodes@.len() as int) == nodes@);
    }
    (out, dirty)
}

/// The trace from `start` reached `p`: it is `start`, or a wire taken in lies there.
pub open spec fn trace_reached(wires: Seq<NetworkWire>, traced: Seq<u32>, start: Vector3i, p: Vector3i) -> bool {
    p == start || exists|j: int| 0 <= j < wires.len() && (#[trigger] wires[j]).position == p && traced.contains(wires[j].entity_id)
}

/// A node after a trace of network `network_id`: a powered device (one with a powered
/// state or a power source) at a position the trace reached, and a wire the trace took
/// in, join the network; a wire the trace did not take in that is then on the network
/// is moved to the network `fresh` and marked dirty.
pub open spec fn relabelled(n: PowerNodeRecord, reached: bool, in_trace: bool, network_id: usize, fresh: usize) -> PowerNodeRecord {
    let device = n.state_on is Some || n.source_on is Some;
    let joined = (device && reached) || (n.is_wire && in_trace);
    let id = if joined { network_id } else { n.network_id };
    let moved = n.is_wire && !in_trace && id == network_id;
    PowerNodeRecord {
        entity_id: n.entity_id,
        position: n.position,
        network_id: if moved { fresh } else { id },
        dirty: if moved { true } else { n.dirty },
        is_wire: n.is_wire,
        switch_on: n.switch_on,
        state_on: n.state_on,
        source_on: n.source_on,
    }
}

/// After a rebuild of network `network_id`, a wire is on it exactly when the trace took
/// the wire in, provided the network given for moving it is another one.
pub proof fn lemma_rebuild_splits_wires(n: PowerNodeRecord, reached: bool, in_trace: bool, network_id: usize, fresh: usize)
    requires
        n.is_wire,
        fresh != network_id,
    ensures
        (relabelled(n, reached, in_trace, network_id, fresh).network_id == network_id) == in_trace,
{
}

/// Whether the trace from `start` reached `p`.
fn reached_at(wires: &Vec<NetworkWire>, traced: &Vec<u32>, start: Vector3i, p: Vector3i) -> (b: bool)
    ensures
        b == trace_reached(wires@, traced@, start, p),
{
    if p == start {
        return true;
    }
    let mut j: usize = 0;
    while j < wires.len()
        invariant
            0 <= j <= wires.len(),
            p != start,
            forall|k: int| 0 <= k < j && (#[trigger] wires@[k]).position == p ==> !traced@.contains(wires@[k].entity_id),
        decreases wires.len() - j,
    {
        if wires[j].position == p && has_id(traced, wires[j].entity_id) {
            return true;
        }
        j = j + 1;
    }
    false
}

/// The nodes after a trace of network `network_id` from `start` took in the wires
/// `traced`: each node relabelled as `relabelled` says, a wire left behind moving to
/// the network given for it at its index in `fresh`.
pub fn relabel_network(
    nodes: &Vec<PowerNodeRecord>,
    wires: &Vec<NetworkWire>,
    traced: &Vec<u32>,
    start: Vector3i,
    network_id: usize,
    fresh: &Vec<usize>,
) -> (r: Vec<PowerNodeRecord>)
    requires
        fresh@.len() == nodes@.len(),
    ensures
        r@.len() == nodes@.len(),
        forall|i: int|
            0 <= i < nodes@.len() ==> r@[i] == relabelled(
                #[trigger] nodes@[i],
                match nodes@[i].position {
                    Some(p) => trace_reached(wires@, traced@, start, p),
                    None => false,
                },
                traced@.contains(nodes@[i].entity_id),
                network_id,
                fresh@[i],
            ),
        forall|i: int|
            0 <= i < nodes@.len() ==> {
                let (n, m) = (#[trigger] nodes@[i], r@[i]);
                let in_trace = traced@.contains(n.entity_id);
                let device = n.state_on is Some || n.source_on is Some;
                let reached = match n.position {
                    Some(p) => p == start || exists|j: int|
                        0 <= j < wires@.len() && wires@[j].position == p && traced@.contains(wires@[j].entity_id),
                    None => false,
                };
                &&& m.entity_id == n.entity_id && m.position == n.position && m.is_wire == n.is_wire
                &&& m.switch_on == n.switch_on && m.state_on == n.state_on && m.source_on == n.source_on
                &&& n.is_wire && in_trace ==> m.network_id == network_id && m.dirty == n.dirty
                &&& n.is_wire && !in_trace && (n.network_id == network_id || (device && reached)) ==> m.network_id
                    == fresh@[i] && m.dirty
                &&& !n.is_wire && device && reached ==> m.network_id == network_id && m.dirty == n.dirty
                &&& !(device && reached) && !(n.is_wire && (in_trace || n.network_id == network_id)) ==> m == n
            },
{
    let mut out: Vec<PowerNodeRecord> = Vec::new();
    let mut i: usize = 0;
    while i < nodes.len()
        invariant
            0 <= i <= nodes.len(),
            fresh@.len() == nodes@.len(),
            out@.len() == i,
            forall|k: int|
                0 <= k < i ==> out@[k] == relabelled(
                    #[trigger] nodes@[k],
                    match nodes@[k].position {
                        Some(p) => trace_reached(wires@, traced@, start, p),
                        None => false,
                    },
                    traced@.contains(nodes@[k].entity_id),
                    network_id,
                    fresh@[k],
                ),
        decreases nodes.len() - i,
    {
        let n = nodes[i];
        let reached = match n.position {
            Some(p) => reached_at(wires, traced, start, p),
            None => false,
        };
        let in_trace = has_id(traced, n.entity_id);
        let device = n.state_on.is_some() || n.source_on.is_some();
        let joined = (device && reached) || (n.is_wire && in_trace);
        let id = if joined { network_id } else { n.network_id };
        let moved = n.is_wire && !in_trace && id == network_id;
        out.push(PowerNodeRecord {
            entity_id: n.entity_id,
            position: n.position,
            network_id: if moved { fresh[i] } else { id },
            dirty: if moved { true } else { n.dirty },
            is_wire: n.is_wire,
            switch_on: n.switch_on,
            state_on: n.state_on,
            source_on: n.source_on,
        });
        i = i + 1;
    }
    out
}

} // verus!
