use vstd::prelude::*;

use crate::map::{PositionMap, TileMap};
use crate::vectors::utils::{cardinal_neighbours_spec, get_cardinal_neighbours, steps_fit};
use crate::vectors::{abs, Vector3i};

verus! {

/// A cell can be entered when no tile stands there or its tile is passable.
pub open spec fn open_at(m: Map<Vector3i, crate::map::Tile>, p: Vector3i) -> bool {
    !m.contains_key(p) || m[p].passable
}

/// The elements of `s` that satisfy `keep`, taken from the back of `s` to the front.
pub open spec fn popped_keep(s: Seq<Vector3i>, keep: spec_fn(Vector3i) -> bool) -> Seq<Vector3i>
    decreases s.len(),
{
    if s.len() == 0 {
        Seq::empty()
    } else {
        let rest = popped_keep(s.drop_last(), keep);
        if keep(s.last()) {
            seq![s.last()] + rest
        } else {
            rest
        }
    }
}

/// What `popped_keep` returns comes from `s` and satisfies `keep`.
pub proof fn lemma_popped_keep_members(
    s: Seq<Vector3i>,
    keep: spec_fn(Vector3i) -> bool,
    q: Vector3i,
)
    ensures
        popped_keep(s, keep).contains(q) ==> s.contains(q) && keep(q),
    decreases s.len(),
{
    if s.len() > 0 {
        lemma_popped_keep_members(s.drop_last(), keep, q);
        if popped_keep(s, keep).contains(q) && q != s.last() {
            let rest = popped_keep(s.drop_last(), keep);
            if keep(s.last()) {
                let i = choose|i: int| 0 <= i < popped_keep(s, keep).len() && popped_keep(
                    s,
                    keep,
                )[i] == q;
                assert(rest[i - 1] == q);
            }
            assert(s.drop_last().contains(q));
            let j = choose|j: int| 0 <= j < s.drop_last().len() && s.drop_last()[j] == q;
            assert(s[j] == q);
        }
    }
}

/// Every element of `s` that satisfies `keep` is among what `popped_keep` returns.
pub proof fn lemma_popped_keep_complete(
    s: Seq<Vector3i>,
    keep: spec_fn(Vector3i) -> bool,
    q: Vector3i,
)
    requires
        s.contains(q),
        keep(q),
    ensures
        popped_keep(s, keep).contains(q),
    decreases s.len(),
{
    let rest = popped_keep(s.drop_last(), keep);
    if q == s.last() {
        assert((seq![s.last()] + rest)[0] == q);
    } else {
        let j = choose|j: int| 0 <= j < s.len() && s[j] == q;
        assert(j != s.len() - 1);
        assert(s.drop_last()[j] == q);
        lemma_popped_keep_complete(s.drop_last(), keep, q);
        let i = choose|i: int| 0 <= i < rest.len() && rest[i] == q;
        if keep(s.last()) {
            assert((seq![s.last()] + rest)[i + 1] == q);
        }
    }
}

/// The cardinal neighbours of `p` that can be entered, west first, then south, east, north.
pub open spec fn accessible_neighbours_spec(m: Map<Vector3i, crate::map::Tile>, p: Vector3i) -> Seq<
    Vector3i,
> {
    popped_keep(cardinal_neighbours_spec(p), |q: Vector3i| open_at(m, q))
}

/// `q` is one step north, east, south or west of `p`, on its level.
pub open spec fn cardinally_adjacent(p: Vector3i, q: Vector3i) -> bool {
    &&& q.z == p.z
    &&& ((q.x == p.x && (q.y == p.y - 1 || q.y == p.y + 1)) || (q.y == p.y && (q.x == p.x - 1 || q.x
        == p.x + 1)))
}

/// The four cardinal neighbours of `p` are exactly the cells one step away from it on
/// its level.
pub proof fn lemma_four_neighbours(p: Vector3i, q: Vector3i)
    requires
        steps_fit(p),
    ensures
        cardinal_neighbours_spec(p).contains(q) <==> cardinally_adjacent(p, q),
{
    let nb = cardinal_neighbours_spec(p);
    if nb.contains(q) {
        let i = choose|i: int| 0 <= i < nb.len() && nb[i] == q;
        assert(0 <= i < 4);
    }
    if cardinally_adjacent(p, q) {
        let k: int = if q.y == p.y - 1 {
            0
        } else if q.x == p.x + 1 {
            1
        } else if q.y == p.y + 1 {
            2
        } else {
            3
        };
        assert(nb[k] == q);
    }
}

/// The cardinal neighbours of `position` that hold no tile or a passable one.
pub fn get_accessible_neighbours(map: &TileMap, position: Vector3i) -> (r: Vec<Vector3i>)
    requires
        steps_fit(position),
    ensures
        r@ == accessible_neighbours_spec(map@, position),
        forall|q: Vector3i|
            #[trigger] r@.contains(q) <==> (cardinally_adjacent(position, q) && !(map@.contains_key(q)
                && !map@[q].passable)),
{
    let mut neighbours = get_cardinal_neighbours(position);
    let mut accessible_neighbours: Vec<Vector3i> = Vec::new();
    let ghost keep = |q: Vector3i| open_at(map@, q);
    while neighbours.len() > 0
        invariant
            keep == (|q: Vector3i| open_at(map@, q)),
            accessible_neighbours@ + popped_keep(neighbours@, keep) == popped_keep(
                cardinal_neighbours_spec(position),
                keep,
            ),
        decreases neighbours.len(),
    {
        let ghost before = neighbours@;
        let ghost prev_acc = accessible_neighbours@;
        let neighbour = neighbours.pop();
        if let Some(tile_position) = neighbour {
            match map.get(tile_position) {
                Some(tile) => {
                    if tile.passable {
                        accessible_neighbours.push(tile_position);
                    }
                },
                None => {
                    accessible_neighbours.push(tile_position);
                },
            }
            proof {
                assert(neighbours@ == before.drop_last());
                assert(tile_position == before.last());
                assert(keep(tile_position) == open_at(map@, tile_position));
                if keep(tile_position) {
                    assert(accessible_neighbours@ == prev_acc.push(tile_position));
                    assert(popped_keep(before, keep) == seq![tile_position] + popped_keep(
                        neighbours@,
                        keep,
                    ));
                    assert(prev_acc + (seq![tile_position] + popped_keep(neighbours@, keep))
                        =~= prev_acc.push(tile_position) + popped_keep(neighbours@, keep));
                } else {
                    assert(accessible_neighbours@ == prev_acc);
                    assert(popped_keep(before, keep) == popped_keep(neighbours@, keep));
                }
                assert(accessible_neighbours@ + popped_keep(neighbours@, keep) =~= popped_keep(
                    cardinal_neighbours_spec(position),
                    keep,
                ));
            }
        }
    }
    assert(accessible_neighbours@ =~= accessible_neighbours_spec(map@, position));
    proof {
        assert forall|q: Vector3i| #[trigger] accessible_neighbours@.contains(q) <==> (cardinally_adjacent(
            position,
            q,
        ) && !(map@.contains_key(q) && !map@[q].passable)) by {
            lemma_four_neighbours(position, q);
            lemma_popped_keep_members(cardinal_neighbours_spec(position), keep, q);
            if cardinally_adjacent(position, q) && open_at(map@, q) {
                lemma_popped_keep_complete(cardinal_neighbours_spec(position), keep, q);
            }
        }
    }
    accessible_neighbours
}

/// The cell at offset `(x, y)` from `q` does not narrow a passage of half width `h`:
/// it holds no tile, a passable one, or lies on the border of the square.
pub open spec fn cell_ok(m: Map<Vector3i, crate::map::Tile>, q: Vector3i, x: int, y: int, h: int) -> bool {
    let t = Vector3i::of(q.x + x, q.y + y, q.z as int);
    !(m.contains_key(t) && !m[t].passable && !(abs(x) == h || abs(y) == h))
}

/// The square of half width `h` around `q` has no impassable tile inside its border.
pub open spec fn width_clear(m: Map<Vector3i, crate::map::Tile>, q: Vector3i, h: int) -> bool {
    forall|x: int, y: int| -h <= x <= h && -h <= y <= h ==> #[trigger] cell_ok(m, q, x, y, h)
}

/// The cardinal neighbours of a position, taken from the back, that leave room for
/// a passage of half width `h`.
pub open spec fn accessible_with_width_spec(
    m: Map<Vector3i, crate::map::Tile>,
    p: Vector3i,
    h: int,
) -> Seq<Vector3i> {
    popped_keep(cardinal_neighbours_spec(p), |q: Vector3i| width_clear(m, q, h))
}

/// Half of `range` fits around `position` and its neighbours on the grid.
pub open spec fn width_fits(position: Vector3i, range: usize) -> bool {
    let h = range as int / 2;
    &&& h < i32::MAX
    &&& i32::MIN <= position.x - 1 - h
    &&& position.x + 1 + h <= i32::MAX
    &&& i32::MIN <= position.y - 1 - h
    &&& position.y + 1 + h <= i32::MAX
    &&& i32::MIN < position.z < i32::MAX
}

/// Whether no impassable tile lies strictly inside the square of half width `h` around `q`.
fn square_is_clear(map: &TileMap, q: Vector3i, h: i32) -> (valid: bool)
    requires
        0 <= h < i32::MAX,
        i32::MIN <= q.x - h,
        q.x + h <= i32::MAX,
        i32::MIN <= q.y - h,
        q.y + h <= i32::MAX,
    ensures
        valid == width_clear(map@, q, h as int),
{
    let mut valid_tile = true;
    let mut x: i32 = -h;
    while x <= h
        invariant
            0 <= h < i32::MAX,
            i32::MIN <= q.x - h,
            q.x + h <= i32::MAX,
            i32::MIN <= q.y - h,
            q.y + h <= i32::MAX,
            -h <= x <= h + 1,
            valid_tile == (forall|xx: int, yy: int|
                -h <= xx < x && -h <= yy <= h ==> #[trigger] cell_ok(map@, q, xx, yy, h as int)),
        decreases h + 1 - x,
    {
        let mut y: i32 = -h;
        while y <= h
            invariant
                0 <= h < i32::MAX,
                i32::MIN <= q.x - h,
                q.x + h <= i32::MAX,
                i32::MIN <= q.y - h,
                q.y + h <= i32::MAX,
                -h <= x <= h,
                -h <= y <= h + 1,
                valid_tile == ((forall|xx: int, yy: int|
                    -h <= xx < x && -h <= yy <= h ==> #[trigger] cell_ok(map@, q, xx, yy, h as int))
                    && (forall|yy: int| -h <= yy < y ==> #[trigger] cell_ok(map@, q, x as int, yy, h as int))),
            decreases h + 1 - y,
        {
            let t = Vector3i::new(q.x + x, q.y + y, q.z);
            let ax = if x < 0 { -x } else { x };
            let ay = if y < 0 { -y } else { y };
            if let Some(tile) = map.get(t) {
                if !tile.passable && !(ax == h || ay == h) {
                    valid_tile = false;
                }
            }
            assert(t == Vector3i::of(q.x + x, q.y + y, q.z as int));
            proof {
                let ok = cell_ok(map@, q, x as int, y as int, h as int);
                assert(valid_tile == ((forall|xx: int, yy: int|
                    -h <= xx < x && -h <= yy <= h ==> #[trigger] cell_ok(map@, q, xx, yy, h as int))
                    && (forall|yy: int| -h <= yy < y ==> #[trigger] cell_ok(map@, q, x as int, yy, h as int))
                    && ok));
            }
            y = y + 1;
        }
        proof {
            assert forall|xx: int, yy: int|
                -h <= xx < x + 1 && -h <= yy <= h implies #[trigger] cell_ok(map@, q, xx, yy, h as int)
                == (if xx < x { cell_ok(map@, q, xx, yy, h as int) } else { cell_ok(map@, q, x as int, yy, h as int) }) by {}
        }
        x = x + 1;
    }
    valid_tile
}

/// The cardinal neighbours of `position` around which a passage `range` cells wide
/// finds no impassable tile inside its border.
pub fn get_accessible_neighbours_with_width(map: &TileMap, position: Vector3i, range: usize) -> (r:
    Vec<Vector3i>)
    requires
        width_fits(position, range),
    ensures
        r@ == accessible_with_width_spec(map@, position, range as int / 2),
        forall|q: Vector3i|
            #[trigger] r@.contains(q) <==> (cardinally_adjacent(position, q) && forall|x: int, y: int|
                -(range as int / 2) < x < range as int / 2 && -(range as int / 2) < y < range as int / 2 ==> {
                    let t = #[trigger] Vector3i::of(q.x + x, q.y + y, q.z as int);
                    !(map@.contains_key(t) && !map@[t].passable)
                }),
{
    let mut neighbours = get_cardinal_neighbours(position);
    let mut accessible_neighbours: Vec<Vector3i> = Vec::new();
    let half_range = (range / 2) as i32;
    let ghost keep = |q: Vector3i| width_clear(map@, q, half_range as int);
    while neighbours.len() > 0
        invariant
            width_fits(position, range),
            half_range == range as int / 2,
            keep == (|q: Vector3i| width_clear(map@, q, half_range as int)),
            forall|i: int| 0 <= i < neighbours@.len() ==> #[trigger] cardinal_neighbours_spec(position).contains(neighbours@[i]),
            neighbours@.is_prefix_of(cardinal_neighbours_spec(position)),
            accessible_neighbours@ + popped_keep(neighbours@, keep) == popped_keep(
                cardinal_neighbours_spec(position),
                keep,
            ),
        decreases neighbours.len(),
    {
        let ghost before = neighbours@;
        let ghost prev_acc = accessible_neighbours@;
        let neighbour = neighbours.pop();
        if let Some(tile_position) = neighbour {
            proof {
                assert(before[before.len() - 1] == cardinal_neighbours_spec(position)[before.len() - 1]);
            }
            let valid_tile = square_is_clear(map, tile_position, half_range);
            if valid_tile {
                accessible_neighbours.push(tile_position);
            }
            proof {
                assert(neighbours@ == before.drop_last());
                assert(tile_position == before.last());
                assert(neighbours@.is_prefix_of(cardinal_neighbours_spec(position)));
                if keep(tile_position) {
                    assert(popped_keep(before, keep) == seq![tile_position] + popped_keep(
                        neighbours@,
                        keep,
                    ));
                    assert(prev_acc + (seq![tile_position] + popped_keep(neighbours@, keep))
                        =~= prev_acc.push(tile_position) + popped_keep(neighbours@, keep));
                } else {
                    assert(popped_keep(before, keep) == popped_keep(neighbours@, keep));
                }
                assert(accessible_neighbours@ + popped_keep(neighbours@, keep) =~= popped_keep(
                    cardinal_neighbours_spec(position),
                    keep,
                ));
            }
        }
    }
    assert(accessible_neighbours@ =~= accessible_with_width_spec(map@, position, range as int / 2));
    proof {
        let h = range as int / 2;
        assert forall|q: Vector3i| #[trigger] accessible_neighbours@.contains(q) <==> (cardinally_adjacent(
            position,
            q,
        ) && forall|x: int, y: int|
            -h < x < h && -h < y < h ==> {
                let t = #[trigger] Vector3i::of(q.x + x, q.y + y, q.z as int);
                !(map@.contains_key(t) && !map@[t].passable)
            }) by {
            lemma_four_neighbours(position, q);
            lemma_popped_keep_members(cardinal_neighbours_spec(position), keep, q);
            let inner = forall|x: int, y: int|
                -h < x < h && -h < y < h ==> {
                    let t = #[trigger] Vector3i::of(q.x + x, q.y + y, q.z as int);
                    !(map@.contains_key(t) && !map@[t].passable)
                };
            if width_clear(map@, q, h) {
                assert forall|x: int, y: int| -h < x < h && -h < y < h implies {
                    let t = #[trigger] Vector3i::of(q.x + x, q.y + y, q.z as int);
                    !(map@.contains_key(t) && !map@[t].passable)
                } by {
                    assert(cell_ok(map@, q, x, y, h));
                }
            }
            if inner {
                assert forall|x: int, y: int| -h <= x <= h && -h <= y <= h implies #[trigger] cell_ok(map@, q, x, y, h) by {
                    if -h < x < h && -h < y < h {
                        let t = Vector3i::of(q.x + x, q.y + y, q.z as int);
                        assert(!(map@.contains_key(t) && !map@[t].passable));
                    }
                }
                assert(width_clear(map@, q, h));
            }
            if cardinally_adjacent(position, q) && width_clear(map@, q, h) {
                lemma_popped_keep_complete(cardinal_neighbours_spec(position), keep, q);
            }
        }
    }
    accessible_neighbours
}

/// A neighbour `b` of `a` that the search may move to: one that can be entered, or,
/// when the search keeps a passage of half width `h` clear, one that leaves it clear.
pub open spec fn is_move(
    m: Map<Vector3i, crate::map::Tile>,
    a: Vector3i,
    b: Vector3i,
    h: Option<int>,
) -> bool {
    &&& cardinal_neighbours_spec(a).contains(b)
    &&& (open_at(m, b) || (h is Some && width_clear(m, b, h->0)))
}

/// Each position of `path` is a move away from the one before it.
pub open spec fn is_route(
    m: Map<Vector3i, crate::map::Tile>,
    path: Seq<Vector3i>,
    h: Option<int>,
) -> bool {
    forall|i: int| 0 <= i < path.len() - 1 ==> #[trigger] is_move(m, path[i], path[i + 1], h)
}

/// A cardinal neighbour lies one step away on the same level.
pub proof fn lemma_cardinal_neighbour(p: Vector3i, n: Vector3i)
    requires
        steps_fit(p),
        cardinal_neighbours_spec(p).contains(n),
    ensures
        n.z == p.z,
        abs(n.x - p.x) + abs(n.y - p.y) == 1,
{
    let i = choose|i: int| 0 <= i < 4 && cardinal_neighbours_spec(p)[i] == n;
    assert(0 <= i < 4);
}

/// The largest number of positions a search takes from its open set.
pub const SEARCH_LIMIT: usize = 1_000_000;

/// The search from `start` stays on the grid however far it goes within its limit,
/// with room for a passage of half width `h` around every position it reaches.
pub open spec fn search_fits(start: Vector3i, limit: int, h: int) -> bool {
    &&& 0 <= limit <= SEARCH_LIMIT
    &&& 0 <= h
    &&& i32::MIN <= start.x - 141 * limit - h - 2
    &&& start.x + 141 * limit + h + 2 <= i32::MAX
    &&& i32::MIN <= start.y - 141 * limit - h - 2
    &&& start.y + 141 * limit + h + 2 <= i32::MAX
    &&& i32::MIN < start.z < i32::MAX
}

/// `a` comes before `b` in the open set: smaller cost first, then by position.
pub open spec fn entry_before(a: (i32, Vector3i), b: (i32, Vector3i)) -> bool {
    ||| a.0 < b.0
    ||| a.0 == b.0 && a.1.x < b.1.x
    ||| a.0 == b.0 && a.1.x == b.1.x && a.1.y < b.1.y
    ||| a.0 == b.0 && a.1.x == b.1.x && a.1.y == b.1.y && a.1.z < b.1.z
}

/// Takes the first entry of the open set in cost-then-position order.
fn pop_first(open: &mut Vec<(i32, Vector3i)>) -> (e: (i32, Vector3i))
    requires
        old(open).len() > 0,
    ensures
        exists|i: int|
            0 <= i < old(open).len() && old(open)@[i] == e && final(open)@ == old(open)@.remove(i),
        forall|j: int| 0 <= j < old(open).len() ==> !entry_before(#[trigger] old(open)@[j], e),
{
    let mut best: usize = 0;
    let mut i: usize = 1;
    while i < open.len()
        invariant
            0 <= best < open.len(),
            1 <= i <= open.len(),
            forall|j: int| 0 <= j < i ==> !entry_before(#[trigger] open@[j], open@[best as int]),
        decreases open.len() - i,
    {
        let a = open[i];
        let b = open[best];
        if a.0 < b.0 || (a.0 == b.0 && (a.1.x < b.1.x || (a.1.x == b.1.x && (a.1.y < b.1.y || (
        a.1.y == b.1.y && a.1.z < b.1.z))))) {
            best = i;
        }
        i = i + 1;
    }
    let ghost before = open@;
    let e = open.remove(best);
    assert(before[best as int] == e);
    e
}

/// `a` comes before `b` in a frontier ordered by distance, then by position.
pub open spec fn far_entry_before(a: (i128, Vector3i), b: (i128, Vector3i)) -> bool {
    ||| a.0 < b.0
    ||| a.0 == b.0 && a.1.x < b.1.x
    ||| a.0 == b.0 && a.1.x == b.1.x && a.1.y < b.1.y
    ||| a.0 == b.0 && a.1.x == b.1.x && a.1.y == b.1.y && a.1.z < b.1.z
}

/// Takes the first entry, in distance-then-position order, of a search frontier.
fn pop_first_far(open: &mut Vec<(i128, Vector3i)>) -> (e: (i128, Vector3i))
    requires
        old(open).len() > 0,
    ensures
        exists|i: int|
            0 <= i < old(open).len() && old(open)@[i] == e && final(open)@ == old(open)@.remove(i),
        forall|j: int| 0 <= j < old(open).len() ==> !far_entry_before(#[trigger] old(open)@[j], e),
{
    let mut best: usize = 0;
    let mut i: usize = 1;
    while i < open.len()
        invariant
            0 <= best < open.len(),
            1 <= i <= open.len(),
            forall|j: int| 0 <= j < i ==> !far_entry_before(#[trigger] open@[j], open@[best as int]),
        decreases open.len() - i,
    {
        let a = open[i];
        let b = open[best];
        if a.0 < b.0 || (a.0 == b.0 && (a.1.x < b.1.x || (a.1.x == b.1.x && (a.1.y < b.1.y || (
        a.1.y == b.1.y && a.1.z < b.1.z))))) {
            best = i;
        }
        i = i + 1;
    }
    let ghost before = open@;
    let e = open.remove(best);
    assert(before[best as int] == e);
    e
}

/// The positions leading to `target`, each the recorded predecessor of the next.
fn reconstruct_path(
    came_from: &PositionMap<Vector3i>,
    target: Vector3i,
    Ghost(g): Ghost<Map<Vector3i, i32>>,
) -> (path: Vec<Vector3i>)
    requires
        g.contains_key(target),
        forall|k: Vector3i| #[trigger] g.contains_key(k) ==> g[k] >= 0,
        forall|k: Vector3i| #[trigger]
            came_from@.contains_key(k) ==> g.contains_key(k) && g.contains_key(came_from@[k])
                && g[came_from@[k]] < g[k],
    ensures
        path@.len() >= 1,
        path@.last() == target,
        !came_from@.contains_key(path@[0]),
        g.contains_key(path@[0]),
        forall|i: int|
            1 <= i < path@.len() ==> came_from@.contains_key(#[trigger] path@[i])
                && came_from@[path@[i]] == path@[i - 1],
{
    let mut total_path: Vec<Vector3i> = Vec::new();
    let mut current_position = target;
    while came_from.contains(current_position)
        invariant
            g.contains_key(target),
            forall|k: Vector3i| #[trigger] g.contains_key(k) ==> g[k] >= 0,
            forall|k: Vector3i| #[trigger]
                came_from@.contains_key(k) ==> g.contains_key(k) && g.contains_key(came_from@[k])
                    && g[came_from@[k]] < g[k],
            g.contains_key(current_position),
            total_path@.len() == 0 ==> current_position == target,
            total_path@.len() > 0 ==> total_path@.last() == target && came_from@.contains_key(
                total_path@[0],
            ) && came_from@[total_path@[0]] == current_position,
            forall|i: int|
                1 <= i < total_path@.len() ==> came_from@.contains_key(#[trigger] total_path@[i])
                    && came_from@[total_path@[i]] == total_path@[i - 1],
        decreases g[current_position],
    {
        let previous_position = came_from.get(current_position).unwrap();
        let ghost before = total_path@;
        total_path.insert(0, current_position);
        proof {
            assert(total_path@ =~= seq![current_position] + before);
            assert forall|i: int| 1 <= i < total_path@.len() implies came_from@.contains_key(
                #[trigger] total_path@[i],
            ) && came_from@[total_path@[i]] == total_path@[i - 1] by {
                assert(total_path@[i] == before[i - 1]);
                if i > 1 {
                    assert(total_path@[i - 1] == before[i - 2]);
                }
            }
        }
        current_position = previous_position;
    }
    let ghost before = total_path@;
    total_path.insert(0, current_position);
    proof {
        assert(total_path@ =~= seq![current_position] + before);
        assert forall|i: int| 1 <= i < total_path@.len() implies came_from@.contains_key(
                #[trigger] total_path@[i],
            ) && came_from@[total_path@[i]] == total_path@[i - 1] by {
                assert(total_path@[i] == before[i - 1]);
                if i > 1 {
                    assert(total_path@[i - 1] == before[i - 2]);
                }
            }
    }
    total_path
}

/// The invariant of the search: every recorded predecessor is a move away and one step cheaper,
/// and every reached position lies within its cost of `start`, on its level.
pub open spec fn search_state_ok(
    m: Map<Vector3i, crate::map::Tile>,
    start: Vector3i,
    h: Option<int>,
    g: Map<Vector3i, i32>,
    came_from: Map<Vector3i, Vector3i>,
    bound: int,
) -> bool {
    &&& g.contains_key(start)
    &&& g[start] == 0
    &&& !came_from.contains_key(start)
    &&& forall|k: Vector3i| #[trigger]
        came_from.contains_key(k) ==> g.contains_key(k) && g.contains_key(came_from[k])
            && g[k] == g[came_from[k]] + 100 && is_move(m, came_from[k], k, h)
    &&& forall|k: Vector3i| #[trigger] g.contains_key(k) && k != start ==> came_from.contains_key(k)
    &&& forall|k: Vector3i| #[trigger]
        g.contains_key(k) ==> 0 <= g[k] <= bound && abs(k.x - start.x) <= g[k] && abs(
            k.y - start.y,
        ) <= g[k] && k.z == start.z
}

/// `p` lies on the level of `start`, at most `d` cells from it along each of the
/// other two axes.
pub open spec fn within_reach(start: Vector3i, p: Vector3i, d: int) -> bool {
    &&& abs(p.x - start.x) <= d
    &&& abs(p.y - start.y) <= d
    &&& p.z == start.z
}

/// Along a chain of recorded predecessors from a position of cost 0, each position
/// costs a hundred per step.
proof fn lemma_chain_cost(
    came_from: Map<Vector3i, Vector3i>,
    g: Map<Vector3i, i32>,
    path: Seq<Vector3i>,
    i: int,
)
    requires
        forall|k: Vector3i| #[trigger]
            came_from.contains_key(k) ==> g.contains_key(k) && g.contains_key(came_from[k]) && g[k]
                == g[came_from[k]] + 100,
        path.len() >= 1,
        g.contains_key(path[0]),
        g[path[0]] == 0,
        forall|t: int|
            1 <= t < path.len() ==> came_from.contains_key(#[trigger] path[t]) && came_from[path[t]]
                == path[t - 1],
        0 <= i < path.len(),
    ensures
        g.contains_key(path[i]),
        g[path[i]] == 100 * i,
    decreases i,
{
    if i > 0 {
        lemma_chain_cost(came_from, g, path, i - 1);
        assert(came_from.contains_key(path[i]));
    }
}

/// A cardinal step from `a` into `b`, a cell that can be entered and, with `h`, leaves a
/// passage of half width `h` clear.
pub open spec fn clear_move(
    m: Map<Vector3i, crate::map::Tile>,
    a: Vector3i,
    b: Vector3i,
    h: Option<int>,
) -> bool {
    &&& cardinal_neighbours_spec(a).contains(b)
    &&& open_at(m, b)
    &&& (h matches Some(hw) ==> width_clear(m, b, hw))
}

/// The half width of the passage that a search for `width` keeps clear, if any.
pub open spec fn half_width(width: Option<usize>) -> Option<int> {
    match width {
        Some(w) => Some(w as int / 2),
        None => None,
    }
}

/// `w` walks from `start` to `target` by clear moves, one cardinal step at a time.
pub open spec fn is_walk(
    m: Map<Vector3i, crate::map::Tile>,
    start: Vector3i,
    target: Vector3i,
    h: Option<int>,
    w: Seq<Vector3i>,
) -> bool {
    &&& w.len() >= 1
    &&& w[0] == start
    &&& w.last() == target
    &&& forall|i: int| 0 <= i < w.len() - 1 ==> #[trigger] clear_move(m, w[i], w[i + 1], h)
}

/// Every clear move out of an expanded position `u` other than `except` leads to a
/// reached position at most one step dearer.
pub open spec fn relaxed_except(
    m: Map<Vector3i, crate::map::Tile>,
    g: Map<Vector3i, i32>,
    expanded: Set<Vector3i>,
    except: Option<Vector3i>,
    h: Option<int>,
) -> bool {
    forall|u: Vector3i, v: Vector3i|
        #![trigger expanded.contains(u), clear_move(m, u, v, h)]
        expanded.contains(u) && except != Some(u) && clear_move(m, u, v, h) ==> g.contains_key(v)
            && g[v] <= g[u] + 100
}

/// The state of a cheapest-first search over steps of equal cost after `count`
/// expansions, none of them at `target`: the open set holds each reached position that
/// was not expanded yet, once, at its cost, and its costs lie within one step of `level`,
/// the cost of the last expansion; every expanded position cost at most `level`; each
/// cost is at least a hundred per cell between a position and `start`.
pub open spec fn expansion_ok(
    start: Vector3i,
    target: Vector3i,
    g: Map<Vector3i, i32>,
    open: Seq<(i32, Vector3i)>,
    expanded: Set<Vector3i>,
    level: int,
    count: int,
) -> bool {
    &&& expanded.finite()
    &&& expanded.len() == count
    &&& !expanded.contains(target)
    &&& 0 <= level
    &&& forall|p: Vector3i| #[trigger]
        expanded.contains(p) ==> g.contains_key(p) && g[p] <= level
    &&& forall|j: int|
        0 <= j < open.len() ==> g.contains_key(#[trigger] open[j].1) && g[open[j].1] == open[j].0
            && !expanded.contains(open[j].1) && level <= open[j].0 <= level + 100
    &&& forall|i: int, j: int|
        0 <= i < j < open.len() ==> #[trigger] open[i].1 != #[trigger] open[j].1
    &&& forall|k: Vector3i| #[trigger]
        g.contains_key(k) && !expanded.contains(k) ==> open.contains((g[k], k))
    &&& forall|k: Vector3i| #[trigger]
        g.contains_key(k) ==> g[k] >= 100 * (abs(k.x - start.x) + abs(k.y - start.y))
}

/// Along a walk from the start whose first `j` positions were all expanded, the position
/// at `j` was reached at a cost of at most a hundred per step.
proof fn lemma_walk_prefix(
    m: Map<Vector3i, crate::map::Tile>,
    g: Map<Vector3i, i32>,
    expanded: Set<Vector3i>,
    h: Option<int>,
    w: Seq<Vector3i>,
    j: int,
)
    requires
        relaxed_except(m, g, expanded, None, h),
        forall|i: int| 0 <= i < w.len() - 1 ==> #[trigger] clear_move(m, w[i], w[i + 1], h),
        g.contains_key(w[0]),
        g[w[0]] == 0,
        0 <= j < w.len(),
        forall|t: int| 0 <= t < j ==> expanded.contains(#[trigger] w[t]),
    ensures
        g.contains_key(w[j]),
        g[w[j]] <= 100 * j,
    decreases j,
{
    if j > 0 {
        lemma_walk_prefix(m, g, expanded, h, w, j - 1);
        assert(clear_move(m, w[j - 1], w[(j - 1) + 1], h));
        assert(expanded.contains(w[j - 1]));
    }
}

/// A walk from the start to a position that was not expanded passes a reached position,
/// not expanded yet, whose cost is at most a hundred per step of the walk.
proof fn lemma_walk_frontier(
    m: Map<Vector3i, crate::map::Tile>,
    g: Map<Vector3i, i32>,
    expanded: Set<Vector3i>,
    h: Option<int>,
    w: Seq<Vector3i>,
    j: int,
) -> (i: int)
    requires
        relaxed_except(m, g, expanded, None, h),
        w.len() >= 1,
        forall|i: int| 0 <= i < w.len() - 1 ==> #[trigger] clear_move(m, w[i], w[i + 1], h),
        g.contains_key(w[0]),
        g[w[0]] == 0,
        !expanded.contains(w.last()),
        0 <= j < w.len(),
        forall|t: int| 0 <= t < j ==> expanded.contains(#[trigger] w[t]),
    ensures
        0 <= i < w.len(),
        g.contains_key(w[i]),
        !expanded.contains(w[i]),
        g[w[i]] <= 100 * (w.len() - 1),
    decreases w.len() - j,
{
    if !expanded.contains(w[j]) {
        lemma_walk_prefix(m, g, expanded, h, w, j);
        j
    } else {
        assert(j != w.len() - 1);
        lemma_walk_frontier(m, g, expanded, h, w, j + 1)
    }
}

/// Two numbers written with the digits `a` and `b` in base `width` are equal only when
/// their digits are, and such a number stays below `width * width`.
proof fn lemma_two_digits(a1: int, b1: int, a2: int, b2: int, width: int)
    by (nonlinear_arith)
    requires
        0 <= a1 < width,
        0 <= b1 < width,
        0 <= a2 < width,
        0 <= b2 < width,
    ensures
        0 <= a1 * width + b1 < width * width,
        a1 * width + b1 == a2 * width + b2 ==> a1 == a2 && b1 == b2,
{
    if a1 * width + b1 == a2 * width + b2 && a1 != a2 {
        if a1 > a2 {
            assert((a1 - a2) * width >= width);
        } else {
            assert((a2 - a1) * width >= width);
        }
    }
}

/// At most `(2n + 1)²` positions lie within `n` cells of `start` along each horizontal axis.
proof fn lemma_square_count(s: Set<Vector3i>, start: Vector3i, n: int)
    requires
        s.finite(),
        n >= 0,
        forall|p: Vector3i| #[trigger]
            s.contains(p) ==> abs(p.x - start.x) <= n && abs(p.y - start.y) <= n && p.z == start.z,
    ensures
        s.len() <= (2 * n + 1) * (2 * n + 1),
{
    let width = 2 * n + 1;
    let f = |p: Vector3i| (p.x - start.x + n) * width + (p.y - start.y + n);
    assert forall|p1: Vector3i, p2: Vector3i|
        s.contains(p1) && s.contains(p2) && #[trigger] f(p1) == #[trigger] f(p2) implies p1 == p2 by {
        lemma_two_digits(p1.x - start.x + n, p1.y - start.y + n, p2.x - start.x + n, p2.y - start.y
            + n, width);
    }
    let image = s.map(f);
    vstd::set_lib::lemma_map_size(s, image, f);
    vstd::set_lib::lemma_int_range(0, width * width);
    assert forall|i: int| #[trigger] image.contains(i) implies vstd::set_lib::set_int_range(
        0,
        width * width,
    ).contains(i) by {
        let p = choose|p: Vector3i| s.contains(p) && f(p) == i;
        lemma_two_digits(p.x - start.x + n, p.y - start.y + n, 0, 0, width);
    }
    vstd::set_lib::lemma_len_subset(image, vstd::set_lib::set_int_range(0, width * width));
}

/// Expanding the first entry of the open set keeps the search's state, one expansion on,
/// at the cost of that entry; the entry is never dearer than a walk to the target allows.
proof fn lemma_expand_next(
    m: Map<Vector3i, crate::map::Tile>,
    start: Vector3i,
    target: Vector3i,
    g: Map<Vector3i, i32>,
    open_before: Seq<(i32, Vector3i)>,
    open_after: Seq<(i32, Vector3i)>,
    e: (i32, Vector3i),
    expanded: Set<Vector3i>,
    level: int,
    count: int,
    h: Option<int>,
)
    requires
        expansion_ok(start, target, g, open_before, expanded, level, count),
        g.contains_key(start),
        g[start] == 0,
        exists|i: int|
            0 <= i < open_before.len() && open_before[i] == e && open_after == open_before.remove(i),
        forall|j: int| 0 <= j < open_before.len() ==> !entry_before(#[trigger] open_before[j], e),
        e.1 != target,
        relaxed_except(m, g, expanded, None, h),
    ensures
        g.contains_key(e.1),
        g[e.1] == e.0,
        !expanded.contains(e.1),
        expansion_ok(start, target, g, open_after, expanded.insert(e.1), e.0 as int, count + 1),
        relaxed_except(m, g, expanded.insert(e.1), Some(e.1), h),
        forall|w: Seq<Vector3i>| #[trigger]
            is_walk(m, start, target, h, w) ==> e.0 <= 100 * (w.len() - 1),
{
    let idx = choose|i: int|
        0 <= i < open_before.len() && open_before[i] == e && open_after == open_before.remove(i);
    assert(g.contains_key(open_before[idx].1));
    let p = e.1;
    let ex = expanded.insert(p);
    assert forall|j: int| 0 <= j < open_after.len() implies g.contains_key(#[trigger] open_after[j].1)
        && g[open_after[j].1] == open_after[j].0 && !ex.contains(open_after[j].1) && e.0
        <= open_after[j].0 <= e.0 + 100 by {
        let jj = if j < idx { j } else { j + 1 };
        assert(open_after[j] == open_before[jj]);
        assert(g.contains_key(open_before[jj].1));
        assert(!entry_before(open_before[jj], e));
        if jj < idx {
            assert(open_before[jj].1 != open_before[idx].1);
        } else {
            assert(open_before[idx].1 != open_before[jj].1);
        }
    }
    assert forall|a: int, b: int| 0 <= a < b < open_after.len() implies #[trigger] open_after[a].1
        != #[trigger] open_after[b].1 by {
        let aa = if a < idx { a } else { a + 1 };
        let bb = if b < idx { b } else { b + 1 };
        assert(open_after[a] == open_before[aa]);
        assert(open_after[b] == open_before[bb]);
        assert(open_before[aa].1 != open_before[bb].1);
    }
    assert forall|k: Vector3i| #[trigger] g.contains_key(k) && !ex.contains(k) implies open_after.contains(
        (g[k], k),
    ) by {
        assert(open_before.contains((g[k], k)));
        let j = choose|j: int| 0 <= j < open_before.len() && open_before[j] == (g[k], k);
        assert(j != idx);
        if j < idx {
            assert(open_after[j] == open_before[j]);
        } else {
            assert(open_after[j - 1] == open_before[j]);
        }
    }
    assert forall|q: Vector3i| #[trigger] ex.contains(q) implies g.contains_key(q) && g[q] <= e.0 by {
        if q != p {
            assert(expanded.contains(q));
        }
    }
    assert forall|u: Vector3i, v: Vector3i|
        #![trigger ex.contains(u), clear_move(m, u, v, h)]
        ex.contains(u) && Some(p) != Some(u) && clear_move(m, u, v, h) implies g.contains_key(v)
            && g[v] <= g[u] + 100 by {
        assert(expanded.contains(u));
    }
    lemma_first_within(m, start, target, g, open_before, e, expanded, level, count, h);
}

/// The first entry of the open set costs no more than a hundred per step of any walk
/// by clear moves from the start to the target.
proof fn lemma_first_within(
    m: Map<Vector3i, crate::map::Tile>,
    start: Vector3i,
    target: Vector3i,
    g: Map<Vector3i, i32>,
    open: Seq<(i32, Vector3i)>,
    e: (i32, Vector3i),
    expanded: Set<Vector3i>,
    level: int,
    count: int,
    h: Option<int>,
)
    requires
        expansion_ok(start, target, g, open, expanded, level, count),
        relaxed_except(m, g, expanded, None, h),
        g.contains_key(start),
        g[start] == 0,
        forall|j: int| 0 <= j < open.len() ==> !entry_before(#[trigger] open[j], e),
    ensures
        forall|w: Seq<Vector3i>| #[trigger]
            is_walk(m, start, target, h, w) ==> e.0 <= 100 * (w.len() - 1),
{
    assert forall|w: Seq<Vector3i>| #[trigger]
        is_walk(m, start, target, h, w) implies e.0 <= 100 * (w.len() - 1) by {
        let i = lemma_walk_frontier(m, g, expanded, h, w, 0);
        assert(open.contains((g[w[i]], w[i])));
        let j = choose|j: int| 0 <= j < open.len() && open[j] == (g[w[i]], w[i]);
        assert(!entry_before(open[j], e));
    }
}

/// Reaching a new neighbour `v` of the position `p` being expanded, at one step dearer,
/// keeps the search's state.
#[verifier::spinoff_prover]
proof fn lemma_reach_new(
    m: Map<Vector3i, crate::map::Tile>,
    start: Vector3i,
    target: Vector3i,
    g: Map<Vector3i, i32>,
    open: Seq<(i32, Vector3i)>,
    expanded: Set<Vector3i>,
    level: int,
    count: int,
    p: Vector3i,
    v: Vector3i,
    t: i32,
    h: Option<int>,
)
    requires
        expansion_ok(start, target, g, open, expanded, level, count),
        !g.contains_key(v),
        g.contains_key(p),
        g[p] == level,
        t == level + 100,
        abs(v.x - p.x) + abs(v.y - p.y) == 1,
        relaxed_except(m, g, expanded, Some(p), h),
    ensures
        expansion_ok(start, target, g.insert(v, t), open.push((t, v)), expanded, level, count),
        relaxed_except(m, g.insert(v, t), expanded, Some(p), h),
{
    let g2 = g.insert(v, t);
    let open2 = open.push((t, v));
    assert forall|q: Vector3i| #[trigger] expanded.contains(q) implies g2.contains_key(q) && g2[q]
        <= level by {
        assert(g.contains_key(q));
    }
    assert forall|j: int| 0 <= j < open2.len() implies g2.contains_key(#[trigger] open2[j].1)
        && g2[open2[j].1] == open2[j].0 && !expanded.contains(open2[j].1) && level <= open2[j].0
        <= level + 100 by {
        if j < open.len() {
            assert(open2[j] == open[j]);
            assert(g.contains_key(open[j].1));
        } else {
            if expanded.contains(v) {
                assert(g.contains_key(v));
            }
        }
    }
    assert forall|a: int, b: int| 0 <= a < b < open2.len() implies #[trigger] open2[a].1
        != #[trigger] open2[b].1 by {
        assert(open2[a] == open[a]);
        assert(g.contains_key(open[a].1));
        if b < open.len() {
            assert(open2[b] == open[b]);
        }
    }
    assert forall|k: Vector3i| #[trigger] g2.contains_key(k) && !expanded.contains(k) implies open2.contains(
        (g2[k], k),
    ) by {
        if k == v {
            assert(open2[open.len() as int] == (t, v));
        } else {
            assert(open.contains((g[k], k)));
            let j = choose|j: int| 0 <= j < open.len() && open[j] == (g[k], k);
            assert(open2[j] == open[j]);
        }
    }
    assert forall|k: Vector3i| #[trigger] g2.contains_key(k) implies g2[k] >= 100 * (abs(k.x - start.x)
        + abs(k.y - start.y)) by {
        if k == v {
            assert(g[p] >= 100 * (abs(p.x - start.x) + abs(p.y - start.y)));
            assert(abs(v.x - start.x) <= abs(p.x - start.x) + abs(v.x - p.x));
            assert(abs(v.y - start.y) <= abs(p.y - start.y) + abs(v.y - p.y));
        } else {
            assert(g.contains_key(k));
        }
    }
    assert(expanded.finite() && expanded.len() == count && !expanded.contains(target));
    assert(0 <= level);
    assert forall|u: Vector3i, w: Vector3i|
        #![trigger expanded.contains(u), clear_move(m, u, w, h)]
        expanded.contains(u) && Some(p) != Some(u) && clear_move(m, u, w, h) implies g2.contains_key(w)
            && g2[w] <= g2[u] + 100 by {
        assert(g.contains_key(u));
    }
}

/// A search runs out of open positions or of expansions only when every walk by clear
/// moves to the target has `n` steps with `(2n + 1)²` at least the limit.
proof fn lemma_search_exhausted(
    m: Map<Vector3i, crate::map::Tile>,
    start: Vector3i,
    target: Vector3i,
    g: Map<Vector3i, i32>,
    open: Seq<(i32, Vector3i)>,
    expanded: Set<Vector3i>,
    level: int,
    count: int,
    limit: int,
    h: Option<int>,
    w: Seq<Vector3i>,
)
    requires
        expansion_ok(start, target, g, open, expanded, level, count),
        relaxed_except(m, g, expanded, None, h),
        forall|w2: Seq<Vector3i>| #[trigger]
            is_walk(m, start, target, h, w2) ==> level <= 100 * (w2.len() - 1),
        g.contains_key(start),
        g[start] == 0,
        forall|k: Vector3i| #[trigger] g.contains_key(k) ==> k.z == start.z,
        !(open.len() > 0 && count < limit),
        is_walk(m, start, target, h, w),
    ensures
        (2 * w.len() - 1) * (2 * w.len() - 1) >= limit,
{
    let i = lemma_walk_frontier(m, g, expanded, h, w, 0);
    assert(open.contains((g[w[i]], w[i])));
    let n = w.len() - 1;
    assert(level <= 100 * n);
    assert forall|p: Vector3i| #[trigger] expanded.contains(p) implies abs(p.x - start.x) <= n && abs(
        p.y - start.y,
    ) <= n && p.z == start.z by {
        assert(g.contains_key(p));
    }
    lemma_square_count(expanded, start, n);
}

/// Cheapest-first search for a walk from `start` to `target` over cardinal moves.
/// With `width`, every expansion but the first and those that empty the open set
/// keeps a passage `width` cells wide clear. Gives up after `limit` expansions.
/// A walk is found whenever one of `n` clear moves exists with `(2n + 1)²` below
/// `limit` (every position of cost up to `100 n` fits in the limit), and what is found
/// is never longer than such a walk.
#[verifier::spinoff_prover]
#[verifier::rlimit(40)]
fn search(map: &TileMap, start: Vector3i, target: Vector3i, width: Option<usize>, limit: usize) -> (r:
    Option<Vec<Vector3i>>)
    requires
        search_fits(
            start,
            limit as int,
            match width {
                Some(w) => w as int / 2,
                None => 0,
            },
        ),
        width matches Some(w) ==> w as int / 2 < i32::MAX,
    ensures
        r matches Some(path) ==> {
            &&& path@.len() >= 1
            &&& path@[0] == start
            &&& path@.last() == target
            &&& is_route(
                map@,
                path@,
                match width {
                    Some(w) => Some(w as int / 2),
                    None => None,
                },
            )
            &&& forall|i: int| 0 <= i < path@.len() ==> within_reach(start, #[trigger] path@[i], 141 * limit)
            &&& path@.no_duplicates()
        },
        forall|w: Seq<Vector3i>|
            #[trigger] is_walk(map@, start, target, half_width(width), w) && (2 * w.len() - 1) * (2 * w.len() - 1) < limit ==> r is Some,
        r matches Some(path) ==> forall|w: Seq<Vector3i>|
            #[trigger] is_walk(map@, start, target, half_width(width), w) ==> path@.len() <= w.len(),
{
    let ghost h: Option<int> = match width {
        Some(w) => Some(w as int / 2),
        None => None,
    };
    let ghost hh: int = match width {
        Some(w) => w as int / 2,
        None => 0,
    };
    let mut open_set: Vec<(i32, Vector3i)> = Vec::new();
    open_set.push((0, start));
    let mut came_from: PositionMap<Vector3i> = PositionMap::new();
    let mut g_score: PositionMap<i32> = PositionMap::new();
    g_score.insert(start, 0);
    let mut count: usize = 0;
    let ghost mut expanded: Set<Vector3i> = Set::empty();
    let ghost mut level: int = 0;
    proof {
        assert(open_set@[0] == (0i32, start));
        assert forall|k: Vector3i| #[trigger]
            g_score@.contains_key(k) && !expanded.contains(k) implies open_set@.contains(
            (g_score@[k], k),
        ) by {
            assert(k == start);
        }
        assert forall|w: Seq<Vector3i>| #[trigger]
            is_walk(map@, start, target, h, w) implies level <= 100 * (w.len() - 1) by {}
    }
    while open_set.len() > 0 && count < limit
        invariant
            search_fits(start, limit as int, hh),
            width matches Some(w) ==> w as int / 2 < i32::MAX && hh == w as int / 2,
            h == (match width {
                Some(w) => Some(w as int / 2),
                None => None::<int>,
            }),
            count <= limit,
            search_state_ok(map@, start, h, g_score@, came_from@, 141 * count),
            forall|i: int| 0 <= i < open_set@.len() ==> g_score@.contains_key(#[trigger] open_set@[i].1),
            expansion_ok(start, target, g_score@, open_set@, expanded, level, count as int),
            relaxed_except(map@, g_score@, expanded, None, h),
            forall|w: Seq<Vector3i>| #[trigger]
                is_walk(map@, start, target, h, w) ==> level <= 100 * (w.len() - 1),
        decreases limit - count,
    {
        let ghost open_before = open_set@;
        let (current_key, current_position) = pop_first(&mut open_set);
        if current_position == target {
            let path = reconstruct_path(&came_from, current_position, Ghost(g_score@));
            proof {
                assert(path@[0] == start);
                let idx = choose|i: int|
                    0 <= i < open_before.len() && open_before[i] == (current_key, current_position)
                        && open_set@ == open_before.remove(i);
                assert(g_score@.contains_key(open_before[idx].1));
                lemma_first_within(
                    map@,
                    start,
                    target,
                    g_score@,
                    open_before,
                    (current_key, current_position),
                    expanded,
                    level,
                    count as int,
                    h,
                );
                lemma_chain_cost(came_from@, g_score@, path@, path@.len() - 1);
                assert forall|a: int, b: int| 0 <= a < path@.len() && 0 <= b < path@.len() && a != b implies path@[a]
                    != path@[b] by {
                    lemma_chain_cost(came_from@, g_score@, path@, a);
                    lemma_chain_cost(came_from@, g_score@, path@, b);
                }
                assert forall|i: int| 0 <= i < path@.len() - 1 implies #[trigger] is_move(
                    map@,
                    path@[i],
                    path@[i + 1],
                    h,
                ) by {
                    assert(came_from@.contains_key(path@[i + 1]));
                }
                assert forall|i: int| 0 <= i < path@.len() implies within_reach(
                    start,
                    #[trigger] path@[i],
                    141 * limit,
                ) by {
                    if i > 0 {
                        assert(came_from@.contains_key(path@[i]));
                    }
                    assert(g_score@.contains_key(path@[i]));
                }
            }
            return Some(path);
        }
        let current_g = g_score.get(current_position).unwrap();
        proof {
            lemma_expand_next(
                map@,
                start,
                target,
                g_score@,
                open_before,
                open_set@,
                (current_key, current_position),
                expanded,
                level,
                count as int,
                h,
            );
            expanded = expanded.insert(current_position);
            level = current_key as int;
            assert(steps_fit(current_position));
        }
        let neighbours = match width {
            Some(w) => {
                if count == 0 || open_set.len() == 0 {
                    get_accessible_neighbours(map, current_position)
                } else {
                    get_accessible_neighbours_with_width(map, current_position, w)
                }
            },
            None => get_accessible_neighbours(map, current_position),
        };
        proof {
            assert forall|n: Vector3i| neighbours@.contains(n) implies #[trigger] is_move(
                map@,
                current_position,
                n,
                h,
            ) by {
                lemma_popped_keep_members(
                    cardinal_neighbours_spec(current_position),
                    |q: Vector3i| open_at(map@, q),
                    n,
                );
                if width is Some {
                    lemma_popped_keep_members(
                        cardinal_neighbours_spec(current_position),
                        |q: Vector3i| width_clear(map@, q, hh),
                        n,
                    );
                }
            }
        }
        let mut i: usize = 0;
        while i < neighbours.len()
            invariant
                search_fits(start, limit as int, hh),
                count < limit,
                0 <= i <= neighbours.len(),
                search_state_ok(map@, start, h, g_score@, came_from@, 141 * count + 141),
                g_score@.contains_key(current_position),
                g_score@[current_position] == current_g,
                0 <= current_g <= 141 * count,
                steps_fit(current_position),
                forall|n: Vector3i| neighbours@.contains(n) ==> #[trigger] is_move(
                    map@,
                    current_position,
                    n,
                    h,
                ),
                forall|j: int| 0 <= j < open_set@.len() ==> g_score@.contains_key(#[trigger] open_set@[j].1),
                expansion_ok(start, target, g_score@, open_set@, expanded, level, count + 1),
                level == current_g,
                expanded.contains(current_position),
                neighbours@ == accessible_neighbours_spec(map@, current_position) || (width is Some
                    && neighbours@ == accessible_with_width_spec(map@, current_position, hh)),
                relaxed_except(map@, g_score@, expanded, Some(current_position), h),
                forall|j: int|
                    0 <= j < i ==> g_score@.contains_key(#[trigger] neighbours@[j])
                        && g_score@[neighbours@[j]] <= current_g + 100,
                forall|w: Seq<Vector3i>| #[trigger]
                    is_walk(map@, start, target, h, w) ==> level <= 100 * (w.len() - 1),
            decreases neighbours.len() - i,
        {
            let neighbour = neighbours[i];
            assert(neighbours@.contains(neighbour));
            assert(is_move(map@, current_position, neighbour, h));
            proof {
                lemma_cardinal_neighbour(current_position, neighbour);
            }
            let move_cost: i32 = if current_position.x != neighbour.x && current_position.y
                != neighbour.y {
                141
            } else {
                100
            };
            let tentative_g_score = current_g + move_cost;
            let known = g_score.get(neighbour);
            proof {
                assert(move_cost == 100);
                if known is Some {
                    if !expanded.contains(neighbour) {
                        assert(open_set@.contains((g_score@[neighbour], neighbour)));
                        let j = choose|j: int|
                            0 <= j < open_set@.len() && open_set@[j] == (
                                g_score@[neighbour],
                                neighbour,
                            );
                        assert(g_score@.contains_key(open_set@[j].1));
                    }
                    assert(g_score@[neighbour] <= current_g + 100);
                }
            }
            let better = match known {
                None => true,
                Some(old_g) => tentative_g_score < old_g,
            };
            if better {
                let ghost old_g = g_score@;
                let ghost old_cf = came_from@;
                let ghost old_open = open_set@;
                came_from.insert(neighbour, current_position);
                g_score.insert(neighbour, tentative_g_score);
                open_set.push((tentative_g_score, neighbour));
                proof {
                    assert(neighbour != start);
                    assert forall|k: Vector3i| #[trigger]
                        came_from@.contains_key(k) implies g_score@.contains_key(k)
                        && g_score@.contains_key(came_from@[k]) && g_score@[k]
                        == g_score@[came_from@[k]] + 100 && is_move(map@, came_from@[k], k, h) by {
                        if k != neighbour {
                            assert(old_cf.contains_key(k));
                        }
                    }
                    assert forall|j: int| 0 <= j < open_set@.len() implies g_score@.contains_key(
                        #[trigger] open_set@[j].1,
                    ) by {
                        if j < open_set@.len() - 1 {
                            assert(old_g.contains_key(open_set@[j].1));
                        }
                    }
                    lemma_reach_new(
                        map@,
                        start,
                        target,
                        old_g,
                        old_open,
                        expanded,
                        level,
                        count + 1,
                        current_position,
                        neighbour,
                        tentative_g_score,
                        h,
                    );
                    assert forall|j: int| 0 <= j < i + 1 implies g_score@.contains_key(
                        #[trigger] neighbours@[j],
                    ) && g_score@[neighbours@[j]] <= current_g + 100 by {
                        if j < i {
                            assert(old_g.contains_key(neighbours@[j]));
                        }
                    }
                }
            }
            i = i + 1;
        }
        proof {
            assert forall|u: Vector3i, v: Vector3i|
                #![trigger expanded.contains(u), clear_move(map@, u, v, h)]
                expanded.contains(u) && clear_move(map@, u, v, h) implies g_score@.contains_key(v)
                    && g_score@[v] <= g_score@[u] + 100 by {
                if u == current_position {
                    if neighbours@ == accessible_neighbours_spec(map@, current_position) {
                        lemma_popped_keep_complete(
                            cardinal_neighbours_spec(current_position),
                            |q: Vector3i| open_at(map@, q),
                            v,
                        );
                    } else {
                        lemma_popped_keep_complete(
                            cardinal_neighbours_spec(current_position),
                            |q: Vector3i| width_clear(map@, q, hh),
                            v,
                        );
                    }
                    let j = choose|j: int| 0 <= j < neighbours@.len() && neighbours@[j] == v;
                    assert(g_score@.contains_key(neighbours@[j]));
                }
            }
        }
        count = count + 1;
    }
    proof {
        assert forall|w: Seq<Vector3i>| #[trigger]
            is_walk(map@, start, target, h, w) && (2 * w.len() - 1) * (2 * w.len() - 1)
                < limit implies false by {
            lemma_search_exhausted(
                map@,
                start,
                target,
                g_score@,
                open_set@,
                expanded,
                level,
                count as int,
                limit as int,
                h,
                w,
            );
        }
    }
    None
}

/// Cheapest-first search over cardinal moves into cells that can be entered.
fn a_star(map: &TileMap, start: Vector3i, target: Vector3i) -> (r: Option<Vec<Vector3i>>)
    requires
        search_fits(start, SEARCH_LIMIT as int, 0),
    ensures
        r matches Some(path) ==> {
            &&& path@.len() >= 1
            &&& path@[0] == start
            &&& path@.last() == target
            &&& is_route(map@, path@, None)
            &&& forall|i: int|
                0 <= i < path@.len() ==> within_reach(start, #[trigger] path@[i], 141 * SEARCH_LIMIT)
            &&& path@.no_duplicates()
        },
        forall|w: Seq<Vector3i>|
            #[trigger] is_walk(map@, start, target, None, w) && (2 * w.len() - 1) * (2 * w.len() - 1)
                < SEARCH_LIMIT ==> r is Some,
        r matches Some(path) ==> forall|w: Seq<Vector3i>| #[trigger]
            is_walk(map@, start, target, None, w) ==> path@.len() <= w.len(),
{
    search(map, start, target, None, SEARCH_LIMIT)
}

/// Cheapest-first search that keeps a passage `width` cells wide clear.
fn a_star_with_width(map: &TileMap, start: Vector3i, target: Vector3i, width: usize) -> (r: Option<
    Vec<Vector3i>,
>)
    requires
        search_fits(start, SEARCH_LIMIT as int, width as int / 2),
    ensures
        r matches Some(path) ==> {
            &&& path@.len() >= 1
            &&& path@[0] == start
            &&& path@.last() == target
            &&& is_route(map@, path@, Some(width as int / 2))
            &&& forall|i: int|
                0 <= i < path@.len() ==> within_reach(start, #[trigger] path@[i], 141 * SEARCH_LIMIT)
            &&& path@.no_duplicates()
        },
        forall|w: Seq<Vector3i>|
            #[trigger] is_walk(map@, start, target, Some(width as int / 2), w) && (2 * w.len() - 1) * (
            2 * w.len() - 1) < SEARCH_LIMIT ==> r is Some,
        r matches Some(path) ==> forall|w: Seq<Vector3i>| #[trigger]
            is_walk(map@, start, target, Some(width as int / 2), w) ==> path@.len() <= w.len(),
{
    search(map, start, target, Some(width), SEARCH_LIMIT)
}

/// A walk from `start` to `target` through cells that can be entered, or just
/// `[start]` when the search finds none. The search finds one whenever a walk of
/// `n` steps exists with `(2n + 1)²` below `SEARCH_LIMIT`, and what it finds is
/// never longer than any walk between the two.
pub fn find_walkable_path(map: &TileMap, start_position: Vector3i, target: Vector3i) -> (r: Vec<
    Vector3i,
>)
    requires
        search_fits(start_position, SEARCH_LIMIT as int, 0),
    ensures
        r@.len() >= 1,
        r@[0] == start_position,
        r@ == seq![start_position] || (r@.last() == target && is_route(map@, r@, None)),
        r@.no_duplicates(),
        forall|w: Seq<Vector3i>|
            #[trigger] is_walk(map@, start_position, target, None, w) && (2 * w.len() - 1) * (2 * w.len()
                - 1) < SEARCH_LIMIT ==> r@.last() == target && is_route(map@, r@, None),
        forall|w: Seq<Vector3i>| #[trigger]
            is_walk(map@, start_position, target, None, w) ==> r@.len() <= w.len(),
        forall|i: int|
            0 <= i < r@.len() ==> within_reach(start_position, #[trigger] r@[i], 141 * SEARCH_LIMIT),
{
    match a_star(map, start_position, target) {
        Some(path) => path,
        None => vec![start_position],
    }
}

/// A route from `start` to `target` that keeps a passage `width` cells wide clear
/// where it can, or just `[start]` when the search finds none. The search finds one
/// whenever a walk of `n` steps into open cells that keep the passage clear exists with
/// `(2n + 1)²` below `SEARCH_LIMIT`, and what it finds is never longer than such a walk.
pub fn find_path_with_width(
    map: &TileMap,
    start_position: Vector3i,
    target: Vector3i,
    width: usize,
) -> (r: Vec<Vector3i>)
    requires
        search_fits(start_position, SEARCH_LIMIT as int, width as int / 2),
    ensures
        r@.len() >= 1,
        r@[0] == start_position,
        r@ == seq![start_position] || (r@.last() == target && is_route(
            map@,
            r@,
            Some(width as int / 2),
        )),
        r@.no_duplicates(),
        forall|w: Seq<Vector3i>|
            #[trigger] is_walk(map@, start_position, target, Some(width as int / 2), w) && (2
                * w.len() - 1) * (2 * w.len() - 1) < SEARCH_LIMIT ==> r@.last() == target
                && is_route(map@, r@, Some(width as int / 2)),
        forall|w: Seq<Vector3i>| #[trigger]
            is_walk(map@, start_position, target, Some(width as int / 2), w) ==> r@.len() <= w.len(),
        forall|i: int|
            0 <= i < r@.len() ==> within_reach(start_position, #[trigger] r@[i], 141 * SEARCH_LIMIT),
{
    match a_star_with_width(map, start_position, target, width) {
        Some(path) => path,
        None => vec![start_position],
    }
}

/// A position well inside the grid, so that searches from it and climbs over it stay on it.
pub open spec fn interior(p: Vector3i) -> bool {
    &&& -0x7700_0000 <= p.x <= 0x7700_0000
    &&& -0x7700_0000 <= p.y <= 0x7700_0000
    &&& -0x7700_0000 <= p.z <= 0x7700_0000
}

/// Whether `p` stands well inside the grid.
pub fn is_interior(p: Vector3i) -> (b: bool)
    ensures
        b == interior(p),
{
    -0x7700_0000 <= p.x && p.x <= 0x7700_0000 && -0x7700_0000 <= p.y && p.y <= 0x7700_0000
        && -0x7700_0000 <= p.z && p.z <= 0x7700_0000
}

/// A position far enough inside the grid that its six neighbours are on it too.
pub open spec fn on_grid(p: Vector3i) -> bool {
    &&& -0x7FF0_0000 <= p.x <= 0x7FF0_0000
    &&& -0x7FF0_0000 <= p.y <= 0x7FF0_0000
    &&& -0x7FF0_0000 <= p.z <= 0x7FF0_0000
}

/// Every tile of the map stands well inside the grid.
pub open spec fn map_interior(m: Map<Vector3i, crate::map::Tile>) -> bool {
    forall|p: Vector3i| #[trigger] m.contains_key(p) ==> interior(p)
}

/// How far a level lies from level zero.
fn level(z: i32) -> (l: i64)
    ensures
        l == abs(z as int),
{
    if z < 0 {
        -(z as i64)
    } else {
        z as i64
    }
}

/// One when `p` holds a passable tile, zero otherwise.
pub open spec fn passable_at(m: Map<Vector3i, crate::map::Tile>, p: Vector3i) -> int {
    if m.contains_key(p) && m[p].passable {
        1
    } else {
        0
    }
}

/// How many of the first `i` positions of `s` hold a passable tile.
pub open spec fn passable_among(m: Map<Vector3i, crate::map::Tile>, s: Seq<Vector3i>, i: int) -> int
    decreases i,
{
    if i <= 0 {
        0
    } else {
        passable_among(m, s, i - 1) + passable_at(m, s[i - 1])
    }
}

/// How many of the four cardinal neighbours of `p` hold a passable tile.
pub open spec fn passable_neighbours(m: Map<Vector3i, crate::map::Tile>, p: Vector3i) -> int {
    passable_among(m, cardinal_neighbours_spec(p), 4)
}

/// How many of the cardinal neighbours of `p` hold a passable tile.
fn passable_neighbour_count(map: &TileMap, p: Vector3i) -> (c: usize)
    requires
        steps_fit(p),
    ensures
        c == passable_neighbours(map@, p),
{
    let neighbours = get_cardinal_neighbours(p);
    let mut count: usize = 0;
    let mut i: usize = 0;
    while i < neighbours.len()
        invariant
            0 <= i <= neighbours.len(),
            neighbours@ == cardinal_neighbours_spec(p),
            count == passable_among(map@, neighbours@, i as int),
            count <= i,
        decreases neighbours.len() - i,
    {
        if let Some(tile) = map.get(neighbours[i]) {
            if tile.passable {
                count = count + 1;
            }
        }
        i = i + 1;
    }
    count
}

/// The level `k` steps along a climb from level `z`, each step one level against
/// `direction`.
pub open spec fn climb_level(z: int, k: int, direction: int) -> int {
    if direction == 1 {
        z - k
    } else {
        z + k
    }
}

/// How many levels a climb from level `z` covers: it goes on while the level lies
/// no farther from level zero than `goal_level`.
pub open spec fn climb_length(z: int, goal_level: int, direction: int) -> int {
    if abs(z) > goal_level {
        0
    } else if direction == 1 {
        z + goal_level + 1
    } else {
        goal_level - z + 1
    }
}

/// The first `n` positions of a climb over `(x, y)` from level `z`.
pub open spec fn climb_seq(x: i32, y: i32, z: int, n: int, direction: int) -> Seq<Vector3i> {
    Seq::new(n as nat, |k: int| Vector3i::of(x as int, y as int, climb_level(z, k, direction)))
}

/// Every level of the wall at `wall` along a climb of `n` levels has fewer than four
/// passable neighbours.
pub open spec fn wall_holds(m: Map<Vector3i, crate::map::Tile>, wall: Vector3i, n: int, direction: int) -> bool {
    forall|k: int|
        0 <= k < n ==> #[trigger] passable_neighbours(
            m,
            Vector3i::of(wall.x as int, wall.y as int, climb_level(wall.z as int, k, direction)),
        ) < 4
}

/// Follows the wall at `wall` level by level, against `direction`, while the level
/// lies no farther from level zero than `goal_level`. The climb beside it, over
/// `beside`, when every level of the wall holds; `None` when one does not.
fn wall_climb_beside(map: &TileMap, beside: Vector3i, wall: Vector3i, goal_level: i64, direction: i32) -> (r:
    Option<Vec<Vector3i>>)
    requires
        interior(beside),
        interior(wall),
        0 <= goal_level <= 0x7700_0000,
        direction == 1 || direction == -1,
    ensures
        ({
            let n = climb_length(wall.z as int, goal_level as int, direction as int);
            match r {
                Some(w) => wall_holds(map@, wall, n, direction as int) && w@ == climb_seq(
                    beside.x,
                    beside.y,
                    wall.z as int,
                    n,
                    direction as int,
                ),
                None => !wall_holds(map@, wall, n, direction as int),
            }
        }),
{
    let ghost n = climb_length(wall.z as int, goal_level as int, direction as int);
    let mut test_wall_position = wall;
    let mut climb: Vec<Vector3i> = Vec::new();
    while goal_level - level(test_wall_position.z) >= 0
        invariant
            interior(beside),
            interior(wall),
            0 <= goal_level <= 0x7700_0000,
            direction == 1 || direction == -1,
            n == climb_length(wall.z as int, goal_level as int, direction as int),
            0 <= climb.len() <= n || n == 0 && climb.len() == 0,
            test_wall_position == Vector3i::of(
                wall.x as int,
                wall.y as int,
                climb_level(wall.z as int, climb.len() as int, direction as int),
            ),
            abs(test_wall_position.z as int) <= goal_level <==> climb.len() < n,
            climb@ == climb_seq(beside.x, beside.y, wall.z as int, climb.len() as int, direction as int),
            wall_holds(map@, wall, climb.len() as int, direction as int),
        decreases n - climb.len(),
    {
        let invalid_walls = passable_neighbour_count(map, test_wall_position);
        if invalid_walls < 4 {
            let ghost before = climb@;
            climb.push(Vector3i::new(beside.x, beside.y, test_wall_position.z));
            test_wall_position = Vector3i::new(
                test_wall_position.x,
                test_wall_position.y,
                test_wall_position.z - direction,
            );
            proof {
                assert(climb@ =~= climb_seq(
                    beside.x,
                    beside.y,
                    wall.z as int,
                    climb.len() as int,
                    direction as int,
                ));
            }
        } else {
            proof {
                let k = climb.len() as int;
                assert(Vector3i::of(wall.x as int, wall.y as int, climb_level(wall.z as int, k, direction as int))
                    == test_wall_position);
            }
            return None;
        }
    }
    Some(climb)
}

/// `climb` is the climb beside a wall next to `pos` that holds on every level from
/// its own down (or up) to `goal_level`.
pub open spec fn climbable_beside(
    m: Map<Vector3i, crate::map::Tile>,
    pos: Vector3i,
    climb: Seq<Vector3i>,
    goal_level: int,
    direction: int,
) -> bool {
    exists|i: int|
        0 <= i < 4 && {
            let wall = #[trigger] cardinal_neighbours_spec(pos)[i];
            let n = climb_length(wall.z as int, goal_level, direction);
            &&& m.contains_key(wall)
            &&& !m[wall].passable
            &&& wall_holds(m, wall, n, direction)
            &&& climb == climb_seq(pos.x, pos.y, wall.z as int, n, direction)
        }
}

/// The cardinal neighbour `i` of `pos` is an impassable tile that holds as a wall from
/// its level to `goal_level`.
pub open spec fn wall_beside(m: Map<Vector3i, crate::map::Tile>, pos: Vector3i, i: int, goal_level: int, direction: int) -> bool {
    let wall = cardinal_neighbours_spec(pos)[i];
    &&& m.contains_key(wall)
    &&& !m[wall].passable
    &&& wall_holds(m, wall, climb_length(wall.z as int, goal_level, direction), direction)
}

/// Some cardinal neighbour of `pos` is a wall that can be climbed to `goal_level`.
pub open spec fn climbable_from(m: Map<Vector3i, crate::map::Tile>, pos: Vector3i, goal_level: int, direction: int) -> bool {
    exists|i: int| 0 <= i < 4 && #[trigger] wall_beside(m, pos, i, goal_level, direction)
}

/// The tile at `c` is open: the map holds a passable tile there.
pub open spec fn open_cell(m: Map<Vector3i, crate::map::Tile>, c: Vector3i) -> bool {
    m.contains_key(c) && m[c].passable
}

/// Some cardinal neighbour of `c` is not open: fewer than four of them hold passable
/// tiles.
pub open spec fn has_closed_side(m: Map<Vector3i, crate::map::Tile>, c: Vector3i) -> bool {
    exists|j: int| 0 <= j < 4 && !open_cell(m, #[trigger] cardinal_neighbours_spec(c)[j])
}

/// `wall` is an impassable tile and, at every level a climb beside it towards
/// `goal_level` passes, fewer than four of the wall's cardinal neighbours hold
/// passable tiles.
pub open spec fn wall_with_a_closed_side(
    m: Map<Vector3i, crate::map::Tile>,
    wall: Vector3i,
    goal_level: int,
    direction: int,
) -> bool {
    &&& m.contains_key(wall)
    &&& !m[wall].passable
    &&& forall|k: int|
        0 <= k < climb_length(wall.z as int, goal_level, direction) ==> #[trigger] has_closed_side(
            m,
            Vector3i::of(wall.x as int, wall.y as int, climb_level(wall.z as int, k, direction)),
        )
}

/// A position with fewer than four passable tiles around it has at most three
/// passable neighbours.
proof fn lemma_closed_side_counts(m: Map<Vector3i, crate::map::Tile>, p: Vector3i, j: int)
    requires
        0 <= j < 4,
        !open_cell(m, cardinal_neighbours_spec(p)[j]),
    ensures
        passable_neighbours(m, p) <= 3,
{
    let nb = cardinal_neighbours_spec(p);
    reveal_with_fuel(passable_among, 5);
    assert(passable_at(m, nb[j]) == 0);
    assert(0 <= passable_at(m, nb[0]) <= 1);
    assert(0 <= passable_at(m, nb[1]) <= 1);
    assert(0 <= passable_at(m, nb[2]) <= 1);
    assert(0 <= passable_at(m, nb[3]) <= 1);
}

/// A wall climbs beside `pos` whenever one of its cardinal neighbours is an impassable
/// tile with, at every level of the climb, fewer than four passable tiles around it.
pub proof fn lemma_walls_with_a_closed_side_climb(
    m: Map<Vector3i, crate::map::Tile>,
    pos: Vector3i,
    i: int,
    goal_level: int,
    direction: int,
)
    requires
        0 <= i < 4,
        wall_with_a_closed_side(m, cardinal_neighbours_spec(pos)[i], goal_level, direction),
    ensures
        climbable_from(m, pos, goal_level, direction),
{
    let wall = cardinal_neighbours_spec(pos)[i];
    let n = climb_length(wall.z as int, goal_level, direction);
    assert forall|k: int| 0 <= k < n implies #[trigger] passable_neighbours(
        m,
        Vector3i::of(wall.x as int, wall.y as int, climb_level(wall.z as int, k, direction)),
    ) < 4 by {
        let c = Vector3i::of(wall.x as int, wall.y as int, climb_level(wall.z as int, k, direction));
        assert(has_closed_side(m, c));
        let j = choose|j: int| 0 <= j < 4 && !open_cell(m, #[trigger] cardinal_neighbours_spec(c)[j]);
        lemma_closed_side_counts(m, c, j);
    }
    assert(wall_beside(m, pos, i, goal_level, direction));
}

/// Every climb the routes use runs beside an impassable tile that, at each level of the
/// climb, has fewer than four passable tiles around it.
pub proof fn lemma_climbs_need_a_closed_side(
    m: Map<Vector3i, crate::map::Tile>,
    pos: Vector3i,
    climb: Seq<Vector3i>,
    goal_level: int,
    direction: int,
)
    requires
        climbable_beside(m, pos, climb, goal_level, direction),
    ensures
        exists|i: int| 0 <= i < 4 && #[trigger] wall_with_a_closed_side(m, cardinal_neighbours_spec(pos)[i], goal_level, direction),
{
    let i = choose|i: int|
        0 <= i < 4 && {
            let wall = #[trigger] cardinal_neighbours_spec(pos)[i];
            let n = climb_length(wall.z as int, goal_level, direction);
            &&& m.contains_key(wall)
            &&& !m[wall].passable
            &&& wall_holds(m, wall, n, direction)
            &&& climb == climb_seq(pos.x, pos.y, wall.z as int, n, direction)
        };
    let wall = cardinal_neighbours_spec(pos)[i];
    let n = climb_length(wall.z as int, goal_level, direction);
    assert forall|k: int| 0 <= k < n implies #[trigger] has_closed_side(
        m,
        Vector3i::of(wall.x as int, wall.y as int, climb_level(wall.z as int, k, direction)),
    ) by {
        let c = Vector3i::of(wall.x as int, wall.y as int, climb_level(wall.z as int, k, direction));
        assert(passable_neighbours(m, c) < 4);
        let nb = cardinal_neighbours_spec(c);
        reveal_with_fuel(passable_among, 5);
        if open_cell(m, nb[0]) && open_cell(m, nb[1]) && open_cell(m, nb[2]) {
            assert(passable_at(m, nb[0]) == 1 && passable_at(m, nb[1]) == 1 && passable_at(m, nb[2]) == 1);
            assert(!open_cell(m, nb[3]));
        } else if open_cell(m, nb[0]) && open_cell(m, nb[1]) {
            assert(!open_cell(m, nb[2]));
        } else if open_cell(m, nb[0]) {
            assert(!open_cell(m, nb[1]));
        } else {
            assert(!open_cell(m, nb[0]));
        }
    }
    assert(wall_with_a_closed_side(m, cardinal_neighbours_spec(pos)[i], goal_level, direction));
}

/// `w` walks from `start` in cardinal steps on one level, every position after the
/// first holding a passable tile.
pub open spec fn floor_walk(m: Map<Vector3i, crate::map::Tile>, start: Vector3i, w: Seq<Vector3i>) -> bool {
    &&& w.len() >= 1
    &&& w[0] == start
    &&& forall|k: int| 0 <= k < w.len() - 1 ==> cardinal_neighbours_spec(#[trigger] w[k]).contains(w[k + 1])
    &&& forall|k: int| 1 <= k < w.len() ==> passable_at(m, #[trigger] w[k]) == 1
}

/// `open` holds an entry for `p`.
pub open spec fn pending(open: Seq<(i128, Vector3i)>, p: Vector3i) -> bool {
    exists|j: int| 0 <= j < open.len() && (#[trigger] open[j]).1 == p
}

/// A walk from `start` never leaves a set that holds `start` and every passable
/// cardinal neighbour of its members.
proof fn lemma_walk_stays_in(m: Map<Vector3i, crate::map::Tile>, start: Vector3i, w: Seq<Vector3i>, c: Set<Vector3i>)
    requires
        floor_walk(m, start, w),
        c.contains(start),
        forall|x: Vector3i, n: Vector3i|
            #[trigger] c.contains(x) && #[trigger] cardinal_neighbours_spec(x).contains(n) && passable_at(m, n)
                == 1 ==> c.contains(n),
    ensures
        c.contains(w.last()),
    decreases w.len(),
{
    if w.len() > 1 {
        let v = w.drop_last();
        assert forall|k: int| 0 <= k < v.len() - 1 implies cardinal_neighbours_spec(#[trigger] v[k]).contains(
            v[k + 1],
        ) by {
            assert(v[k] == w[k] && v[k + 1] == w[k + 1]);
            assert(cardinal_neighbours_spec(w[k]).contains(w[k + 1]));
        }
        assert forall|k: int| 1 <= k < v.len() implies passable_at(m, #[trigger] v[k]) == 1 by {
            assert(v[k] == w[k]);
        }
        lemma_walk_stays_in(m, start, v, c);
        let k = w.len() - 2;
        assert(v.last() == w[k]);
        assert(cardinal_neighbours_spec(w[k]).contains(w[k + 1]));
        assert(passable_at(m, w[k + 1]) == 1);
    }
}

/// The largest distance one step of the wall search adds.
pub const FAR_STEP: i128 = 0x4_0000_0001;

/// Searches outwards from `start` through passable tiles, the positions nearest
/// `goal` first, for a position beside a wall that holds from its level to the level
/// of `goal`. Gives that position and the climb beside the wall; gives one whenever a
/// walk from `start` through passable tiles reaches such a position, and the start
/// itself when it stands beside such a wall.
fn find_climbable_wall(map: &TileMap, start: Vector3i, goal: Vector3i, direction: i32) -> (r: Option<
    (Vector3i, Vec<Vector3i>),
>)
    requires
        map_interior(map@),
        interior(start),
        interior(goal),
        direction == 1 || direction == -1,
    ensures
        r matches Some((pos, climb)) ==> {
            &&& interior(pos)
            &&& pos == start || passable_at(map@, pos) == 1
            &&& climbable_beside(map@, pos, climb@, abs(goal.z as int), direction as int)
        },
        climbable_from(map@, start, abs(goal.z as int), direction as int) ==> (r matches Some((pos, _))
            && pos == start),
        forall|w: Seq<Vector3i>|
            #[trigger] floor_walk(map@, start, w) && climbable_from(
                map@,
                w.last(),
                abs(goal.z as int),
                direction as int,
            ) ==> r is Some,
{
    let tile_count = map.len();
    let goal_level = level(goal.z);
    let mut unchecked_tiles: Vec<(i128, Vector3i)> = Vec::new();
    let mut checked_tiles: PositionMap<bool> = PositionMap::new();
    unchecked_tiles.push((0, start));
    let ghost mut count: int = 0;
    let ghost bound: int = 4 * (tile_count + 1) + 1;
    let ghost floor = map@.dom().insert(start);
    proof {
        assert(floor.finite());
        assert(floor.len() <= tile_count + 1);
    }
    while unchecked_tiles.len() > 0
        invariant
            map_interior(map@),
            interior(start),
            interior(goal),
            direction == 1 || direction == -1,
            goal_level == abs(goal.z as int),
            tile_count == map@.dom().len(),
            map@.dom().finite(),
            tile_count <= usize::MAX,
            bound == 4 * (tile_count + 1) + 1,
            floor == map@.dom().insert(start),
            floor.finite(),
            floor.len() <= tile_count + 1,
            0 <= count,
            checked_tiles@.dom().subset_of(floor),
            forall|c: Vector3i| #[trigger] checked_tiles@.contains_key(c) ==> c == start || passable_at(map@, c) == 1,
            forall|c: Vector3i|
                #[trigger] checked_tiles@.contains_key(c) ==> !climbable_from(
                    map@,
                    c,
                    goal_level as int,
                    direction as int,
                ),
            forall|c: Vector3i, n: Vector3i|
                #[trigger] checked_tiles@.contains_key(c) && #[trigger] cardinal_neighbours_spec(c).contains(n)
                    && passable_at(map@, n) == 1 ==> checked_tiles@.contains_key(n) || pending(unchecked_tiles@, n),
            unchecked_tiles@.len() + count <= 1 + 4 * checked_tiles@.dom().len(),
            forall|j: int|
                0 <= j < unchecked_tiles@.len() ==> {
                    let e = #[trigger] unchecked_tiles@[j];
                    &&& interior(e.1)
                    &&& e.1 == start || passable_at(map@, e.1) == 1
                    &&& 0 <= e.0 <= checked_tiles@.dom().len() * FAR_STEP
                },
            count == 0 ==> unchecked_tiles@ == seq![(0i128, start)] && checked_tiles@ == Map::<Vector3i, bool>::empty(),
            count >= 1 ==> checked_tiles@.contains_key(start),
        decreases bound - count,
    {
        proof {
            vstd::set_lib::lemma_len_subset(checked_tiles@.dom(), floor);
        }
        let ghost first = count == 0;
        let ghost before = unchecked_tiles@;
        let (distance, test_position) = pop_first_far(&mut unchecked_tiles);
        proof {
            count = count + 1;
            let i = choose|i: int|
                0 <= i < before.len() && before[i] == (distance, test_position) && unchecked_tiles@
                    == before.remove(i);
            assert(before[i] == (distance, test_position));
            assert forall|n: Vector3i| pending(before, n) && n != test_position implies pending(unchecked_tiles@, n) by {
                let j = choose|j: int| 0 <= j < before.len() && (#[trigger] before[j]).1 == n;
                if j < i {
                    assert(unchecked_tiles@[j] == before[j]);
                } else {
                    assert(j != i);
                    assert(unchecked_tiles@[j - 1] == before[j]);
                }
            }
            assert forall|j: int| 0 <= j < unchecked_tiles@.len() implies before.contains(#[trigger] unchecked_tiles@[j]) by {
                if j < i {
                    assert(unchecked_tiles@[j] == before[j]);
                } else {
                    assert(unchecked_tiles@[j] == before[j + 1]);
                }
            }
            if first {
                assert(test_position == start);
            }
        }
        if !checked_tiles.contains(test_position) {
            let ghost checked_before = checked_tiles@;
            checked_tiles.insert(test_position, true);
            proof {
                assert(checked_tiles@.dom() == checked_before.dom().insert(test_position));
                vstd::set_lib::lemma_len_subset(checked_tiles@.dom(), floor);
            }
            let neighbours = get_cardinal_neighbours(test_position);
            let mut i: usize = 0;
            while i < neighbours.len()
                invariant
                    map_interior(map@),
                    interior(start),
                    interior(goal),
                    interior(test_position),
                    test_position == start || passable_at(map@, test_position) == 1,
                    direction == 1 || direction == -1,
                    goal_level == abs(goal.z as int),
                    tile_count == map@.dom().len(),
                    map@.dom().finite(),
                    tile_count <= usize::MAX,
                    bound == 4 * (tile_count + 1) + 1,
                    floor == map@.dom().insert(start),
                    floor.finite(),
                    floor.len() <= tile_count + 1,
                    1 <= count,
                    neighbours@ == cardinal_neighbours_spec(test_position),
                    0 <= i <= neighbours.len(),
                    checked_tiles@.contains_key(test_position),
                    checked_tiles@.dom().subset_of(floor),
                    checked_tiles@.dom().finite(),
                    checked_tiles@.dom().len() <= floor.len(),
                    0 <= distance <= (checked_tiles@.dom().len() - 1) * FAR_STEP,
                    forall|c: Vector3i| #[trigger] checked_tiles@.contains_key(c) ==> c == start || passable_at(map@, c) == 1,
                    forall|c: Vector3i|
                        #[trigger] checked_tiles@.contains_key(c) && c != test_position ==> !climbable_from(
                            map@,
                            c,
                            goal_level as int,
                            direction as int,
                        ),
                    forall|j: int|
                        0 <= j < i ==> !#[trigger] wall_beside(map@, test_position, j, goal_level as int, direction as int),
                    forall|c: Vector3i, n: Vector3i|
                        #[trigger] checked_tiles@.contains_key(c) && #[trigger] cardinal_neighbours_spec(c).contains(n)
                            && passable_at(map@, n) == 1 && c != test_position ==> checked_tiles@.contains_key(n)
                            || pending(unchecked_tiles@, n),
                    forall|j: int|
                        0 <= j < i && passable_at(map@, #[trigger] cardinal_neighbours_spec(test_position)[j]) == 1
                            ==> checked_tiles@.contains_key(cardinal_neighbours_spec(test_position)[j]) || pending(
                            unchecked_tiles@,
                            cardinal_neighbours_spec(test_position)[j],
                        ),
                    unchecked_tiles@.len() + count <= 1 + 4 * (checked_tiles@.dom().len() - 1) + i,
                    count >= 1 ==> checked_tiles@.contains_key(start),
                    forall|j: int|
                        0 <= j < unchecked_tiles@.len() ==> {
                            let e = #[trigger] unchecked_tiles@[j];
                            &&& interior(e.1)
                            &&& e.1 == start || passable_at(map@, e.1) == 1
                            &&& 0 <= e.0 <= checked_tiles@.dom().len() * FAR_STEP
                        },
                decreases neighbours.len() - i,
            {
                let neighbour = neighbours[i];
                proof {
                    assert(cardinal_neighbours_spec(test_position)[i as int] == neighbour);
                }
                if let Some(neighbour_tile) = map.get(neighbour) {
                    if !neighbour_tile.passable {
                        if let Some(climb) = wall_climb_beside(
                            map,
                            test_position,
                            neighbour,
                            goal_level,
                            direction,
                        ) {
                            return Some((test_position, climb));
                        }
                    } else {
                        let d = goal.distance_to_int(neighbour);
                        let new_distance = distance + 1 + d as i128;
                        let ghost open_before = unchecked_tiles@;
                        unchecked_tiles.push((new_distance, neighbour));
                        proof {
                            assert(unchecked_tiles@[open_before.len() as int].1 == neighbour);
                            assert forall|n: Vector3i| pending(open_before, n) implies pending(unchecked_tiles@, n) by {
                                let j = choose|j: int| 0 <= j < open_before.len() && (#[trigger] open_before[j]).1 == n;
                                assert(unchecked_tiles@[j] == open_before[j]);
                            }
                        }
                    }
                }
                i = i + 1;
            }
            proof {
                assert(!climbable_from(map@, test_position, goal_level as int, direction as int)) by {
                    if climbable_from(map@, test_position, goal_level as int, direction as int) {
                        let j = choose|j: int| 0 <= j < 4 && #[trigger] wall_beside(map@, test_position, j, goal_level as int, direction as int);
                        assert(!wall_beside(map@, test_position, j, goal_level as int, direction as int));
                    }
                }
                assert forall|n: Vector3i|
                    #[trigger] cardinal_neighbours_spec(test_position).contains(n) && passable_at(map@, n) == 1 implies checked_tiles@.contains_key(n)
                        || pending(unchecked_tiles@, n) by {
                    let j = choose|j: int| 0 <= j < 4 && cardinal_neighbours_spec(test_position)[j] == n;
                }
            }
        } else {
            proof {
                assert forall|c: Vector3i, n: Vector3i|
                    #[trigger] checked_tiles@.contains_key(c) && #[trigger] cardinal_neighbours_spec(c).contains(n)
                        && passable_at(map@, n) == 1 implies checked_tiles@.contains_key(n) || pending(unchecked_tiles@, n) by {
                    if !checked_tiles@.contains_key(n) {
                        assert(pending(before, n));
                        assert(n != test_position);
                    }
                }
            }
        }
    }
    proof {
        let c = checked_tiles@.dom();
        assert forall|x: Vector3i, n: Vector3i|
            #[trigger] c.contains(x) && #[trigger] cardinal_neighbours_spec(x).contains(n) && passable_at(map@, n) == 1 implies c.contains(n) by {
            assert(checked_tiles@.contains_key(x));
            if !checked_tiles@.contains_key(n) {
                assert(pending(unchecked_tiles@, n));
                let j = choose|j: int| 0 <= j < unchecked_tiles@.len() && (#[trigger] unchecked_tiles@[j]).1 == n;
            }
        }
        assert forall|w: Seq<Vector3i>|
            #[trigger] floor_walk(map@, start, w) implies !climbable_from(
                map@,
                w.last(),
                abs(goal.z as int),
                direction as int,
            ) by {
            lemma_walk_stays_in(map@, start, w, c);
            assert(checked_tiles@.contains_key(w.last()));
        }
        assert(!climbable_from(map@, start, abs(goal.z as int), direction as int)) by {
            assert(checked_tiles@.contains_key(start));
        }
    }
    None
}

/// `a`, `w` and `b` make a route that climbs beside a wall next to `pos`, from
/// `start_position` to `target`, or the other way round when `roof_preferred`: `a`
/// walks from the first end to `pos` (or is empty), `w` is the climb towards the level
/// of the far end, and `b` walks on from the top of the climb to the far end (or is
/// empty). Each walk is no longer than any walk between its ends, and is missing only
/// when no walk of `n` steps with `(2n + 1)²` below `SEARCH_LIMIT` joins them.
pub open spec fn climb_route(
    m: Map<Vector3i, crate::map::Tile>,
    start_position: Vector3i,
    target: Vector3i,
    roof_preferred: bool,
    pos: Vector3i,
    a: Seq<Vector3i>,
    w: Seq<Vector3i>,
    b: Seq<Vector3i>,
) -> bool {
    let s = if roof_preferred {
        target
    } else {
        start_position
    };
    let t = if roof_preferred {
        start_position
    } else {
        target
    };
    let direction = if s.z > t.z {
        1int
    } else {
        -1int
    };
    &&& climbable_beside(m, pos, w, abs(t.z as int), direction)
    &&& a.len() == 0 || (a[0] == s && a.last() == pos && is_route(m, a, None))
    &&& b.len() == 0 || (w.len() > 0 && b.last() == t && is_route(m, seq![w.last()] + b, None))
    &&& forall|walk: Seq<Vector3i>| #[trigger]
        is_walk(m, s, pos, None, walk) ==> a.len() <= walk.len() && (a.len() == 0 ==> (2
            * walk.len() - 1) * (2 * walk.len() - 1) >= SEARCH_LIMIT)
    &&& w.len() > 0 ==> forall|walk: Seq<Vector3i>| #[trigger]
        is_walk(m, w.last(), t, None, walk) ==> b.len() + 1 <= walk.len() && (b.len() == 0
            && w.last() != t ==> (2 * walk.len() - 1) * (2 * walk.len() - 1) >= SEARCH_LIMIT)
    &&& forall|i: int| 0 <= i < (a + w + b).len() ==> on_grid(#[trigger] (a + w + b)[i])
}

/// The end a wall climb starts from: the target when the roof is preferred.
pub open spec fn first_end(start_position: Vector3i, target: Vector3i, roof_preferred: bool) -> Vector3i {
    if roof_preferred {
        target
    } else {
        start_position
    }
}

/// The end a wall climb leads to.
pub open spec fn far_end(start_position: Vector3i, target: Vector3i, roof_preferred: bool) -> Vector3i {
    if roof_preferred {
        start_position
    } else {
        target
    }
}

/// Which way a wall climb runs: 1 when it climbs down, -1 when it climbs up.
pub open spec fn climb_direction(start_position: Vector3i, target: Vector3i, roof_preferred: bool) -> int {
    if first_end(start_position, target, roof_preferred).z > far_end(start_position, target, roof_preferred).z {
        1
    } else {
        -1
    }
}

/// A route that climbs a wall between two levels. From the end nearest the roof
/// when `roof_preferred`, it searches outwards, nearest the far end first, for a
/// position beside a wall that reaches the level of the far end; walks there, climbs
/// beside the wall and walks on to the far end. Each walk is left out when no walk is
/// found; the whole route is empty when no such wall is found. A route is found
/// whenever a walk through passable tiles leads from the first end to a position
/// beside such a wall; when the first end itself stands beside one, the climb starts
/// right there.
#[verifier::rlimit(40)]
pub fn wall_climb_path(map: &TileMap, start_position: Vector3i, target: Vector3i, roof_preferred: bool) -> (r: Vec<
    Vector3i,
>)
    requires
        map_interior(map@),
        interior(start_position),
        interior(target),
    ensures
        r@.len() == 0 || exists|pos: Vector3i, a: Seq<Vector3i>, w: Seq<Vector3i>, b: Seq<Vector3i>|
            #[trigger] climb_route(map@, start_position, target, roof_preferred, pos, a, w, b) && r@
                == a + w + b,
        climbable_from(
            map@,
            first_end(start_position, target, roof_preferred),
            abs(far_end(start_position, target, roof_preferred).z as int),
            climb_direction(start_position, target, roof_preferred),
        ) ==> exists|a: Seq<Vector3i>, w: Seq<Vector3i>, b: Seq<Vector3i>|
            #[trigger] climb_route(
                map@,
                start_position,
                target,
                roof_preferred,
                first_end(start_position, target, roof_preferred),
                a,
                w,
                b,
            ) && r@ == a + w + b,
        forall|walk: Seq<Vector3i>|
            #[trigger] floor_walk(map@, first_end(start_position, target, roof_preferred), walk) && climbable_from(
                map@,
                walk.last(),
                abs(far_end(start_position, target, roof_preferred).z as int),
                climb_direction(start_position, target, roof_preferred),
            ) ==> exists|pos: Vector3i, a: Seq<Vector3i>, w: Seq<Vector3i>, b: Seq<Vector3i>|
                #[trigger] climb_route(map@, start_position, target, roof_preferred, pos, a, w, b) && r@
                    == a + w + b,
        forall|i: int|
            0 <= i < 4 && #[trigger] wall_with_a_closed_side(
                map@,
                cardinal_neighbours_spec(first_end(start_position, target, roof_preferred))[i],
                abs(far_end(start_position, target, roof_preferred).z as int),
                climb_direction(start_position, target, roof_preferred),
            ) ==> exists|a: Seq<Vector3i>, w: Seq<Vector3i>, b: Seq<Vector3i>|
                #[trigger] climb_route(
                    map@,
                    start_position,
                    target,
                    roof_preferred,
                    first_end(start_position, target, roof_preferred),
                    a,
                    w,
                    b,
                ) && r@ == a + w + b,
{
    let (start, goal) = if roof_preferred {
        (target, start_position)
    } else {
        (start_position, target)
    };
    let direction: i32 = if start.z > goal.z {
        1
    } else {
        -1
    };
    let mut path: Vec<Vector3i> = Vec::new();
    proof {
        assert forall|i: int|
            0 <= i < 4 && #[trigger] wall_with_a_closed_side(
                map@,
                cardinal_neighbours_spec(start)[i],
                abs(goal.z as int),
                direction as int,
            ) implies climbable_from(map@, start, abs(goal.z as int), direction as int) by {
            lemma_walls_with_a_closed_side_climb(map@, start, i, abs(goal.z as int), direction as int);
        }
    }
    if let Some((wall_position, wall_climb)) = find_climbable_wall(map, start, goal, direction) {
        let ghost mut a: Seq<Vector3i> = Seq::empty();
        let ghost mut b: Seq<Vector3i> = Seq::empty();
        if let Some(path_to_wall) = a_star(map, start, wall_position) {
            path = path_to_wall;
            proof {
                a = path@;
                assert forall|i: int| 0 <= i < a.len() implies on_grid(#[trigger] a[i]) by {
                    assert(within_reach(start, a[i], 141 * SEARCH_LIMIT));
                }
            }
        }
        proof {
            lemma_climb_interior(map@, wall_position, wall_climb@, abs(goal.z as int), direction as int);
        }
        let wall_end_position = if wall_climb.len() > 0 {
            Some(wall_climb[wall_climb.len() - 1])
        } else {
            None
        };
        append_all(&mut path, &wall_climb);
        if let Some(wall_end_position) = wall_end_position {
            proof {
                lemma_climb_end_interior(map@, wall_position, wall_climb@, abs(goal.z as int), direction as int);
            }
            if let Some(mut path_to_target) = a_star(map, wall_end_position, goal) {
                let ghost full = path_to_target@;
                path_to_target.remove(0);
                proof {
                    b = path_to_target@;
                    assert(full =~= seq![wall_end_position] + b);
                    assert forall|i: int| 0 <= i < b.len() implies on_grid(#[trigger] b[i]) by {
                        assert(b[i] == full[i + 1]);
                        assert(within_reach(wall_end_position, full[i + 1], 141 * SEARCH_LIMIT));
                    }
                }
                append_all(&mut path, &path_to_target);
            }
        }
        proof {
            assert(path@ == a + wall_climb@ + b);
            assert forall|i: int| 0 <= i < (a + wall_climb@ + b).len() implies on_grid(
                #[trigger] (a + wall_climb@ + b)[i],
            ) by {
                if i < a.len() {
                    assert((a + wall_climb@ + b)[i] == a[i]);
                } else if i < a.len() + wall_climb@.len() {
                    assert((a + wall_climb@ + b)[i] == wall_climb@[i - a.len()]);
                } else {
                    assert((a + wall_climb@ + b)[i] == b[i - a.len() - wall_climb@.len()]);
                }
            }
            assert(climb_route(map@, start_position, target, roof_preferred, wall_position, a, wall_climb@, b));
            if climbable_from(map@, start, abs(goal.z as int), direction as int) {
                assert(wall_position == start);
                assert(climb_route(map@, start_position, target, roof_preferred, start, a, wall_climb@, b));
            }
        }
    } else {
        assert(!climbable_from(map@, start, abs(goal.z as int), direction as int));
        assert forall|walk: Seq<Vector3i>| #[trigger] floor_walk(map@, start, walk) implies !climbable_from(
            map@,
            walk.last(),
            abs(goal.z as int),
            direction as int,
        ) by {}
    }
    path
}

/// Puts the items of `tail` at the end of `v`, in order.
pub(crate) fn append_all(v: &mut Vec<Vector3i>, tail: &Vec<Vector3i>)
    ensures
        final(v)@ == old(v)@ + tail@,
{
    let ghost base = v@;
    let mut j: usize = 0;
    while j < tail.len()
        invariant
            0 <= j <= tail.len(),
            v@ == base + tail@.subrange(0, j as int),
        decreases tail.len() - j,
    {
        v.push(tail[j]);
        proof {
            assert(base + tail@.subrange(0, j + 1) =~= (base + tail@.subrange(0, j as int)).push(
                tail@[j as int],
            ));
        }
        j = j + 1;
    }
    assert(tail@.subrange(0, tail@.len() as int) =~= tail@);
}

/// The last position of a climb beside a wall next to an interior position stands
/// well inside the grid too.
proof fn lemma_climb_end_interior(
    m: Map<Vector3i, crate::map::Tile>,
    pos: Vector3i,
    climb: Seq<Vector3i>,
    goal_level: int,
    direction: int,
)
    requires
        interior(pos),
        climb.len() > 0,
        0 <= goal_level <= 0x7700_0000,
        climbable_beside(m, pos, climb, goal_level, direction),
    ensures
        interior(climb.last()),
{
    let i = choose|i: int|
        0 <= i < 4 && {
            let wall = #[trigger] cardinal_neighbours_spec(pos)[i];
            let n = climb_length(wall.z as int, goal_level, direction);
            &&& m.contains_key(wall)
            &&& !m[wall].passable
            &&& wall_holds(m, wall, n, direction)
            &&& climb == climb_seq(pos.x, pos.y, wall.z as int, n, direction)
        };
    let wall = cardinal_neighbours_spec(pos)[i];
    let n = climb_length(wall.z as int, goal_level, direction);
    assert(climb.last() == climb[n - 1]);
}

/// Every position of a climb beside a wall next to an interior position stands well
/// inside the grid.
proof fn lemma_climb_interior(
    m: Map<Vector3i, crate::map::Tile>,
    pos: Vector3i,
    climb: Seq<Vector3i>,
    goal_level: int,
    direction: int,
)
    requires
        interior(pos),
        0 <= goal_level <= 0x7700_0000,
        climbable_beside(m, pos, climb, goal_level, direction),
    ensures
        forall|i: int| 0 <= i < climb.len() ==> interior(#[trigger] climb[i]) && on_grid(climb[i]),
{
    let i = choose|i: int|
        0 <= i < 4 && {
            let wall = #[trigger] cardinal_neighbours_spec(pos)[i];
            let n = climb_length(wall.z as int, goal_level, direction);
            &&& m.contains_key(wall)
            &&& !m[wall].passable
            &&& wall_holds(m, wall, n, direction)
            &&& climb == climb_seq(pos.x, pos.y, wall.z as int, n, direction)
        };
    let wall = cardinal_neighbours_spec(pos)[i];
    let n = climb_length(wall.z as int, goal_level, direction);
    assert forall|k: int| 0 <= k < climb.len() implies interior(#[trigger] climb[k]) && on_grid(climb[k]) by {
        assert(climb[k] == Vector3i::of(pos.x as int, pos.y as int, climb_level(wall.z as int, k, direction)));
    }
}

} // verus!
