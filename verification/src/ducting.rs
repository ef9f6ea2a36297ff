use vstd::prelude::*;

use crate::entities::components::{first_index_of, lemma_first_index_of, remove_first, Direction};
use crate::spawner::{duct_closes, duct_direction, duct_glyph, duct_section, update_duct_char};
use crate::map::pathfinding::{interior, map_interior, on_grid, wall_climb_path, find_walkable_path};
use crate::map::TileMap;
use crate::vectors::utils::{cardinal_neighbours_with_z_spec, get_cardinal_neighbours_with_z, steps_fit};
use crate::vectors::{signum, Vector3i};
use crate::wiring::{lemma_route_on_grid, step_between, unit_step, wiring_route};

verus! {

/// A section of ducting laid on the ship: where it lies, the way it runs, the sides
/// it closes (to movement and to sight alike), and the glyph it is drawn with.
pub struct DuctSection {
    pub position: Vector3i,
    pub direction: Direction,
    pub sides: Vec<Direction>,
    pub glyph: char,
}

/// A duct section as plain values: position, direction, closed sides, glyph.
pub type DuctView = (Vector3i, Direction, Set<Direction>, char);

/// The plain values of a duct section.
pub open spec fn duct_view(d: DuctSection) -> DuctView {
    (d.position, d.direction, d.sides@.to_set(), d.glyph)
}

/// The plain values of each duct section of `s`, in order.
pub open spec fn ducts_view(s: Seq<DuctSection>) -> Seq<DuctView> {
    s.map_values(|d: DuctSection| duct_view(d))
}

/// Every section of `s` names each of its closed sides once.
pub open spec fn sides_distinct(s: Seq<DuctSection>) -> bool {
    forall|i: int| 0 <= i < s.len() ==> (#[trigger] s[i]).sides@.no_duplicates()
}

/// The glyph of a duct section closing the sides `sides`.
pub open spec fn glyph_of(sides: Set<Direction>) -> char {
    duct_glyph(
        sides.contains(Direction::N),
        sides.contains(Direction::S),
        sides.contains(Direction::E),
        sides.contains(Direction::W),
    )
}

/// Takes `d` out of the sides of `sides`, which name each side once.
fn open_side(sides: &mut Vec<Direction>, d: Direction)
    requires
        old(sides)@.no_duplicates(),
    ensures
        final(sides)@.no_duplicates(),
        final(sides)@.to_set() == old(sides)@.to_set().remove(d),
{
    let ghost s = sides@;
    proof {
        lemma_first_index_of(s, d);
    }
    remove_first(sides, d);
    proof {
        let i = first_index_of(s, d);
        if i >= 0 {
            let r = s.remove(i);
            assert forall|x: Direction| #[trigger] r.contains(x) <==> (s.contains(x) && x != d) by {
                if r.contains(x) {
                    let j = choose|j: int| 0 <= j < r.len() && r[j] == x;
                    if j < i {
                        assert(s[j] == x);
                        assert(j != i);
                    } else {
                        assert(s[j + 1] == x);
                        assert(j + 1 != i);
                    }
                }
                if s.contains(x) && x != d {
                    let j = choose|j: int| 0 <= j < s.len() && s[j] == x;
                    assert(j != i);
                    if j < i {
                        assert(r[j] == x);
                    } else {
                        assert(r[j - 1] == x);
                    }
                }
            }
            assert(r.to_set() =~= s.to_set().remove(d));
            assert forall|a: int, b: int| 0 <= a < b < r.len() implies r[a] != r[b] by {
                let a2 = if a < i {
                    a
                } else {
                    a + 1
                };
                let b2 = if b < i {
                    b
                } else {
                    b + 1
                };
                assert(s[a2] != s[b2]);
            }
        } else {
            assert(s.to_set() =~= s.to_set().remove(d));
        }
    }
}

/// A copy of `sides`.
fn copy_sides(sides: &Vec<Direction>) -> (r: Vec<Direction>)
    ensures
        r@ == sides@,
{
    let mut r: Vec<Direction> = Vec::new();
    let mut i: usize = 0;
    while i < sides.len()
        invariant
            0 <= i <= sides.len(),
            r@ == sides@.subrange(0, i as int),
        decreases sides.len() - i,
    {
        r.push(sides[i]);
        proof {
            assert(sides@.subrange(0, i + 1) =~= sides@.subrange(0, i as int).push(sides@[i as int]));
        }
        i = i + 1;
    }
    proof {
        assert(sides@.subrange(0, sides@.len() as int) =~= sides@);
    }
    r
}

/// How a new section at `p` running `dir`, closing `sides`, joins the duct `d` next to
/// it: a crossing duct opens its side towards the new one and the new one opens its
/// side towards it; a duct running up opens its top and the new one its bottom, a duct
/// running down the other way round. The joined duct is drawn anew.
pub open spec fn join_one(d: DuctView, p: Vector3i, dir: Direction, sides: Set<Direction>) -> (DuctView, Set<Direction>) {
    let rel_x = signum(d.0.x - p.x);
    let rel_y = signum(d.0.y - p.y);
    let across = if (dir == Direction::N || dir == Direction::S) && (d.1 == Direction::E || d.1
        == Direction::W) {
        if rel_x == 0 && rel_y == -1 {
            (sides.remove(Direction::N), d.2.remove(Direction::S))
        } else {
            (sides.remove(Direction::S), d.2.remove(Direction::N))
        }
    } else if (dir == Direction::E || dir == Direction::W) && (d.1 == Direction::N || d.1
        == Direction::S) {
        if rel_x == 1 && rel_y == 0 {
            (sides.remove(Direction::E), d.2.remove(Direction::W))
        } else {
            (sides.remove(Direction::W), d.2.remove(Direction::E))
        }
    } else {
        (sides, d.2)
    };
    let vertical = if d.1 == Direction::UP {
        (across.0.remove(Direction::DOWN), across.1.remove(Direction::UP))
    } else if d.1 == Direction::DOWN {
        (across.0.remove(Direction::UP), across.1.remove(Direction::DOWN))
    } else {
        across
    };
    ((d.0, d.1, vertical.1, glyph_of(vertical.1)), vertical.0)
}

/// Joins `other` to a new section at `position` running `direction` whose closed
/// sides are `sides`: gives `other` as joined, and opens the new section's sides.
fn join_duct(other: &DuctSection, position: Vector3i, direction: Direction, sides: &mut Vec<Direction>) -> (updated:
    DuctSection)
    requires
        other.sides@.no_duplicates(),
        old(sides)@.no_duplicates(),
    ensures
        duct_view(updated) == join_one(duct_view(*other), position, direction, old(sides)@.to_set()).0,
        final(sides)@.to_set() == join_one(duct_view(*other), position, direction, old(sides)@.to_set()).1,
        updated.sides@.no_duplicates(),
        final(sides)@.no_duplicates(),
{
    let mut other_sides = copy_sides(&other.sides);
    let rel_x: i32 = if other.position.x > position.x {
        1
    } else if other.position.x < position.x {
        -1
    } else {
        0
    };
    let rel_y: i32 = if other.position.y > position.y {
        1
    } else if other.position.y < position.y {
        -1
    } else {
        0
    };
    let other_direction = other.direction;
    if (direction == Direction::N || direction == Direction::S) && (other_direction == Direction::E
        || other_direction == Direction::W) {
        if rel_x == 0 && rel_y == -1 {
            open_side(sides, Direction::N);
            open_side(&mut other_sides, Direction::S);
        } else {
            open_side(sides, Direction::S);
            open_side(&mut other_sides, Direction::N);
        }
    } else if (direction == Direction::E || direction == Direction::W) && (other_direction
        == Direction::N || other_direction == Direction::S) {
        if rel_x == 1 && rel_y == 0 {
            open_side(sides, Direction::E);
            open_side(&mut other_sides, Direction::W);
        } else {
            open_side(sides, Direction::W);
            open_side(&mut other_sides, Direction::E);
        }
    }
    if other_direction == Direction::UP {
        open_side(sides, Direction::DOWN);
        open_side(&mut other_sides, Direction::UP);
    } else if other_direction == Direction::DOWN {
        open_side(sides, Direction::UP);
        open_side(&mut other_sides, Direction::DOWN);
    }
    let glyph = update_duct_char(&other_sides);
    DuctSection { position: other.position, direction: other_direction, sides: other_sides, glyph }
}

/// The ducts, and the sides of a new section at `p` running `dir`, after the section
/// joins, in order, those of the first `j` ducts that lie at `nb`.
pub open spec fn join_row(
    ducts: Seq<DuctView>,
    nb: Vector3i,
    j: int,
    p: Vector3i,
    dir: Direction,
    sides: Set<Direction>,
) -> (Seq<DuctView>, Set<Direction>)
    decreases j,
{
    if j <= 0 {
        (ducts, sides)
    } else {
        let prev = join_row(ducts, nb, j - 1, p, dir, sides);
        if j - 1 < prev.0.len() && prev.0[j - 1].0 == nb {
            let r = join_one(prev.0[j - 1], p, dir, prev.1);
            (prev.0.update(j - 1, r.0), r.1)
        } else {
            prev
        }
    }
}

/// The ducts, and the sides of a new section at `p` running `dir`, after the section
/// joins the ducts at the first `k` of its six neighbours, below, above, north, east,
/// south and west.
pub open spec fn join_all(ducts: Seq<DuctView>, p: Vector3i, dir: Direction, sides: Set<Direction>, k: int) -> (
    Seq<DuctView>,
    Set<Direction>,
)
    decreases k,
{
    if k <= 0 {
        (ducts, sides)
    } else {
        let prev = join_all(ducts, p, dir, sides, k - 1);
        join_row(
            prev.0,
            cardinal_neighbours_with_z_spec(p)[k - 1],
            prev.0.len() as int,
            p,
            dir,
            prev.1,
        )
    }
}

/// Joining never moves, adds or takes away a duct.
pub proof fn lemma_join_row_keeps(
    ducts: Seq<DuctView>,
    nb: Vector3i,
    j: int,
    p: Vector3i,
    dir: Direction,
    sides: Set<Direction>,
)
    ensures
        join_row(ducts, nb, j, p, dir, sides).0.len() == ducts.len(),
        forall|i: int|
            0 <= i < ducts.len() ==> (#[trigger] join_row(ducts, nb, j, p, dir, sides).0[i]).0 == ducts[i].0
                && join_row(ducts, nb, j, p, dir, sides).0[i].1 == ducts[i].1,
    decreases j,
{
    if j > 0 {
        lemma_join_row_keeps(ducts, nb, j - 1, p, dir, sides);
    }
}

/// Joining all neighbours never moves, adds or takes away a duct.
pub proof fn lemma_join_all_keeps(ducts: Seq<DuctView>, p: Vector3i, dir: Direction, sides: Set<Direction>, k: int)
    ensures
        join_all(ducts, p, dir, sides, k).0.len() == ducts.len(),
        forall|i: int|
            0 <= i < ducts.len() ==> (#[trigger] join_all(ducts, p, dir, sides, k).0[i]).0 == ducts[i].0
                && join_all(ducts, p, dir, sides, k).0[i].1 == ducts[i].1,
    decreases k,
{
    if k > 0 {
        lemma_join_all_keeps(ducts, p, dir, sides, k - 1);
        let prev = join_all(ducts, p, dir, sides, k - 1);
        lemma_join_row_keeps(
            prev.0,
            cardinal_neighbours_with_z_spec(p)[k - 1],
            prev.0.len() as int,
            p,
            dir,
            prev.1,
        );
    }
}

/// Joins the ducts at `nb` to a new section at `position` running `direction`.
fn join_ducts_at(
    ducts: &mut Vec<DuctSection>,
    nb: Vector3i,
    position: Vector3i,
    direction: Direction,
    sides: &mut Vec<Direction>,
)
    requires
        sides_distinct(old(ducts)@),
        old(sides)@.no_duplicates(),
    ensures
        sides_distinct(final(ducts)@),
        final(sides)@.no_duplicates(),
        (ducts_view(final(ducts)@), final(sides)@.to_set()) == join_row(
            ducts_view(old(ducts)@),
            nb,
            old(ducts)@.len() as int,
            position,
            direction,
            old(sides)@.to_set(),
        ),
{
    let ghost start_ducts = ducts_view(ducts@);
    let ghost start_sides = sides@.to_set();
    let mut j: usize = 0;
    while j < ducts.len()
        invariant
            0 <= j <= ducts.len(),
            ducts@.len() == start_ducts.len(),
            sides_distinct(ducts@),
            sides@.no_duplicates(),
            (ducts_view(ducts@), sides@.to_set()) == join_row(start_ducts, nb, j as int, position, direction, start_sides),
        decreases ducts.len() - j,
    {
        proof {
            lemma_join_row_keeps(start_ducts, nb, j as int, position, direction, start_sides);
        }
        if ducts[j].position == nb {
            let updated = join_duct(&ducts[j], position, direction, sides);
            let ghost before = ducts@;
            ducts.set(j, updated);
            proof {
                assert(ducts_view(ducts@) =~= ducts_view(before).update(j as int, duct_view(updated)));
                assert forall|i: int| 0 <= i < ducts@.len() implies (#[trigger] ducts@[i]).sides@.no_duplicates() by {
                    if i != j {
                        assert(ducts@[i] == before[i]);
                    }
                }
            }
        }
        j = j + 1;
    }
}

/// Joins the ducts at the six neighbours of `position` to a new section there
/// running `direction`.
fn join_neighbour_ducts(
    ducts: &mut Vec<DuctSection>,
    position: Vector3i,
    direction: Direction,
    sides: &mut Vec<Direction>,
)
    requires
        steps_fit(position),
        sides_distinct(old(ducts)@),
        old(sides)@.no_duplicates(),
    ensures
        sides_distinct(final(ducts)@),
        final(sides)@.no_duplicates(),
        (ducts_view(final(ducts)@), final(sides)@.to_set()) == join_all(
            ducts_view(old(ducts)@),
            position,
            direction,
            old(sides)@.to_set(),
            6,
        ),
{
    let ghost start_ducts = ducts_view(ducts@);
    let ghost start_sides = sides@.to_set();
    let neighbours = get_cardinal_neighbours_with_z(position);
    let mut k: usize = 0;
    while k < neighbours.len()
        invariant
            0 <= k <= neighbours.len(),
            neighbours@ == cardinal_neighbours_with_z_spec(position),
            sides_distinct(ducts@),
            sides@.no_duplicates(),
            (ducts_view(ducts@), sides@.to_set()) == join_all(start_ducts, position, direction, start_sides, k as int),
        decreases neighbours.len() - k,
    {
        join_ducts_at(ducts, neighbours[k], position, direction, sides);
        k = k + 1;
    }
}

/// A duct section lies at `p`.
pub open spec fn duct_at(ducts: Seq<DuctView>, p: Vector3i) -> bool {
    exists|i: int| 0 <= i < ducts.len() && (#[trigger] ducts[i]).0 == p
}

/// The sides a duct section entered by `step`, left by `next`, after a section
/// running `prev_direction`, closes before it joins its neighbours.
pub open spec fn closed_sides(step: Vector3i, next: Vector3i, prev_direction: Direction) -> Set<Direction> {
    Set::new(|d: Direction| duct_closes(step, next, prev_direction, d))
}

/// The ducts after ducting is laid along `path` from its `i`th position on, the last
/// section laid at `prev` running `prev_direction`, `count` sections laid so far.
/// A position that already holds a duct is passed over. Every other gets a section
/// that runs as the step to it from the last section laid (or, where that step is
/// none, as the step from it to the position `count + 1` of the route), that closes
/// the sides the steps call for, and that joins the ducts next to it.
pub open spec fn ducting_after(
    ducts: Seq<DuctView>,
    path: Seq<Vector3i>,
    i: int,
    prev: Vector3i,
    prev_direction: Direction,
    count: int,
) -> Seq<DuctView>
    decreases path.len() - i,
{
    if i < 0 || i >= path.len() {
        ducts
    } else {
        let p = path[i];
        if duct_at(ducts, p) {
            ducting_after(ducts, path, i + 1, prev, prev_direction, count)
        } else {
            let step = unit_step(prev, p);
            let next = if 0 <= count + 1 < path.len() {
                unit_step(p, path[count + 1])
            } else {
                step
            };
            let entered = if prev == p {
                next
            } else {
                step
            };
            let dir = duct_direction(entered);
            let joined = join_all(ducts, p, dir, closed_sides(entered, next, prev_direction), 6);
            ducting_after(
                joined.0.push((p, dir, joined.1, glyph_of(joined.1))),
                path,
                i + 1,
                p,
                dir,
                count + 1,
            )
        }
    }
}

/// The section capping a duct run from below `start_position`: closed on its four
/// compass sides, running up.
pub open spec fn duct_cap(start_position: Vector3i) -> DuctView {
    (
        Vector3i::of(start_position.x as int, start_position.y as int, start_position.z - 1),
        Direction::UP,
        set![Direction::N, Direction::S, Direction::W, Direction::E],
        '■',
    )
}

/// Whether a duct section lies at `p`.
fn has_duct_at(ducts: &Vec<DuctSection>, p: Vector3i) -> (b: bool)
    ensures
        b == duct_at(ducts_view(ducts@), p),
{
    let mut i: usize = 0;
    while i < ducts.len()
        invariant
            0 <= i <= ducts.len(),
            forall|j: int| 0 <= j < i ==> (#[trigger] ducts@[j]).position != p,
        decreases ducts.len() - i,
    {
        if ducts[i].position == p {
            proof {
                assert(ducts_view(ducts@)[i as int].0 == p);
            }
            return true;
        }
        i = i + 1;
    }
    proof {
        assert forall|j: int| 0 <= j < ducts_view(ducts@).len() implies (#[trigger] ducts_view(ducts@)[j]).0 != p by {
            assert(ducts_view(ducts@)[j] == duct_view(ducts@[j]));
        }
    }
    false
}

/// Lays ducting from `start_position` to `end_position`: a cap section below the
/// start, then a section at every position of the route between them (the walk on
/// one level, else a route climbing a wall from the roof end) that holds no duct yet,
/// each joined to the ducts next to it.
pub fn lay_ducting(
    ducts: &mut Vec<DuctSection>,
    map: &TileMap,
    start_position: Vector3i,
    end_position: Vector3i,
)
    requires
        map_interior(map@),
        interior(start_position),
        interior(end_position),
        sides_distinct(old(ducts)@),
    ensures
        sides_distinct(final(ducts)@),
        exists|path: Seq<Vector3i>|
            wiring_route(map@, start_position, end_position, true, path) && ducts_view(final(ducts)@)
                == #[trigger] ducting_after(
                ducts_view(old(ducts)@).push(duct_cap(start_position)),
                path,
                0,
                start_position,
                Direction::UP,
                0,
            ),
        final(ducts)@.len() > old(ducts)@.len(),
        forall|idx: int|
            0 <= idx < old(ducts)@.len() ==> redrawn(duct_view(old(ducts)@[idx]), duct_view(#[trigger] final(ducts)@[idx])),
        forall|idx: int, k: int|
            0 <= idx < old(ducts)@.len() && old(ducts)@.len() < k < final(ducts)@.len()
                && cardinal_neighbours_with_z_spec(#[trigger] final(ducts)@[k].position).contains(
                #[trigger] old(ducts)@[idx].position,
            ) ==> final(ducts)@[idx].glyph == glyph_of(final(ducts)@[idx].sides@.to_set()),
{
    let path = if start_position.z == end_position.z {
        find_walkable_path(map, start_position, end_position)
    } else {
        wall_climb_path(map, start_position, end_position, true)
    };
    proof {
        assert(wiring_route(map@, start_position, end_position, true, path@)) by {
            if start_position.z == end_position.z {
                assert forall|i: int| 0 <= i < path@.len() implies on_grid(#[trigger] path@[i]) by {
                    assert(crate::map::pathfinding::within_reach(
                        start_position,
                        path@[i],
                        141 * crate::map::pathfinding::SEARCH_LIMIT,
                    ));
                }
            }
        }
        lemma_route_on_grid(map@, start_position, end_position, true, path@);
    }
    let ghost old_view = ducts_view(ducts@);
    let cap_sides = vec![Direction::N, Direction::S, Direction::W, Direction::E];
    let cap = DuctSection {
        position: Vector3i::new(start_position.x, start_position.y, start_position.z - 1),
        direction: Direction::UP,
        sides: cap_sides,
        glyph: '■',
    };
    let ghost before_cap = ducts@;
    ducts.push(cap);
    proof {
        assert(cap.sides@.to_set() =~= set![Direction::N, Direction::S, Direction::W, Direction::E]);
        assert(ducts_view(ducts@) =~= old_view.push(duct_cap(start_position)));
        assert(cap.sides@.no_duplicates());
        assert forall|i: int| 0 <= i < ducts@.len() implies (#[trigger] ducts@[i]).sides@.no_duplicates() by {
            if i < before_cap.len() {
                assert(ducts@[i] == before_cap[i]);
            }
        }
    }
    let ghost goal = ducting_after(ducts_view(ducts@), path@, 0, start_position, Direction::UP, 0);
    let mut prev_position = start_position;
    let mut prev_direction = Direction::UP;
    let mut count: usize = 0;
    let mut i: usize = 0;
    while i < path.len()
        invariant
            0 <= i <= path.len(),
            count <= i,
            forall|k: int| 0 <= k < path@.len() ==> on_grid(#[trigger] path@[k]),
            sides_distinct(ducts@),
            goal == ducting_after(ducts_view(ducts@), path@, i as int, prev_position, prev_direction, count as int),
        decreases path.len() - i,
    {
        let position = path[i];
        if !has_duct_at(ducts, position) {
            let step = step_between(prev_position, position);
            let next = if count + 1 < path.len() {
                step_between(position, path[count + 1])
            } else {
                step
            };
            let entered = if prev_position == position {
                next
            } else {
                step
            };
            proof {
                if prev_position == position {
                    assert(unit_step(prev_position, position) == Vector3i::of(0, 0, 0));
                }
            }
            let (direction, mut sides) = duct_section(entered, next, prev_direction);
            proof {
                assert(sides@.to_set() =~= closed_sides(entered, next, prev_direction));
                assert(on_grid(path@[i as int]));
            }
            join_neighbour_ducts(ducts, position, direction, &mut sides);
            let glyph = update_duct_char(&sides);
            let ghost before = ducts@;
            ducts.push(DuctSection { position, direction, sides, glyph });
            proof {
                assert(ducts_view(ducts@) =~= ducts_view(before).push(
                    (position, direction, sides@.to_set(), glyph_of(sides@.to_set())),
                ));
                assert forall|k: int| 0 <= k < ducts@.len() implies (#[trigger] ducts@[k]).sides@.no_duplicates() by {
                    if k < before.len() {
                        assert(ducts@[k] == before[k]);
                    }
                }
            }
            prev_position = position;
            prev_direction = direction;
            count = count + 1;
        }
        i = i + 1;
    }
    proof {
        let start_view = old_view.push(duct_cap(start_position));
        let fin = ducts_view(ducts@);
        assert(fin == ducting_after(start_view, path@, 0, start_position, Direction::UP, 0));
        lemma_ducting_redraws_neighbours(start_view, path@, 0, start_position, Direction::UP, 0);
        assert forall|idx: int| 0 <= idx < old(ducts)@.len() implies redrawn(
            duct_view(old(ducts)@[idx]),
            duct_view(#[trigger] ducts@[idx]),
        ) by {
            assert(start_view[idx] == duct_view(old(ducts)@[idx]));
            assert(fin[idx] == duct_view(ducts@[idx]));
        }
        assert forall|idx: int, k: int|
            0 <= idx < old(ducts)@.len() && old(ducts)@.len() < k < ducts@.len() && cardinal_neighbours_with_z_spec(
                #[trigger] ducts@[k].position,
            ).contains(#[trigger] old(ducts)@[idx].position) implies ducts@[idx].glyph == glyph_of(
            ducts@[idx].sides@.to_set(),
        ) by {
            assert(start_view[idx] == duct_view(old(ducts)@[idx]));
            assert(fin[idx] == duct_view(ducts@[idx]));
            assert(fin[k] == duct_view(ducts@[k]));
            assert(cardinal_neighbours_with_z_spec(fin[k].0).contains(start_view[idx].0));
        }
    }
}

/// No position holds two duct sections.
pub open spec fn one_duct_per_position(ducts: Seq<DuctView>) -> bool {
    forall|i: int, j: int| 0 <= i < j < ducts.len() ==> (#[trigger] ducts[i]).0 != (#[trigger] ducts[j]).0
}

/// Every duct section is drawn with the glyph of the sides it closes.
pub open spec fn glyphs_match(ducts: Seq<DuctView>) -> bool {
    forall|i: int| 0 <= i < ducts.len() ==> (#[trigger] ducts[i]).3 == glyph_of(ducts[i].2)
}

/// Joining keeps every duct drawn with the glyph of its sides.
proof fn lemma_join_row_glyphs(
    ducts: Seq<DuctView>,
    nb: Vector3i,
    j: int,
    p: Vector3i,
    dir: Direction,
    sides: Set<Direction>,
)
    requires
        glyphs_match(ducts),
    ensures
        glyphs_match(join_row(ducts, nb, j, p, dir, sides).0),
    decreases j,
{
    if j > 0 {
        lemma_join_row_glyphs(ducts, nb, j - 1, p, dir, sides);
        let prev = join_row(ducts, nb, j - 1, p, dir, sides);
        if j - 1 < prev.0.len() && prev.0[j - 1].0 == nb {
            let r = join_one(prev.0[j - 1], p, dir, prev.1);
            let next = prev.0.update(j - 1, r.0);
            assert forall|i: int| 0 <= i < next.len() implies (#[trigger] next[i]).3 == glyph_of(next[i].2) by {
                if i != j - 1 {
                    assert(next[i] == prev.0[i]);
                }
            }
        }
    }
}

/// Joining all neighbours keeps every duct drawn with the glyph of its sides.
proof fn lemma_join_all_glyphs(ducts: Seq<DuctView>, p: Vector3i, dir: Direction, sides: Set<Direction>, k: int)
    requires
        glyphs_match(ducts),
    ensures
        glyphs_match(join_all(ducts, p, dir, sides, k).0),
    decreases k,
{
    if k > 0 {
        lemma_join_all_glyphs(ducts, p, dir, sides, k - 1);
        let prev = join_all(ducts, p, dir, sides, k - 1);
        lemma_join_row_glyphs(prev.0, cardinal_neighbours_with_z_spec(p)[k - 1], prev.0.len() as int, p, dir, prev.1);
    }
}

/// `after` is the duct `before` after joining: at the same place, running the same
/// way, with no side that it did not have, and either untouched or drawn anew from its
/// sides.
pub open spec fn redrawn(before: DuctView, after: DuctView) -> bool {
    &&& after.0 == before.0
    &&& after.1 == before.1
    &&& after.2.subset_of(before.2)
    &&& after == before || after.3 == glyph_of(after.2)
}

/// Joining a duct to a new section keeps it in place and draws it anew from its sides.
proof fn lemma_join_one_redraws(d: DuctView, p: Vector3i, dir: Direction, sides: Set<Direction>)
    ensures
        redrawn(d, join_one(d, p, dir, sides).0),
        join_one(d, p, dir, sides).0.3 == glyph_of(join_one(d, p, dir, sides).0.2),
{
    let r = join_one(d, p, dir, sides).0;
    assert(r.2.subset_of(d.2));
}

/// Redrawing twice is redrawing, and a duct drawn from its sides stays so.
proof fn lemma_redrawn_trans(a: DuctView, b: DuctView, c: DuctView)
    requires
        redrawn(a, b),
        redrawn(b, c),
    ensures
        redrawn(a, c),
        b.3 == glyph_of(b.2) ==> c.3 == glyph_of(c.2),
{
}

/// Joining the ducts at `nb` redraws each duct, and draws anew every duct at `nb`
/// among the first `j`.
proof fn lemma_join_row_redraws(
    ducts: Seq<DuctView>,
    nb: Vector3i,
    j: int,
    p: Vector3i,
    dir: Direction,
    sides: Set<Direction>,
)
    ensures
        join_row(ducts, nb, j, p, dir, sides).0.len() == ducts.len(),
        forall|idx: int|
            0 <= idx < ducts.len() ==> redrawn(ducts[idx], #[trigger] join_row(ducts, nb, j, p, dir, sides).0[idx])
                && (idx < j && ducts[idx].0 == nb ==> join_row(ducts, nb, j, p, dir, sides).0[idx].3
                == glyph_of(join_row(ducts, nb, j, p, dir, sides).0[idx].2)),
    decreases j,
{
    if j > 0 {
        lemma_join_row_redraws(ducts, nb, j - 1, p, dir, sides);
        let prev = join_row(ducts, nb, j - 1, p, dir, sides);
        let r = join_row(ducts, nb, j, p, dir, sides);
        if j - 1 < prev.0.len() && prev.0[j - 1].0 == nb {
            lemma_join_one_redraws(prev.0[j - 1], p, dir, prev.1);
            assert forall|idx: int| 0 <= idx < ducts.len() implies redrawn(ducts[idx], #[trigger] r.0[idx]) && (idx
                < j && ducts[idx].0 == nb ==> r.0[idx].3 == glyph_of(r.0[idx].2)) by {
                if idx == j - 1 {
                    lemma_redrawn_trans(ducts[idx], prev.0[idx], r.0[idx]);
                } else {
                    assert(r.0[idx] == prev.0[idx]);
                }
            }
        } else {
            assert forall|idx: int| 0 <= idx < ducts.len() implies redrawn(ducts[idx], #[trigger] r.0[idx]) && (idx
                < j && ducts[idx].0 == nb ==> r.0[idx].3 == glyph_of(r.0[idx].2)) by {
                assert(r.0[idx] == prev.0[idx]);
            }
        }
    }
}

/// Joining a new section at `p` to its first `k` neighbours redraws each duct, and
/// draws anew every duct at one of those neighbours.
proof fn lemma_join_all_redraws(ducts: Seq<DuctView>, p: Vector3i, dir: Direction, sides: Set<Direction>, k: int)
    requires
        0 <= k <= 6,
    ensures
        join_all(ducts, p, dir, sides, k).0.len() == ducts.len(),
        forall|idx: int|
            0 <= idx < ducts.len() ==> redrawn(ducts[idx], #[trigger] join_all(ducts, p, dir, sides, k).0[idx])
                && (cardinal_neighbours_with_z_spec(p).subrange(0, k).contains(ducts[idx].0) ==> join_all(
                ducts,
                p,
                dir,
                sides,
                k,
            ).0[idx].3 == glyph_of(join_all(ducts, p, dir, sides, k).0[idx].2)),
    decreases k,
{
    if k > 0 {
        lemma_join_all_redraws(ducts, p, dir, sides, k - 1);
        let prev = join_all(ducts, p, dir, sides, k - 1);
        let nb = cardinal_neighbours_with_z_spec(p)[k - 1];
        lemma_join_row_redraws(prev.0, nb, prev.0.len() as int, p, dir, prev.1);
        let r = join_all(ducts, p, dir, sides, k);
        assert forall|idx: int| 0 <= idx < ducts.len() implies redrawn(ducts[idx], #[trigger] r.0[idx]) && (
        cardinal_neighbours_with_z_spec(p).subrange(0, k).contains(ducts[idx].0) ==> r.0[idx].3 == glyph_of(
            r.0[idx].2,
        )) by {
            lemma_redrawn_trans(ducts[idx], prev.0[idx], r.0[idx]);
            if cardinal_neighbours_with_z_spec(p).subrange(0, k).contains(ducts[idx].0) {
                let m = choose|m: int| 0 <= m < k && cardinal_neighbours_with_z_spec(p).subrange(0, k)[m] == ducts[idx].0;
                if m < k - 1 {
                    assert(cardinal_neighbours_with_z_spec(p).subrange(0, k - 1)[m] == ducts[idx].0);
                }
            }
        }
    }
}

/// Laying ducting along `path` from `i` on keeps every duct that lay before in place,
/// running the same way, only ever closing fewer sides, and draws anew from its sides
/// every one of them next to (below, above, or beside) a section it lays.
pub proof fn lemma_ducting_redraws_neighbours(
    ducts: Seq<DuctView>,
    path: Seq<Vector3i>,
    i: int,
    prev: Vector3i,
    prev_direction: Direction,
    count: int,
)
    ensures
        ducting_after(ducts, path, i, prev, prev_direction, count).len() >= ducts.len(),
        forall|idx: int|
            0 <= idx < ducts.len() ==> redrawn(
                ducts[idx],
                #[trigger] ducting_after(ducts, path, i, prev, prev_direction, count)[idx],
            ),
        forall|idx: int, k: int|
            0 <= idx < ducts.len() && ducts.len() <= k < ducting_after(ducts, path, i, prev, prev_direction, count).len()
                && cardinal_neighbours_with_z_spec(
                #[trigger] ducting_after(ducts, path, i, prev, prev_direction, count)[k].0,
            ).contains(#[trigger] ducts[idx].0) ==> ducting_after(ducts, path, i, prev, prev_direction, count)[idx].3
                == glyph_of(ducting_after(ducts, path, i, prev, prev_direction, count)[idx].2),
    decreases path.len() - i,
{
    let after = ducting_after(ducts, path, i, prev, prev_direction, count);
    if !(i < 0 || i >= path.len()) {
        let p = path[i];
        if duct_at(ducts, p) {
            lemma_ducting_redraws_neighbours(ducts, path, i + 1, prev, prev_direction, count);
        } else {
            let step = unit_step(prev, p);
            let next = if 0 <= count + 1 < path.len() {
                unit_step(p, path[count + 1])
            } else {
                step
            };
            let entered = if prev == p {
                next
            } else {
                step
            };
            let dir = duct_direction(entered);
            let sides = closed_sides(entered, next, prev_direction);
            let joined = join_all(ducts, p, dir, sides, 6);
            let section = (p, dir, joined.1, glyph_of(joined.1));
            let pushed = joined.0.push(section);
            lemma_join_all_redraws(ducts, p, dir, sides, 6);
            lemma_ducting_redraws_neighbours(pushed, path, i + 1, p, dir, count + 1);
            assert(after == ducting_after(pushed, path, i + 1, p, dir, count + 1));
            assert(cardinal_neighbours_with_z_spec(p).subrange(0, 6) =~= cardinal_neighbours_with_z_spec(p));
            assert forall|idx: int| 0 <= idx < ducts.len() implies redrawn(ducts[idx], #[trigger] after[idx]) by {
                assert(pushed[idx] == joined.0[idx]);
                assert(redrawn(pushed[idx], after[idx]));
                lemma_redrawn_trans(ducts[idx], pushed[idx], after[idx]);
            }
            assert forall|idx: int, k: int|
                0 <= idx < ducts.len() && ducts.len() <= k < after.len() && cardinal_neighbours_with_z_spec(
                    #[trigger] after[k].0,
                ).contains(#[trigger] ducts[idx].0) implies after[idx].3 == glyph_of(after[idx].2) by {
                assert(pushed[idx] == joined.0[idx]);
                assert(redrawn(pushed[idx], after[idx]));
                if k == ducts.len() {
                    assert(redrawn(pushed[k], after[k]));
                    assert(pushed[k] == section);
                    assert(after[k].0 == p);
                    lemma_redrawn_trans(ducts[idx], pushed[idx], after[idx]);
                } else {
                    assert(pushed[idx].0 == ducts[idx].0);
                }
            }
        }
    }
}

/// Laying ducting keeps a duct wherever one lay, and leaves a duct on every position
/// of the route from `i` on.
pub proof fn lemma_ducting_covers_route(
    ducts: Seq<DuctView>,
    path: Seq<Vector3i>,
    i: int,
    prev: Vector3i,
    prev_direction: Direction,
    count: int,
)
    requires
        0 <= i,
    ensures
        forall|q: Vector3i| #[trigger] duct_at(ducts, q) ==> duct_at(
            ducting_after(ducts, path, i, prev, prev_direction, count),
            q,
        ),
        forall|k: int| i <= k < path.len() ==> duct_at(
            ducting_after(ducts, path, i, prev, prev_direction, count),
            #[trigger] path[k],
        ),
    decreases path.len() - i,
{
    if i < path.len() {
        let p = path[i];
        let r = ducting_after(ducts, path, i, prev, prev_direction, count);
        if duct_at(ducts, p) {
            lemma_ducting_covers_route(ducts, path, i + 1, prev, prev_direction, count);
            assert(r == ducting_after(ducts, path, i + 1, prev, prev_direction, count));
        } else {
            let step = unit_step(prev, p);
            let next = if 0 <= count + 1 < path.len() {
                unit_step(p, path[count + 1])
            } else {
                step
            };
            let entered = if prev == p {
                next
            } else {
                step
            };
            let dir = duct_direction(entered);
            let sides = closed_sides(entered, next, prev_direction);
            let joined = join_all(ducts, p, dir, sides, 6);
            let grown = joined.0.push((p, dir, joined.1, glyph_of(joined.1)));
            lemma_join_all_keeps(ducts, p, dir, sides, 6);
            lemma_ducting_covers_route(grown, path, i + 1, p, dir, count + 1);
            assert(r == ducting_after(grown, path, i + 1, p, dir, count + 1));
            assert forall|q: Vector3i| #[trigger] duct_at(ducts, q) implies duct_at(grown, q) by {
                let j = choose|j: int| 0 <= j < ducts.len() && (#[trigger] ducts[j]).0 == q;
                assert(grown[j].0 == joined.0[j].0);
            }
            assert(grown[grown.len() - 1].0 == p);
            assert(duct_at(grown, p));
        }
    }
}

/// Where every position of the route from `i` on holds a duct, laying ducting along
/// it changes nothing.
proof fn lemma_ducting_on_ducted_route(
    ducts: Seq<DuctView>,
    path: Seq<Vector3i>,
    i: int,
    prev: Vector3i,
    prev_direction: Direction,
    count: int,
)
    requires
        0 <= i,
        forall|k: int| i <= k < path.len() ==> duct_at(ducts, #[trigger] path[k]),
    ensures
        ducting_after(ducts, path, i, prev, prev_direction, count) == ducts,
    decreases path.len() - i,
{
    if i < path.len() {
        assert(duct_at(ducts, path[i]));
        lemma_ducting_on_ducted_route(ducts, path, i + 1, prev, prev_direction, count);
    }
}

/// Laying ducting along the same route a second time adds only a second cap below
/// the start: every position of the route holds a duct already.
pub proof fn lemma_ducting_twice(ducts: Seq<DuctView>, path: Seq<Vector3i>, start_position: Vector3i)
    ensures
        ({
            let once = ducting_after(ducts.push(duct_cap(start_position)), path, 0, start_position, Direction::UP, 0);
            ducting_after(once.push(duct_cap(start_position)), path, 0, start_position, Direction::UP, 0)
                == once.push(duct_cap(start_position))
        }),
{
    let once = ducting_after(ducts.push(duct_cap(start_position)), path, 0, start_position, Direction::UP, 0);
    let again = once.push(duct_cap(start_position));
    lemma_ducting_covers_route(ducts.push(duct_cap(start_position)), path, 0, start_position, Direction::UP, 0);
    assert forall|k: int| 0 <= k < path.len() implies duct_at(again, #[trigger] path[k]) by {
        assert(duct_at(once, path[k]));
        let j = choose|j: int| 0 <= j < once.len() && (#[trigger] once[j]).0 == path[k];
        assert(again[j] == once[j]);
    }
    lemma_ducting_on_ducted_route(again, path, 0, start_position, Direction::UP, 0);
}

/// Laying ducting puts a section only where none lies, so ducts that held one
/// section per position still do after; and it keeps every section drawn with the
/// glyph of the sides it closes.
pub proof fn lemma_ducting_keeps_layout(
    ducts: Seq<DuctView>,
    path: Seq<Vector3i>,
    i: int,
    prev: Vector3i,
    prev_direction: Direction,
    count: int,
)
    ensures
        one_duct_per_position(ducts) ==> one_duct_per_position(
            ducting_after(ducts, path, i, prev, prev_direction, count),
        ),
        glyphs_match(ducts) ==> glyphs_match(ducting_after(ducts, path, i, prev, prev_direction, count)),
    decreases path.len() - i,
{
    if 0 <= i < path.len() {
        let p = path[i];
        if duct_at(ducts, p) {
            lemma_ducting_keeps_layout(ducts, path, i + 1, prev, prev_direction, count);
        } else {
            let step = unit_step(prev, p);
            let next = if 0 <= count + 1 < path.len() {
                unit_step(p, path[count + 1])
            } else {
                step
            };
            let entered = if prev == p {
                next
            } else {
                step
            };
            let dir = duct_direction(entered);
            let sides = closed_sides(entered, next, prev_direction);
            let joined = join_all(ducts, p, dir, sides, 6);
            let grown = joined.0.push((p, dir, joined.1, glyph_of(joined.1)));
            lemma_join_all_keeps(ducts, p, dir, sides, 6);
            if one_duct_per_position(ducts) {
                assert forall|a: int, b: int| 0 <= a < b < grown.len() implies (#[trigger] grown[a]).0
                    != (#[trigger] grown[b]).0 by {
                    if b == ducts.len() {
                        assert(grown[a].0 == ducts[a].0);
                        assert(ducts[a].0 != p);
                    } else {
                        assert(grown[a].0 == ducts[a].0 && grown[b].0 == ducts[b].0);
                    }
                }
            }
            if glyphs_match(ducts) {
                lemma_join_all_glyphs(ducts, p, dir, sides, 6);
                assert forall|a: int| 0 <= a < grown.len() implies (#[trigger] grown[a]).3 == glyph_of(grown[a].2) by {
                    if a < joined.0.len() {
                        assert(grown[a] == joined.0[a]);
                    }
                }
            }
            lemma_ducting_keeps_layout(grown, path, i + 1, p, dir, count + 1);
        }
    }
}

} // verus!
