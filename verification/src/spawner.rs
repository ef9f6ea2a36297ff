use vstd::prelude::*;

use crate::entities::components::{has_side, Direction};
use crate::vectors::Vector3i;

verus! {

/// The box-drawing glyph of a duct section, from which of its north, south,
/// east and west sides are closed.
pub open spec fn duct_glyph(n: bool, s: bool, e: bool, w: bool) -> char {
    match (n, s, e, w) {
        (false, false, false, false) => '╬',
        (true, true, true, true) => '■',
        (true, true, true, false) => '╣',
        (true, true, false, true) => '╠',
        (true, false, true, true) => '╩',
        (false, true, true, true) => '╦',
        (true, true, false, false) => '═',
        (false, false, true, true) => '║',
        (false, true, false, true) => '╗',
        (false, true, true, false) => '╔',
        (true, false, false, true) => '╝',
        (true, false, true, false) => '╚',
        (false, true, false, false) => '╨',
        (true, false, false, false) => '╥',
        (false, false, false, true) => '╡',
        (false, false, true, false) => '╞',
    }
}

fn glyph_for(n: bool, s: bool, e: bool, w: bool) -> (c: char)
    ensures
        c == duct_glyph(n, s, e, w),
{
    match (n, s, e, w) {
        (false, false, false, false) => '╬',
        (true, true, true, true) => '■',
        (true, true, true, false) => '╣',
        (true, true, false, true) => '╠',
        (true, false, true, true) => '╩',
        (false, true, true, true) => '╦',
        (true, true, false, false) => '═',
        (false, false, true, true) => '║',
        (false, true, false, true) => '╗',
        (false, true, true, false) => '╔',
        (true, false, false, true) => '╝',
        (true, false, true, false) => '╚',
        (false, true, false, false) => '╨',
        (true, false, false, false) => '╥',
        (false, false, false, true) => '╡',
        (false, false, true, false) => '╞',
    }
}

/// The glyph of a duct section whose closed sides are `sides`.
pub fn update_duct_char(sides: &Vec<Direction>) -> (c: char)
    ensures
        c == duct_glyph(
            sides@.contains(Direction::N),
            sides@.contains(Direction::S),
            sides@.contains(Direction::E),
            sides@.contains(Direction::W),
        ),
{
    glyph_for(
        has_side(sides, Direction::N),
        has_side(sides, Direction::S),
        has_side(sides, Direction::E),
        has_side(sides, Direction::W),
    )
}

/// The glyph of a duct section from the sides its blocker closes.
pub fn update_duct_char_from_sides(sides: &Vec<Direction>) -> (c: char)
    ensures
        c == duct_glyph(
            sides@.contains(Direction::N),
            sides@.contains(Direction::S),
            sides@.contains(Direction::E),
            sides@.contains(Direction::W),
        ),
{
    update_duct_char(sides)
}

/// How a wire section laid by a step `step` faces and looks: along north-south
/// `|`, along east-west `-`, and `.` for a step up, down or any other.
pub open spec fn wire_style_spec(step: Vector3i) -> (Direction, char) {
    if step == Vector3i::of(0, -1, 0) {
        (Direction::N, '|')
    } else if step == Vector3i::of(-1, 0, 0) {
        (Direction::W, '-')
    } else if step == Vector3i::of(0, 1, 0) {
        (Direction::S, '|')
    } else if step == Vector3i::of(1, 0, 0) {
        (Direction::E, '-')
    } else if step == Vector3i::of(0, 0, 1) {
        (Direction::UP, '.')
    } else if step == Vector3i::of(0, 0, -1) {
        (Direction::DOWN, '.')
    } else {
        (Direction::NW, '.')
    }
}

/// How a wire section laid by the step `vec_direction` faces and looks.
pub fn wire_style(vec_direction: Vector3i) -> (r: (Direction, char))
    ensures
        r == wire_style_spec(vec_direction),
{
    if vec_direction == Vector3i::north() {
        (Direction::N, '|')
    } else if vec_direction == Vector3i::west() {
        (Direction::W, '-')
    } else if vec_direction == Vector3i::south() {
        (Direction::S, '|')
    } else if vec_direction == Vector3i::east() {
        (Direction::E, '-')
    } else if vec_direction == Vector3i::up() {
        (Direction::UP, '.')
    } else if vec_direction == Vector3i::down() {
        (Direction::DOWN, '.')
    } else {
        (Direction::NW, '.')
    }
}

/// Whether a duct section entered by the step `step` and left by the step `next`,
/// after a section facing `prev`, closes side `side`.
pub open spec fn duct_closes(step: Vector3i, next: Vector3i, prev: Direction, side: Direction) -> bool {
    let vertical_before = prev == Direction::DOWN || prev == Direction::UP;
    if step == Vector3i::of(0, -1, 0) {
        match side {
            Direction::N => next != Vector3i::of(0, -1, 0),
            Direction::E => next != Vector3i::of(1, 0, 0),
            Direction::W => next != Vector3i::of(-1, 0, 0),
            Direction::UP => next != Vector3i::of(0, 0, 1),
            Direction::DOWN => next != Vector3i::of(0, 0, -1),
            _ => false,
        }
    } else if step == Vector3i::of(-1, 0, 0) {
        match side {
            Direction::W => next != Vector3i::of(-1, 0, 0),
            Direction::N => next != Vector3i::of(0, -1, 0),
            Direction::S => next != Vector3i::of(0, 1, 0),
            Direction::UP => next != Vector3i::of(0, 0, 1) && !vertical_before,
            Direction::DOWN => next == Vector3i::of(0, 0, -1),
            _ => false,
        }
    } else if step == Vector3i::of(0, 1, 0) {
        match side {
            Direction::S => next != Vector3i::of(0, 1, 0),
            Direction::E => next != Vector3i::of(1, 0, 0),
            Direction::W => next != Vector3i::of(-1, 0, 0),
            Direction::UP => next != Vector3i::of(0, 0, 1) && !vertical_before,
            Direction::DOWN => next != Vector3i::of(0, 0, -1),
            _ => false,
        }
    } else if step == Vector3i::of(1, 0, 0) {
        match side {
            Direction::E => next != Vector3i::of(1, 0, 0),
            Direction::N => next != Vector3i::of(0, -1, 0),
            Direction::S => next != Vector3i::of(0, 1, 0),
            Direction::UP => next != Vector3i::of(0, 0, 1) && !vertical_before,
            Direction::DOWN => next != Vector3i::of(0, 0, -1),
            _ => false,
        }
    } else if step == Vector3i::of(0, 0, 1) {
        match side {
            Direction::UP => next != Vector3i::of(0, 0, 1),
            Direction::N => next != Vector3i::of(0, -1, 0),
            Direction::S => next != Vector3i::of(0, 1, 0),
            Direction::E => next != Vector3i::of(1, 0, 0),
            Direction::W => next != Vector3i::of(-1, 0, 0),
            _ => false,
        }
    } else {
        false
    }
}

/// The direction a duct section entered by the step `step` runs in.
pub open spec fn duct_direction(step: Vector3i) -> Direction {
    if step == Vector3i::of(0, -1, 0) {
        Direction::N
    } else if step == Vector3i::of(-1, 0, 0) {
        Direction::W
    } else if step == Vector3i::of(0, 1, 0) {
        Direction::S
    } else if step == Vector3i::of(1, 0, 0) {
        Direction::E
    } else if step == Vector3i::of(0, 0, 1) {
        Direction::UP
    } else if step == Vector3i::of(0, 0, -1) {
        Direction::DOWN
    } else {
        Direction::NW
    }
}

/// The sides whose flags are set, in the order north, south, east, west, up, down.
fn sides_from_flags(n: bool, s: bool, e: bool, w: bool, up: bool, down: bool) -> (v: Vec<Direction>)
    ensures
        forall|d: Direction| v@.contains(d) == (match d {
            Direction::N => n,
            Direction::S => s,
            Direction::E => e,
            Direction::W => w,
            Direction::UP => up,
            Direction::DOWN => down,
            _ => false,
        }),
        v@.no_duplicates(),
{
    broadcast use vstd::seq_lib::group_seq_properties;

    let mut v: Vec<Direction> = Vec::new();
    if n {
        v.push(Direction::N);
    }
    let ghost v1 = v@;
    if s {
        v.push(Direction::S);
    }
    let ghost v2 = v@;
    if e {
        v.push(Direction::E);
    }
    let ghost v3 = v@;
    if w {
        v.push(Direction::W);
    }
    let ghost v4 = v@;
    if up {
        v.push(Direction::UP);
    }
    let ghost v5 = v@;
    if down {
        v.push(Direction::DOWN);
    }
    proof {
        assert(forall|d: Direction| v1.contains(d) == (n && d == Direction::N));
        assert(forall|d: Direction| v2.contains(d) == (v1.contains(d) || (s && d == Direction::S)));
        assert(forall|d: Direction| v3.contains(d) == (v2.contains(d) || (e && d == Direction::E)));
        assert(forall|d: Direction| v4.contains(d) == (v3.contains(d) || (w && d == Direction::W)));
        assert(forall|d: Direction| v5.contains(d) == (v4.contains(d) || (up && d == Direction::UP)));
        assert(forall|d: Direction| v@.contains(d) == (v5.contains(d) || (down && d == Direction::DOWN)));
        assert(v1.no_duplicates());
        assert(v2.no_duplicates());
        assert(v3.no_duplicates());
        assert(v4.no_duplicates());
        assert(v5.no_duplicates());
    }
    v
}

/// The direction and the closed sides of a duct section entered by the step
/// `vec_direction` and left by `next_vec_direction`, after a section running in
/// `prev_direction`. The sides come each once.
pub fn duct_section(vec_direction: Vector3i, next_vec_direction: Vector3i, prev_direction: Direction) -> (r: (
    Direction,
    Vec<Direction>,
))
    ensures
        r.0 == duct_direction(vec_direction),
        forall|d: Direction| r.1@.contains(d) == duct_closes(vec_direction, next_vec_direction, prev_direction, d),
        r.1@.no_duplicates(),
{
    let vertical_before = prev_direction == Direction::DOWN || prev_direction == Direction::UP;
    let next = next_vec_direction;
    let n = Vector3i::north();
    let s = Vector3i::south();
    let e = Vector3i::east();
    let w = Vector3i::west();
    let up = Vector3i::up();
    let down = Vector3i::down();
    if vec_direction == n {
        (Direction::N, sides_from_flags(next != n, false, next != e, next != w, next != up, next != down))
    } else if vec_direction == w {
        (Direction::W, sides_from_flags(next != n, next != s, false, next != w, next != up && !vertical_before, next == down))
    } else if vec_direction == s {
        (Direction::S, sides_from_flags(false, next != s, next != e, next != w, next != up && !vertical_before, next != down))
    } else if vec_direction == e {
        (Direction::E, sides_from_flags(next != n, next != s, next != e, false, next != up && !vertical_before, next != down))
    } else if vec_direction == up {
        (Direction::UP, sides_from_flags(next != n, next != s, next != e, next != w, next != up, false))
    } else if vec_direction == down {
        (Direction::DOWN, sides_from_flags(false, false, false, false, false, false))
    } else {
        (Direction::NW, sides_from_flags(false, false, false, false, false, false))
    }
}

} // verus!
