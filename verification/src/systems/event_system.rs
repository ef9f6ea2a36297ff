use vstd::prelude::*;

use crate::entities::components::{door_toggled, door_view, has_side, Blocker, Direction, Door};
use crate::entities::power_components::{switch_toggled, switch_view, PowerSwitch};
use crate::systems::power_system::PowerNodeRecord;
use crate::map::TileMap;
use crate::states::RunState;
use crate::vectors::Vector3i;

verus! {

/// A blocker whose sides include `d` stops movement in the direction `delta`;
/// a diagonal is stopped by either of its two compass sides.
pub open spec fn blocks_towards(sides: Seq<Direction>, delta: Vector3i) -> bool {
    ||| delta == Vector3i::of(0, -1, 0) && sides.contains(Direction::N)
    ||| delta == Vector3i::of(-1, -1, 0) && (sides.contains(Direction::N) || sides.contains(
        Direction::W,
    ))
    ||| delta == Vector3i::of(-1, 0, 0) && sides.contains(Direction::W)
    ||| delta == Vector3i::of(-1, 1, 0) && (sides.contains(Direction::S) || sides.contains(
        Direction::W,
    ))
    ||| delta == Vector3i::of(0, 1, 0) && sides.contains(Direction::S)
    ||| delta == Vector3i::of(1, 1, 0) && (sides.contains(Direction::S) || sides.contains(
        Direction::E,
    ))
    ||| delta == Vector3i::of(1, 0, 0) && sides.contains(Direction::E)
    ||| delta == Vector3i::of(1, -1, 0) && (sides.contains(Direction::N) || sides.contains(
        Direction::E,
    ))
    ||| delta == Vector3i::of(0, 0, 1) && sides.contains(Direction::UP)
    ||| delta == Vector3i::of(0, 0, -1) && sides.contains(Direction::DOWN)
}

/// `d` seen in a mirror that swaps east and west.
pub open spec fn mirrored_east_west(d: Direction) -> Direction {
    match d {
        Direction::E => Direction::W,
        Direction::W => Direction::E,
        Direction::NE => Direction::NW,
        Direction::NW => Direction::NE,
        Direction::SE => Direction::SW,
        Direction::SW => Direction::SE,
        other => other,
    }
}

/// `d` seen in a mirror that swaps north and south.
pub open spec fn mirrored_north_south(d: Direction) -> Direction {
    match d {
        Direction::N => Direction::S,
        Direction::S => Direction::N,
        Direction::NE => Direction::SE,
        Direction::SE => Direction::NE,
        Direction::NW => Direction::SW,
        Direction::SW => Direction::NW,
        other => other,
    }
}

/// `d` seen in a mirror that swaps up and down.
pub open spec fn mirrored_up_down(d: Direction) -> Direction {
    match d {
        Direction::UP => Direction::DOWN,
        Direction::DOWN => Direction::UP,
        other => other,
    }
}

/// Mirroring each side of `sides` with an involution `f` leaves `f(x)` among them
/// exactly when `x` was.
proof fn lemma_mirrored_contains(sides: Seq<Direction>, f: spec_fn(Direction) -> Direction, x: Direction)
    requires
        forall|d: Direction| #[trigger] f(f(d)) == d,
    ensures
        sides.map_values(f).contains(x) <==> sides.contains(f(x)),
{
    let m = sides.map_values(f);
    if m.contains(x) {
        let i = choose|i: int| 0 <= i < m.len() && m[i] == x;
        assert(f(sides[i]) == x);
        assert(f(f(sides[i])) == sides[i]);
        assert(sides[i] == f(x));
    }
    if sides.contains(f(x)) {
        let i = choose|i: int| 0 <= i < sides.len() && sides[i] == f(x);
        assert(m[i] == f(f(x)));
    }
}

/// Blocking by sides is the same rule in every direction: a side stops the move
/// towards it (north stops a move of -1 in y, east one of +1 in x, up one of +1 in
/// z), standing still is never stopped; a diagonal
/// move is stopped exactly when either of its two compass parts is; and mirroring
/// the sides east-west, north-south or up-down mirrors the moves they stop.
pub proof fn lemma_blocking_is_direction_free(sides: Seq<Direction>, delta: Vector3i)
    requires
        -1 <= delta.x <= 1,
        -1 <= delta.y <= 1,
        -1 <= delta.z <= 1,
    ensures
        blocks_towards(sides, Vector3i::of(0, -1, 0)) == sides.contains(Direction::N),
        blocks_towards(sides, Vector3i::of(1, 0, 0)) == sides.contains(Direction::E),
        blocks_towards(sides, Vector3i::of(0, 0, 1)) == sides.contains(Direction::UP),
        blocks_towards(sides, Vector3i::of(0, 0, 0)) == false,
        delta.x != 0 && delta.y != 0 && delta.z == 0 ==> blocks_towards(sides, delta) == (blocks_towards(
            sides,
            Vector3i::of(delta.x as int, 0, 0),
        ) || blocks_towards(sides, Vector3i::of(0, delta.y as int, 0))),
        blocks_towards(sides.map_values(|d: Direction| mirrored_east_west(d)), Vector3i::of(-delta.x, delta.y as int, delta.z as int))
            == blocks_towards(sides, delta),
        blocks_towards(sides.map_values(|d: Direction| mirrored_north_south(d)), Vector3i::of(delta.x as int, -delta.y, delta.z as int))
            == blocks_towards(sides, delta),
        blocks_towards(sides.map_values(|d: Direction| mirrored_up_down(d)), Vector3i::of(delta.x as int, delta.y as int, -delta.z))
            == blocks_towards(sides, delta),
{
    let ew = |d: Direction| mirrored_east_west(d);
    let ns = |d: Direction| mirrored_north_south(d);
    let ud = |d: Direction| mirrored_up_down(d);
    assert forall|d: Direction| #[trigger] ew(ew(d)) == d by {}
    assert forall|d: Direction| #[trigger] ns(ns(d)) == d by {}
    assert forall|d: Direction| #[trigger] ud(ud(d)) == d by {}
    lemma_mirrored_contains(sides, ew, Direction::N);
    lemma_mirrored_contains(sides, ew, Direction::S);
    lemma_mirrored_contains(sides, ew, Direction::E);
    lemma_mirrored_contains(sides, ew, Direction::W);
    lemma_mirrored_contains(sides, ew, Direction::UP);
    lemma_mirrored_contains(sides, ew, Direction::DOWN);
    lemma_mirrored_contains(sides, ns, Direction::N);
    lemma_mirrored_contains(sides, ns, Direction::S);
    lemma_mirrored_contains(sides, ns, Direction::E);
    lemma_mirrored_contains(sides, ns, Direction::W);
    lemma_mirrored_contains(sides, ns, Direction::UP);
    lemma_mirrored_contains(sides, ns, Direction::DOWN);
    lemma_mirrored_contains(sides, ud, Direction::N);
    lemma_mirrored_contains(sides, ud, Direction::S);
    lemma_mirrored_contains(sides, ud, Direction::E);
    lemma_mirrored_contains(sides, ud, Direction::W);
    lemma_mirrored_contains(sides, ud, Direction::UP);
    lemma_mirrored_contains(sides, ud, Direction::DOWN);
}

/// Some blocker standing at `at` stops movement in the direction `delta`.
pub open spec fn blocked_at(blockers: Seq<(Vector3i, Blocker)>, at: Vector3i, delta: Vector3i) -> bool {
    exists|i: int|
        0 <= i < blockers.len() && blockers[i].0 == at && #[trigger] blocks_towards(
            blockers[i].1.sides@,
            delta,
        )
}

/// Moving from `from` to `to` is stopped by a blocker on the cell left or on the cell entered.
pub open spec fn move_blocked(blockers: Seq<(Vector3i, Blocker)>, from: Vector3i, to: Vector3i) -> bool {
    ||| blocked_at(blockers, from, to.minus(from).normalized())
    ||| blocked_at(blockers, to, from.minus(to).normalized())
}

/// Whether `sides` stops movement in the direction `delta`.
fn sides_block(sides: &Vec<Direction>, delta: Vector3i) -> (b: bool)
    ensures
        b == blocks_towards(sides@, delta),
{
    if delta == Vector3i::north() {
        has_side(sides, Direction::N)
    } else if delta == Vector3i::north_west() {
        has_side(sides, Direction::N) || has_side(sides, Direction::W)
    } else if delta == Vector3i::west() {
        has_side(sides, Direction::W)
    } else if delta == Vector3i::south_west() {
        has_side(sides, Direction::S) || has_side(sides, Direction::W)
    } else if delta == Vector3i::south() {
        has_side(sides, Direction::S)
    } else if delta == Vector3i::south_east() {
        has_side(sides, Direction::S) || has_side(sides, Direction::E)
    } else if delta == Vector3i::east() {
        has_side(sides, Direction::E)
    } else if delta == Vector3i::north_east() {
        has_side(sides, Direction::N) || has_side(sides, Direction::E)
    } else if delta == Vector3i::up() {
        has_side(sides, Direction::UP)
    } else if delta == Vector3i::down() {
        has_side(sides, Direction::DOWN)
    } else {
        false
    }
}

/// Whether some blocker standing at `at` stops movement in the direction `delta`.
fn any_blocker_at(blockers: &Vec<(Vector3i, Blocker)>, at: Vector3i, delta: Vector3i) -> (b: bool)
    ensures
        b == blocked_at(blockers@, at, delta),
{
    let mut i: usize = 0;
    while i < blockers.len()
        invariant
            0 <= i <= blockers.len(),
            forall|j: int|
                0 <= j < i ==> !(blockers@[j].0 == at && #[trigger] blocks_towards(
                    blockers@[j].1.sides@,
                    delta,
                )),
        decreases blockers.len() - i,
    {
        if blockers[i].0 == at && sides_block(&blockers[i].1.sides, delta) {
            assert(blocks_towards(blockers@[i as int].1.sides@, delta));
            return true;
        }
        i = i + 1;
    }
    false
}

/// Some blocker stands at `at`.
pub open spec fn blocker_at(blockers: Seq<(Vector3i, Blocker)>, at: Vector3i) -> bool {
    exists|i: int| 0 <= i < blockers.len() && (#[trigger] blockers[i]).0 == at
}

/// Whether some blocker stands at `at`.
fn has_blocker_at(blockers: &Vec<(Vector3i, Blocker)>, at: Vector3i) -> (b: bool)
    ensures
        b == blocker_at(blockers@, at),
{
    let mut i: usize = 0;
    while i < blockers.len()
        invariant
            0 <= i <= blockers.len(),
            forall|j: int| 0 <= j < i ==> (#[trigger] blockers@[j]).0 != at,
        decreases blockers.len() - i,
    {
        if blockers[i].0 == at {
            assert(blockers@[i as int].0 == at);
            return true;
        }
        i = i + 1;
    }
    false
}

/// Whether a blocker on the cell an entity leaves, or on the cell it enters, stops
/// the move from `player_position` to `target_position`. The difference towards a
/// cell is worked out only when a blocker stands on the other.
pub fn is_entity_blocked(
    blockers: &Vec<(Vector3i, Blocker)>,
    player_position: Vector3i,
    target_position: Vector3i,
) -> (b: bool)
    requires
        blocker_at(blockers@, player_position) ==> target_position.sub_in_range(player_position),
        blocker_at(blockers@, target_position) ==> player_position.sub_in_range(target_position),
    ensures
        b == move_blocked(blockers@, player_position, target_position),
{
    if has_blocker_at(blockers, player_position) {
        let delta = target_position.sub(player_position).normalize_delta();
        if any_blocker_at(blockers, player_position, delta) {
            return true;
        }
    }
    if has_blocker_at(blockers, target_position) {
        let back = player_position.sub(target_position).normalize_delta();
        any_blocker_at(blockers, target_position, back)
    } else {
        false
    }
}

/// A move from `p` to `t` is stopped by a blocker on either cell, and a diagonal
/// move also by any blocker on the two cells it cuts past, or between them and `p`.
pub open spec fn entity_blocking(blockers: Seq<(Vector3i, Blocker)>, p: Vector3i, t: Vector3i) -> bool {
    let delta = t.minus(p).normalized();
    let n = p.plus(Vector3i::of(0, -1, 0));
    let s = p.plus(Vector3i::of(0, 1, 0));
    let e = p.plus(Vector3i::of(1, 0, 0));
    let w = p.plus(Vector3i::of(-1, 0, 0));
    ||| move_blocked(blockers, p, t)
    ||| delta == Vector3i::of(-1, -1, 0) && (move_blocked(blockers, n, t) || move_blocked(
        blockers,
        w,
        t,
    ) || move_blocked(blockers, p, n) || move_blocked(blockers, p, w))
    ||| delta == Vector3i::of(-1, 1, 0) && (move_blocked(blockers, s, t) || move_blocked(
        blockers,
        w,
        t,
    ) || move_blocked(blockers, p, s) || move_blocked(blockers, p, w))
    ||| delta == Vector3i::of(1, 1, 0) && (move_blocked(blockers, s, t) || move_blocked(
        blockers,
        e,
        t,
    ) || move_blocked(blockers, p, s) || move_blocked(blockers, p, e))
    ||| delta == Vector3i::of(1, -1, 0) && (move_blocked(blockers, n, t) || move_blocked(
        blockers,
        e,
        t,
    ) || move_blocked(blockers, p, n) || move_blocked(blockers, p, e))
}

/// Whether blockers stop an entity at `player_position` from moving to
/// `target_position`, including the cells a diagonal move passes between.
pub fn check_entity_blocking(
    blockers: &Vec<(Vector3i, Blocker)>,
    player_position: Vector3i,
    target_position: Vector3i,
) -> (b: bool)
    requires
        target_position.sub_in_range(player_position),
        blocker_at(blockers@, target_position) ==> player_position.sub_in_range(target_position),
    ensures
        b == entity_blocking(blockers@, player_position, target_position),
        ({
            let d = target_position.minus(player_position).normalized();
            let h = player_position.plus(Vector3i::of(d.x as int, 0, 0));
            let v = player_position.plus(Vector3i::of(0, d.y as int, 0));
            if d.x != 0 && d.y != 0 && d.z == 0 {
                b == (move_blocked(blockers@, player_position, target_position) || move_blocked(
                    blockers@,
                    h,
                    target_position,
                ) || move_blocked(blockers@, v, target_position) || move_blocked(blockers@, player_position, h)
                    || move_blocked(blockers@, player_position, v))
            } else {
                b == move_blocked(blockers@, player_position, target_position)
            }
        }),
{
    let delta = target_position.sub(player_position).normalize_delta();
    if is_entity_blocked(blockers, player_position, target_position) {
        return true;
    }
    if delta == Vector3i::north_west() {
        let n = player_position.add(Vector3i::north());
        let w = player_position.add(Vector3i::west());
        is_entity_blocked(blockers, n, target_position) || is_entity_blocked(
            blockers,
            w,
            target_position,
        ) || is_entity_blocked(blockers, player_position, n) || is_entity_blocked(
            blockers,
            player_position,
            w,
        )
    } else if delta == Vector3i::south_west() {
        let s = player_position.add(Vector3i::south());
        let w = player_position.add(Vector3i::west());
        is_entity_blocked(blockers, s, target_position) || is_entity_blocked(
            blockers,
            w,
            target_position,
        ) || is_entity_blocked(blockers, player_position, s) || is_entity_blocked(
            blockers,
            player_position,
            w,
        )
    } else if delta == Vector3i::south_east() {
        let s = player_position.add(Vector3i::south());
        let e = player_position.add(Vector3i::east());
        is_entity_blocked(blockers, s, target_position) || is_entity_blocked(
            blockers,
            e,
            target_position,
        ) || is_entity_blocked(blockers, player_position, s) || is_entity_blocked(
            blockers,
            player_position,
            e,
        )
    } else if delta == Vector3i::north_east() {
        let n = player_position.add(Vector3i::north());
        let e = player_position.add(Vector3i::east());
        is_entity_blocked(blockers, n, target_position) || is_entity_blocked(
            blockers,
            e,
            target_position,
        ) || is_entity_blocked(blockers, player_position, n) || is_entity_blocked(
            blockers,
            player_position,
            e,
        )
    } else {
        false
    }
}

/// Where a move by `delta` from `current` ends: at `current + delta` when a
/// passable tile stands there and no blocker stops the move; nowhere otherwise.
pub fn resolve_move(
    map: &TileMap,
    blockers: &Vec<(Vector3i, Blocker)>,
    current: Vector3i,
    delta: Vector3i,
) -> (r: Option<Vector3i>)
    requires
        -1 <= delta.x <= 1,
        -1 <= delta.y <= 1,
        -1 <= delta.z <= 1,
        current.add_in_range(delta),
    ensures
        ({
            let t = current.plus(delta);
            r == if map@.contains_key(t) && map@[t].passable && !entity_blocking(blockers@, current, t) {
                Some(t)
            } else {
                None::<Vector3i>
            }
        }),
{
    let target = current.add(delta);
    let passable = match map.get(target) {
        Some(tile) => tile.passable,
        None => false,
    };
    if passable && !check_entity_blocking(blockers, current, target) {
        Some(target)
    } else {
        None
    }
}

/// Blocking works both ways: a move between two cells is stopped exactly when the
/// move back is.
pub proof fn lemma_move_blocked_symmetric(blockers: Seq<(Vector3i, Blocker)>, from: Vector3i, to: Vector3i)
    ensures
        move_blocked(blockers, from, to) == move_blocked(blockers, to, from),
{
}

/// The state the game is in after one pass of the event system over the entities
/// with initiative, given for each, in the order they were handled, whether it is the
/// player and had an intent to carry out: as it was when no entity was handled;
/// ticking on when the player had an intent in this pass; otherwise awaiting input.
pub fn run_state_after_events(player_intents: &Vec<bool>, current: RunState) -> (r: RunState)
    ensures
        player_intents@.len() == 0 ==> r == current,
        player_intents@.len() > 0 && player_intents@.contains(true) ==> r is Ticking,
        player_intents@.len() > 0 && !player_intents@.contains(true) ==> r is AwaitingInput,
{
    let ghost initial = current;
    let mut state = current;
    let mut queue_empty = true;
    let mut i: usize = 0;
    while i < player_intents.len()
        invariant
            0 <= i <= player_intents.len(),
            queue_empty == !player_intents@.subrange(0, i as int).contains(true),
            i == 0 ==> state == initial,
            i > 0 && queue_empty ==> state is AwaitingInput,
            i > 0 && !queue_empty ==> state is Ticking,
        decreases player_intents.len() - i,
    {
        proof {
            let next = player_intents@.subrange(0, i + 1);
            assert(next == player_intents@.subrange(0, i as int).push(player_intents@[i as int]));
            assert(next.contains(true) <==> (player_intents@.subrange(0, i as int).contains(true) || player_intents@[i as int])) by {
                if player_intents@[i as int] {
                    assert(next[i as int] == true);
                }
                if player_intents@.subrange(0, i as int).contains(true) {
                    let k = choose|k: int| 0 <= k < i && player_intents@.subrange(0, i as int)[k] == true;
                    assert(next[k] == true);
                }
                if next.contains(true) {
                    let k = choose|k: int| 0 <= k < i + 1 && next[k] == true;
                    if k < i {
                        assert(player_intents@.subrange(0, i as int)[k] == true);
                    }
                }
            }
        }
        if player_intents[i] {
            queue_empty = false;
        }
        if queue_empty {
            state = RunState::AwaitingInput;
        } else {
            state = RunState::Ticking;
        }
        i = i + 1;
    }
    proof {
        assert(player_intents@.subrange(0, player_intents@.len() as int) == player_intents@);
    }
    state
}

/// A switch after an interaction with id `interaction_id`: used, and so toggled, when
/// its interaction id is that one; as it was otherwise.
pub open spec fn switch_after(s: Option<PowerSwitch>, interaction_id: u32) -> Option<(bool, Seq<char>, u32)> {
    match s {
        Some(s) => Some(
            if s.interaction_id == interaction_id {
                switch_toggled(switch_view(s))
            } else {
                switch_view(s)
            },
        ),
        None => None,
    }
}

/// A door after an interaction with id `interaction_id`: used, and so opened or
/// closed, when its interaction id is that one; as it was otherwise.
pub open spec fn door_after(d: Option<Door>, interaction_id: u32) -> Option<(bool, Seq<char>, u32, u16, u16)> {
    match d {
        Some(d) => Some(
            if d.interaction_id == interaction_id {
                door_toggled(door_view(d))
            } else {
                door_view(d)
            },
        ),
        None => None,
    }
}

/// Carries out the interaction with id `interaction_id` on its target, whose power
/// switch and door, if it has them, are `switch` and `door`: the switch, then the
/// door, is used when its interaction id is the one asked for. Gives whether either
/// was used.
pub fn carry_out_interaction(interaction_id: u32, switch: &mut Option<PowerSwitch>, door: &mut Option<Door>) -> (used:
    bool)
    ensures
        match *final(switch) {
            Some(s) => switch_after(*old(switch), interaction_id) == Some(switch_view(s)),
            None => (*old(switch)) is None,
        },
        match *final(door) {
            Some(d) => door_after(*old(door), interaction_id) == Some(door_view(d)),
            None => (*old(door)) is None,
        },
        used == (((*old(switch)) matches Some(s) && s.interaction_id == interaction_id) || ((*old(door)) matches Some(d)
            && d.interaction_id == interaction_id)),
{
    let mut used = false;
    match switch {
        Some(s) => {
            if s.interaction_id == interaction_id {
                s.toggle();
                used = true;
            }
        },
        None => {},
    }
    match door {
        Some(d) => {
            if d.interaction_id == interaction_id {
                d.open_close();
                used = true;
            }
        },
        None => {},
    }
    used
}

/// A node once an interaction with `target` asks for power to be worked out again:
/// marked dirty when it is the target's own node, or when the target is a breaker box
/// standing at `breaker_at` and the node stands there too.
pub open spec fn marked_for_rebuild(n: PowerNodeRecord, target: u32, breaker_at: Option<Vector3i>) -> PowerNodeRecord {
    PowerNodeRecord {
        dirty: n.dirty || n.entity_id == target || (breaker_at is Some && n.position == breaker_at),
        ..n
    }
}

/// Marks for rebuilding the power nodes an interaction with `target` touches: the
/// target's own node, and, when the target is a breaker box at `breaker_at`, every
/// node standing there.
pub fn mark_for_rebuild(nodes: &Vec<PowerNodeRecord>, target: u32, breaker_at: Option<Vector3i>) -> (r: Vec<
    PowerNodeRecord,
>)
    ensures
        r@.len() == nodes@.len(),
        forall|i: int| 0 <= i < nodes@.len() ==> r@[i] == marked_for_rebuild(#[trigger] nodes@[i], target, breaker_at),
{
    let mut out: Vec<PowerNodeRecord> = Vec::new();
    let mut i: usize = 0;
    while i < nodes.len()
        invariant
            0 <= i <= nodes.len(),
            out@.len() == i,
            forall|k: int| 0 <= k < i ==> out@[k] == marked_for_rebuild(#[trigger] nodes@[k], target, breaker_at),
        decreases nodes.len() - i,
    {
        let n = nodes[i];
        let at_breaker = match (breaker_at, n.position) {
            (Some(b), Some(p)) => b == p,
            _ => false,
        };
        out.push(PowerNodeRecord { dirty: n.dirty || n.entity_id == target || at_breaker, ..n });
        i = i + 1;
    }
    out
}

} // verus!
