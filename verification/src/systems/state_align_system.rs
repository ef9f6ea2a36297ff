use vstd::prelude::*;

use crate::entities::components::Door;
use crate::vectors::Vector3i;

verus! {

/// What aligning a door's entity with the door's state leaves it with.
#[derive(Clone, Copy, Debug, PartialEq, Eq, Structural)]
pub struct DoorAlignment {
    /// The glyph the door is drawn with, when it is drawn at all.
    pub glyph: Option<u16>,
    /// Whether the door's cell stops movement.
    pub blocker: bool,
    /// Whether the door's cell stops sight.
    pub vision_blocker: bool,
    /// Whether the cell's blocking changed, so that views around it must be
    /// worked out again.
    pub changed: bool,
}

/// What aligning a door with its state gives: an open door is drawn open and
/// blocks nothing; a closed door is drawn closed, blocks movement on every side,
/// and blocks sight too when it is drawn opaque. The cell changed when an open
/// door lost its blocker or a closed door gained one.
pub open spec fn door_alignment_spec(
    open: bool,
    open_glyph: u16,
    closed_glyph: u16,
    drawn: bool,
    opaque: bool,
    had_blocker: bool,
    had_vision_blocker: bool,
) -> DoorAlignment {
    DoorAlignment {
        glyph: if drawn {
            Some(
                if open {
                    open_glyph
                } else {
                    closed_glyph
                },
            )
        } else {
            None
        },
        blocker: !open,
        vision_blocker: !open && (had_vision_blocker || (drawn && opaque)),
        changed: if open {
            had_blocker
        } else {
            !had_blocker
        },
    }
}

/// What aligning reads of one door's entity: the door's state and looks, where it
/// stands, whether it is drawn and drawn fully opaque, and whether its cell blocked
/// movement and sight.
#[derive(Clone, Copy, Debug)]
pub struct DoorState {
    pub open: bool,
    pub open_glyph: u16,
    pub closed_glyph: u16,
    pub position: Vector3i,
    pub drawn: bool,
    pub opaque: bool,
    pub had_blocker: bool,
    pub had_vision_blocker: bool,
}

/// The alignment of the door that `d` describes.
pub open spec fn state_alignment(d: DoorState) -> DoorAlignment {
    door_alignment_spec(d.open, d.open_glyph, d.closed_glyph, d.drawn, d.opaque, d.had_blocker, d.had_vision_blocker)
}

/// The positions of the doors of `doors` whose cell's blocking changes, in order.
pub open spec fn changed_positions(doors: Seq<DoorState>) -> Seq<Vector3i>
    decreases doors.len(),
{
    if doors.len() == 0 {
        Seq::empty()
    } else {
        let rest = changed_positions(doors.drop_last());
        if state_alignment(doors.last()).changed {
            rest.push(doors.last().position)
        } else {
            rest
        }
    }
}

/// Aligns every door in turn: gives each door's alignment, and the positions of the
/// doors whose cell's blocking changed, in order.
pub fn align_doors(doors: &Vec<DoorState>) -> (r: (Vec<DoorAlignment>, Vec<Vector3i>))
    ensures
        r.0@.len() == doors@.len(),
        forall|i: int| 0 <= i < doors@.len() ==> r.0@[i] == state_alignment(#[trigger] doors@[i]),
        r.1@ == changed_positions(doors@),
{
    let mut alignments: Vec<DoorAlignment> = Vec::new();
    let mut changed: Vec<Vector3i> = Vec::new();
    let mut i: usize = 0;
    while i < doors.len()
        invariant
            0 <= i <= doors@.len(),
            alignments@.len() == i,
            forall|k: int| 0 <= k < i ==> alignments@[k] == state_alignment(#[trigger] doors@[k]),
            changed@ == changed_positions(doors@.subrange(0, i as int)),
        decreases doors@.len() - i,
    {
        let d = doors[i];
        let door = Door {
            open: d.open,
            interaction_description: String::new(),
            interaction_id: 0,
            open_glyph: d.open_glyph,
            closed_glyph: d.closed_glyph,
        };
        let a = align_door(&door, d.drawn, d.opaque, d.had_blocker, d.had_vision_blocker);
        alignments.push(a);
        if a.changed {
            changed.push(d.position);
        }
        proof {
            assert(doors@.subrange(0, i + 1).drop_last() =~= doors@.subrange(0, i as int));
            assert(doors@.subrange(0, i + 1).last() == doors@[i as int]);
        }
        i = i + 1;
    }
    proof {
        assert(doors@.subrange(0, doors@.len() as int) =~= doors@);
    }
    (alignments, changed)
}

/// The door `d` once its cell blocks as the alignment `a` says.
pub open spec fn aligned_state(d: DoorState, a: DoorAlignment) -> DoorState {
    DoorState {
        open: d.open,
        open_glyph: d.open_glyph,
        closed_glyph: d.closed_glyph,
        position: d.position,
        drawn: d.drawn,
        opaque: d.opaque,
        had_blocker: a.blocker,
        had_vision_blocker: a.vision_blocker,
    }
}

/// Aligning a door again, once its cell blocks as the first alignment left it, draws
/// it the same, blocks the same and changes nothing.
pub proof fn lemma_alignment_settles(d: DoorState)
    ensures
        ({
            let a = state_alignment(d);
            let again = state_alignment(aligned_state(d, a));
            &&& again.glyph == a.glyph
            &&& again.blocker == a.blocker
            &&& again.vision_blocker == a.vision_blocker
            &&& !again.changed
        }),
{
}

/// Aligning doors leaves an open door drawn open and blocking nothing, and a closed door
/// drawn closed, blocking movement, and blocking sight when drawn opaque; the positions
/// that changed are exactly those of the doors whose cell's blocking changed.
pub proof fn lemma_doors_aligned(doors: Seq<DoorState>, p: Vector3i)
    ensures
        forall|i: int|
            0 <= i < doors.len() ==> {
                let d = #[trigger] doors[i];
                let a = state_alignment(d);
                &&& d.open ==> !a.blocker && !a.vision_blocker && (d.drawn ==> a.glyph == Some(d.open_glyph))
                    && a.changed == d.had_blocker
                &&& !d.open ==> a.blocker && (d.drawn ==> a.glyph == Some(d.closed_glyph)) && (d.drawn && d.opaque
                    ==> a.vision_blocker) && a.changed == !d.had_blocker
                &&& !d.drawn ==> a.glyph is None
            },
        changed_positions(doors).contains(p) <==> exists|i: int|
            0 <= i < doors.len() && (#[trigger] doors[i]).position == p && state_alignment(doors[i]).changed,
    decreases doors.len(),
{
    if doors.len() > 0 {
        let rest = doors.drop_last();
        lemma_doors_aligned(rest, p);
        if changed_positions(doors).contains(p) {
            if changed_positions(rest).contains(p) {
                let i = choose|i: int| 0 <= i < rest.len() && (#[trigger] rest[i]).position == p && state_alignment(rest[i]).changed;
                assert(doors[i] == rest[i]);
            } else {
                let last = doors.len() - 1;
                assert(doors[last] == doors.last());
                let j = choose|j: int| 0 <= j < changed_positions(doors).len() && changed_positions(doors)[j] == p;
                if j < changed_positions(rest).len() {
                    assert(changed_positions(rest)[j] == p);
                }
            }
        }
        if exists|i: int| 0 <= i < doors.len() && (#[trigger] doors[i]).position == p && state_alignment(doors[i]).changed {
            let i = choose|i: int| 0 <= i < doors.len() && (#[trigger] doors[i]).position == p && state_alignment(doors[i]).changed;
            if i < doors.len() - 1 {
                assert(rest[i] == doors[i]);
                let j = choose|j: int| 0 <= j < changed_positions(rest).len() && changed_positions(rest)[j] == p;
                if state_alignment(doors.last()).changed {
                    assert(changed_positions(doors)[j] == p);
                }
            } else {
                assert(doors.last() == doors[i]);
                assert(changed_positions(doors)[changed_positions(rest).len() as int] == p);
            }
        }
    }
}

/// Aligns a door's entity with the door: `drawn` when it has a look, `opaque` when
/// that look is fully opaque, and whether its cell blocked movement and sight.
pub fn align_door(door: &Door, drawn: bool, opaque: bool, had_blocker: bool, had_vision_blocker: bool) -> (r:
    DoorAlignment)
    ensures
        r == door_alignment_spec(
            door.open,
            door.open_glyph,
            door.closed_glyph,
            drawn,
            opaque,
            had_blocker,
            had_vision_blocker,
        ),
{
    if door.open {
        DoorAlignment {
            glyph: if drawn {
                Some(door.open_glyph)
            } else {
                None
            },
            blocker: false,
            vision_blocker: false,
            changed: had_blocker,
        }
    } else {
        DoorAlignment {
            glyph: if drawn {
                Some(door.closed_glyph)
            } else {
                None
            },
            blocker: true,
            vision_blocker: had_vision_blocker || (drawn && opaque),
            changed: !had_blocker,
        }
    }
}

/// `t` lies less than `range` cells from `p`, by the rounded euclidean distance.
pub open spec fn within_view(t: Vector3i, p: Vector3i, range: int) -> bool {
    range > 0 && t.distance_squared(p) <= range * range - range
}

/// Whether one of the `affected` cells lies within `view_distance` of `position`,
/// by the rounded euclidean distance, so that the view from `position` must be
/// worked out again.
pub fn viewshed_affected(affected: &Vec<Vector3i>, position: Vector3i, view_distance: usize) -> (b: bool)
    requires
        view_distance <= i32::MAX,
    ensures
        b == exists|i: int| 0 <= i < affected@.len() && within_view(#[trigger] affected@[i], position, view_distance as int),
{
    let range = view_distance as i64;
    let mut i: usize = 0;
    while i < affected.len()
        invariant
            0 <= i <= affected@.len(),
            range == view_distance,
            view_distance <= i32::MAX,
            forall|j: int| 0 <= j < i ==> !within_view(#[trigger] affected@[j], position, view_distance as int),
        decreases affected@.len() - i,
    {
        let d = affected[i].distance_to_int(position);
        let ghost d2 = affected@[i as int].distance_squared(position);
        if d < range {
            proof {
                assert(d2 <= d * d + d);
                assert(d2 <= range * range - range) by (nonlinear_arith)
                    requires
                        d2 <= d * d + d,
                        0 <= d < range,
                ;
            }
            return true;
        }
        proof {
            assert(!within_view(affected@[i as int], position, view_distance as int)) by {
                if range > 0 {
                    assert(d2 > range * range - range) by (nonlinear_arith)
                        requires
                            d == 0 || d * d - d < d2,
                            d >= range,
                            range > 0,
                    ;
                }
            }
        }
        i = i + 1;
    }
    false
}

/// A viewer of the world: where it stands, how far it sees, and whether its view is
/// already to be worked out again.
#[derive(Clone, Copy, Debug, PartialEq, Eq, Structural)]
pub struct Viewer {
    pub position: Vector3i,
    pub view_distance: usize,
    pub dirty: bool,
}

/// Some door of `doors` whose cell's blocking changes lies within sight of `v`.
pub open spec fn sees_changed_door(doors: Seq<DoorState>, v: Viewer) -> bool {
    exists|i: int|
        0 <= i < doors.len() && state_alignment(#[trigger] doors[i]).changed && within_view(
            doors[i].position,
            v.position,
            v.view_distance as int,
        )
}

/// One run of the door system: every door is aligned with its state, and every viewer
/// that sees a door whose cell's blocking changed must work out its view again. An
/// open door blocks nothing and is drawn open; a closed door blocks movement, is drawn
/// closed, and blocks sight when it is drawn opaque; a door that is not drawn gets no
/// glyph; a viewer's view is to be worked out again when it already was or when it
/// sees such a door, and not otherwise.
pub fn run_door_system(doors: &Vec<DoorState>, viewers: &Vec<Viewer>) -> (r: (Vec<DoorAlignment>, Vec<bool>))
    requires
        forall|v: int| 0 <= v < viewers@.len() ==> (#[trigger] viewers@[v]).view_distance <= i32::MAX,
    ensures
        r.0@.len() == doors@.len(),
        r.1@.len() == viewers@.len(),
        forall|i: int|
            0 <= i < doors@.len() ==> {
                let d = #[trigger] doors@[i];
                let a = r.0@[i];
                &&& a == state_alignment(d)
                &&& d.open ==> !a.blocker && !a.vision_blocker && (d.drawn ==> a.glyph == Some(d.open_glyph))
                &&& !d.open ==> a.blocker && (d.drawn ==> a.glyph == Some(d.closed_glyph)) && (d.drawn && d.opaque
                    ==> a.vision_blocker)
                &&& !d.drawn ==> a.glyph is None
            },
        forall|v: int|
            0 <= v < viewers@.len() ==> r.1@[v] == ((#[trigger] viewers@[v]).dirty || sees_changed_door(
                doors@,
                viewers@[v],
            )),
{
    let (alignments, changed) = align_doors(doors);
    let mut dirty: Vec<bool> = Vec::new();
    let mut v: usize = 0;
    while v < viewers.len()
        invariant
            0 <= v <= viewers.len(),
            dirty@.len() == v,
            changed@ == changed_positions(doors@),
            forall|w: int| 0 <= w < viewers@.len() ==> (#[trigger] viewers@[w]).view_distance <= i32::MAX,
            forall|w: int|
                0 <= w < v ==> dirty@[w] == ((#[trigger] viewers@[w]).dirty || sees_changed_door(doors@, viewers@[w])),
        decreases viewers.len() - v,
    {
        let viewer = viewers[v];
        let seen = viewshed_affected(&changed, viewer.position, viewer.view_distance);
        proof {
            let cp = changed_positions(doors@);
            if seen {
                let j = choose|j: int| 0 <= j < cp.len() && within_view(#[trigger] cp[j], viewer.position, viewer.view_distance as int);
                lemma_doors_aligned(doors@, cp[j]);
                assert(cp.contains(cp[j]));
                let i = choose|i: int| 0 <= i < doors@.len() && (#[trigger] doors@[i]).position == cp[j] && state_alignment(doors@[i]).changed;
                assert(within_view(doors@[i].position, viewer.position, viewer.view_distance as int));
            }
            if sees_changed_door(doors@, viewer) {
                let i = choose|i: int|
                    0 <= i < doors@.len() && state_alignment(#[trigger] doors@[i]).changed && within_view(
                        doors@[i].position,
                        viewer.position,
                        viewer.view_distance as int,
                    );
                lemma_doors_aligned(doors@, doors@[i].position);
                assert(cp.contains(doors@[i].position));
                let j = choose|j: int| 0 <= j < cp.len() && cp[j] == doors@[i].position;
                assert(within_view(cp[j], viewer.position, viewer.view_distance as int));
            }
        }
        dirty.push(viewer.dirty || seen);
        v = v + 1;
    }
    proof {
        lemma_doors_aligned(doors@, Vector3i::of(0, 0, 0));
    }
    (alignments, dirty)
}

} // verus!
