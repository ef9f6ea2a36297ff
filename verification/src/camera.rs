use vstd::prelude::*;

use crate::vectors::Vector3i;

verus! {

/// A camera the map view can follow.
#[derive(Clone, Copy, Debug)]
pub struct Camera {
    pub is_active: bool,
    pub power_overlay: bool,
}

impl Camera {
    /// A camera without the power overlay.
    pub fn new(is_active: bool) -> (c: Self)
        ensures
            c.is_active == is_active,
            !c.power_overlay,
    {
        Self { is_active, power_overlay: false }
    }
}

/// The cameras with every active one moved by `delta`.
pub open spec fn cameras_moved(cameras: Seq<(Vector3i, Camera)>, delta: Vector3i) -> Seq<(Vector3i, Camera)> {
    Seq::new(
        cameras.len(),
        |i: int|
            if cameras[i].1.is_active {
                (cameras[i].0.plus(delta), cameras[i].1)
            } else {
                cameras[i]
            },
    )
}

/// Every active camera can be moved by `delta` without leaving the grid.
pub open spec fn cameras_can_move(cameras: Seq<(Vector3i, Camera)>, delta: Vector3i) -> bool {
    forall|i: int| 0 <= i < cameras.len() && (#[trigger] cameras[i]).1.is_active ==> cameras[i].0.add_in_range(delta)
}

/// Moving the cameras by `delta` and then back by the opposite step puts every camera
/// where it was.
pub proof fn lemma_camera_move_undo(cameras: Seq<(Vector3i, Camera)>, delta: Vector3i)
    requires
        cameras_can_move(cameras, delta),
        delta.x > i32::MIN && delta.y > i32::MIN && delta.z > i32::MIN,
    ensures
        cameras_can_move(cameras_moved(cameras, delta), Vector3i::of(-delta.x, -delta.y, -delta.z)),
        cameras_moved(cameras_moved(cameras, delta), Vector3i::of(-delta.x, -delta.y, -delta.z)) == cameras,
{
    let back = Vector3i::of(-delta.x, -delta.y, -delta.z);
    let moved = cameras_moved(cameras, delta);
    assert forall|i: int| 0 <= i < moved.len() && (#[trigger] moved[i]).1.is_active implies moved[i].0.add_in_range(
        back,
    ) by {
        assert(cameras[i].1.is_active);
        assert(cameras[i].0.add_in_range(delta));
    }
    assert(cameras_moved(moved, back) =~= cameras);
}

/// The cameras with the power overlay of every active one switched over.
pub open spec fn overlays_toggled(cameras: Seq<(Vector3i, Camera)>) -> Seq<(Vector3i, Camera)> {
    Seq::new(
        cameras.len(),
        |i: int|
            if cameras[i].1.is_active {
                (cameras[i].0, Camera { is_active: true, power_overlay: !cameras[i].1.power_overlay })
            } else {
                cameras[i]
            },
    )
}

/// Switching the power overlay over twice leaves every camera as it was.
pub proof fn lemma_overlay_toggle_twice(cameras: Seq<(Vector3i, Camera)>)
    ensures
        overlays_toggled(overlays_toggled(cameras)) == cameras,
{
    assert(overlays_toggled(overlays_toggled(cameras)) =~= cameras);
}

/// Every active camera moved by `delta`; the others left where they are.
pub fn update_camera_position(delta: Vector3i, cameras: &mut Vec<(Vector3i, Camera)>)
    requires
        forall|i: int|
            0 <= i < old(cameras)@.len() && (#[trigger] old(cameras)@[i]).1.is_active
                ==> old(cameras)@[i].0.add_in_range(delta),
    ensures
        final(cameras)@ == cameras_moved(old(cameras)@, delta),
        final(cameras)@.len() == old(cameras)@.len(),
        forall|i: int|
            0 <= i < final(cameras)@.len() ==> (#[trigger] final(cameras)@[i]).1 == old(cameras)@[i].1
                && final(cameras)@[i].0 == (if old(cameras)@[i].1.is_active {
                old(cameras)@[i].0.plus(delta)
            } else {
                old(cameras)@[i].0
            }),
{
    let mut i: usize = 0;
    while i < cameras.len()
        invariant
            0 <= i <= cameras.len(),
            cameras@.len() == old(cameras)@.len(),
            forall|j: int| i <= j < cameras@.len() ==> cameras@[j] == old(cameras)@[j],
            forall|j: int|
                0 <= j < old(cameras)@.len() && (#[trigger] old(cameras)@[j]).1.is_active
                    ==> old(cameras)@[j].0.add_in_range(delta),
            forall|j: int|
                0 <= j < i ==> (#[trigger] cameras@[j]).1 == old(cameras)@[j].1 && cameras@[j].0
                    == (if old(cameras)@[j].1.is_active {
                    old(cameras)@[j].0.plus(delta)
                } else {
                    old(cameras)@[j].0
                }),
        decreases cameras.len() - i,
    {
        let (position, camera) = cameras[i];
        if camera.is_active {
            assert(old(cameras)@[i as int].1.is_active);
            cameras.set(i, (position.add(delta), camera));
        }
        i = i + 1;
    }
    assert(cameras@ =~= cameras_moved(old(cameras)@, delta));
}

/// Every active camera moved to `new_position`.
pub fn set_camera_position(new_position: Vector3i, cameras: &mut Vec<(Vector3i, Camera)>)
    ensures
        final(cameras)@.len() == old(cameras)@.len(),
        forall|i: int|
            0 <= i < final(cameras)@.len() ==> (#[trigger] final(cameras)@[i]).1 == old(cameras)@[i].1
                && final(cameras)@[i].0 == (if old(cameras)@[i].1.is_active {
                new_position
            } else {
                old(cameras)@[i].0
            }),
{
    let mut i: usize = 0;
    while i < cameras.len()
        invariant
            0 <= i <= cameras.len(),
            cameras@.len() == old(cameras)@.len(),
            forall|j: int| i <= j < cameras@.len() ==> cameras@[j] == old(cameras)@[j],
            forall|j: int|
                0 <= j < i ==> (#[trigger] cameras@[j]).1 == old(cameras)@[j].1 && cameras@[j].0
                    == (if old(cameras)@[j].1.is_active {
                    new_position
                } else {
                    old(cameras)@[j].0
                }),
        decreases cameras.len() - i,
    {
        let (position, camera) = cameras[i];
        if camera.is_active {
            cameras.set(i, (new_position, camera));
        }
        i = i + 1;
    }
}

/// Every active camera moved to level `new_z`, keeping its `x` and `y`.
pub fn set_camera_z(new_z: i32, cameras: &mut Vec<(Vector3i, Camera)>)
    ensures
        final(cameras)@.len() == old(cameras)@.len(),
        forall|i: int|
            0 <= i < final(cameras)@.len() ==> (#[trigger] final(cameras)@[i]).1 == old(cameras)@[i].1
                && final(cameras)@[i].0 == (if old(cameras)@[i].1.is_active {
                Vector3i { z: new_z, ..old(cameras)@[i].0 }
            } else {
                old(cameras)@[i].0
            }),
{
    let mut i: usize = 0;
    while i < cameras.len()
        invariant
            0 <= i <= cameras.len(),
            cameras@.len() == old(cameras)@.len(),
            forall|j: int| i <= j < cameras@.len() ==> cameras@[j] == old(cameras)@[j],
            forall|j: int|
                0 <= j < i ==> (#[trigger] cameras@[j]).1 == old(cameras)@[j].1 && cameras@[j].0
                    == (if old(cameras)@[j].1.is_active {
                    Vector3i { z: new_z, ..old(cameras)@[j].0 }
                } else {
                    old(cameras)@[j].0
                }),
        decreases cameras.len() - i,
    {
        let (position, camera) = cameras[i];
        if camera.is_active {
            cameras.set(i, (Vector3i::new(position.x, position.y, new_z), camera));
        }
        i = i + 1;
    }
}

/// Every active camera moved back onto the player at `player_position`.
pub fn reset_camera_position(player_position: Vector3i, cameras: &mut Vec<(Vector3i, Camera)>)
    ensures
        final(cameras)@.len() == old(cameras)@.len(),
        forall|i: int|
            0 <= i < final(cameras)@.len() ==> (#[trigger] final(cameras)@[i]).1 == old(cameras)@[i].1
                && final(cameras)@[i].0 == (if old(cameras)@[i].1.is_active {
                player_position
            } else {
                old(cameras)@[i].0
            }),
{
    set_camera_position(player_position, cameras);
}

/// The power overlay of every active camera switched over.
pub fn toggle_camera_power_overlay(cameras: &mut Vec<(Vector3i, Camera)>)
    ensures
        final(cameras)@ == overlays_toggled(old(cameras)@),
        final(cameras)@.len() == old(cameras)@.len(),
        forall|i: int|
            0 <= i < final(cameras)@.len() ==> (#[trigger] final(cameras)@[i]).0 == old(cameras)@[i].0
                && final(cameras)@[i].1.is_active == old(cameras)@[i].1.is_active
                && final(cameras)@[i].1.power_overlay == (if old(cameras)@[i].1.is_active {
                !old(cameras)@[i].1.power_overlay
            } else {
                old(cameras)@[i].1.power_overlay
            }),
{
    let mut i: usize = 0;
    while i < cameras.len()
        invariant
            0 <= i <= cameras.len(),
            cameras@.len() == old(cameras)@.len(),
            forall|j: int| i <= j < cameras@.len() ==> cameras@[j] == old(cameras)@[j],
            forall|j: int|
                0 <= j < i ==> (#[trigger] cameras@[j]).0 == old(cameras)@[j].0
                    && cameras@[j].1.is_active == old(cameras)@[j].1.is_active
                    && cameras@[j].1.power_overlay == (if old(cameras)@[j].1.is_active {
                    !old(cameras)@[j].1.power_overlay
                } else {
                    old(cameras)@[j].1.power_overlay
                }),
        decreases cameras.len() - i,
    {
        let (position, camera) = cameras[i];
        if camera.is_active {
            cameras.set(i, (position, Camera { is_active: true, power_overlay: !camera.power_overlay }));
        }
        i = i + 1;
    }
    assert(cameras@ =~= overlays_toggled(old(cameras)@));
}

/// The position of the last active camera, or the origin when none is active.
pub open spec fn viewport_spec(cameras: Seq<(Vector3i, Camera)>) -> Vector3i
    decreases cameras.len(),
{
    if cameras.len() == 0 {
        Vector3i::of(0, 0, 0)
    } else if cameras.last().1.is_active {
        cameras.last().0
    } else {
        viewport_spec(cameras.drop_last())
    }
}

/// Where the map view is centred: the position of the last active camera.
pub fn get_viewport_position(cameras: &Vec<(Vector3i, Camera)>) -> (p: Vector3i)
    ensures
        p == viewport_spec(cameras@),
{
    let mut viewport_position = Vector3i::new_equi(0);
    let mut i: usize = 0;
    while i < cameras.len()
        invariant
            0 <= i <= cameras.len(),
            viewport_position == viewport_spec(cameras@.subrange(0, i as int)),
        decreases cameras.len() - i,
    {
        assert(cameras@.subrange(0, i + 1).drop_last() =~= cameras@.subrange(0, i as int));
        if cameras[i].1.is_active {
            viewport_position = cameras[i].0;
        }
        i = i + 1;
    }
    assert(cameras@.subrange(0, cameras@.len() as int) =~= cameras@);
    viewport_position
}

} // verus!
