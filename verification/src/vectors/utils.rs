use vstd::prelude::*;

verus! {

use super::Vector3i;

/// No component of `p` is at the edge of the `i32` range, so every unit step fits.
pub open spec fn steps_fit(p: Vector3i) -> bool {
    &&& i32::MIN < p.x < i32::MAX
    &&& i32::MIN < p.y < i32::MAX
    &&& i32::MIN < p.z < i32::MAX
}

/// The eight horizontal neighbours, clockwise from north.
pub open spec fn neighbours_spec(p: Vector3i) -> Seq<Vector3i> {
    seq![
        Vector3i::of(p.x as int, p.y - 1, p.z as int),
        Vector3i::of(p.x + 1, p.y - 1, p.z as int),
        Vector3i::of(p.x + 1, p.y as int, p.z as int),
        Vector3i::of(p.x + 1, p.y + 1, p.z as int),
        Vector3i::of(p.x as int, p.y + 1, p.z as int),
        Vector3i::of(p.x - 1, p.y + 1, p.z as int),
        Vector3i::of(p.x - 1, p.y as int, p.z as int),
        Vector3i::of(p.x - 1, p.y - 1, p.z as int),
    ]
}

/// Below, above, then the eight horizontal neighbours.
pub open spec fn neighbours_with_z_spec(p: Vector3i) -> Seq<Vector3i> {
    seq![Vector3i::of(p.x as int, p.y as int, p.z - 1), Vector3i::of(p.x as int, p.y as int, p.z + 1)] + neighbours_spec(p)
}

/// North, east, south, west.
pub open spec fn cardinal_neighbours_spec(p: Vector3i) -> Seq<Vector3i> {
    seq![
        Vector3i::of(p.x as int, p.y - 1, p.z as int),
        Vector3i::of(p.x + 1, p.y as int, p.z as int),
        Vector3i::of(p.x as int, p.y + 1, p.z as int),
        Vector3i::of(p.x - 1, p.y as int, p.z as int),
    ]
}

/// Below, above, then north, east, south, west.
pub open spec fn cardinal_neighbours_with_z_spec(p: Vector3i) -> Seq<Vector3i> {
    seq![Vector3i::of(p.x as int, p.y as int, p.z - 1), Vector3i::of(p.x as int, p.y as int, p.z + 1)]
        + cardinal_neighbours_spec(p)
}

/// The eight horizontal neighbours of `position`.
pub fn get_neighbours(position: Vector3i) -> (r: Vec<Vector3i>)
    requires
        steps_fit(position),
    ensures
        r@ == neighbours_spec(position),
{
    let (x, y, z) = (position.x, position.y, position.z);
    let r = vec![
        Vector3i::new(x, y - 1, z),
        Vector3i::new(x + 1, y - 1, z),
        Vector3i::new(x + 1, y, z),
        Vector3i::new(x + 1, y + 1, z),
        Vector3i::new(x, y + 1, z),
        Vector3i::new(x - 1, y + 1, z),
        Vector3i::new(x - 1, y, z),
        Vector3i::new(x - 1, y - 1, z),
    ];
    assert(r@ =~= neighbours_spec(position));
    r
}

/// The eight horizontal neighbours of `position` and the cells below and above it.
pub fn get_neighbours_with_z(position: Vector3i) -> (r: Vec<Vector3i>)
    requires
        steps_fit(position),
    ensures
        r@ == neighbours_with_z_spec(position),
{
    let (x, y, z) = (position.x, position.y, position.z);
    let r = vec![
        Vector3i::new(x, y, z - 1),
        Vector3i::new(x, y, z + 1),
        Vector3i::new(x, y - 1, z),
        Vector3i::new(x + 1, y - 1, z),
        Vector3i::new(x + 1, y, z),
        Vector3i::new(x + 1, y + 1, z),
        Vector3i::new(x, y + 1, z),
        Vector3i::new(x - 1, y + 1, z),
        Vector3i::new(x - 1, y, z),
        Vector3i::new(x - 1, y - 1, z),
    ];
    assert(r@ =~= neighbours_with_z_spec(position));
    r
}

/// The four cardinal neighbours of `position`.
pub fn get_cardinal_neighbours(position: Vector3i) -> (r: Vec<Vector3i>)
    requires
        steps_fit(position),
    ensures
        r@ == cardinal_neighbours_spec(position),
{
    let (x, y, z) = (position.x, position.y, position.z);
    let r = vec![
        Vector3i::new(x, y - 1, z),
        Vector3i::new(x + 1, y, z),
        Vector3i::new(x, y + 1, z),
        Vector3i::new(x - 1, y, z),
    ];
    assert(r@ =~= cardinal_neighbours_spec(position));
    r
}

/// The four cardinal neighbours of `position` and the cells below and above it.
pub fn get_cardinal_neighbours_with_z(position: Vector3i) -> (r: Vec<Vector3i>)
    requires
        steps_fit(position),
    ensures
        r@ == cardinal_neighbours_with_z_spec(position),
{
    let (x, y, z) = (position.x, position.y, position.z);
    let r = vec![
        Vector3i::new(x, y, z - 1),
        Vector3i::new(x, y, z + 1),
        Vector3i::new(x, y - 1, z),
        Vector3i::new(x + 1, y, z),
        Vector3i::new(x, y + 1, z),
        Vector3i::new(x - 1, y, z),
    ];
    assert(r@ =~= cardinal_neighbours_with_z_spec(position));
    r
}

/// True when `position` is `target` or the cell straight above or below it.
pub fn position_in_over_under(position: Vector3i, target: Vector3i) -> (b: bool)
    requires
        i32::MIN < target.z < i32::MAX,
    ensures
        b == (position.x == target.x && position.y == target.y && (position.z == target.z
            || position.z == target.z + 1 || position.z == target.z - 1)),
{
    position == target || position == target.add(Vector3i::up()) || position == target.add(
        Vector3i::down(),
    )
}

} // verus!
