use weirdark::vectors::utils::{
    get_cardinal_neighbours, get_cardinal_neighbours_with_z, get_neighbours, get_neighbours_with_z,
    position_in_over_under,
};
use weirdark::vectors::Vector3i;

#[test]
fn vector_arithmetic_gives_exact_components() {
    let a = Vector3i::new(1, 2, 3);
    let b = Vector3i::new(-4, 5, 0);
    assert_eq!(a.add(b), Vector3i::new(-3, 7, 3));
    assert_eq!(a.sub(b), Vector3i::new(5, -3, 3));
    assert_eq!(a.mul(3), Vector3i::new(3, 6, 9));
    assert_eq!(a.mul_components(b), Vector3i::new(-4, 10, 0));
    assert_eq!(Vector3i::new(-7, 7, 6).div(2), Vector3i::new(-3, 3, 3));
    let mut c = a;
    c.add_assign(b);
    assert_eq!(c, Vector3i::new(-3, 7, 3));
    c.sub_assign(b);
    assert_eq!(c, a);
}

#[test]
fn normalize_delta_gives_the_signs() {
    assert_eq!(Vector3i::new(-9, 0, 4).normalize_delta(), Vector3i::new(-1, 0, 1));
    assert_eq!(Vector3i::new_equi(0).normalize_delta(), Vector3i::new(0, 0, 0));
}

#[test]
fn manhattan_and_distance() {
    let a = Vector3i::new(0, 0, 0);
    assert_eq!(a.manhattan(Vector3i::new(3, -4, 1)), 8);
    assert_eq!(a.distance_to(Vector3i::new(3, 4, 0)), 5);
    assert_eq!(a.distance_to_int(Vector3i::new(1, 1, 0)), 1);
    assert_eq!(a.distance_to_int(Vector3i::new(1, 1, 1)), 2);
    assert_eq!(a.distance_to(Vector3i::new(2, 1, 0)), 2);
    assert_eq!(a.distance_to_int(Vector3i::new(i32::MAX, i32::MAX, i32::MAX)), 3719550785);
}

#[test]
fn direction_vectors() {
    assert_eq!(Vector3i::up(), Vector3i::new(0, 0, 1));
    assert_eq!(Vector3i::down(), Vector3i::new(0, 0, -1));
    assert_eq!(Vector3i::north(), Vector3i::new(0, -1, 0));
    assert_eq!(Vector3i::south(), Vector3i::new(0, 1, 0));
    assert_eq!(Vector3i::east(), Vector3i::new(1, 0, 0));
    assert_eq!(Vector3i::west(), Vector3i::new(-1, 0, 0));
    assert_eq!(Vector3i::north_east(), Vector3i::new(1, -1, 0));
    assert_eq!(Vector3i::south_west(), Vector3i::new(-1, 1, 0));
}

#[test]
fn vector_text() {
    assert_eq!(Vector3i::new(1, -2, 3).to_string(), "{1, -2, 3}");
    assert!(Vector3i::new(4, 4, 4).eq(&Vector3i::new_equi(4)));
}

#[test]
fn neighbour_lists() {
    let p = Vector3i::new(5, 5, 1);
    assert_eq!(
        get_cardinal_neighbours(p),
        vec![Vector3i::new(5, 4, 1), Vector3i::new(6, 5, 1), Vector3i::new(5, 6, 1), Vector3i::new(4, 5, 1)]
    );
    let with_z = get_cardinal_neighbours_with_z(p);
    assert_eq!(with_z.len(), 6);
    assert_eq!(with_z[0], Vector3i::new(5, 5, 0));
    assert_eq!(with_z[1], Vector3i::new(5, 5, 2));
    assert_eq!(get_neighbours(p).len(), 8);
    assert_eq!(get_neighbours(p)[0], Vector3i::new(5, 4, 1));
    assert_eq!(get_neighbours_with_z(p).len(), 10);
    assert!(position_in_over_under(p, Vector3i::new(5, 5, 2)));
    assert!(!position_in_over_under(p, Vector3i::new(5, 5, 7)));
    assert!(!position_in_over_under(p, Vector3i::new(6, 5, 1)));
}

#[test]
fn adding_then_subtracting_gives_back_the_start() {
    let a = Vector3i::new(7, -3, 2);
    let b = Vector3i::new(-100, 40, 1);
    assert_eq!(a.add(b).sub(b), a);
}

#[test]
fn distances_are_symmetric() {
    let a = Vector3i::new(1, 2, 3);
    let b = Vector3i::new(-4, 6, 3);
    assert_eq!(a.distance_to(b), b.distance_to(a));
    assert_eq!(a.distance_to(b), 6);
    assert_eq!(a.manhattan(b), b.manhattan(a));
}

#[test]
fn unit_steps_are_their_own_unit_steps() {
    let v = Vector3i::new(-5, 0, 9).normalize_delta();
    assert_eq!(v.normalize_delta(), v);
}
