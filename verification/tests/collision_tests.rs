use lander::collision::collided;
use lander::geometry::{Gradient, Position};
use lander::rational::Scalar;

fn s(v: i64) -> Scalar {
    Scalar::from_int(v)
}

fn pos(x: i64, y: i64) -> Position {
    Position { x: s(x), y: s(y) }
}

fn project(p: Position, gradient: i64) -> Position {
    lander::geometry::project(&p, &Gradient::Finite(s(gradient))).unwrap()
}

#[test]
fn point_projection() {
    assert_eq!(project(pos(5, 0), 0), pos(5, 0));
    assert_eq!(project(pos(0, 5), 0), pos(0, 0));
    assert_eq!(project(pos(2, 0), 1), pos(1, 1));
    assert_eq!(project(pos(0, 2), 1), pos(1, 1));
    assert_eq!(project(pos(2, 0), -1), pos(1, -1));
    assert_eq!(project(pos(0, -2), -1), pos(1, -1));
}

#[test]
fn vertical_gradient_projection() {
    let q = lander::geometry::project(&pos(3, 7), &Gradient::Vertical).unwrap();
    assert_eq!(q, pos(0, 7));
}

#[test]
fn collision_two_non_intersecting_triangles() {
    let triangle1 = vec![pos(1, 1), pos(3, 1), pos(2, 3)];
    let triangle2 = vec![pos(3, 3), pos(4, 1), pos(5, 3)];
    assert!(!collided(&triangle1, &triangle2).unwrap());
}

#[test]
fn collision_two_triangles_sharing_one_edge() {
    let triangle1 = vec![pos(1, 1), pos(3, 1), pos(2, 3)];
    let triangle2 = vec![pos(2, 3), pos(3, 1), pos(4, 3)];
    assert!(collided(&triangle1, &triangle2).unwrap());
}

#[test]
fn collision_two_triangles_overlapping() {
    let triangle1 = vec![pos(1, 1), pos(3, 1), pos(2, 3)];
    let triangle2 = vec![pos(2, 2), pos(1, 4), pos(3, 4)];
    assert!(collided(&triangle1, &triangle2).unwrap());
}

#[test]
fn collision_two_rectangles() {
    let mesh1 = vec![pos(0, 20), pos(100, 20), pos(100, 10), pos(0, 10)];
    let mesh2 = vec![pos(40, 20), pos(50, 20), pos(50, 30), pos(40, 30)];
    assert!(collided(&mesh1, &mesh2).unwrap());
}

#[test]
fn collision_trapezoid_and_rectangle() {
    let trapezoid = vec![pos(0, 0), pos(20, 0), pos(10, 10), pos(0, 10)];
    let rectangle = vec![pos(16, 5), pos(25, 5), pos(25, 15), pos(16, 15)];
    assert!(!collided(&rectangle, &trapezoid).unwrap());
}

#[test]
fn degenerate_meshes_never_collide() {
    // an edge whose endpoints coincide admits no projection axis and is
    // treated as separating, so single-point meshes never collide
    let point = vec![pos(5, 5)];
    assert!(!collided(&point, &point).unwrap());
    let triangle = vec![pos(4, 4), pos(6, 4), pos(5, 6)];
    assert!(!collided(&point, &triangle).unwrap());
}

#[test]
fn collision_is_symmetric_on_overlap() {
    let triangle1 = vec![pos(1, 1), pos(3, 1), pos(2, 3)];
    let triangle2 = vec![pos(2, 2), pos(1, 4), pos(3, 4)];
    assert_eq!(
        collided(&triangle1, &triangle2).unwrap(),
        collided(&triangle2, &triangle1).unwrap()
    );
}
