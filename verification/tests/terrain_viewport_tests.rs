use lander::geometry::Position;
use lander::rational::Scalar;
use lander::terrain::partition_terrain;
use lander::viewport::ViewPort;

fn s(v: i64) -> Scalar {
    Scalar::from_int(v)
}

fn r(n: i64, d: i64) -> Scalar {
    Scalar::from_ratio(n, d)
}

fn pos(x: i64, y: i64) -> Position {
    Position { x: s(x), y: s(y) }
}

#[test]
fn view_port_tests() {
    let vp = ViewPort::new(pos(0, 480), s(1));

    assert_eq!(vp.translate_pos(&pos(0, 0)).unwrap(), pos(0, 480));
    assert_eq!(vp.translate_pos(&pos(640, 0)).unwrap(), pos(640, 480));
    assert_eq!(vp.translate_pos(&pos(0, 480)).unwrap(), pos(0, 0));
    assert_eq!(vp.translate_pos(&pos(640, 480)).unwrap(), pos(640, 0));

    let vp = ViewPort::new(pos(0, 480), s(2));

    assert_eq!(vp.translate_pos(&pos(0, 0)).unwrap(), pos(0, 240));
    assert_eq!(vp.translate_pos(&pos(640, 0)).unwrap(), pos(320, 240));
    assert_eq!(vp.translate_pos(&pos(0, 480)).unwrap(), pos(0, 0));
    assert_eq!(vp.translate_pos(&pos(640, 480)).unwrap(), pos(320, 0));

    let vp = ViewPort::new(pos(0, 100), r(1, 10));

    assert_eq!(vp.translate_pos(&pos(50, 50)).unwrap(), pos(500, 500));
}

#[test]
fn translate_size_scales_lengths() {
    let vp = ViewPort::new(pos(0, 100), r(3, 20));
    assert_eq!(vp.translate_size(s(100)).unwrap(), r(2000, 3));
    let vp = ViewPort::new(pos(0, 480), s(2));
    assert_eq!(vp.translate_size(s(10)).unwrap(), s(5));
}

#[test]
fn partition_terrain_test() {
    let terrain = vec![pos(0, 5), pos(1, 6), pos(2, 4), pos(3, 4)];
    let polygons = partition_terrain(&terrain).unwrap();
    assert_eq!(
        polygons,
        vec![
            vec![pos(0, 5), pos(1, 6), pos(1, -4), pos(0, -5)],
            vec![pos(1, 6), pos(2, 4), pos(2, -6), pos(1, -4)],
            vec![pos(2, 4), pos(3, 4), pos(3, -6), pos(2, -6)],
        ]
    );
}

#[test]
fn partition_of_short_terrain_is_empty() {
    assert_eq!(partition_terrain(&vec![]).unwrap(), Vec::<Vec<Position>>::new());
    assert_eq!(partition_terrain(&vec![pos(1, 2)]).unwrap(), Vec::<Vec<Position>>::new());
}

#[test]
fn scalars_reduce_to_canonical_form() {
    assert_eq!(r(2, 4), r(1, 2));
    assert_eq!(r(-3, -6), r(1, 2));
    assert_eq!(r(3, -6), r(-1, 2));
    assert_eq!(r(0, 7), s(0));
}

#[test]
fn scalar_addition_overflow_is_reported() {
    let big = s(4611686018427387904);
    assert!(big.checked_add(big).is_none());
    assert!(big.checked_add(s(-1)).is_some());
}
