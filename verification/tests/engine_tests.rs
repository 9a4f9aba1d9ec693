use lander::body::ConvexBody;
use lander::engine::Engine;
use lander::geometry::Position;
use lander::rational::Scalar;

fn s(v: i64) -> Scalar {
    Scalar::from_int(v)
}

fn r(n: i64, d: i64) -> Scalar {
    Scalar::from_ratio(n, d)
}

fn pos(x: i64, y: i64) -> Position {
    Position { x: s(x), y: s(y) }
}

#[test]
fn create_still_body() {
    let mut engine = Engine::create(s(10));
    engine.add_body(ConvexBody::still_body(s(10), vec![pos(100, 100)]));
    engine.tick(s(1)).unwrap();
    {
        let body = &engine.get_bodies()[0];
        assert_eq!(body.mesh, vec![pos(100, 95)]);
    }
    engine.tick(s(1)).unwrap();
    {
        let body = &engine.get_bodies()[0];
        assert_eq!(body.mesh, vec![pos(100, 80)]);
    }
}

#[test]
fn free_fall_on_moon() {
    let mut engine = Engine::create(r(13, 8));
    engine.add_body(ConvexBody::still_body(s(10), vec![pos(100, 100)]));
    engine.tick(s(1)).unwrap();
    {
        let body = &engine.get_bodies()[0];
        assert_eq!(body.mesh, vec![Position { x: s(100), y: r(1587, 16) }]);
    }
}

#[test]
fn force_opposite_to_gravity() {
    let mut engine = Engine::create(s(10));
    engine.add_body(ConvexBody::still_body(s(10), vec![pos(100, 100)]));
    assert!(engine.get_bodies_mut().first_mut().unwrap().apply_force(s(0), s(100)));

    engine.tick(s(1)).unwrap();

    let body = &engine.get_bodies()[0];
    assert_eq!(body.mesh, vec![pos(100, 100)]);
}

#[test]
fn set_resulting_force() {
    let mut engine = Engine::create(s(10));
    engine.add_body(ConvexBody::still_body(s(10), vec![pos(100, 100)]));
    assert!(engine.get_bodies_mut().first_mut().unwrap().set_resulting_force(s(0), s(100)));

    engine.tick(s(1)).unwrap();

    let body = &engine.get_bodies()[0];
    assert_eq!(body.mesh, vec![pos(100, 100)]);
}

#[test]
fn forces_on_both_axis() {
    let mut engine = Engine::create(s(0));
    engine.add_body(ConvexBody::still_body(s(10), vec![pos(100, 100)]));

    {
        let body = engine.get_bodies_mut().first_mut().unwrap();
        assert!(body.apply_force(s(100), s(0)));
        assert!(body.apply_force(s(0), s(100)));
    }

    engine.tick(s(1)).unwrap();

    let body = &engine.get_bodies()[0];
    assert_eq!(body.mesh, vec![pos(105, 105)]);
}

#[test]
fn collision_between_non_fixed_and_fixed_body() {
    let mut engine = Engine::create(s(10));
    engine.add_body(ConvexBody::fixed_body(vec![
        pos(0, 0),
        pos(4, 0),
        pos(4, -1),
        pos(0, -1),
    ]));
    engine.add_body(ConvexBody::still_body(
        s(10),
        vec![pos(1, 1), pos(2, 1), Position { x: r(3, 2), y: s(2) }],
    ));
    assert!(engine.tick(r(1, 2)).is_some());
}

#[test]
fn force_balance_cancels_gravity_other_values() {
    // mass 7 under gravity 3/2: a force of (0, 21/2) leaves the body still
    let mut engine = Engine::create(r(3, 2));
    engine.add_body(ConvexBody::still_body(s(7), vec![pos(-3, 8), pos(5, 9)]));
    assert!(engine.get_bodies_mut().first_mut().unwrap().apply_force(s(0), r(21, 2)));
    engine.tick(s(2)).unwrap();
    let body = &engine.get_bodies()[0];
    assert_eq!(body.mesh, vec![pos(-3, 8), pos(5, 9)]);
}

#[test]
fn resulting_force_ignores_prior_forces() {
    // whatever forces accumulated before, only the force set last counts
    let mut engine = Engine::create(s(10));
    engine.add_body(ConvexBody::still_body(s(10), vec![pos(100, 100)]));
    {
        let body = engine.get_bodies_mut().first_mut().unwrap();
        assert!(body.apply_force(s(50), s(-75)));
        assert!(body.set_resulting_force(s(0), s(100)));
    }
    engine.tick(s(1)).unwrap();
    let body = &engine.get_bodies()[0];
    assert_eq!(body.mesh, vec![pos(100, 100)]);
}

#[test]
fn single_body_yields_no_pairs() {
    let mut engine = Engine::create(s(10));
    engine.add_body(ConvexBody::still_body(s(10), vec![pos(100, 100)]));
    let pairs = engine.tick(s(1)).unwrap();
    assert_eq!(pairs, vec![]);
}

#[test]
fn overlapping_bodies_report_distinct_pairs() {
    // two overlapping triangles: both ordered pairs appear, never (i, i)
    let mut engine = Engine::create(s(0));
    engine.add_body(ConvexBody::fixed_body(vec![pos(1, 1), pos(3, 1), pos(2, 3)]));
    engine.add_body(ConvexBody::fixed_body(vec![pos(2, 2), pos(1, 4), pos(3, 4)]));
    let pairs = engine.tick(s(1)).unwrap();
    assert_eq!(pairs, vec![(0, 1), (1, 0)]);
}

#[test]
fn force_overflow_reports_failure() {
    // a mass so small that accumulating the force twice leaves the
    // representable range; the failing call leaves the body unchanged
    let tiny = r(1, 4611686018427387903);
    let mut engine = Engine::create(s(10));
    engine.add_body(ConvexBody::still_body(tiny, vec![pos(0, 0)]));
    assert!(engine.get_bodies_mut().first_mut().unwrap().apply_force(s(0), s(1)));
    let acc_after_first = engine.get_bodies()[0].acceleration;
    assert!(!engine.get_bodies_mut().first_mut().unwrap().apply_force(s(0), s(1)));
    assert_eq!(engine.get_bodies()[0].acceleration, acc_after_first);
}

#[test]
fn tick_overflow_leaves_engine_unchanged() {
    let huge = 4611686018427387904;
    let mut engine = Engine::create(s(-10));
    engine.add_body(ConvexBody::still_body(r(1, huge), vec![pos(0, 0)]));
    assert!(engine.get_bodies_mut().first_mut().unwrap().apply_force(s(0), s(1)));
    let before_acc = engine.get_bodies()[0].acceleration;
    assert!(engine.tick(s(1)).is_none());
    let body = &engine.get_bodies()[0];
    assert_eq!(body.mesh, vec![pos(0, 0)]);
    assert_eq!(body.acceleration, before_acc);
    assert_eq!(body.velocity.y, s(0));
}

#[test]
fn report_collision_marks_the_body() {
    let body = ConvexBody::still_body(s(10), vec![pos(0, 0)]).report_collision();
    assert!(body.report_collision);
    assert_eq!(body.mesh, vec![pos(0, 0)]);
}
