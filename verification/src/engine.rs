//! The simulation engine: owns the bodies and the gravitational constant,
//! advances the simulation by discrete time steps, and reports which pairs of
//! bodies currently overlap.

use crate::adapters::index_grid;
use crate::body::{spec_apply_force_acc, spec_resulting_acc, ConvexBody};
use crate::collision::{collided, spec_collided};
use crate::geometry::{all_wf, Position, Vector};
use crate::rational::{
    add_d, add_n, eq_rat, frac_eq, lemma_add_canonical_zero, lemma_add_value,
    lemma_add_zero_zero, lemma_div_value, lemma_mul_zero, lemma_sub_zero_iff, spec_add, spec_div,
    spec_mul, spec_neg, spec_sub, Scalar,
};
use vstd::arithmetic::div_mod::{
    lemma_div_pos_is_pos, lemma_mod_division_less_than_divisor, lemma_multiply_divide_lt,
};
use vstd::prelude::*;

verus! {

/// Upper bound on the number of bodies an engine manages; it keeps the
/// pairwise collision scan's index grid small.
pub const MAX_BODIES: usize = 4096;

/// The velocity after one step of semi-implicit Euler: the gravitational
/// acceleration is subtracted from the body's y-acceleration, and
/// `v1 = v0 + a * dt` componentwise. `None` only on overflow.
pub open spec fn spec_step_velocity(body: ConvexBody, ga: Scalar, dt: Scalar) -> Option<Vector> {
    match spec_sub(body.acceleration.y, ga) {
        None => None,
        Some(ay) => {
            match spec_mul(body.acceleration.x, dt) {
                None => None,
                Some(mx) => {
                    match spec_add(body.velocity.x, mx) {
                        None => None,
                        Some(vx) => {
                            match spec_mul(ay, dt) {
                                None => None,
                                Some(my) => {
                                    match spec_add(body.velocity.y, my) {
                                        None => None,
                                        Some(vy) => Some(Vector { x: vx, y: vy }),
                                    }
                                },
                            }
                        },
                    }
                },
            }
        },
    }
}

/// The new velocity together with the trapezoidal displacement
/// `s = (dt / 2) * (v1 + v0)`, componentwise. `None` only on overflow.
pub open spec fn spec_step_displacement(body: ConvexBody, ga: Scalar, dt: Scalar) -> Option<
    (Vector, Scalar, Scalar),
> {
    match spec_step_velocity(body, ga, dt) {
        None => None,
        Some(v1) => {
            match spec_div(dt, (Scalar { n: 2, d: 1 })) {
                None => None,
                Some(d2) => {
                    match spec_add(v1.x, body.velocity.x) {
                        None => None,
                        Some(sx0) => {
                            match spec_mul(d2, sx0) {
                                None => None,
                                Some(sx) => {
                                    match spec_add(v1.y, body.velocity.y) {
                                        None => None,
                                        Some(sy0) => {
                                            match spec_mul(d2, sy0) {
                                                None => None,
                                                Some(sy) => Some((v1, sx, sy)),
                                            }
                                        },
                                    }
                                },
                            }
                        },
                    }
                },
            }
        },
    }
}

/// One mesh vertex translated by the displacement `(sx, sy)`.
pub open spec fn spec_translate_pt(p: Position, sx: Scalar, sy: Scalar) -> Option<Position> {
    match spec_add(p.x, sx) {
        None => None,
        Some(x) => {
            match spec_add(p.y, sy) {
                None => None,
                Some(y) => Some(Position { x, y }),
            }
        },
    }
}

/// Every mesh vertex translated by the displacement `(sx, sy)`.
pub open spec fn spec_translate_all(mesh: Seq<Position>, sx: Scalar, sy: Scalar) -> Option<
    Seq<Position>,
>
    decreases mesh.len(),
{
    if mesh.len() == 0 {
        Some(Seq::empty())
    } else {
        match spec_translate_all(mesh.drop_last(), sx, sy) {
            None => None,
            Some(rest) => {
                match spec_translate_pt(mesh.last(), sx, sy) {
                    None => None,
                    Some(q) => Some(rest.push(q)),
                }
            },
        }
    }
}

/// One integration step of a (dynamic) body: the new velocity, the translated
/// mesh, and whether the body moved at all. `None` only on overflow.
pub open spec fn spec_integrate(body: ConvexBody, ga: Scalar, dt: Scalar) -> Option<
    (Vector, Seq<Position>, bool),
> {
    match spec_step_displacement(body, ga, dt) {
        None => None,
        Some(t) => {
            match spec_translate_all(body.mesh@, t.1, t.2) {
                None => None,
                Some(m2) => Some((t.0, m2, t.1.n != 0 || t.2.n != 0)),
            }
        },
    }
}

/// How one tick leaves one body: fixed bodies stay as they are; dynamic
/// bodies get the integrated velocity and mesh, everything else unchanged.
pub open spec fn integrated_body(b0: ConvexBody, b1: ConvexBody, ga: Scalar, dt: Scalar) -> bool {
    if b0.fixed {
        b1 == b0
    } else {
        match spec_integrate(b0, ga, dt) {
            Some(t) => b1.velocity == t.0 && b1.mesh@ == t.1 && b1.mass == b0.mass
                && b1.acceleration == b0.acceleration && b1.fixed == b0.fixed
                && b1.report_collision == b0.report_collision,
            None => false,
        }
    }
}

/// The mesh a body shows after one tick: unchanged for fixed bodies, the
/// integrated mesh for dynamic ones.
pub open spec fn spec_new_mesh(b: ConvexBody, ga: Scalar, dt: Scalar) -> Option<Seq<Position>> {
    if b.fixed {
        Some(b.mesh@)
    } else {
        match spec_integrate(b, ga, dt) {
            None => None,
            Some(t) => Some(t.1),
        }
    }
}

/// The meshes of all bodies after one tick.
pub open spec fn spec_new_meshes(bodies: Seq<ConvexBody>, ga: Scalar, dt: Scalar) -> Option<
    Seq<Seq<Position>>,
>
    decreases bodies.len(),
{
    if bodies.len() == 0 {
        Some(Seq::empty())
    } else {
        match spec_new_meshes(bodies.drop_last(), ga, dt) {
            None => None,
            Some(rest) => {
                match spec_new_mesh(bodies.last(), ga, dt) {
                    None => None,
                    Some(m) => Some(rest.push(m)),
                }
            },
        }
    }
}

/// Characterization of `spec_new_meshes`: pointwise `spec_new_mesh`, defined
/// exactly when every body's new mesh is.
pub proof fn lemma_new_meshes(bodies: Seq<ConvexBody>, ga: Scalar, dt: Scalar)
    ensures
        spec_new_meshes(bodies, ga, dt) matches Some(ms) ==> ms.len() == bodies.len() && forall|
            i: int,
        | 0 <= i < bodies.len() ==> Some(#[trigger] ms[i]) == spec_new_mesh(bodies[i], ga, dt),
        (forall|i: int|
            0 <= i < bodies.len() ==> #[trigger] spec_new_mesh(bodies[i], ga, dt) is Some)
            ==> spec_new_meshes(bodies, ga, dt) is Some,
    decreases bodies.len(),
{
    if bodies.len() > 0 {
        lemma_new_meshes(bodies.drop_last(), ga, dt);
        assert(forall|i: int| 0 <= i < bodies.len() - 1 ==> bodies.drop_last()[i] == bodies[i]);
    }
}

/// Translates every vertex of `mesh` by `(sx, sy)`.
fn translate_mesh(mesh: &Vec<Position>, sx: Scalar, sy: Scalar) -> (r: Option<Vec<Position>>)
    requires
        all_wf(mesh@),
        sx.wf(),
        sy.wf(),
    ensures
        match r {
            Some(m) => Some(m@) == spec_translate_all(mesh@, sx, sy) && all_wf(m@) && m@.len()
                == mesh@.len(),
            None => spec_translate_all(mesh@, sx, sy) is None,
        },
{
    let mut out: Vec<Position> = Vec::new();
    let mut i: usize = 0;
    assert(mesh@.take(0) =~= Seq::<Position>::empty());
    while i < mesh.len()
        invariant
            0 <= i <= mesh@.len(),
            all_wf(mesh@),
            sx.wf(),
            sy.wf(),
            all_wf(out@),
            out@.len() == i,
            Some(out@) == spec_translate_all(mesh@.take(i as int), sx, sy),
        decreases mesh@.len() - i,
    {
        let p = mesh[i];
        let x = match p.x.checked_add(sx) {
            Some(v) => v,
            None => {
                proof {
                    lemma_translate_all(mesh@, sx, sy);
                    translate_overflow_contra(mesh@, sx, sy, i as int);
                }
                return None;
            },
        };
        let y = match p.y.checked_add(sy) {
            Some(v) => v,
            None => {
                proof {
                    lemma_translate_all(mesh@, sx, sy);
                    translate_overflow_contra(mesh@, sx, sy, i as int);
                }
                return None;
            },
        };
        out.push(Position { x, y });
        proof {
            assert(mesh@.take(i + 1).drop_last() =~= mesh@.take(i as int));
            assert(mesh@.take(i + 1).last() == mesh@[i as int]);
        }
        i = i + 1;
    }
    proof {
        assert(mesh@.take(mesh@.len() as int) =~= mesh@);
    }
    Some(out)
}

/// Characterization of `spec_translate_all`, mirroring `lemma_new_meshes`.
proof fn lemma_translate_all(mesh: Seq<Position>, sx: Scalar, sy: Scalar)
    ensures
        spec_translate_all(mesh, sx, sy) matches Some(m) ==> m.len() == mesh.len() && forall|
            i: int,
        | 0 <= i < mesh.len() ==> Some(#[trigger] m[i]) == spec_translate_pt(mesh[i], sx, sy),
        (forall|i: int|
            0 <= i < mesh.len() ==> #[trigger] spec_translate_pt(mesh[i], sx, sy) is Some)
            ==> spec_translate_all(mesh, sx, sy) is Some,
    decreases mesh.len(),
{
    if mesh.len() > 0 {
        lemma_translate_all(mesh.drop_last(), sx, sy);
        assert(forall|i: int| 0 <= i < mesh.len() - 1 ==> mesh.drop_last()[i] == mesh[i]);
    }
}

/// If one vertex fails to translate, the whole mesh translation is undefined.
proof fn translate_overflow_contra(mesh: Seq<Position>, sx: Scalar, sy: Scalar, i: int)
    requires
        0 <= i < mesh.len(),
        !(spec_translate_pt(mesh[i], sx, sy) is Some),
    ensures
        spec_translate_all(mesh, sx, sy) is None,
{
    lemma_translate_all(mesh, sx, sy);
    let whole = spec_translate_all(mesh, sx, sy);
    if whole is Some {
        let m = whole->Some_0;
        assert(Some(m[i]) == spec_translate_pt(mesh[i], sx, sy));
        assert(false);
    }
}

/// The collision pairs found among the meshes `ms` for scan indices from `k`
/// on, where scan index `k` stands for the ordered pair
/// `(k / ms.len(), k % ms.len())`: every ordered pair of distinct indices
/// whose meshes overlap, in scan order. `None` as soon as one overlap test
/// overflows; the scan short-circuits there.
pub open spec fn spec_pairs_from(ms: Seq<Seq<Position>>, k: int) -> Option<Seq<(usize, usize)>>
    recommends
        ms.len() <= MAX_BODIES,
    decreases (ms.len() * ms.len() - k),
{
    let n = ms.len() as int;
    if k < 0 || k >= n * n {
        Some(Seq::empty())
    } else {
        let i = k / n;
        let j = k % n;
        if i == j {
            spec_pairs_from(ms, k + 1)
        } else {
            match spec_collided(ms[i], ms[j]) {
                None => None,
                Some(c) => {
                    match spec_pairs_from(ms, k + 1) {
                        None => None,
                        Some(rest) => Some(
                            if c {
                                seq![(i as usize, j as usize)] + rest
                            } else {
                                rest
                            },
                        ),
                    }
                },
            }
        }
    }
}

/// The collision pairs of one full pairwise scan over the meshes `ms`.
pub open spec fn spec_collision_pairs(ms: Seq<Seq<Position>>) -> Option<Seq<(usize, usize)>> {
    spec_pairs_from(ms, 0)
}

/// No body ever appears in a collision pair with itself: every reported pair
/// relates two distinct in-range indices.
pub proof fn lemma_pairs_no_self(ms: Seq<Seq<Position>>, k: int)
    requires
        ms.len() <= MAX_BODIES,
    ensures
        spec_pairs_from(ms, k) matches Some(ps) ==> forall|t: int|
            0 <= t < ps.len() ==> (#[trigger] ps[t]).0 != ps[t].1 && (ps[t].0 as int) < ms.len()
                && (ps[t].1 as int) < ms.len(),
    decreases (ms.len() * ms.len() - k),
{
    let n = ms.len() as int;
    if k < 0 || k >= n * n {
    } else {
        lemma_pairs_no_self(ms, k + 1);
        let i = k / n;
        let j = k % n;
        assert(0 < n) by (nonlinear_arith)
            requires
                0 <= k,
                0 <= n,
                k < n * n,
        ;
        lemma_div_pos_is_pos(k, n);
        lemma_multiply_divide_lt(k, n, n);
        lemma_mod_division_less_than_divisor(k, n);
        if i != j {
            match spec_collided(ms[i], ms[j]) {
                None => {},
                Some(c) => {
                    match spec_pairs_from(ms, k + 1) {
                        None => {},
                        Some(rest) => {
                            if c {
                                let ps = seq![(i as usize, j as usize)] + rest;
                                assert(ps[0] == (i as usize, j as usize));
                                assert(forall|t: int| 1 <= t < ps.len() ==> ps[t] == rest[t - 1]);
                            }
                        },
                    }
                },
            }
        }
    }
}

/// An engine with at most one body never yields a collision pair.
pub proof fn lemma_pairs_single(ms: Seq<Seq<Position>>, k: int)
    requires
        ms.len() <= 1,
    ensures
        spec_pairs_from(ms, k) == Some(Seq::<(usize, usize)>::empty()),
    decreases (ms.len() * ms.len() - k),
{
    let n = ms.len() as int;
    if k < 0 || k >= n * n {
    } else {
        assert(n == 0 || n == 1);
        assert(n * n <= 1) by (nonlinear_arith)
            requires
                0 <= n <= 1,
        ;
        assert(n == 1 && k == 0);
        lemma_pairs_single(ms, k + 1);
    }
}

/// The same body with another acceleration.
pub open spec fn with_acceleration(b: ConvexBody, a: Vector) -> ConvexBody {
    ConvexBody {
        mass: b.mass,
        mesh: b.mesh,
        acceleration: a,
        velocity: b.velocity,
        fixed: b.fixed,
        report_collision: b.report_collision,
    }
}

/// Law: a force of exactly `mass * gravity`, pointing straight up, cancels
/// gravity — applying it to a still body (zero velocity, zero accumulated
/// acceleration) and then ticking leaves every mesh vertex at the same
/// rational position, and the body counts as not having moved.
pub proof fn lemma_force_cancels_gravity(
    b: ConvexBody,
    fx: Scalar,
    fy: Scalar,
    ga: Scalar,
    dt: Scalar,
    a1: Vector,
    t: (Vector, Seq<Position>, bool),
)
    requires
        b.wf(),
        !b.fixed,
        fx.wf(),
        fy.wf(),
        ga.wf(),
        dt.wf(),
        b.velocity.x.n == 0,
        b.velocity.y.n == 0,
        b.acceleration.x.n == 0,
        b.acceleration.y.n == 0,
        fx.n == 0,
        fy.n * (b.mass.d * ga.d) == (b.mass.n * ga.n) * fy.d,
        spec_apply_force_acc(b, fx, fy) == Some(a1),
        spec_integrate(with_acceleration(b, a1), ga, dt) == Some(t),
    ensures
        t.1.len() == b.mesh@.len(),
        forall|i: int|
            0 <= i < b.mesh@.len() ==> eq_rat(#[trigger] t.1[i].x, b.mesh@[i].x) && eq_rat(
                t.1[i].y,
                b.mesh@[i].y,
            ),
        t.2 == false,
{
    let m = b.mass;
    let zero = Scalar { n: 0, d: 1 };
    let px = spec_div(fx, m)->Some_0;
    lemma_div_value(fx, m, px);
    assert(px.n == 0) by (nonlinear_arith)
        requires
            px.n * (fx.d * m.n) == (fx.n * m.d) * px.d,
            fx.n == 0,
            fx.d > 0,
            m.n > 0,
            px.d > 0,
    ;
    let py = spec_div(fy, m)->Some_0;
    lemma_div_value(fy, m, py);
    assert(py.n * ga.d == ga.n * py.d) by (nonlinear_arith)
        requires
            py.n * (fy.d * m.n) == (fy.n * m.d) * py.d,
            fy.n * (m.d * ga.d) == (m.n * ga.n) * fy.d,
            m.n > 0,
            m.d > 0,
            fy.d > 0,
            py.d > 0,
            ga.d > 0,
    ;
    let ax1 = spec_add(b.acceleration.x, px)->Some_0;
    lemma_add_value(b.acceleration.x, px, ax1);
    assert(ax1.n == 0) by (nonlinear_arith)
        requires
            frac_eq(
                ax1.n as int,
                ax1.d as int,
                add_n(b.acceleration.x, px),
                add_d(b.acceleration.x, px),
            ),
            add_n(b.acceleration.x, px) == b.acceleration.x.n * px.d + px.n * b.acceleration.x.d,
            b.acceleration.x.n == 0,
            px.n == 0,
            add_d(b.acceleration.x, px) > 0,
            ax1.d > 0,
    ;
    let ay1 = spec_add(b.acceleration.y, py)->Some_0;
    lemma_add_value(b.acceleration.y, py, ay1);
    assert(ay1.n * ga.d == ga.n * ay1.d) by (nonlinear_arith)
        requires
            frac_eq(
                ay1.n as int,
                ay1.d as int,
                add_n(b.acceleration.y, py),
                add_d(b.acceleration.y, py),
            ),
            add_n(b.acceleration.y, py) == b.acceleration.y.n * py.d + py.n * b.acceleration.y.d,
            add_d(b.acceleration.y, py) == b.acceleration.y.d * py.d,
            b.acceleration.y.n == 0,
            b.acceleration.y.d > 0,
            py.n * ga.d == ga.n * py.d,
            py.d > 0,
            ay1.d > 0,
            ga.d > 0,
    ;
    assert(a1 == (Vector { x: ax1, y: ay1 }));
    let b1 = with_acceleration(b, a1);
    let ay = spec_sub(ay1, ga)->Some_0;
    lemma_sub_zero_iff(ay1, ga, ay);
    assert(eq_rat(ay1, ga));
    assert(ay.n == 0);
    assert(spec_neg(ga).wf());
    lemma_add_value(ay1, spec_neg(ga), ay);
    lemma_mul_zero(ax1, dt);
    lemma_add_zero_zero(b.velocity.x, zero);
    lemma_mul_zero(ay, dt);
    lemma_add_zero_zero(b.velocity.y, zero);
    let v1 = spec_step_velocity(b1, ga, dt)->Some_0;
    assert(v1 == (Vector { x: zero, y: zero }));
    let d2 = spec_div(dt, (Scalar { n: 2, d: 1 }))->Some_0;
    assert((Scalar { n: 2, d: 1 }).wf());
    lemma_div_value(dt, Scalar { n: 2, d: 1 }, d2);
    lemma_add_zero_zero(zero, b.velocity.x);
    lemma_add_zero_zero(zero, b.velocity.y);
    lemma_mul_zero(d2, zero);
    assert(spec_step_displacement(b1, ga, dt) == Some((v1, zero, zero)));
    assert(spec_translate_all(b.mesh@, zero, zero) == Some(t.1));
    lemma_translate_all(b.mesh@, zero, zero);
    assert forall|i: int| 0 <= i < b.mesh@.len() implies eq_rat(#[trigger] t.1[i].x, b.mesh@[i].x)
        && eq_rat(t.1[i].y, b.mesh@[i].y) by {
        assert(Some(t.1[i]) == spec_translate_pt(b.mesh@[i], zero, zero));
        assert(b.mesh@[i].wf());
        lemma_add_canonical_zero(b.mesh@[i].x);
        lemma_add_canonical_zero(b.mesh@[i].y);
    }
}

/// Law (tick form): a still body that `apply_force` has loaded with exactly
/// `(0, mass * gravity)` comes out of a tick — whose effect on each body is
/// `integrated_body` — with every mesh vertex at the same rational position.
pub proof fn lemma_balanced_body_stays_put(
    b: ConvexBody,
    fx: Scalar,
    fy: Scalar,
    ga: Scalar,
    dt: Scalar,
    a1: Vector,
    b2: ConvexBody,
)
    requires
        b.wf(),
        !b.fixed,
        fx.wf(),
        fy.wf(),
        ga.wf(),
        dt.wf(),
        b.velocity.x.n == 0,
        b.velocity.y.n == 0,
        b.acceleration.x.n == 0,
        b.acceleration.y.n == 0,
        fx.n == 0,
        fy.n * (b.mass.d * ga.d) == (b.mass.n * ga.n) * fy.d,
        spec_apply_force_acc(b, fx, fy) == Some(a1),
        integrated_body(with_acceleration(b, a1), b2, ga, dt),
    ensures
        b2.mesh@.len() == b.mesh@.len(),
        forall|i: int|
            0 <= i < b.mesh@.len() ==> eq_rat(#[trigger] b2.mesh@[i].x, b.mesh@[i].x) && eq_rat(
                b2.mesh@[i].y,
                b.mesh@[i].y,
            ),
{
    let b1 = with_acceleration(b, a1);
    let t = spec_integrate(b1, ga, dt)->Some_0;
    lemma_force_cancels_gravity(b, fx, fy, ga, dt, a1, t);
}

/// Law: `set_resulting_force` overwrites — the acceleration it leaves, and
/// the velocity and mesh a following tick produces, depend only on the force
/// just set, never on the accelerations accumulated before. Two bodies that
/// differ in nothing but their prior acceleration end up identical.
pub proof fn lemma_resulting_force_overwrites(
    b1: ConvexBody,
    b2: ConvexBody,
    fx: Scalar,
    fy: Scalar,
    ga: Scalar,
    dt: Scalar,
)
    requires
        b1.mass == b2.mass,
        b1.mesh == b2.mesh,
        b1.velocity == b2.velocity,
        b1.fixed == b2.fixed,
        b1.report_collision == b2.report_collision,
    ensures
        spec_resulting_acc(b1, fx, fy) == spec_resulting_acc(b2, fx, fy),
        match spec_resulting_acc(b1, fx, fy) {
            Some(a) => spec_integrate(with_acceleration(b1, a), ga, dt) == spec_integrate(
                with_acceleration(b2, a),
                ga,
                dt,
            ),
            None => true,
        },
{
    match spec_resulting_acc(b1, fx, fy) {
        Some(a) => {
            assert(with_acceleration(b1, a) == with_acceleration(b2, a));
        },
        None => {},
    }
}

/// What one staged update slot says about its body: `None` marks a fixed
/// body (left as it is), `Some` carries the integrated velocity and mesh of
/// a dynamic one.
spec fn upd_ok(b: ConvexBody, u: Option<(Vector, Vec<Position>)>, ga: Scalar, dt: Scalar) -> bool {
    match u {
        None => b.fixed,
        Some(p) => !b.fixed && (match spec_integrate(b, ga, dt) {
            Some(t) => p.0 == t.0 && p.1@ == t.1 && p.0.wf() && all_wf(p.1@) && p.1@.len()
                == b.mesh@.len(),
            None => false,
        }),
    }
}

/// The engine: a sequence of bodies (insertion order is the only body
/// identity) and one gravitational acceleration applied engine-wide.
pub struct Engine {
    pub bodies: Vec<ConvexBody>,
    pub ga: Scalar,
}

impl Engine {
    /// Well-formedness: bounded gravity, well-formed bodies, and few enough
    /// bodies for the pairwise scan.
    pub open spec fn wf(self) -> bool {
        &&& self.ga.wf()
        &&& self.bodies@.len() <= MAX_BODIES
        &&& forall|i: int| 0 <= i < self.bodies@.len() ==> (#[trigger] self.bodies@[i]).wf()
    }

    /// An engine with no bodies under gravity `g`.
    pub fn create(g: Scalar) -> (r: Engine)
        requires
            g.wf(),
        ensures
            r.wf(),
            r.ga == g,
            r.bodies@.len() == 0,
    {
        Engine { bodies: Vec::new(), ga: g }
    }

    /// Appends a body; it is owned by the engine from here on.
    pub fn add_body(&mut self, b: ConvexBody)
        requires
            old(self).wf(),
            b.wf(),
            old(self).bodies@.len() < MAX_BODIES,
        ensures
            final(self).wf(),
            final(self).ga == old(self).ga,
            final(self).bodies@ == old(self).bodies@.push(b),
    {
        self.bodies.push(b);
    }

    /// The bodies, for inspection.
    pub fn get_bodies(&self) -> (r: &Vec<ConvexBody>)
        ensures
            r@ == self.bodies@,
    {
        &self.bodies
    }

    /// The bodies, for mutation from outside — the sanctioned way for an
    /// input adapter to apply forces. Whatever the caller does through the
    /// borrow becomes the engine's body sequence.
    pub fn get_bodies_mut(&mut self) -> (r: &mut Vec<ConvexBody>)
        ensures
            *r == old(self).bodies,
            final(self).bodies == *final(r),
            final(self).ga == old(self).ga,
    {
        &mut self.bodies
    }

    /// One integration step of a single body under gravity `ga` over the time
    /// step `dt`: the new velocity, the translated mesh, and whether the body
    /// moved. `None`, with nothing changed, only on overflow.
    pub fn update_body_position(body: &ConvexBody, ga: Scalar, dt: Scalar) -> (r: Option<
        (Vector, Vec<Position>, bool),
    >)
        requires
            body.wf(),
            ga.wf(),
            dt.wf(),
        ensures
            r is Some <==> spec_integrate(*body, ga, dt) is Some,
            r matches Some(u) ==> spec_integrate(*body, ga, dt) matches Some(t) && u.0 == t.0
                && u.1@ == t.1 && u.2 == t.2 && u.0.wf() && all_wf(u.1@) && u.1@.len()
                == body.mesh@.len(),
    {
        let ay = match body.acceleration.y.checked_sub(ga) {
            Some(v) => v,
            None => {
                return None;
            },
        };
        let mx = match body.acceleration.x.checked_mul(dt) {
            Some(v) => v,
            None => {
                return None;
            },
        };
        let vx = match body.velocity.x.checked_add(mx) {
            Some(v) => v,
            None => {
                return None;
            },
        };
        let my = match ay.checked_mul(dt) {
            Some(v) => v,
            None => {
                return None;
            },
        };
        let vy = match body.velocity.y.checked_add(my) {
            Some(v) => v,
            None => {
                return None;
            },
        };
        let two = Scalar::from_int(2);
        let d2 = match dt.checked_div(two) {
            Some(v) => v,
            None => {
                return None;
            },
        };
        let sx0 = match vx.checked_add(body.velocity.x) {
            Some(v) => v,
            None => {
                return None;
            },
        };
        let sx = match d2.checked_mul(sx0) {
            Some(v) => v,
            None => {
                return None;
            },
        };
        let sy0 = match vy.checked_add(body.velocity.y) {
            Some(v) => v,
            None => {
                return None;
            },
        };
        let sy = match d2.checked_mul(sy0) {
            Some(v) => v,
            None => {
                return None;
            },
        };
        let mesh2 = match translate_mesh(&body.mesh, sx, sy) {
            Some(m) => m,
            None => {
                return None;
            },
        };
        let moved = !sx.is_zero() || !sy.is_zero();
        Some((Vector { x: vx, y: vy }, mesh2, moved))
    }

    /// Advances the simulation by `dt`: every dynamic body is integrated
    /// under gravity (fixed bodies skip integration entirely), then every
    /// ordered pair of distinct bodies is tested for overlap on the moved
    /// meshes, and the overlapping pairs of indices are returned in scan
    /// order. Detection only: no collision response is applied. On overflow
    /// the engine is left exactly as it was and `None` comes back.
    #[verifier::rlimit(100)]
    pub fn tick(&mut self, dt: Scalar) -> (r: Option<Vec<(usize, usize)>>)
        requires
            old(self).wf(),
            dt.wf(),
        ensures
            final(self).wf(),
            final(self).ga == old(self).ga,
            match r {
                Some(pairs) => {
                    &&& final(self).bodies@.len() == old(self).bodies@.len()
                    &&& forall|i: int|
                        0 <= i < old(self).bodies@.len() ==> integrated_body(
                            old(self).bodies@[i],
                            #[trigger] final(self).bodies@[i],
                            old(self).ga,
                            dt,
                        )
                    &&& spec_new_meshes(old(self).bodies@, old(self).ga, dt) matches Some(ms)
                        && spec_collision_pairs(ms) == Some(pairs@)
                    &&& forall|t: int|
                        0 <= t < pairs@.len() ==> (#[trigger] pairs@[t]).0 != pairs@[t].1
                    &&& (old(self).bodies@.len() <= 1 ==> pairs@.len() == 0)
                },
                None => {
                    &&& *final(self) == *old(self)
                    &&& match spec_new_meshes(old(self).bodies@, old(self).ga, dt) {
                        None => true,
                        Some(ms) => spec_collision_pairs(ms) is None,
                    }
                },
            },
    {
        let n = self.bodies.len();
        let ga = self.ga;
        // stage the integration results first, so that any failure leaves
        // the engine untouched
        let mut upds: Vec<Option<(Vector, Vec<Position>)>> = Vec::new();
        let mut i: usize = 0;
        while i < n
            invariant
                *self == *old(self),
                self.wf(),
                dt.wf(),
                ga == self.ga,
                n == self.bodies@.len(),
                0 <= i <= n,
                upds@.len() == i,
                forall|j: int| 0 <= j < i ==> upd_ok(self.bodies@[j], #[trigger] upds@[j], ga, dt),
            decreases n - i,
        {
            if self.bodies[i].fixed {
                upds.push(None);
            } else {
                match Engine::update_body_position(&self.bodies[i], ga, dt) {
                    Some(u) => {
                        let (nv, nm, _moved) = u;
                        upds.push(Some((nv, nm)));
                    },
                    None => {
                        proof {
                            lemma_new_meshes(self.bodies@, ga, dt);
                            let whole = spec_new_meshes(self.bodies@, ga, dt);
                            if whole is Some {
                                let allm = whole->Some_0;
                                assert(Some(allm[i as int]) == spec_new_mesh(
                                    self.bodies@[i as int],
                                    ga,
                                    dt,
                                ));
                                assert(false);
                            }
                        }
                        return None;
                    },
                }
            }
            i = i + 1;
        }
        proof {
            assert forall|j: int| 0 <= j < n implies #[trigger] spec_new_mesh(
                self.bodies@[j],
                ga,
                dt,
            ) is Some by {
                assert(upd_ok(self.bodies@[j], upds@[j], ga, dt));
            }
            lemma_new_meshes(self.bodies@, ga, dt);
        }
        let ghost ms = spec_new_meshes(self.bodies@, ga, dt)->Some_0;
        proof {
            assert(ms.len() == n);
            assert forall|j: int| 0 <= j < n implies all_wf(#[trigger] ms[j]) && ms[j].len() >= 1
                && (match upds@[j] {
                None => ms[j] == self.bodies@[j].mesh@,
                Some(p) => ms[j] == p.1@,
            }) by {
                assert(Some(ms[j]) == spec_new_mesh(self.bodies@[j], ga, dt));
                assert(upd_ok(self.bodies@[j], upds@[j], ga, dt));
                assert(self.bodies@[j].wf());
            }
            assert((n as int) * (n as int) <= 0x100_0000) by (nonlinear_arith)
                requires
                    0 <= n as int <= 4096,
            ;
        }
        let grid = index_grid(n, n);
        let mut pairs: Vec<(usize, usize)> = Vec::new();
        let mut k: usize = 0;
        while k < grid.len()
            invariant
                *self == *old(self),
                self.wf(),
                dt.wf(),
                ga == self.ga,
                n == self.bodies@.len(),
                upds@.len() == n,
                forall|j: int| 0 <= j < n ==> upd_ok(self.bodies@[j], #[trigger] upds@[j], ga, dt),
                spec_new_meshes(self.bodies@, ga, dt) == Some(ms),
                ms.len() == n,
                forall|j: int|
                    0 <= j < n ==> all_wf(#[trigger] ms[j]) && ms[j].len() >= 1 && (match upds@[j] {
                        None => ms[j] == self.bodies@[j].mesh@,
                        Some(p) => ms[j] == p.1@,
                    }),
                grid@.len() == (n as int) * (n as int),
                forall|t: int|
                    0 <= t < (n as int) * (n as int) ==> #[trigger] grid@[t] == ((t / (
                    n as int)) as usize, (t % (n as int)) as usize),
                0 <= k <= grid@.len(),
                match spec_pairs_from(ms, k as int) {
                    None => spec_pairs_from(ms, 0) is None,
                    Some(rest) => spec_pairs_from(ms, 0) == Some(pairs@ + rest),
                },
            decreases grid@.len() - k,
        {
            proof {
                assert(0 < n as int) by (nonlinear_arith)
                    requires
                        0 <= k as int,
                        (k as int) < (n as int) * (n as int),
                ;
                lemma_div_pos_is_pos(k as int, n as int);
                lemma_multiply_divide_lt(k as int, n as int, n as int);
                lemma_mod_division_less_than_divisor(k as int, n as int);
                assert(grid@[k as int] == (((k as int) / (n as int)) as usize, ((k as int) % (
                n as int)) as usize));
            }
            let (bi, bj) = grid[k];
            let ghost gi = (k as int) / (n as int);
            let ghost gj = (k as int) % (n as int);
            if bi != bj {
                proof {
                    assert(upd_ok(self.bodies@[gi], upds@[gi], ga, dt));
                    assert(upd_ok(self.bodies@[gj], upds@[gj], ga, dt));
                }
                let sel_i = upds[bi].as_ref();
                let mesh_i: &Vec<Position> = match sel_i {
                    Some(u) => &u.1,
                    None => &self.bodies[bi].mesh,
                };
                let sel_j = upds[bj].as_ref();
                let mesh_j: &Vec<Position> = match sel_j {
                    Some(u) => &u.1,
                    None => &self.bodies[bj].mesh,
                };
                proof {
                    assert(mesh_i@ == ms[gi]);
                    assert(mesh_j@ == ms[gj]);
                }
                match collided(mesh_i, mesh_j) {
                    None => {
                        proof {
                            assert(spec_pairs_from(ms, k as int) is None);
                        }
                        return None;
                    },
                    Some(c) => {
                        proof {
                            assert(spec_pairs_from(ms, k as int) == (
                            match spec_pairs_from(ms, k as int + 1) {
                                None => None::<Seq<(usize, usize)>>,
                                Some(rest) => Some(
                                    if c {
                                        seq![(gi as usize, gj as usize)] + rest
                                    } else {
                                        rest
                                    },
                                ),
                            }));
                        }
                        if c {
                            let ghost pairs_before = pairs@;
                            pairs.push((bi, bj));
                            proof {
                                assert(pairs@ =~= pairs_before + seq![(bi, bj)]);
                                if spec_pairs_from(ms, k as int + 1) is Some {
                                    let rest = spec_pairs_from(ms, k as int + 1)->Some_0;
                                    assert((pairs_before + (seq![(bi, bj)] + rest)) =~= (pairs@
                                        + rest));
                                }
                            }
                        }
                    },
                }
            } else {
                proof {
                    assert(spec_pairs_from(ms, k as int) == spec_pairs_from(ms, k as int + 1));
                }
            }
            k = k + 1;
        }
        proof {
            assert(spec_pairs_from(ms, (n as int) * (n as int)) == Some(
                Seq::<(usize, usize)>::empty(),
            ));
            assert((pairs@ + Seq::<(usize, usize)>::empty()) =~= pairs@);
            lemma_pairs_no_self(ms, 0);
            if n <= 1 {
                lemma_pairs_single(ms, 0);
            }
        }
        // commit the staged updates; nothing can fail from here on
        let mut i2: usize = n;
        while i2 > 0
            invariant
                self.ga == old(self).ga,
                ga == self.ga,
                dt.wf(),
                self.bodies@.len() == n,
                n == old(self).bodies@.len(),
                n <= MAX_BODIES,
                upds@.len() == i2,
                0 <= i2 <= n,
                forall|j: int| 0 <= j < i2 ==> self.bodies@[j] == old(self).bodies@[j],
                forall|j: int| 0 <= j < n ==> (#[trigger] old(self).bodies@[j]).wf(),
                forall|j: int|
                    0 <= j < i2 ==> upd_ok(old(self).bodies@[j], #[trigger] upds@[j], ga, dt),
                forall|j: int|
                    i2 <= j < n ==> integrated_body(
                        old(self).bodies@[j],
                        #[trigger] self.bodies@[j],
                        ga,
                        dt,
                    ),
                forall|j: int| i2 <= j < n ==> (#[trigger] self.bodies@[j]).wf(),
            decreases i2,
        {
            i2 = i2 - 1;
            let u = upds.pop().unwrap();
            match u {
                None => {
                    proof {
                        assert(self.bodies@[i2 as int] == old(self).bodies@[i2 as int]);
                    }
                },
                Some(p) => {
                    let (nv, nm) = p;
                    let b = &mut self.bodies[i2];
                    b.velocity = nv;
                    b.mesh = nm;
                },
            }
        }
        Some(pairs)
    }
}

} // verus!
