//! A rigid body: one convex polygon with mass, velocity and acceleration, or
//! an immovable fixed variant.

use crate::geometry::{all_wf, Position, Vector};
use crate::rational::{spec_add, spec_div, Scalar};
use vstd::prelude::*;

verus! {

/// A convex polygonal body.
///
/// Dynamic bodies carry a positive mass and are integrated every tick; fixed
/// bodies have mass zero, never move, and ignore gravity and applied forces.
pub struct ConvexBody {
    pub mass: Scalar,
    pub mesh: Vec<Position>,
    pub acceleration: Vector,
    pub velocity: Vector,
    pub fixed: bool,
    pub report_collision: bool,
}

/// The acceleration that `apply_force` accumulates onto a dynamic body:
/// the old acceleration plus `f / mass`, componentwise, in the order the
/// operations are performed; `None` when a checked operation overflows.
pub open spec fn spec_apply_force_acc(body: ConvexBody, fx: Scalar, fy: Scalar) -> Option<Vector> {
    match spec_div(fx, body.mass) {
        None => None,
        Some(ax) => {
            match spec_div(fy, body.mass) {
                None => None,
                Some(ay) => {
                    match spec_add(body.acceleration.x, ax) {
                        None => None,
                        Some(nx) => {
                            match spec_add(body.acceleration.y, ay) {
                                None => None,
                                Some(ny) => Some(Vector { x: nx, y: ny }),
                            }
                        },
                    }
                },
            }
        },
    }
}

/// The acceleration that `set_resulting_force` overwrites a dynamic body
/// with: exactly `f / mass`, componentwise, independent of the previous
/// acceleration.
pub open spec fn spec_resulting_acc(body: ConvexBody, fx: Scalar, fy: Scalar) -> Option<Vector> {
    match spec_div(fx, body.mass) {
        None => None,
        Some(ax) => {
            match spec_div(fy, body.mass) {
                None => None,
                Some(ay) => Some(Vector { x: ax, y: ay }),
            }
        },
    }
}

impl ConvexBody {
    /// Well-formedness: bounded rational fields, a nonempty mesh, and a mass
    /// that is positive exactly for dynamic bodies and zero for fixed ones.
    pub open spec fn wf(self) -> bool {
        &&& self.mass.wf()
        &&& self.acceleration.wf()
        &&& self.velocity.wf()
        &&& self.mesh@.len() >= 1
        &&& all_wf(self.mesh@)
        &&& if self.fixed {
            self.mass.n == 0
        } else {
            self.mass.n > 0
        }
    }

    /// A dynamic body at rest: the given positive mass and mesh, zero
    /// velocity and acceleration.
    pub fn still_body(m: Scalar, mesh: Vec<Position>) -> (r: ConvexBody)
        requires
            m.wf(),
            m.n > 0,
            mesh@.len() >= 1,
            all_wf(mesh@),
        ensures
            r.wf(),
            r.mass == m,
            r.mesh == mesh,
            r.acceleration == (Vector { x: Scalar { n: 0, d: 1 }, y: Scalar { n: 0, d: 1 } }),
            r.velocity == (Vector { x: Scalar { n: 0, d: 1 }, y: Scalar { n: 0, d: 1 } }),
            !r.fixed,
            !r.report_collision,
    {
        ConvexBody {
            mass: m,
            mesh,
            acceleration: Vector::zero(),
            velocity: Vector::zero(),
            fixed: false,
            report_collision: false,
        }
    }

    /// An immovable body: mass zero, never integrated, immune to forces.
    pub fn fixed_body(mesh: Vec<Position>) -> (r: ConvexBody)
        requires
            mesh@.len() >= 1,
            all_wf(mesh@),
        ensures
            r.wf(),
            r.mass == (Scalar { n: 0, d: 1 }),
            r.mesh == mesh,
            r.acceleration == (Vector { x: Scalar { n: 0, d: 1 }, y: Scalar { n: 0, d: 1 } }),
            r.velocity == (Vector { x: Scalar { n: 0, d: 1 }, y: Scalar { n: 0, d: 1 } }),
            r.fixed,
            !r.report_collision,
    {
        ConvexBody {
            mass: Scalar::zero(),
            mesh,
            acceleration: Vector::zero(),
            velocity: Vector::zero(),
            fixed: true,
            report_collision: false,
        }
    }

    /// Accumulates the acceleration contribution `f / mass` onto a dynamic
    /// body; a no-op on fixed bodies. Returns `false`, leaving the body
    /// unchanged, only when the checked arithmetic overflows.
    pub fn apply_force(&mut self, fx: Scalar, fy: Scalar) -> (r: bool)
        requires
            old(self).wf(),
            fx.wf(),
            fy.wf(),
        ensures
            final(self).wf(),
            final(self).mass == old(self).mass,
            final(self).mesh == old(self).mesh,
            final(self).velocity == old(self).velocity,
            final(self).fixed == old(self).fixed,
            final(self).report_collision == old(self).report_collision,
            old(self).fixed ==> r && final(self).acceleration == old(self).acceleration,
            !old(self).fixed ==> match spec_apply_force_acc(*old(self), fx, fy) {
                Some(a) => r && final(self).acceleration == a,
                None => !r && final(self).acceleration == old(self).acceleration,
            },
    {
        if self.fixed {
            return true;
        }
        let ax = match fx.checked_div(self.mass) {
            Some(v) => v,
            None => {
                return false;
            },
        };
        let ay = match fy.checked_div(self.mass) {
            Some(v) => v,
            None => {
                return false;
            },
        };
        let nx = match self.acceleration.x.checked_add(ax) {
            Some(v) => v,
            None => {
                return false;
            },
        };
        let ny = match self.acceleration.y.checked_add(ay) {
            Some(v) => v,
            None => {
                return false;
            },
        };
        self.acceleration = Vector { x: nx, y: ny };
        true
    }

    /// Overwrites the acceleration of a dynamic body with `f / mass`,
    /// discarding whatever forces had accumulated before; a no-op on fixed
    /// bodies. Returns `false`, leaving the body unchanged, only when the
    /// checked arithmetic overflows.
    pub fn set_resulting_force(&mut self, fx: Scalar, fy: Scalar) -> (r: bool)
        requires
            old(self).wf(),
            fx.wf(),
            fy.wf(),
        ensures
            final(self).wf(),
            final(self).mass == old(self).mass,
            final(self).mesh == old(self).mesh,
            final(self).velocity == old(self).velocity,
            final(self).fixed == old(self).fixed,
            final(self).report_collision == old(self).report_collision,
            old(self).fixed ==> r && final(self).acceleration == old(self).acceleration,
            !old(self).fixed ==> match spec_resulting_acc(*old(self), fx, fy) {
                Some(a) => r && final(self).acceleration == a,
                None => !r && final(self).acceleration == old(self).acceleration,
            },
    {
        if self.fixed {
            return true;
        }
        let ax = match fx.checked_div(self.mass) {
            Some(v) => v,
            None => {
                return false;
            },
        };
        let ay = match fy.checked_div(self.mass) {
            Some(v) => v,
            None => {
                return false;
            },
        };
        self.acceleration = Vector { x: ax, y: ay };
        true
    }

    /// Marks the body for collision reporting, builder style.
    pub fn report_collision(self) -> (r: ConvexBody)
        ensures
            r.report_collision,
            r.mass == self.mass,
            r.mesh == self.mesh,
            r.acceleration == self.acceleration,
            r.velocity == self.velocity,
            r.fixed == self.fixed,
            self.wf() ==> r.wf(),
    {
        ConvexBody { report_collision: true, ..self }
    }
}

} // verus!
