//! Points, vectors, and projection of a point onto a line through the origin.

use crate::rational::{
    add_d, add_n, frac_eq, lemma_reduce_value, reduce_den, reduce_num, spec_div, spec_mul,
    spec_neg, spec_recip, spec_sub, Scalar,
};
use vstd::arithmetic::mul::lemma_mul_strictly_positive;
use vstd::prelude::*;

verus! {

/// A point `(x, y)` in world-space meters.
#[derive(Clone, Copy, Debug, PartialEq, Eq, Structural)]
pub struct Position {
    pub x: Scalar,
    pub y: Scalar,
}

impl Position {
    pub open spec fn wf(self) -> bool {
        self.x.wf() && self.y.wf()
    }

    pub fn new(x: Scalar, y: Scalar) -> (r: Position)
        ensures
            r == (Position { x, y }),
    {
        Position { x, y }
    }
}

/// Every position in the sequence is well formed.
pub open spec fn all_wf(s: Seq<Position>) -> bool {
    forall|i: int| 0 <= i < s.len() ==> s[i].wf()
}

/// A velocity or acceleration `(x, y)`; numerically shaped like a `Position`
/// but deliberately a distinct type.
#[derive(Clone, Copy, Debug, PartialEq, Eq, Structural)]
pub struct Vector {
    pub x: Scalar,
    pub y: Scalar,
}

impl Vector {
    pub open spec fn wf(self) -> bool {
        self.x.wf() && self.y.wf()
    }

    pub fn new(x: Scalar, y: Scalar) -> (r: Vector)
        ensures
            r == (Vector { x, y }),
    {
        Vector { x, y }
    }

    pub fn zero() -> (r: Vector)
        ensures
            r == (Vector { x: Scalar { n: 0, d: 1 }, y: Scalar { n: 0, d: 1 } }),
            r.wf(),
    {
        Vector { x: Scalar::zero(), y: Scalar::zero() }
    }
}

/// The gradient of a projection line through the origin: either a finite
/// rational slope or a vertical line.
#[derive(Clone, Copy, Debug, PartialEq, Eq, Structural)]
pub enum Gradient {
    Vertical,
    Finite(Scalar),
}

impl Gradient {
    pub open spec fn wf(self) -> bool {
        match self {
            Gradient::Vertical => true,
            Gradient::Finite(a) => a.wf(),
        }
    }
}

/// Orthogonal projection of `p` onto the line through the origin with
/// gradient `g`, in the three regimes the detector distinguishes:
/// a vertical line maps `p` to `(0, p.y)`; a zero gradient maps `p` to
/// `(p.x, 0)`; otherwise the perpendicular through `p` (gradient `-1/g`)
/// is intersected with the line algebraically.
pub open spec fn spec_project(p: Position, g: Gradient) -> Option<Position> {
    match g {
        Gradient::Vertical => Some(Position { x: Scalar { n: 0, d: 1 }, y: p.y }),
        Gradient::Finite(a) => {
            if a.n == 0 {
                Some(Position { x: p.x, y: Scalar { n: 0, d: 1 } })
            } else {
                let a_orth = spec_neg(spec_recip(a));
                match spec_mul(a_orth, p.x) {
                    None => None,
                    Some(m1) => {
                        match spec_sub(p.y, m1) {
                            None => None,
                            Some(b_orth) => {
                                match spec_sub(a_orth, a) {
                                    None => None,
                                    Some(den) => {
                                        match spec_div(spec_neg(b_orth), den) {
                                            None => None,
                                            Some(px) => {
                                                match spec_mul(a, px) {
                                                    None => None,
                                                    Some(py) => Some(
                                                        Position { x: px, y: py },
                                                    ),
                                                }
                                            },
                                        }
                                    },
                                }
                            },
                        }
                    },
                }
            }
        },
    }
}

/// The gradients of a line (nonzero `a`) and of its perpendicular `-1/a`
/// never subtract to zero, so the intersection in `spec_project` is always
/// well defined.
proof fn lemma_orth_sub_nonzero(a: Scalar, s: Scalar)
    requires
        a.wf(),
        a.n != 0,
        spec_sub(spec_neg(spec_recip(a)), a) == Some(s),
    ensures
        s.n != 0,
{
    let o = spec_neg(spec_recip(a));
    let raw_n = add_n(o, spec_neg(a));
    let raw_d = add_d(o, spec_neg(a));
    assert(raw_d > 0) by {
        lemma_mul_strictly_positive(o.d as int, a.d as int);
    }
    assert(raw_n != 0) by (nonlinear_arith)
        requires
            a.wf(),
            a.n != 0,
            a.n > 0 ==> raw_n == (-(a.d as int)) * (a.d as int) + (-(a.n as int)) * (a.n as int),
            a.n < 0 ==> raw_n == (a.d as int) * (a.d as int) + (-(a.n as int)) * (-(a.n as int)),
    ;
    lemma_reduce_value(raw_n, raw_d);
    assert(s.n as int == reduce_num(raw_n, raw_d) && s.d as int == reduce_den(raw_n, raw_d));
    assert(s.n != 0) by (nonlinear_arith)
        requires
            frac_eq(s.n as int, s.d as int, raw_n, raw_d),
            raw_n != 0,
            raw_d > 0,
            s.d as int > 0,
    ;
}

/// Projects `position` onto the line through the origin with gradient
/// `line_gradient`; `None` only when an intermediate rational overflows.
pub fn project(position: &Position, line_gradient: &Gradient) -> (r: Option<Position>)
    requires
        position.wf(),
        line_gradient.wf(),
    ensures
        r == spec_project(*position, *line_gradient),
        r matches Some(q) ==> q.wf(),
{
    let p = *position;
    match line_gradient {
        Gradient::Vertical => Some(Position { x: Scalar::zero(), y: p.y }),
        Gradient::Finite(a0) => {
            let a = *a0;
            if a.is_zero() {
                Some(Position { x: p.x, y: Scalar::zero() })
            } else {
                let a_orth = a.recip().neg();
                let m1 = match a_orth.checked_mul(p.x) {
                    Some(v) => v,
                    None => {
                        return None;
                    },
                };
                let b_orth = match p.y.checked_sub(m1) {
                    Some(v) => v,
                    None => {
                        return None;
                    },
                };
                let den = match a_orth.checked_sub(a) {
                    Some(v) => v,
                    None => {
                        return None;
                    },
                };
                proof {
                    lemma_orth_sub_nonzero(a, den);
                }
                let px = match b_orth.neg().checked_div(den) {
                    Some(v) => v,
                    None => {
                        return None;
                    },
                };
                let py = match a.checked_mul(px) {
                    Some(v) => v,
                    None => {
                        return None;
                    },
                };
                Some(Position { x: px, y: py })
            }
        },
    }
}

} // verus!
