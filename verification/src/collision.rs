//! Collision detection between convex polygons by the separating-axis method.
//!
//! For every edge of the reference shape the detector projects both shapes
//! onto the line through the origin perpendicular to that edge and compares
//! the componentwise extrema of the projected point sets; the shapes count as
//! overlapping on that axis when both the x- and the y-intervals intersect.
//! An edge whose endpoints coincide admits no axis and is reported as
//! separating, and the checked arithmetic makes every function return `None`
//! instead of overflowing.

use crate::adapters::circular_edge_pairs;
use crate::geometry::{all_wf, project, spec_project, Gradient, Position};
use crate::rational::{
    eq_rat, le_rat, lemma_sub_zero_iff, spec_div, spec_max, spec_min, spec_neg, spec_recip,
    spec_sub, Scalar,
};
use vstd::prelude::*;

verus! {

/// The projection axis derived from the edge `p1 -> p2`: the line through the
/// origin perpendicular to the edge. A vertical edge yields the horizontal
/// axis, a horizontal edge the vertical one; otherwise the axis gradient is
/// `-1 / a` for the edge gradient `a = (p1.y - p2.y) / (p1.x - p2.x)`.
/// `None` only when the checked arithmetic overflows.
pub open spec fn spec_axis_gradient(p1: Position, p2: Position) -> Option<Gradient> {
    if eq_rat(p1.x, p2.x) {
        Some(Gradient::Finite(Scalar { n: 0, d: 1 }))
    } else {
        match spec_sub(p1.y, p2.y) {
            None => None,
            Some(dy) => {
                match spec_sub(p1.x, p2.x) {
                    None => None,
                    Some(dx) => {
                        match spec_div(dy, dx) {
                            None => None,
                            Some(a) => {
                                if a.n == 0 {
                                    Some(Gradient::Vertical)
                                } else {
                                    Some(Gradient::Finite(spec_neg(spec_recip(a))))
                                }
                            },
                        }
                    },
                }
            },
        }
    }
}

/// All points of `s` projected onto the axis with gradient `g`; `None` when
/// any single projection overflows.
pub open spec fn spec_project_all(s: Seq<Position>, g: Gradient) -> Option<Seq<Position>>
    decreases s.len(),
{
    if s.len() == 0 {
        Some(Seq::empty())
    } else {
        match spec_project_all(s.drop_last(), g) {
            None => None,
            Some(rest) => {
                match spec_project(s.last(), g) {
                    None => None,
                    Some(q) => Some(rest.push(q)),
                }
            },
        }
    }
}

/// Componentwise minimum of a nonempty point sequence, folded left to right.
pub open spec fn spec_fold_min(s: Seq<Position>) -> Position
    recommends
        s.len() >= 1,
    decreases s.len(),
{
    if s.len() <= 1 {
        s[0]
    } else {
        let prev = spec_fold_min(s.drop_last());
        Position { x: spec_min(prev.x, s.last().x), y: spec_min(prev.y, s.last().y) }
    }
}

/// Componentwise maximum of a nonempty point sequence, folded left to right.
pub open spec fn spec_fold_max(s: Seq<Position>) -> Position
    recommends
        s.len() >= 1,
    decreases s.len(),
{
    if s.len() <= 1 {
        s[0]
    } else {
        let prev = spec_fold_max(s.drop_last());
        Position { x: spec_max(prev.x, s.last().x), y: spec_max(prev.y, s.last().y) }
    }
}

/// The bounding extrema of the two projected point sets intersect on both the
/// x- and the y-axis.
pub open spec fn spec_extents_overlap(q1: Seq<Position>, q2: Seq<Position>) -> bool
    recommends
        q1.len() >= 1,
        q2.len() >= 1,
{
    let min1 = spec_fold_min(q1);
    let max1 = spec_fold_max(q1);
    let min2 = spec_fold_min(q2);
    let max2 = spec_fold_max(q2);
    le_rat(min2.x, max1.x) && le_rat(min1.x, max2.x) && le_rat(min2.y, max1.y) && le_rat(
        min1.y,
        max2.y,
    )
}

/// Whether the two shapes overlap when projected onto the axis derived from
/// the edge `p1 -> p2`. A degenerate edge (coinciding endpoints) reports no
/// overlap; `None` only on arithmetic overflow.
pub open spec fn spec_axis_overlap(
    p1: Position,
    p2: Position,
    s1: Seq<Position>,
    s2: Seq<Position>,
) -> Option<bool> {
    if eq_rat(p1.x, p2.x) && eq_rat(p1.y, p2.y) {
        Some(false)
    } else {
        match spec_axis_gradient(p1, p2) {
            None => None,
            Some(g) => {
                match spec_project_all(s1, g) {
                    None => None,
                    Some(q1) => {
                        match spec_project_all(s2, g) {
                            None => None,
                            Some(q2) => Some(spec_extents_overlap(q1, q2)),
                        }
                    },
                }
            },
        }
    }
}

/// The axis tests for the edges of `s1` from index `i` on: `Some(true)` when
/// the shapes overlap on every remaining axis, `Some(false)` as soon as one
/// axis separates them, `None` on overflow. Evaluation short-circuits in the
/// order of the edges.
pub open spec fn spec_axes_from(s1: Seq<Position>, s2: Seq<Position>, i: int) -> Option<bool>
    decreases s1.len() - i,
{
    if i < 0 || i >= s1.len() {
        Some(true)
    } else {
        match spec_axis_overlap(s1[i], s1[(i + 1) % (s1.len() as int)], s1, s2) {
            None => None,
            Some(false) => Some(false),
            Some(true) => spec_axes_from(s1, s2, i + 1),
        }
    }
}

/// `Some(true)` when no edge of `s1` yields a separating axis between the two
/// shapes.
pub open spec fn spec_no_separating_axis(s1: Seq<Position>, s2: Seq<Position>) -> Option<bool> {
    spec_axes_from(s1, s2, 0)
}

/// The full two-pass test: the shapes collide when neither shape's edges
/// yield a separating axis.
pub open spec fn spec_collided(s1: Seq<Position>, s2: Seq<Position>) -> Option<bool> {
    match spec_no_separating_axis(s1, s2) {
        None => None,
        Some(false) => Some(false),
        Some(true) => spec_no_separating_axis(s2, s1),
    }
}

/// Characterization of `spec_project_all`: a successful projection is the
/// pointwise projection, and it succeeds whenever every point projects.
proof fn lemma_project_all(s: Seq<Position>, g: Gradient)
    ensures
        spec_project_all(s, g) matches Some(q) ==> q.len() == s.len() && forall|i: int|
            0 <= i < s.len() ==> Some(#[trigger] q[i]) == spec_project(s[i], g),
        (forall|i: int| 0 <= i < s.len() ==> #[trigger] spec_project(s[i], g) is Some)
            ==> spec_project_all(s, g) is Some,
    decreases s.len(),
{
    if s.len() > 0 {
        lemma_project_all(s.drop_last(), g);
    }
}

/// Projects every point of `ps` onto the axis with gradient `g`.
fn project_all(ps: &Vec<Position>, g: &Gradient) -> (r: Option<Vec<Position>>)
    requires
        all_wf(ps@),
        g.wf(),
    ensures
        match r {
            Some(q) => Some(q@) == spec_project_all(ps@, *g) && all_wf(q@) && q@.len()
                == ps@.len(),
            None => spec_project_all(ps@, *g) is None,
        },
{
    let mut out: Vec<Position> = Vec::new();
    let mut i: usize = 0;
    assert(ps@.take(0) =~= Seq::<Position>::empty());
    while i < ps.len()
        invariant
            0 <= i <= ps@.len(),
            all_wf(ps@),
            g.wf(),
            all_wf(out@),
            out@.len() == i,
            Some(out@) == spec_project_all(ps@.take(i as int), *g),
        decreases ps@.len() - i,
    {
        let q = match project(&ps[i], g) {
            Some(q) => q,
            None => {
                proof {
                    lemma_project_all(ps@, *g);
                    assert(spec_project(ps@[i as int], *g) is None);
                    let whole = spec_project_all(ps@, *g);
                    if whole is Some {
                        let w = whole->Some_0;
                        assert(Some(w[i as int]) == spec_project(ps@[i as int], *g));
                        assert(false);
                    }
                }
                return None;
            },
        };
        out.push(q);
        proof {
            assert(ps@.take(i + 1).drop_last() =~= ps@.take(i as int));
            assert(ps@.take(i + 1).last() == ps@[i as int]);
        }
        i = i + 1;
    }
    proof {
        assert(ps@.take(ps@.len() as int) =~= ps@);
    }
    Some(out)
}

/// Componentwise minimum of a nonempty point vector.
fn fold_min(ps: &Vec<Position>) -> (r: Position)
    requires
        ps@.len() >= 1,
        all_wf(ps@),
    ensures
        r == spec_fold_min(ps@),
        r.wf(),
{
    let mut acc = ps[0];
    let mut i: usize = 1;
    while i < ps.len()
        invariant
            1 <= i <= ps@.len(),
            all_wf(ps@),
            acc == spec_fold_min(ps@.take(i as int)),
            acc.wf(),
        decreases ps@.len() - i,
    {
        let p = ps[i];
        acc = Position { x: acc.x.min(p.x), y: acc.y.min(p.y) };
        proof {
            assert(ps@.take(i + 1).drop_last() =~= ps@.take(i as int));
            assert(ps@.take(i + 1).last() == ps@[i as int]);
        }
        i = i + 1;
    }
    proof {
        assert(ps@.take(ps@.len() as int) =~= ps@);
    }
    acc
}

/// Componentwise maximum of a nonempty point vector.
fn fold_max(ps: &Vec<Position>) -> (r: Position)
    requires
        ps@.len() >= 1,
        all_wf(ps@),
    ensures
        r == spec_fold_max(ps@),
        r.wf(),
{
    let mut acc = ps[0];
    let mut i: usize = 1;
    while i < ps.len()
        invariant
            1 <= i <= ps@.len(),
            all_wf(ps@),
            acc == spec_fold_max(ps@.take(i as int)),
            acc.wf(),
        decreases ps@.len() - i,
    {
        let p = ps[i];
        acc = Position { x: acc.x.max(p.x), y: acc.y.max(p.y) };
        proof {
            assert(ps@.take(i + 1).drop_last() =~= ps@.take(i as int));
            assert(ps@.take(i + 1).last() == ps@[i as int]);
        }
        i = i + 1;
    }
    proof {
        assert(ps@.take(ps@.len() as int) =~= ps@);
    }
    acc
}

/// The extrema comparison of the overlap rule, on both components.
fn extents_overlap(q1: &Vec<Position>, q2: &Vec<Position>) -> (r: bool)
    requires
        q1@.len() >= 1,
        q2@.len() >= 1,
        all_wf(q1@),
        all_wf(q2@),
    ensures
        r == spec_extents_overlap(q1@, q2@),
{
    let min1 = fold_min(q1);
    let max1 = fold_max(q1);
    let min2 = fold_min(q2);
    let max2 = fold_max(q2);
    min2.x.le(max1.x) && min1.x.le(max2.x) && min2.y.le(max1.y) && min1.y.le(max2.y)
}

/// The overlap test for one edge of the reference shape.
fn axis_overlap(
    p1: Position,
    p2: Position,
    shape1: &Vec<Position>,
    shape2: &Vec<Position>,
) -> (r: Option<bool>)
    requires
        p1.wf(),
        p2.wf(),
        shape1@.len() >= 1,
        shape2@.len() >= 1,
        all_wf(shape1@),
        all_wf(shape2@),
    ensures
        r == spec_axis_overlap(p1, p2, shape1@, shape2@),
{
    if p1.x.eq_val(p2.x) && p1.y.eq_val(p2.y) {
        return Some(false);
    }
    let g: Gradient = if p1.x.eq_val(p2.x) {
        Gradient::Finite(Scalar::zero())
    } else {
        let dy = match p1.y.checked_sub(p2.y) {
            Some(v) => v,
            None => {
                return None;
            },
        };
        let dx = match p1.x.checked_sub(p2.x) {
            Some(v) => v,
            None => {
                return None;
            },
        };
        proof {
            lemma_sub_zero_iff(p1.x, p2.x, dx);
        }
        let a = match dy.checked_div(dx) {
            Some(v) => v,
            None => {
                return None;
            },
        };
        if a.is_zero() {
            Gradient::Vertical
        } else {
            Gradient::Finite(a.recip().neg())
        }
    };
    let q1 = match project_all(shape1, &g) {
        Some(v) => v,
        None => {
            return None;
        },
    };
    let q2 = match project_all(shape2, &g) {
        Some(v) => v,
        None => {
            return None;
        },
    };
    Some(extents_overlap(&q1, &q2))
}

/// Tests the axes perpendicular to the edges of `shape1` (with circular
/// wraparound): `Some(true)` when the two shapes overlap on all of them, so
/// that no edge of `shape1` yields a separating axis; `None` on overflow.
pub fn check_for_separating_axis(shape1: &Vec<Position>, shape2: &Vec<Position>) -> (r: Option<
    bool,
>)
    requires
        shape1@.len() >= 1,
        shape2@.len() >= 1,
        all_wf(shape1@),
        all_wf(shape2@),
    ensures
        r == spec_no_separating_axis(shape1@, shape2@),
{
    let edges = circular_edge_pairs(shape1);
    let mut i: usize = 0;
    while i < edges.len()
        invariant
            0 <= i <= edges@.len(),
            edges@.len() == shape1@.len(),
            forall|k: int|
                0 <= k < shape1@.len() ==> edges@[k] == (
                    shape1@[k],
                    shape1@[(k + 1) % (shape1@.len() as int)],
                ),
            shape1@.len() >= 1,
            shape2@.len() >= 1,
            all_wf(shape1@),
            all_wf(shape2@),
            spec_axes_from(shape1@, shape2@, 0) == spec_axes_from(shape1@, shape2@, i as int),
        decreases edges@.len() - i,
    {
        let (p1, p2) = edges[i];
        proof {
            assert(shape1@[(i as int + 1) % (shape1@.len() as int)].wf());
        }
        match axis_overlap(p1, p2, shape1, shape2) {
            None => {
                return None;
            },
            Some(false) => {
                return Some(false);
            },
            Some(true) => {},
        }
        i = i + 1;
    }
    Some(true)
}

/// Checks for collision between two convex polygons using the separating
/// axis approach: the shapes collide exactly when neither shape's edges
/// yield a separating axis. `None` only on arithmetic overflow.
pub fn collided(shape1: &Vec<Position>, shape2: &Vec<Position>) -> (r: Option<bool>)
    requires
        shape1@.len() >= 1,
        shape2@.len() >= 1,
        all_wf(shape1@),
        all_wf(shape2@),
    ensures
        r == spec_collided(shape1@, shape2@),
{
    let c1 = match check_for_separating_axis(shape1, shape2) {
        Some(v) => v,
        None => {
            return None;
        },
    };
    if !c1 {
        return Some(false);
    }
    check_for_separating_axis(shape2, shape1)
}

} // verus!
