//! Partitioning a terrain height profile into collision quadrilaterals.

use crate::adapters::consecutive_pairs;
use crate::geometry::{all_wf, Position};
use crate::rational::{spec_sub, Scalar};
use vstd::prelude::*;

verus! {

/// The quadrilateral a terrain segment `p1 -> p2` extrudes: the two sample
/// points and, ten meters below each, their lowered counterparts, in the
/// order `[p1, p2, lowered p2, lowered p1]`. `None` only on overflow.
pub open spec fn spec_terrain_quad(p1: Position, p2: Position) -> Option<Seq<Position>> {
    match spec_sub(p2.y, (Scalar { n: 10, d: 1 })) {
        None => None,
        Some(l2) => {
            match spec_sub(p1.y, (Scalar { n: 10, d: 1 })) {
                None => None,
                Some(l1) => Some(
                    seq![p1, p2, Position { x: p2.x, y: l2 }, Position { x: p1.x, y: l1 }],
                ),
            }
        },
    }
}

/// The quadrilaterals of all consecutive terrain segments, in order.
pub open spec fn spec_partition(t: Seq<Position>) -> Option<Seq<Seq<Position>>>
    decreases t.len(),
{
    if t.len() <= 1 {
        Some(Seq::empty())
    } else {
        match spec_partition(t.drop_last()) {
            None => None,
            Some(rest) => {
                match spec_terrain_quad(t[t.len() - 2], t[t.len() - 1]) {
                    None => None,
                    Some(q) => Some(rest.push(q)),
                }
            },
        }
    }
}

/// Characterization of `spec_partition`: a successful partition has one quad
/// per consecutive pair of samples, and it succeeds whenever every quad does.
pub proof fn lemma_partition_shape(t: Seq<Position>)
    ensures
        spec_partition(t) matches Some(ss) ==> ss.len() == (if t.len() <= 1 {
            0int
        } else {
            t.len() - 1
        }) && forall|i: int|
            0 <= i < ss.len() ==> Some(#[trigger] ss[i]) == spec_terrain_quad(t[i], t[i + 1]),
        (forall|i: int|
            0 <= i < t.len() - 1 ==> #[trigger] spec_terrain_quad(t[i], t[i + 1]) is Some)
            ==> spec_partition(t) is Some,
    decreases t.len(),
{
    if t.len() > 1 {
        lemma_partition_shape(t.drop_last());
        assert(forall|i: int|
            0 <= i < t.len() - 1 ==> #[trigger] t.drop_last()[i] == t[i]);
    }
}

/// Partitions `terrain` into one fixed-body quadrilateral per consecutive
/// pair of samples: segment `i` yields the mesh
/// `[t[i], t[i+1], (t[i+1].x, t[i+1].y - 10), (t[i].x, t[i].y - 10)]`.
/// `None` only on arithmetic overflow.
pub fn partition_terrain(terrain: &Vec<Position>) -> (r: Option<Vec<Vec<Position>>>)
    requires
        all_wf(terrain@),
    ensures
        r is Some <==> spec_partition(terrain@) is Some,
        r matches Some(qs) ==> {
            &&& spec_partition(terrain@) matches Some(ss) && qs@.len() == ss.len() && forall|
                i: int,
            | 0 <= i < ss.len() ==> (#[trigger] qs@[i])@ == ss[i]
            &&& qs@.len() == (if terrain@.len() <= 1 {
                0int
            } else {
                terrain@.len() - 1
            })
            &&& forall|i: int|
                0 <= i < qs@.len() ==> (#[trigger] qs@[i])@.len() == 4 && qs@[i]@[0]
                    == terrain@[i] && qs@[i]@[1] == terrain@[i + 1] && qs@[i]@[2].x == terrain@[i
                    + 1].x && Some(qs@[i]@[2].y) == spec_sub(
                    terrain@[i + 1].y,
                    (Scalar { n: 10, d: 1 }),
                ) && qs@[i]@[3].x == terrain@[i].x && Some(qs@[i]@[3].y) == spec_sub(
                    terrain@[i].y,
                    (Scalar { n: 10, d: 1 }),
                ) && all_wf(qs@[i]@)
        },
{
    let ten = Scalar::from_int(10);
    let segments = consecutive_pairs(terrain);
    let mut qs: Vec<Vec<Position>> = Vec::new();
    let mut i: usize = 0;
    proof {
        lemma_partition_shape(terrain@);
    }
    while i < segments.len()
        invariant
            segments@.len() == (if terrain@.len() <= 1 {
                0int
            } else {
                terrain@.len() - 1
            }),
            forall|k: int|
                0 <= k < segments@.len() ==> segments@[k] == (terrain@[k], terrain@[k + 1]),
            all_wf(terrain@),
            ten == (Scalar { n: 10, d: 1 }),
            0 <= i <= segments@.len(),
            qs@.len() == i,
            forall|k: int|
                0 <= k < i ==> Some((#[trigger] qs@[k])@) == spec_terrain_quad(
                    terrain@[k],
                    terrain@[k + 1],
                ) && all_wf(qs@[k]@),
        decreases segments@.len() - i,
    {
        let (p1, p2) = segments[i];
        let l2 = match p2.y.checked_sub(ten) {
            Some(v) => v,
            None => {
                proof {
                    lemma_partition_shape(terrain@);
                    let whole = spec_partition(terrain@);
                    if whole is Some {
                        let ss = whole->Some_0;
                        assert(Some(ss[i as int]) == spec_terrain_quad(
                            terrain@[i as int],
                            terrain@[i as int + 1],
                        ));
                        assert(false);
                    }
                }
                return None;
            },
        };
        let l1 = match p1.y.checked_sub(ten) {
            Some(v) => v,
            None => {
                proof {
                    lemma_partition_shape(terrain@);
                    let whole = spec_partition(terrain@);
                    if whole is Some {
                        let ss = whole->Some_0;
                        assert(Some(ss[i as int]) == spec_terrain_quad(
                            terrain@[i as int],
                            terrain@[i as int + 1],
                        ));
                        assert(false);
                    }
                }
                return None;
            },
        };
        let quad = vec![p1, p2, Position { x: p2.x, y: l2 }, Position { x: p1.x, y: l1 }];
        proof {
            assert(quad@ =~= seq![
                p1,
                p2,
                Position { x: p2.x, y: l2 },
                Position { x: p1.x, y: l1 },
            ]);
        }
        qs.push(quad);
        i = i + 1;
    }
    proof {
        assert forall|j: int| 0 <= j < terrain@.len() - 1 implies #[trigger] spec_terrain_quad(
            terrain@[j],
            terrain@[j + 1],
        ) is Some by {
            assert(Some(qs@[j]@) == spec_terrain_quad(terrain@[j], terrain@[j + 1]));
        }
        lemma_partition_shape(terrain@);
        let ss = spec_partition(terrain@)->Some_0;
        assert(qs@.len() == ss.len());
        assert forall|k: int| 0 <= k < ss.len() implies (#[trigger] qs@[k])@ == ss[k] by {
            assert(Some(ss[k]) == spec_terrain_quad(terrain@[k], terrain@[k + 1]));
            assert(Some(qs@[k]@) == spec_terrain_quad(terrain@[k], terrain@[k + 1]));
        }
    }
    Some(qs)
}

} // verus!
