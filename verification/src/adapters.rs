//! Thin wrappers around the itertools iterator adaptors the detector and the
//! terrain partitioner lean on. Each body only rearranges its input; the
//! contract states the rearrangement exactly.

use crate::geometry::Position;
use itertools::Itertools;
use vstd::prelude::*;

verus! {

/// Relies on itertools' `circular_tuple_windows`: over `n` elements it yields
/// exactly `n` pairs `(v[i], v[(i + 1) mod n])`, the last element wrapping
/// around to the first; over an empty vector it yields nothing.
#[verifier::external_body]
pub(crate) fn circular_edge_pairs(v: &Vec<Position>) -> (r: Vec<(Position, Position)>)
    ensures
        r@.len() == v@.len(),
        forall|i: int|
            0 <= i < v@.len() ==> r@[i] == (v@[i], v@[(i + 1) % (v@.len() as int)]),
{
    v.iter().cloned().circular_tuple_windows::<(Position, Position)>().collect()
}

/// Relies on itertools' `tuple_windows`: over `n >= 2` elements it yields the
/// `n - 1` adjacent pairs `(v[i], v[i + 1])` in order; over fewer it yields
/// nothing.
#[verifier::external_body]
pub(crate) fn consecutive_pairs(v: &Vec<Position>) -> (r: Vec<(Position, Position)>)
    ensures
        r@.len() == if v@.len() <= 1 {
            0int
        } else {
            v@.len() - 1
        },
        forall|i: int| 0 <= i < r@.len() ==> r@[i] == (v@[i], v@[i + 1]),
{
    v.iter().cloned().tuple_windows::<(Position, Position)>().collect()
}

/// Relies on itertools' `cartesian_product`: all pairs `(i, j)` with `i` in
/// `0..n` and `j` in `0..m`, in row-major order. The size cap keeps the
/// collected vector's allocation modest.
#[verifier::external_body]
pub(crate) fn index_grid(n: usize, m: usize) -> (r: Vec<(usize, usize)>)
    requires
        n * m <= 0x100_0000,
    ensures
        r@.len() == n * m,
        forall|k: int|
            0 <= k < n * m ==> r@[k] == ((k / (m as int)) as usize, (k % (m as int)) as usize),
{
    (0..n).cartesian_product(0..m).collect()
}

} // verus!
