//! The route reconstructor: validates the solver's assignment, moves every
//! stop to its tour position, and annotates each stop with the distance to
//! the next one, wrapping from the last position back to the first.

use vstd::prelude::*;
use crate::permutation::{is_bijection, check_bijection, apply_permutation};

verus! {

/// Why a reconstruction request is rejected.
#[derive(Debug, Clone, Copy, PartialEq, Eq, Structural)]
pub enum RouteError {
    /// `destinations` and `destination_names` differ in length.
    InputMismatch,
    /// The solver's permutation is not a bijection over the tour positions.
    SolverContractViolation,
}

/// The tour position that follows `k` in a cyclic tour of `n` stops.
pub open spec fn next_pos(k: int, n: int) -> int {
    if k + 1 == n {
        0
    } else {
        k + 1
    }
}

/// The matrix entry for the hop out of tour position `k`, or nothing when
/// the matrix lacks that cell.
pub open spec fn hop_from<D>(matrix: Seq<Seq<D>>, k: int, n: int) -> Option<D> {
    if 0 <= k < matrix.len() && 0 <= next_pos(k, n) < matrix[k].len() {
        Some(matrix[k][next_pos(k, n)])
    } else {
        None
    }
}

/// An executable matrix, seen as a sequence of rows.
pub open spec fn rows<D>(matrix: Seq<Vec<D>>) -> Seq<Seq<D>> {
    matrix.map_values(|row: Vec<D>| row@)
}

/// A permutation the reconstructor accepts: its first `n` entries form a
/// bijection over the tour positions, and at most one trailing entry — a
/// loop-closing marker under some solver conventions — follows them.
pub open spec fn accepted_permutation(p: Seq<usize>, n: nat) -> bool {
    &&& (p.len() == n || p.len() == n + 1)
    &&& is_bijection(p.take(n as int), n)
}

/// Moves each destination and its label to the tour position the solver
/// assigned it: stop `i` goes to position `permutation[i]`. Only the first
/// `destinations.len()` entries of `permutation` are consumed; a trailing
/// loop-closing marker is discarded. A malformed permutation or a length
/// mismatch between destinations and names is rejected, never silently
/// scattered.
pub fn reorder_route<L>(
    destinations: Vec<L>,
    destination_names: Vec<String>,
    permutation: &Vec<usize>,
) -> (r: Result<(Vec<L>, Vec<String>), RouteError>)
    ensures
        (r matches Err(e) && e == RouteError::InputMismatch) <==>
            destinations@.len() != destination_names@.len(),
        (r matches Err(e) && e == RouteError::SolverContractViolation) <==>
            (destinations@.len() == destination_names@.len()
                && !accepted_permutation(permutation@, destinations@.len() as nat)),
        r is Ok <==> (destinations@.len() == destination_names@.len()
            && accepted_permutation(permutation@, destinations@.len() as nat)),
        r matches Ok(pair) ==> {
            &&& pair.0@.len() == destinations@.len()
            &&& pair.1@.len() == destinations@.len()
            &&& forall|i: int| #![trigger permutation@[i]] 0 <= i < destinations@.len() ==>
                pair.0@[permutation@[i] as int] == destinations@[i]
                    && pair.1@[permutation@[i] as int] == destination_names@[i]
        },
{
    let n = destinations.len();
    if n != destination_names.len() {
        return Err(RouteError::InputMismatch);
    }
    let len_ok = permutation.len() == n || (n < usize::MAX && permutation.len() == n + 1);
    if !len_ok {
        return Err(RouteError::SolverContractViolation);
    }
    if !check_bijection(permutation, n) {
        return Err(RouteError::SolverContractViolation);
    }
    let reordered = apply_permutation(destinations, permutation);
    let reordered_names = apply_permutation(destination_names, permutation);
    Ok((reordered, reordered_names))
}

/// Pairs each stop of the reordered route with the matrix distance to the
/// next stop in tour order; the last stop's lookup wraps back to position
/// 0, closing the cycle. A lookup outside the matrix yields `None` instead
/// of failing; in particular, a single-stop route gets its self-distance
/// `matrix[0][0]`, not an absent hop.
pub fn annotate_route<L: Copy, D: Copy>(
    reordered: &Vec<L>,
    matrix: &Vec<Vec<D>>,
) -> (out: Vec<(L, Option<D>)>)
    ensures
        out@.len() == reordered@.len(),
        forall|k: int| 0 <= k < reordered@.len() ==> (#[trigger] out@[k]).0 == reordered@[k],
        forall|k: int| 0 <= k < reordered@.len() ==>
            (#[trigger] out@[k]).1 == hop_from(rows(matrix@), k, reordered@.len() as int),
{
    let n = reordered.len();
    let mut out: Vec<(L, Option<D>)> = Vec::new();
    let mut k: usize = 0;
    while k < n
        invariant
            k <= n,
            n == reordered@.len(),
            out@.len() == k,
            forall|j: int| 0 <= j < k ==> (#[trigger] out@[j]).0 == reordered@[j],
            forall|j: int| 0 <= j < k ==>
                (#[trigger] out@[j]).1 == hop_from(rows(matrix@), j, n as int),
        decreases n - k,
    {
        let next: usize = if k + 1 == n {
            0
        } else {
            k + 1
        };
        let hop: Option<D> = if k < matrix.len() {
            let row = &matrix[k];
            if next < row.len() {
                Some(row[next])
            } else {
                None
            }
        } else {
            None
        };
        proof {
            assert(next as int == next_pos(k as int, n as int));
            if (k as int) < matrix@.len() {
                assert(rows(matrix@)[k as int] == matrix@[k as int]@);
            }
        }
        out.push((reordered[k], hop));
        k = k + 1;
    }
    out
}

/// Law: circular closure. For a tour of at least two stops over a full
/// n-by-n matrix, the hop out of the last tour position is the matrix
/// entry leading back to position 0.
pub proof fn lemma_circular_closure<D>(matrix: Seq<Seq<D>>, n: int)
    requires
        n >= 2,
        matrix.len() == n,
        forall|k: int| 0 <= k < n ==> (#[trigger] matrix[k]).len() == n,
    ensures
        hop_from(matrix, n - 1, n) == Some(matrix[n - 1][0]),
{
    assert(next_pos(n - 1, n) == 0);
}

} // verus!
