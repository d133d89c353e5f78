//! CSR builder: converts the sorted, normalized edge sequence into the
//! row-pointer and column-index arrays of a compressed-sparse-row matrix.
//!
//! Every edge contributes its destination to the column-index array and one
//! (implicit) value 1.0; the running offset is appended to the row-pointer
//! array whenever the source changes from the current-row sentinel, which
//! starts at 0. The row-pointer array therefore has one entry per distinct
//! source row encountered (plus the leading 0), not one entry per possible
//! row, and carries no trailing total-count sentinel — a deliberate
//! divergence from canonical CSR that the consuming frame format expects.
//!
//! Ids and offsets are held as fixed-width 64-bit values regardless of the
//! host's pointer width, for cross-platform reproducibility.

use vstd::prelude::*;

use crate::graph::Edge;

verus! {

/// The CSR arrays. The value array is implicit: every stored value is the
/// literal 1.0 (unweighted-graph convention), one per column-index entry.
pub struct Csr {
    pub row_ptr: Vec<u64>,
    pub col_idx: Vec<u64>,
}

/// Row-pointer entries contributed by edges `s[i..]` when the current-row
/// sentinel is `cur`: the offset `i` is emitted whenever the source of
/// `s[i]` differs from the sentinel, which then updates.
pub open spec fn rows_rec(s: Seq<Edge>, i: int, cur: nat) -> Seq<u64>
    decreases s.len() - i,
{
    if i < 0 || i >= s.len() {
        Seq::empty()
    } else if s[i].0.0 as nat != cur {
        seq![i as u64] + rows_rec(s, i + 1, s[i].0.0 as nat)
    } else {
        rows_rec(s, i + 1, cur)
    }
}

/// The full row-pointer array: a leading 0, then one offset per change of
/// source row.
pub open spec fn spec_row_ptr(s: Seq<Edge>) -> Seq<u64> {
    seq![0u64] + rows_rec(s, 0, 0)
}

/// Builds the CSR arrays from the sorted normalized edge sequence. The
/// column-index array holds exactly the destinations, in order, so its
/// length equals the number of edges (the nonzero count).
pub fn build_csr(edges: &Vec<Edge>) -> (r: Csr)
    ensures
        r.col_idx@.len() == edges@.len(),
        forall|i: int| 0 <= i < edges@.len() ==> r.col_idx@[i] == edges@[i].1.0 as u64,
        r.row_ptr@ == spec_row_ptr(edges@),
{
    let mut row_ptr: Vec<u64> = Vec::new();
    row_ptr.push(0);
    let mut col_idx: Vec<u64> = Vec::new();
    let mut row: usize = 0;
    let mut i: usize = 0;
    proof {
        assert(row_ptr@ =~= seq![0u64]);
    }
    while i < edges.len()
        invariant
            i <= edges@.len(),
            col_idx@.len() == i,
            forall|j: int| 0 <= j < i ==> col_idx@[j] == edges@[j].1.0 as u64,
            spec_row_ptr(edges@) == row_ptr@ + rows_rec(edges@, i as int, row as nat),
        decreases edges@.len() - i,
    {
        let e = edges[i];
        col_idx.push(e.1.0 as u64);
        if e.0.0 != row {
            proof {
                assert(rows_rec(edges@, i as int, row as nat) == seq![i as u64] + rows_rec(
                    edges@,
                    i + 1,
                    edges@[i as int].0.0 as nat,
                ));
                assert(row_ptr@.push(i as u64) + rows_rec(edges@, i + 1, edges@[i as int].0.0 as nat)
                    =~= row_ptr@ + rows_rec(edges@, i as int, row as nat));
            }
            row_ptr.push(i as u64);
            row = e.0.0;
        } else {
            proof {
                assert(rows_rec(edges@, i as int, row as nat) == rows_rec(edges@, i + 1, row as nat));
            }
        }
        i += 1;
    }
    proof {
        assert(rows_rec(edges@, edges@.len() as int, row as nat) =~= Seq::<u64>::empty());
        assert(row_ptr@ + Seq::<u64>::empty() =~= row_ptr@);
    }
    Csr { row_ptr, col_idx }
}

} // verus!
