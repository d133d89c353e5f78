//! Graph normalizer: shifts every id down by the minimum id seen, so that
//! the emitted ids start at 0, and hands the edges on in their sorted,
//! deduplicated order. The sort is the sole determinism guarantee of the
//! pipeline: no unordered intermediate may leak into the output.

use vstd::prelude::*;

use crate::edge_set::EdgeSet;
use crate::graph::edge_lt;
use crate::graph::strictly_sorted;
use crate::graph::Edge;
use crate::graph::Vertex;

verus! {

/// `e` with both coordinates shifted down by `min`.
pub open spec fn shifted(e: Edge, min: usize) -> Edge {
    Edge(Vertex((e.0.0 - min) as usize), Vertex((e.1.0 - min) as usize))
}

/// Both endpoints of `e` are at or above `min`.
pub open spec fn above_min(e: Edge, min: usize) -> bool {
    e.0.0 >= min && e.1.0 >= min
}

/// Subtracts `min` from every coordinate of the sorted, deduplicated edge
/// collection. The result is element-for-element the shifted input, still
/// strictly sorted; its membership is the shifted membership of the input.
pub fn normalize(edges: &EdgeSet, min: usize) -> (r: Vec<Edge>)
    requires
        edges.wf(),
        forall|e: Edge| edges@.contains(e) ==> above_min(e, min),
    ensures
        r@.len() == edges@.len(),
        forall|i: int| 0 <= i < r@.len() ==> r@[i] == shifted(edges@[i], min),
        strictly_sorted(r@),
        forall|x: Edge|
            r@.contains(x) <==> exists|e: Edge|
                #[trigger] edges@.contains(e) && x == shifted(e, min),
{
    let n = edges.len();
    let mut out: Vec<Edge> = Vec::new();
    let mut i: usize = 0;
    while i < n
        invariant
            i <= n,
            n == edges@.len(),
            edges.wf(),
            forall|e: Edge| edges@.contains(e) ==> above_min(e, min),
            out@.len() == i,
            forall|j: int| 0 <= j < i ==> out@[j] == shifted(edges@[j], min),
        decreases n - i,
    {
        let e = edges.get(i);
        proof {
            assert(edges@.contains(edges@[i as int]));
            assert(above_min(edges@[i as int], min));
        }
        out.push(Edge(Vertex(e.0.0 - min), Vertex(e.1.0 - min)));
        i += 1;
    }
    proof {
        assert forall|p: int, q: int| 0 <= p < q < out@.len() implies edge_lt(
            out@[p],
            out@[q],
        ) by {
            assert(edge_lt(edges@[p], edges@[q]));
            assert(edges@.contains(edges@[p]));
            assert(edges@.contains(edges@[q]));
            assert(above_min(edges@[p], min));
            assert(above_min(edges@[q], min));
        }
        assert forall|x: Edge| out@.contains(x) implies exists|e: Edge|
            #[trigger] edges@.contains(e) && x == shifted(e, min) by {
            let k = choose|k: int| 0 <= k < out@.len() && out@[k] == x;
            assert(edges@.contains(edges@[k]));
        }
        assert forall|x: Edge| (exists|e: Edge| #[trigger] edges@.contains(e) && x == shifted(e, min))
            implies out@.contains(x) by {
            let e = choose|e: Edge| #[trigger] edges@.contains(e) && x == shifted(e, min);
            let k = choose|k: int| 0 <= k < edges@.len() && edges@[k] == e;
            assert(out@[k] == x);
        }
    }
    out
}

} // verus!
