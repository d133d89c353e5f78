//! CSV emitter: writes one line `<source>,<destination>` per sorted,
//! deduplicated, normalized edge.

use vstd::prelude::*;

use crate::bytes::dec_digits;
use crate::bytes::push_dec;
use crate::graph::Edge;

verus! {

/// The CSV rendering of one edge: decimal source, comma, decimal
/// destination, newline.
pub open spec fn csv_line(e: Edge) -> Seq<u8> {
    dec_digits(e.0.0 as nat) + seq![44u8] + dec_digits(e.1.0 as nat) + seq![10u8]
}

/// The CSV rendering of an edge sequence, in order.
pub open spec fn spec_csv(edges: Seq<Edge>) -> Seq<u8>
    decreases edges.len(),
{
    if edges.len() == 0 {
        Seq::empty()
    } else {
        spec_csv(edges.drop_last()) + csv_line(edges.last())
    }
}

/// Renders the edge sequence as CSV text, one line per edge, in order.
pub fn csv_bytes(edges: &Vec<Edge>) -> (r: Vec<u8>)
    ensures
        r@ == spec_csv(edges@),
{
    let mut out: Vec<u8> = Vec::new();
    let n = edges.len();
    let mut i: usize = 0;
    proof {
        assert(spec_csv(edges@.take(0)) =~= Seq::<u8>::empty());
        assert(out@ =~= spec_csv(edges@.take(0)));
    }
    while i < n
        invariant
            i <= n,
            n == edges@.len(),
            out@ == spec_csv(edges@.take(i as int)),
        decreases n - i,
    {
        let e = edges[i];
        let ghost before = out@;
        push_dec(&mut out, e.0.0);
        out.push(44);
        push_dec(&mut out, e.1.0);
        out.push(10);
        proof {
            assert(out@ =~= before + csv_line(e));
            assert(edges@.take(i + 1).drop_last() =~= edges@.take(i as int));
            assert(spec_csv(edges@.take(i + 1)) == spec_csv(edges@.take(i as int)) + csv_line(
                edges@[i as int],
            ));
        }
        i += 1;
    }
    proof {
        assert(edges@.take(n as int) =~= edges@);
    }
    out
}

} // verus!
