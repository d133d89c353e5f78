//! Core data model: vertices, edges, edge ordering, run metadata, and the
//! structured error for malformed input lines.

use vstd::prelude::*;

verus! {

/// A vertex: a non-negative integer identifier.
#[derive(Clone, Copy, PartialEq, Eq, Structural, Debug)]
pub struct Vertex(pub usize);

/// An ordered pair of vertices. Edge equality is pairwise-exact: `(a, b)`
/// and `(b, a)` are distinct edges unless both are inserted explicitly.
#[derive(Clone, Copy, PartialEq, Eq, Structural, Debug)]
pub struct Edge(pub Vertex, pub Vertex);

impl Edge {
    /// The reversed pair, used for the symmetric closure in undirected mode.
    pub open spec fn spec_rev(self) -> Edge {
        Edge(self.1, self.0)
    }

    pub fn rev(&self) -> (r: Self)
        ensures
            r == self.spec_rev(),
    {
        Edge(self.1, self.0)
    }
}

impl From<Vertex> for usize {
    /// The bare id of a vertex.
    fn from(v: Vertex) -> (r: usize)
        ensures
            r == v.0,
    {
        v.0
    }
}

impl vstd::std_specs::convert::FromSpecImpl<Vertex> for usize {
    open spec fn obeys_from_spec() -> bool {
        true
    }

    open spec fn from_spec(v: Vertex) -> usize {
        v.0
    }
}

impl From<(usize, usize)> for Edge {
    /// The edge (source, destination) of a pair of ids.
    fn from(tuple: (usize, usize)) -> (r: Edge)
        ensures
            r == Edge(Vertex(tuple.0), Vertex(tuple.1)),
    {
        Edge(Vertex(tuple.0), Vertex(tuple.1))
    }
}

impl vstd::std_specs::convert::FromSpecImpl<(usize, usize)> for Edge {
    open spec fn obeys_from_spec() -> bool {
        true
    }

    open spec fn from_spec(tuple: (usize, usize)) -> Edge {
        Edge(Vertex(tuple.0), Vertex(tuple.1))
    }
}

/// Strict lexicographic order on edges by (source, destination).
pub open spec fn edge_lt(a: Edge, b: Edge) -> bool {
    a.0.0 < b.0.0 || (a.0.0 == b.0.0 && a.1.0 < b.1.0)
}

/// Executable comparison agreeing with [`edge_lt`].
pub fn edge_less(a: Edge, b: Edge) -> (r: bool)
    ensures
        r == edge_lt(a, b),
{
    a.0.0 < b.0.0 || (a.0.0 == b.0.0 && a.1.0 < b.1.0)
}

/// A sequence of edges strictly ascending in [`edge_lt`]: sorted and free of
/// duplicates.
pub open spec fn strictly_sorted(s: Seq<Edge>) -> bool {
    forall|i: int, j: int| 0 <= i < j < s.len() ==> edge_lt(s[i], s[j])
}

/// No element of a strictly sorted sequence repeats.
pub proof fn lemma_sorted_distinct(s: Seq<Edge>)
    requires
        strictly_sorted(s),
    ensures
        forall|i: int, j: int| 0 <= i < j < s.len() ==> s[i] != s[j],
{
    assert forall|i: int, j: int| 0 <= i < j < s.len() implies s[i] != s[j] by {
        assert(edge_lt(s[i], s[j]));
    }
}

/// Two strictly sorted sequences with the same members are identical: the
/// sort is a correctness boundary, because it makes the emitted order a
/// function of the edge set alone.
pub proof fn lemma_sorted_unique(a: Seq<Edge>, b: Seq<Edge>)
    requires
        strictly_sorted(a),
        strictly_sorted(b),
        forall|x: Edge| a.contains(x) <==> b.contains(x),
    ensures
        a == b,
    decreases a.len(),
{
    if a.len() == 0 {
        if b.len() > 0 {
            assert(b.contains(b[0]));
            assert(a.contains(b[0]));
        }
        assert(a =~= b);
    } else {
        assert(a.contains(a[0]));
        assert(b.contains(a[0]));
        let ka = choose|k: int| 0 <= k < b.len() && b[k] == a[0];
        assert(b.contains(b[0]));
        assert(a.contains(b[0]));
        let kb = choose|k: int| 0 <= k < a.len() && a[k] == b[0];
        if ka > 0 {
            assert(edge_lt(b[0], b[ka]));
        }
        if kb > 0 {
            assert(edge_lt(a[0], a[kb]));
        }
        assert(a[0] == b[0]);
        let ta = a.drop_first();
        let tb = b.drop_first();
        assert forall|p: int, q: int| 0 <= p < q < ta.len() implies edge_lt(ta[p], ta[q]) by {
            assert(ta[p] == a[p + 1] && ta[q] == a[q + 1]);
        }
        assert forall|p: int, q: int| 0 <= p < q < tb.len() implies edge_lt(tb[p], tb[q]) by {
            assert(tb[p] == b[p + 1] && tb[q] == b[q + 1]);
        }
        assert forall|x: Edge| ta.contains(x) implies tb.contains(x) by {
            let k = choose|k: int| 0 <= k < ta.len() && ta[k] == x;
            assert(a[k + 1] == x);
            assert(a.contains(x));
            assert(edge_lt(a[0], a[k + 1]));
            assert(b.contains(x));
            let m = choose|m: int| 0 <= m < b.len() && b[m] == x;
            assert(m != 0);
            assert(tb[m - 1] == x);
        }
        assert forall|x: Edge| tb.contains(x) implies ta.contains(x) by {
            let k = choose|k: int| 0 <= k < tb.len() && tb[k] == x;
            assert(b[k + 1] == x);
            assert(b.contains(x));
            assert(edge_lt(b[0], b[k + 1]));
            assert(a.contains(x));
            let m = choose|m: int| 0 <= m < a.len() && a[m] == x;
            assert(m != 0);
            assert(ta[m - 1] == x);
        }
        lemma_sorted_unique(ta, tb);
        assert forall|i: int| 0 <= i < a.len() implies a[i] == b[i] by {
            if i > 0 {
                assert(ta[i - 1] == tb[i - 1]);
            }
        }
        assert(a =~= b);
    }
}

/// Metadata describing the emitted matrix.
#[allow(non_snake_case)]
#[derive(Debug)]
pub struct Metadata {
    pub numRows: usize,
    pub numCols: usize,
    pub valueType: String,
    pub numNonZeros: usize,
}

/// A malformed input line: wrong token count or a non-integer token.
/// Carries the 1-based line number and the raw content of the line.
#[derive(Debug)]
pub struct ParseError {
    pub line_number: usize,
    pub line: Vec<u8>,
}

} // verus!
