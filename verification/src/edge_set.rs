//! Deduplicating collections with a deterministic (sorted) order.
//!
//! Both collections keep their elements strictly ascending, so membership is
//! set-like (no duplicates survive, regardless of insertion order or count)
//! while iteration order is fully determined by the contents.

use vstd::prelude::*;

use crate::graph::edge_less;
use crate::graph::edge_lt;
use crate::graph::strictly_sorted;
use crate::graph::Edge;
use crate::graph::Vertex;

verus! {

/// A deduplicated edge collection, kept strictly sorted by
/// (source, destination).
pub struct EdgeSet {
    edges: Vec<Edge>,
}

impl View for EdgeSet {
    type V = Seq<Edge>;

    closed spec fn view(&self) -> Seq<Edge> {
        self.edges@
    }
}

impl EdgeSet {
    /// Well-formed: strictly sorted, hence free of duplicates.
    pub open spec fn wf(&self) -> bool {
        strictly_sorted(self@)
    }

    pub fn new() -> (r: EdgeSet)
        ensures
            r@ == Seq::<Edge>::empty(),
            r.wf(),
    {
        EdgeSet { edges: Vec::new() }
    }

    pub fn len(&self) -> (n: usize)
        ensures
            n == self@.len(),
    {
        self.edges.len()
    }

    pub fn get(&self, i: usize) -> (e: Edge)
        requires
            i < self@.len(),
        ensures
            e == self@[i as int],
    {
        self.edges[i]
    }

    /// Surrenders the sorted contents.
    pub fn into_vec(self) -> (r: Vec<Edge>)
        ensures
            r@ == self@,
    {
        self.edges
    }

    /// Set-semantics insertion: afterwards the collection holds exactly the
    /// old elements plus `e`, still strictly sorted. Inserting an element
    /// already present changes nothing.
    pub fn insert(&mut self, e: Edge)
        requires
            old(self).wf(),
        ensures
            final(self).wf(),
            forall|x: Edge| final(self)@.contains(x) <==> (old(self)@.contains(x) || x == e),
            old(self)@.contains(e) ==> final(self)@ == old(self)@,
            !old(self)@.contains(e) ==> final(self)@.len() == old(self)@.len() + 1,
    {
        let ghost s = self.edges@;
        let mut i: usize = 0;
        while i < self.edges.len() && edge_less(self.edges[i], e)
            invariant
                self.edges@ == s,
                i <= s.len(),
                strictly_sorted(s),
                forall|j: int| 0 <= j < i ==> edge_lt(s[j], e),
            decreases s.len() - i,
        {
            i += 1;
        }
        if i < self.edges.len() && self.edges[i] == e {
            proof {
                assert(s[i as int] == e);
                assert(s.contains(e));
            }
            return ;
        }
        proof {
            // e is not present: everything before position i is strictly
            // below it, everything from i on is strictly above it.
            assert forall|j: int| 0 <= j < s.len() implies s[j] != e by {
                if j >= i {
                    assert(edge_lt(s[i as int], s[j]) || j == i);
                }
            }
            assert(!s.contains(e));
            s.insert_ensures(i as int, e);
        }
        self.edges.insert(i, e);
        proof {
            let t = self.edges@;
            assert(t == s.insert(i as int, e));
            assert forall|p: int, q: int| 0 <= p < q < t.len() implies edge_lt(t[p], t[q]) by {
                if q < i {
                    assert(t[p] == s[p] && t[q] == s[q]);
                } else if q == i {
                    assert(t[p] == s[p] && t[q] == e);
                } else if p < i {
                    assert(t[p] == s[p] && t[q] == s[q - 1]);
                    assert(edge_lt(e, s[i as int]) || i == q - 1);
                    assert(edge_lt(s[i as int], s[q - 1]) || i == q - 1);
                } else if p == i {
                    assert(t[p] == e && t[q] == s[q - 1]);
                    assert(edge_lt(e, s[i as int]));
                    assert(edge_lt(s[i as int], s[q - 1]) || i == q - 1);
                } else {
                    assert(t[p] == s[p - 1] && t[q] == s[q - 1]);
                }
            }
            assert forall|x: Edge| self@.contains(x) implies (s.contains(x) || x == e) by {
                let k = choose|k: int| 0 <= k < t.len() && t[k] == x;
                if k < i {
                    assert(s[k] == x);
                } else if k > i {
                    assert(s[k - 1] == x);
                }
            }
            assert forall|x: Edge| (s.contains(x) || x == e) implies self@.contains(x) by {
                if x == e {
                    assert(t[i as int] == x);
                } else {
                    let k = choose|k: int| 0 <= k < s.len() && s[k] == x;
                    if k < i {
                        assert(t[k] == x);
                    } else {
                        assert(t[k + 1] == x);
                    }
                }
            }
        }
    }
}

/// A sequence of vertices strictly ascending by id: sorted, no duplicates.
pub open spec fn vertices_sorted(s: Seq<Vertex>) -> bool {
    forall|i: int, j: int| 0 <= i < j < s.len() ==> s[i].0 < s[j].0
}

/// A deduplicated vertex collection, kept strictly ascending by id.
pub struct VertexSet {
    vertices: Vec<Vertex>,
}

impl View for VertexSet {
    type V = Seq<Vertex>;

    closed spec fn view(&self) -> Seq<Vertex> {
        self.vertices@
    }
}

impl VertexSet {
    /// Well-formed: strictly ascending, hence free of duplicates.
    pub open spec fn wf(&self) -> bool {
        vertices_sorted(self@)
    }

    pub fn new() -> (r: VertexSet)
        ensures
            r@ == Seq::<Vertex>::empty(),
            r.wf(),
    {
        VertexSet { vertices: Vec::new() }
    }

    pub fn len(&self) -> (n: usize)
        ensures
            n == self@.len(),
    {
        self.vertices.len()
    }

    pub fn get(&self, i: usize) -> (v: Vertex)
        requires
            i < self@.len(),
        ensures
            v == self@[i as int],
    {
        self.vertices[i]
    }

    /// Surrenders the sorted contents.
    pub fn into_vec(self) -> (r: Vec<Vertex>)
        ensures
            r@ == self@,
    {
        self.vertices
    }

    /// Set-semantics insertion, as for [`EdgeSet::insert`].
    pub fn insert(&mut self, v: Vertex)
        requires
            old(self).wf(),
        ensures
            final(self).wf(),
            forall|x: Vertex| final(self)@.contains(x) <==> (old(self)@.contains(x) || x == v),
            old(self)@.contains(v) ==> final(self)@ == old(self)@,
    {
        let ghost s = self.vertices@;
        let mut i: usize = 0;
        while i < self.vertices.len() && self.vertices[i].0 < v.0
            invariant
                self.vertices@ == s,
                i <= s.len(),
                vertices_sorted(s),
                forall|j: int| 0 <= j < i ==> s[j].0 < v.0,
            decreases s.len() - i,
        {
            i += 1;
        }
        if i < self.vertices.len() && self.vertices[i] == v {
            proof {
                assert(s[i as int] == v);
                assert(s.contains(v));
            }
            return ;
        }
        proof {
            assert forall|j: int| 0 <= j < s.len() implies s[j] != v by {
                if j >= i {
                    assert(s[i as int].0 < s[j].0 || j == i);
                }
            }
            assert(!s.contains(v));
            s.insert_ensures(i as int, v);
        }
        self.vertices.insert(i, v);
        proof {
            let t = self.vertices@;
            assert forall|p: int, q: int| 0 <= p < q < t.len() implies t[p].0 < t[q].0 by {
                if q < i {
                    assert(t[p] == s[p] && t[q] == s[q]);
                } else if q == i {
                    assert(t[p] == s[p] && t[q] == v);
                } else if p < i {
                    assert(t[p] == s[p] && t[q] == s[q - 1]);
                    assert(s[i as int].0 < s[q - 1].0 || i == q - 1);
                } else if p == i {
                    assert(t[p] == v && t[q] == s[q - 1]);
                    assert(s[i as int].0 < s[q - 1].0 || i == q - 1);
                } else {
                    assert(t[p] == s[p - 1] && t[q] == s[q - 1]);
                }
            }
            assert forall|x: Vertex| self@.contains(x) implies (s.contains(x) || x == v) by {
                let k = choose|k: int| 0 <= k < t.len() && t[k] == x;
                if k < i {
                    assert(s[k] == x);
                } else if k > i {
                    assert(s[k - 1] == x);
                }
            }
            assert forall|x: Vertex| (s.contains(x) || x == v) implies self@.contains(x) by {
                if x == v {
                    assert(t[i as int] == x);
                } else {
                    let k = choose|k: int| 0 <= k < s.len() && s[k] == x;
                    if k < i {
                        assert(t[k] == x);
                    } else {
                        assert(t[k + 1] == x);
                    }
                }
            }
        }
    }
}

} // verus!
