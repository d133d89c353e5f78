//! The conversion pipeline: ingestion, normalization, CSR construction and
//! serialization, run once per invocation with no state held across runs.
//! A single entry point is parameterized by the output-mode switch.

use vstd::prelude::*;

use crate::csv::csv_bytes;
use crate::csv::spec_csv;
use crate::edge_set::vertices_sorted;
use crate::frame::spec_frame;
use crate::frame::spec_value_type;
use crate::frame::Serializer;
use crate::frame::ValueType;
use crate::graph::lemma_sorted_unique;
use crate::graph::strictly_sorted;
use crate::graph::Edge;
use crate::graph::Metadata;
use crate::graph::ParseError;
use crate::graph::Vertex;
use crate::ingest::data_at;
use crate::ingest::edge_at;
use crate::ingest::ingest;
use crate::ingest::is_comment;
use crate::ingest::Ingested;
use crate::ingest::line_dst;
use crate::ingest::line_ok;
use crate::ingest::line_src;
use crate::ingest::line_views;
use crate::ingest::lines_ok;
use crate::ingest::raw_edge_mem;
use crate::ingest::raw_vertex_mem;
use crate::ingest::trimmed;
use crate::normalize::above_min;
use crate::normalize::normalize;
use crate::normalize::shifted;

verus! {

/// Output-mode switch: plain CSV text, or the packed binary frame.
pub enum OutputMode {
    Csv,
    Binary,
}

/// Everything one run produces: the sorted vertex ids, the sorted
/// normalized edges, the metadata, and the payload bytes of the output
/// file. The caller writes `payload` to the output and renders `meta` as
/// the side metadata object.
#[derive(Debug)]
pub struct PipelineOutput {
    pub vertices: Vec<Vertex>,
    pub edges: Vec<Edge>,
    pub meta: Metadata,
    pub payload: Vec<u8>,
}

/// `mn` and `mx` are the least and greatest vertex id of the input.
pub open spec fn is_min_max(lv: Seq<Seq<u8>>, mn: usize, mx: usize) -> bool {
    &&& raw_vertex_mem(lv, lv.len() as int, Vertex(mn))
    &&& raw_vertex_mem(lv, lv.len() as int, Vertex(mx))
    &&& forall|v: Vertex| raw_vertex_mem(lv, lv.len() as int, v) ==> mn <= v.0 && v.0 <= mx
}

/// `x` is a normalized edge of the input: some raw edge shifted down by
/// `mn` in both coordinates.
pub open spec fn norm_mem(lv: Seq<Seq<u8>>, undirected: bool, mn: usize, x: Edge) -> bool {
    exists|e: Edge|
        #[trigger] raw_edge_mem(lv, lv.len() as int, undirected, e) && x == shifted(e, mn)
}

/// The pipeline's postcondition on success: every line was acceptable; the
/// emitted edges are strictly sorted and are exactly the normalized raw
/// edges; a normalized id 0 occurs; the metadata holds the id span and the
/// deduplicated edge count; and the payload bytes are exactly the CSV or
/// frame rendering of the emitted edges.
pub open spec fn pipeline_ok(
    lv: Seq<Seq<u8>>,
    undirected: bool,
    mode: OutputMode,
    out: PipelineOutput,
) -> bool {
    &&& lines_ok(lv, lv.len() as int)
    &&& vertices_sorted(out.vertices@)
    &&& forall|v: Vertex| out.vertices@.contains(v) <==> raw_vertex_mem(lv, lv.len() as int, v)
    &&& strictly_sorted(out.edges@)
    &&& out.edges@.len() > 0
    &&& exists|mn: usize, mx: usize|
        {
            &&& #[trigger] is_min_max(lv, mn, mx)
            &&& out.meta.numRows == mx - mn
            &&& out.meta.numCols == mx - mn
            &&& forall|x: Edge| out.edges@.contains(x) <==> norm_mem(lv, undirected, mn, x)
        }
    &&& exists|x: Edge| out.edges@.contains(x) && (x.0.0 == 0 || x.1.0 == 0)
    &&& out.meta.numNonZeros == out.edges@.len()
    &&& out.meta.valueType@ == "f64"@
    &&& out.payload@ == (match mode {
        OutputMode::Csv => spec_csv(out.edges@),
        OutputMode::Binary => spec_frame(out.meta, ValueType::F64, out.edges@),
    })
}

/// Every endpoint of a raw edge occurs as a raw vertex.
pub proof fn lemma_raw_edge_vertices(lv: Seq<Seq<u8>>, k: int, undirected: bool, e: Edge)
    requires
        raw_edge_mem(lv, k, undirected, e),
    ensures
        raw_vertex_mem(lv, k, e.0),
        raw_vertex_mem(lv, k, e.1),
{
    let i = choose|i: int|
        0 <= i < k && #[trigger] data_at(lv, i) && (e == edge_at(lv, i) || (undirected && e
            == edge_at(lv, i).spec_rev()));
    assert(edge_at(lv, i).0.0 as nat == line_src(trimmed(lv[i])));
    assert(edge_at(lv, i).1.0 as nat == line_dst(trimmed(lv[i])));
}

/// The sorted, deduplicated normalized edges are exactly the raw edges
/// shifted down by the minimum id.
proof fn lemma_norm_glue(
    lv: Seq<Seq<u8>>,
    undirected: bool,
    mn: usize,
    edges: Seq<Edge>,
    norm: Seq<Edge>,
)
    requires
        forall|e: Edge| edges.contains(e) <==> raw_edge_mem(lv, lv.len() as int, undirected, e),
        forall|x: Edge|
            norm.contains(x) <==> exists|e: Edge| #[trigger] edges.contains(e) && x == shifted(
                e,
                mn,
            ),
    ensures
        forall|x: Edge| norm.contains(x) <==> norm_mem(lv, undirected, mn, x),
{
    assert forall|x: Edge| norm.contains(x) implies norm_mem(lv, undirected, mn, x) by {
        let e = choose|e: Edge| #[trigger] edges.contains(e) && x == shifted(e, mn);
        assert(raw_edge_mem(lv, lv.len() as int, undirected, e));
    }
    assert forall|x: Edge| norm_mem(lv, undirected, mn, x) implies norm.contains(x) by {
        let e = choose|e: Edge|
            #[trigger] raw_edge_mem(lv, lv.len() as int, undirected, e) && x == shifted(e, mn);
        assert(edges.contains(e));
    }
}

/// The minimum id is attained by some raw edge, so after shifting a
/// normalized id 0 occurs.
proof fn lemma_zero_present(
    lv: Seq<Seq<u8>>,
    undirected: bool,
    mn: usize,
    edges: Seq<Edge>,
    norm: Seq<Edge>,
)
    requires
        raw_vertex_mem(lv, lv.len() as int, Vertex(mn)),
        forall|e: Edge| edges.contains(e) <==> raw_edge_mem(lv, lv.len() as int, undirected, e),
        forall|e: Edge| edges.contains(e) ==> above_min(e, mn),
        forall|x: Edge|
            norm.contains(x) <==> exists|e: Edge| #[trigger] edges.contains(e) && x == shifted(
                e,
                mn,
            ),
    ensures
        exists|x: Edge| norm.contains(x) && (x.0.0 == 0 || x.1.0 == 0),
        edges.len() > 0,
{
    let j = choose|j: int|
        0 <= j < lv.len() && #[trigger] data_at(lv, j) && (mn as nat == line_src(trimmed(lv[j]))
            || mn as nat == line_dst(trimmed(lv[j])));
    let ej = edge_at(lv, j);
    assert(raw_edge_mem(lv, lv.len() as int, undirected, ej));
    assert(edges.contains(ej));
    assert(above_min(ej, mn));
    assert(norm.contains(shifted(ej, mn)));
    assert(shifted(ej, mn).0.0 == 0 || shifted(ej, mn).1.0 == 0);
}

/// Normalization and metadata, once ingestion has succeeded on an input
/// with at least one data line.
#[verifier::rlimit(100)]
fn prepare(g: Ingested, undirected: bool, Ghost(lv): Ghost<Seq<Seq<u8>>>) -> (t: (
    Vec<Vertex>,
    Vec<Edge>,
    Metadata,
))
    requires
        g.edges.wf(),
        g.vertices.wf(),
        forall|e: Edge| g.edges@.contains(e) <==> raw_edge_mem(lv, lv.len() as int, undirected, e),
        forall|v: Vertex| g.vertices@.contains(v) <==> raw_vertex_mem(lv, lv.len() as int, v),
        g.vertices@.len() > 0,
        g.vertices@.contains(Vertex(g.min)),
        g.vertices@.contains(Vertex(g.max)),
        forall|v: Vertex| g.vertices@.contains(v) ==> g.min <= v.0 && v.0 <= g.max,
    ensures
        vertices_sorted(t.0@),
        forall|v: Vertex| t.0@.contains(v) <==> raw_vertex_mem(lv, lv.len() as int, v),
        strictly_sorted(t.1@),
        t.1@.len() > 0,
        is_min_max(lv, g.min, g.max),
        t.2.numRows == g.max - g.min,
        t.2.numCols == g.max - g.min,
        forall|x: Edge| t.1@.contains(x) <==> norm_mem(lv, undirected, g.min, x),
        exists|x: Edge| t.1@.contains(x) && (x.0.0 == 0 || x.1.0 == 0),
        t.2.numNonZeros == t.1@.len(),
        t.2.valueType@ == "f64"@,
        spec_value_type(t.2.valueType@) == Some(ValueType::F64),
{
    proof {
        assert(is_min_max(lv, g.min, g.max));
        assert forall|e: Edge| g.edges@.contains(e) implies above_min(e, g.min) by {
            lemma_raw_edge_vertices(lv, lv.len() as int, undirected, e);
            assert(g.vertices@.contains(e.0));
            assert(g.vertices@.contains(e.1));
        }
    }
    let min = g.min;
    let span = g.max - min;
    let norm = normalize(&g.edges, min);
    proof {
        lemma_norm_glue(lv, undirected, min, g.edges@, norm@);
        lemma_zero_present(lv, undirected, min, g.edges@, norm@);
    }
    let meta = Metadata {
        numRows: span,
        numCols: span,
        valueType: "f64".to_owned(),
        numNonZeros: norm.len(),
    };
    proof {
        reveal_strlit("f64");
        assert(spec_value_type(meta.valueType@) == Some(ValueType::F64));
    }
    let vertices = g.vertices.into_vec();
    (vertices, norm, meta)
}

/// Rendering in the requested output mode, and assembly of the result.
#[verifier::rlimit(100)]
fn finish(
    g: Ingested,
    undirected: bool,
    mode: OutputMode,
    Ghost(lv): Ghost<Seq<Seq<u8>>>,
) -> (out: PipelineOutput)
    requires
        lines_ok(lv, lv.len() as int),
        g.edges.wf(),
        g.vertices.wf(),
        forall|e: Edge| g.edges@.contains(e) <==> raw_edge_mem(lv, lv.len() as int, undirected, e),
        forall|v: Vertex| g.vertices@.contains(v) <==> raw_vertex_mem(lv, lv.len() as int, v),
        g.vertices@.len() > 0,
        g.vertices@.contains(Vertex(g.min)),
        g.vertices@.contains(Vertex(g.max)),
        forall|v: Vertex| g.vertices@.contains(v) ==> g.min <= v.0 && v.0 <= g.max,
    ensures
        pipeline_ok(lv, undirected, mode, out),
{
    let (vertices, norm, meta) = prepare(g, undirected, Ghost(lv));
    match mode {
        OutputMode::Csv => {
            let payload = csv_bytes(&norm);
            let outv = PipelineOutput { vertices, edges: norm, meta, payload };
            proof {
                assert(is_min_max(lv, g.min, g.max));
                assert(outv.meta.numRows == g.max - g.min);
                assert(outv.meta.numCols == g.max - g.min);
                assert(forall|x: Edge|
                    outv.edges@.contains(x) <==> norm_mem(lv, undirected, g.min, x));
                assert(pipeline_ok(lv, undirected, mode, outv));
            }
            outv
        },
        OutputMode::Binary => {
            let ser = Serializer { vertices, edges: norm, meta };
            let res = ser.serialize();
            proof {
                assert(res is Ok);
            }
            let payload = match res {
                Ok(b) => b,
                // never taken: the declared type is always the resolvable "f64"
                Err(_) => Vec::new(),
            };
            let Serializer { vertices, edges, meta } = ser;
            let outv = PipelineOutput { vertices, edges, meta, payload };
            proof {
                assert(is_min_max(lv, g.min, g.max));
                assert(outv.meta.numRows == g.max - g.min);
                assert(outv.meta.numCols == g.max - g.min);
                assert(forall|x: Edge|
                    outv.edges@.contains(x) <==> norm_mem(lv, undirected, g.min, x));
                assert(outv.payload@ == spec_frame(outv.meta, ValueType::F64, outv.edges@));
                assert(pipeline_ok(lv, undirected, mode, outv));
            }
            outv
        },
    }
}

/// Runs the whole pipeline on the input lines: parse, deduplicate,
/// optionally close symmetrically, normalize, sort, and render in the
/// requested output mode. The input must contain at least one non-comment
/// line (an input of only comments has no vertex range to normalize).
/// Returns the first malformed line as a [`ParseError`].
pub fn run(lines: &Vec<Vec<u8>>, undirected: bool, mode: OutputMode) -> (r: Result<
    PipelineOutput,
    ParseError,
>)
    requires
        exists|i: int| 0 <= i < lines@.len() && !is_comment(#[trigger] line_views(lines@)[i]),
    ensures
        r is Err <==> !lines_ok(line_views(lines@), lines@.len() as int),
        r matches Err(pe) ==> 1 <= pe.line_number <= lines@.len() && !line_ok(
            line_views(lines@)[pe.line_number - 1],
        ) && lines_ok(line_views(lines@), pe.line_number - 1) && pe.line@ == line_views(lines@)[pe.line_number - 1],
        r matches Ok(out) ==> pipeline_ok(line_views(lines@), undirected, mode, out),
{
    let ghost lv = line_views(lines@);
    let g = match ingest(lines, undirected) {
        Ok(g) => g,
        Err(e) => {
            return Err(e);
        },
    };
    proof {
        let i = choose|i: int| 0 <= i < lines@.len() && !is_comment(#[trigger] lv[i]);
        assert(line_ok(lv[i]));
        assert(data_at(lv, i));
        assert(raw_vertex_mem(lv, lv.len() as int, Vertex(line_src(trimmed(lv[i])) as usize)));
        assert(g.vertices@.contains(Vertex(line_src(trimmed(lv[i])) as usize)));
        assert(g.vertices@.len() > 0);
    }
    Ok(finish(g, undirected, mode, Ghost(lv)))
}

/// Determinism: the pipeline's contract pins every observable output down,
/// so two runs on identical input yield identical edges, metadata and
/// payload bytes — no unordered intermediate can leak into the output.
pub proof fn lemma_pipeline_deterministic(
    lv: Seq<Seq<u8>>,
    undirected: bool,
    mode: OutputMode,
    o1: PipelineOutput,
    o2: PipelineOutput,
)
    requires
        pipeline_ok(lv, undirected, mode, o1),
        pipeline_ok(lv, undirected, mode, o2),
    ensures
        o1.edges@ == o2.edges@,
        o1.meta.numRows == o2.meta.numRows,
        o1.meta.numCols == o2.meta.numCols,
        o1.meta.numNonZeros == o2.meta.numNonZeros,
        o1.meta.valueType@ == o2.meta.valueType@,
        o1.payload@ == o2.payload@,
{
    let (mn1, mx1) = choose|mn: usize, mx: usize|
        {
            &&& #[trigger] is_min_max(lv, mn, mx)
            &&& o1.meta.numRows == mx - mn
            &&& o1.meta.numCols == mx - mn
            &&& forall|x: Edge| o1.edges@.contains(x) <==> norm_mem(lv, undirected, mn, x)
        };
    let (mn2, mx2) = choose|mn: usize, mx: usize|
        {
            &&& #[trigger] is_min_max(lv, mn, mx)
            &&& o2.meta.numRows == mx - mn
            &&& o2.meta.numCols == mx - mn
            &&& forall|x: Edge| o2.edges@.contains(x) <==> norm_mem(lv, undirected, mn, x)
        };
    assert(mn1 <= mn2 && mn2 <= mn1);
    assert(mx1 <= mx2 && mx2 <= mx1);
    assert forall|x: Edge| o1.edges@.contains(x) <==> o2.edges@.contains(x) by {}
    lemma_sorted_unique(o1.edges@, o2.edges@);
}

/// Undirected closure: in undirected mode, for every emitted edge the
/// reversed edge is emitted too.
pub proof fn lemma_undirected_closure(
    lv: Seq<Seq<u8>>,
    mode: OutputMode,
    out: PipelineOutput,
)
    requires
        pipeline_ok(lv, true, mode, out),
    ensures
        forall|x: Edge| out.edges@.contains(x) ==> out.edges@.contains(x.spec_rev()),
{
    let (mn, mx) = choose|mn: usize, mx: usize|
        {
            &&& #[trigger] is_min_max(lv, mn, mx)
            &&& out.meta.numRows == mx - mn
            &&& out.meta.numCols == mx - mn
            &&& forall|x: Edge| out.edges@.contains(x) <==> norm_mem(lv, true, mn, x)
        };
    assert forall|x: Edge| out.edges@.contains(x) implies out.edges@.contains(x.spec_rev()) by {
        let e = choose|e: Edge|
            #[trigger] raw_edge_mem(lv, lv.len() as int, true, e) && x == shifted(e, mn);
        let i = choose|i: int|
            0 <= i < lv.len() && #[trigger] data_at(lv, i) && (e == edge_at(lv, i) || (true && e
                == edge_at(lv, i).spec_rev()));
        assert(raw_edge_mem(lv, lv.len() as int, true, e.spec_rev()));
        lemma_raw_edge_vertices(lv, lv.len() as int, true, e);
        assert(mn <= e.0.0 && mn <= e.1.0);
        assert(shifted(e.spec_rev(), mn) == x.spec_rev());
        assert(norm_mem(lv, true, mn, x.spec_rev()));
    }
}

} // verus!
