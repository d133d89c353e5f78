use graphcsr::csr::build_csr;
use graphcsr::edge_set::EdgeSet;
use graphcsr::frame::value_type_from_str;
use graphcsr::frame::Serializer;
use graphcsr::frame::ValueType;
use graphcsr::graph::Edge;
use graphcsr::graph::Metadata;
use graphcsr::graph::Vertex;
use graphcsr::ingest::ingest;
use graphcsr::ingest::parse_line;
use graphcsr::ingest::LineResult;
use graphcsr::pipeline::run;
use graphcsr::pipeline::OutputMode;

fn lines_of(strs: &[&str]) -> Vec<Vec<u8>> {
    strs.iter().map(|s| s.as_bytes().to_vec()).collect()
}

fn worked_example() -> Vec<Vec<u8>> {
    lines_of(&["2,5", "5,2", "5,2", "#comment", "2,3"])
}

#[test]
fn worked_example_csv() {
    let lines = worked_example();
    let out = run(&lines, false, OutputMode::Csv).unwrap();
    assert_eq!(out.payload, b"0,1\n0,3\n3,0\n".to_vec());
    assert_eq!(out.meta.numRows, 3);
    assert_eq!(out.meta.numCols, 3);
    assert_eq!(out.meta.valueType, "f64".to_string());
    assert_eq!(out.meta.numNonZeros, 3);
}

#[test]
fn worked_example_edges() {
    let lines = worked_example();
    let out = run(&lines, false, OutputMode::Csv).unwrap();
    let got: Vec<(usize, usize)> = out.edges.iter().map(|e| (e.0.0, e.1.0)).collect();
    assert_eq!(got, vec![(0, 1), (0, 3), (3, 0)]);
    let verts: Vec<usize> = out.vertices.iter().map(|v| v.0).collect();
    assert_eq!(verts, vec![2, 3, 5]);
}

#[test]
fn worked_example_csr() {
    let edges = vec![
        Edge(Vertex(0), Vertex(1)),
        Edge(Vertex(0), Vertex(3)),
        Edge(Vertex(3), Vertex(0)),
    ];
    let csr = build_csr(&edges);
    assert_eq!(csr.col_idx, vec![1, 3, 0]);
    assert_eq!(csr.row_ptr, vec![0, 2]);
}

#[test]
fn csr_shape_matches_nonzeros() {
    let lines = worked_example();
    let out = run(&lines, false, OutputMode::Csv).unwrap();
    let csr = build_csr(&out.edges);
    assert_eq!(csr.col_idx.len(), out.meta.numNonZeros);
}

#[test]
fn determinism_two_runs() {
    let lines = lines_of(&["7;3", "1 9", "7;3", "#x", "4\t4"]);
    let a = run(&lines, false, OutputMode::Binary).unwrap();
    let b = run(&lines, false, OutputMode::Binary).unwrap();
    assert_eq!(a.payload, b.payload);
    let c = run(&lines, false, OutputMode::Csv).unwrap();
    let d = run(&lines, false, OutputMode::Csv).unwrap();
    assert_eq!(c.payload, d.payload);
}

#[test]
fn normalization_starts_at_zero() {
    let lines = lines_of(&["10,100", "30,10"]);
    let out = run(&lines, false, OutputMode::Csv).unwrap();
    assert_eq!(out.payload, b"0,90\n20,0\n".to_vec());
    assert!(out
        .edges
        .iter()
        .any(|e| e.0.0 == 0 || e.1.0 == 0));
}

#[test]
fn deduplication_keeps_one() {
    let lines = lines_of(&["1,2", "1,2", "1,2"]);
    let out = run(&lines, false, OutputMode::Csv).unwrap();
    assert_eq!(out.edges.len(), 1);
    assert_eq!(out.payload, b"0,1\n".to_vec());
}

#[test]
fn undirected_closure_present() {
    let lines = lines_of(&["2,5", "2,3"]);
    let out = run(&lines, true, OutputMode::Csv).unwrap();
    let got: Vec<(usize, usize)> = out.edges.iter().map(|e| (e.0.0, e.1.0)).collect();
    assert_eq!(got, vec![(0, 1), (0, 3), (1, 0), (3, 0)]);
    for e in &out.edges {
        assert!(out.edges.iter().any(|f| f.0.0 == e.1.0 && f.1.0 == e.0.0));
    }
}

#[test]
fn binary_frame_layout() {
    let lines = worked_example();
    let out = run(&lines, false, OutputMode::Binary).unwrap();
    let p = &out.payload;
    // fixed-width fields: header 18, tag 1, reserved 16, block 9, tag 1,
    // nonzero count 8, then 2 row offsets, 3 columns, 3 values of 8 bytes
    assert_eq!(p.len(), 53 + 8 * 2 + 8 * 3 + 8 * 3);
    assert_eq!(p[0], 1); // version
    assert_eq!(p[1], 2); // data kind: CSR matrix
    assert_eq!(&p[2..10], &3u64.to_le_bytes()); // numRows
    assert_eq!(&p[10..18], &3u64.to_le_bytes()); // numCols
    assert_eq!(p[18], 7); // value type tag: f64
    assert_eq!(&p[19..35], &[0u8; 16]); // reserved body
    assert_eq!(&p[35..39], &3u32.to_le_bytes());
    assert_eq!(&p[39..43], &3u32.to_le_bytes());
    assert_eq!(p[43], 2); // body kind: sparse
    assert_eq!(p[44], 7); // value type tag repeated
    assert_eq!(&p[45..53], &3u64.to_le_bytes()); // nonzero count
    assert_eq!(&p[53..61], &0u64.to_le_bytes()); // row pointer
    assert_eq!(&p[61..69], &2u64.to_le_bytes());
    assert_eq!(&p[69..77], &1u64.to_le_bytes()); // column indices
    assert_eq!(&p[77..85], &3u64.to_le_bytes());
    assert_eq!(&p[85..93], &0u64.to_le_bytes());
    for k in 0..3 {
        assert_eq!(&p[93 + 8 * k..101 + 8 * k], &1.0f64.to_le_bytes());
    }
}

#[test]
fn parse_error_reports_line() {
    let lines = lines_of(&["1,2", "1,2,3", "4,5"]);
    let err = run(&lines, false, OutputMode::Csv).unwrap_err();
    assert_eq!(err.line_number, 2);
    assert_eq!(err.line, b"1,2,3".to_vec());
}

#[test]
fn parse_error_non_integer() {
    let lines = lines_of(&["a,b"]);
    let err = run(&lines, false, OutputMode::Csv).unwrap_err();
    assert_eq!(err.line_number, 1);
    assert_eq!(err.line, b"a,b".to_vec());
}

#[test]
fn parse_error_blank_line() {
    let lines = lines_of(&["1,2", ""]);
    let err = run(&lines, false, OutputMode::Csv).unwrap_err();
    assert_eq!(err.line_number, 2);
}

#[test]
fn parse_line_classification() {
    assert!(matches!(parse_line(&b"  # note".to_vec()), LineResult::Comment));
    assert!(matches!(parse_line(&b" 7;9 ".to_vec()), LineResult::Data(7, 9)));
    assert!(matches!(parse_line(&b"7\t9".to_vec()), LineResult::Data(7, 9)));
    assert!(matches!(parse_line(&b"+7,9".to_vec()), LineResult::Data(7, 9)));
    assert!(matches!(parse_line(&b"7".to_vec()), LineResult::Malformed));
    assert!(matches!(parse_line(&b"2 , 5".to_vec()), LineResult::Malformed));
    assert!(matches!(
        parse_line(&b"99999999999999999999999999,1".to_vec()),
        LineResult::Malformed
    ));
}

#[test]
fn ingest_tracks_extremes() {
    let lines = lines_of(&["2,5", "2,3"]);
    let g = ingest(&lines, false).unwrap();
    assert_eq!(g.min, 2);
    assert_eq!(g.max, 5);
    assert_eq!(g.edges.len(), 2);
    assert_eq!(g.vertices.len(), 3);
}

#[test]
fn edge_set_deduplicates_and_sorts() {
    let mut s = EdgeSet::new();
    s.insert(Edge(Vertex(5), Vertex(2)));
    s.insert(Edge(Vertex(2), Vertex(5)));
    s.insert(Edge(Vertex(5), Vertex(2)));
    s.insert(Edge(Vertex(2), Vertex(3)));
    assert_eq!(s.len(), 3);
    let v = s.into_vec();
    let got: Vec<(usize, usize)> = v.iter().map(|e| (e.0.0, e.1.0)).collect();
    assert_eq!(got, vec![(2, 3), (2, 5), (5, 2)]);
}

#[test]
fn value_type_resolution() {
    assert!(matches!(value_type_from_str("f64"), Some(ValueType::F64)));
    assert!(matches!(value_type_from_str("F64"), Some(ValueType::F64)));
    assert!(matches!(value_type_from_str("si8"), Some(ValueType::SI8)));
    assert!(matches!(value_type_from_str("SI32"), Some(ValueType::SI32)));
    assert!(matches!(value_type_from_str("Si64"), Some(ValueType::SI64)));
    assert!(matches!(value_type_from_str("ui8"), Some(ValueType::UI8)));
    assert!(matches!(value_type_from_str("UI32"), Some(ValueType::UI32)));
    assert!(matches!(value_type_from_str("uI64"), Some(ValueType::UI64)));
    assert!(matches!(value_type_from_str("F32"), Some(ValueType::F32)));
    assert!(value_type_from_str("f16").is_none());
    assert!(value_type_from_str("").is_none());
    assert!(value_type_from_str("invalid").is_none());
    assert!(value_type_from_str("f645").is_none());
}

#[test]
fn serializer_rejects_unknown_value_type() {
    let ser = Serializer {
        vertices: vec![Vertex(0)],
        edges: vec![Edge(Vertex(0), Vertex(0))],
        meta: Metadata {
            numRows: 1,
            numCols: 1,
            valueType: "bogus".to_string(),
            numNonZeros: 1,
        },
    };
    let err = ser.serialize().unwrap_err();
    assert_eq!(err.name, "bogus".to_string());
}

#[test]
fn serializer_tag_follows_declared_type() {
    let ser = Serializer {
        vertices: vec![Vertex(0), Vertex(1)],
        edges: vec![Edge(Vertex(0), Vertex(1))],
        meta: Metadata {
            numRows: 1,
            numCols: 1,
            valueType: "UI32".to_string(),
            numNonZeros: 1,
        },
    };
    let bytes = ser.serialize().unwrap();
    assert_eq!(bytes[18], 4); // ui32 tag, case-insensitively resolved
    assert_eq!(bytes[44], 4);
}

#[test]
fn edge_rev_swaps() {
    let e = Edge(Vertex(3), Vertex(8));
    let r = e.rev();
    assert_eq!(r.0.0, 8);
    assert_eq!(r.1.0, 3);
}

#[test]
fn conversions() {
    assert_eq!(usize::from(Vertex(9)), 9);
    let e = Edge::from((4, 6));
    assert_eq!(e.0.0, 4);
    assert_eq!(e.1.0, 6);
}

#[test]
fn single_vertex_self_loop() {
    let lines = lines_of(&["5,5"]);
    let out = run(&lines, false, OutputMode::Csv).unwrap();
    assert_eq!(out.meta.numRows, 0);
    assert_eq!(out.meta.numNonZeros, 1);
    assert_eq!(out.payload, b"0,0\n".to_vec());
}
