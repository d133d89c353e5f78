//! Conversion of a textual graph edge list into a normalized, deduplicated
//! adjacency structure, emitted either as plain CSV text or as a packed
//! binary frame encoding a compressed-sparse-row (CSR) matrix.
//!
//! The pipeline has four stages, each consuming the previous one's output:
//! ingestion of text lines into raw vertex pairs, normalization (dedup,
//! optional symmetric closure, id shifting, sorting), CSR construction, and
//! serialization (CSV or binary frame).

pub mod bytes;
pub mod csr;
pub mod csv;
pub mod edge_set;
pub mod frame;
pub mod graph;
pub mod ingest;
pub mod normalize;
pub mod pipeline;

pub use edge_set::EdgeSet;
pub use frame::Serializer;
pub use edge_set::VertexSet;
pub use graph::Edge;
pub use graph::Metadata;
pub use graph::ParseError;
pub use graph::Vertex;
