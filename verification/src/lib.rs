//! A media-pipeline graph compiler.
//!
//! A caller describes a processing pipeline as a graph of input, filter and
//! output stages, built bottom-up through `Stream` handles.  The graph is
//! content-addressed: a node's identity is a structural hash of its own
//! configuration and its whole upstream subgraph, so two independently built
//! identical subgraphs are one logical node.  `compile` linearizes the graph
//! by a cycle-checked depth-first topological sort and serializes it into a
//! flat, deterministic argument list for an external media tool.

pub mod strutil;
pub mod model;
pub mod sort;
pub mod args;
pub mod handles;

pub use crate::model::{
    Edge, Graph, GraphError, Node, NodeKind, Stream, filter, filter_multi, input, output,
    output_multi,
};
pub use crate::args::{compile, get_args};
pub use crate::sort::topo_sort;
pub use crate::handles::{FilterableStream, OutputNode, OutputStream, get_stream_spec_node};
