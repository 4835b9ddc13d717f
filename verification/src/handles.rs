//! Caller-facing handle types over streams: a filterable stream (the output of
//! an input or filter stage), an output stream (the output of an output
//! stage), and an output node handle.

use vstd::prelude::*;
use crate::model::{
    Stream, Node, GraphError, GStream, stream_wf, kw_view, spec_output, spec_filter, copy_node,
    copy_graph, output, filter,
};
use crate::args::{compile, spec_compile, args_view};

verus! {

/// A stream that can feed further filter or output stages.
pub struct FilterableStream(pub Stream);

impl FilterableStream {
    /// Wraps a stream handle.
    pub fn new(stream: Stream) -> (r: FilterableStream)
        requires
            stream_wf(stream@),
        ensures
            r.0@ == stream@,
            stream_wf(r.0@),
    {
        FilterableStream(stream)
    }

    /// Feeds this stream into a new output stage.
    pub fn output(&self, filename: &str, kwargs: &Vec<(String, String)>) -> (r: OutputStream)
        requires
            stream_wf(self.0@),
        ensures
            stream_wf(r.0@),
            r.0@ == spec_output(self.0@, filename@, kw_view(kwargs@)),
    {
        OutputStream(output(&self.0, filename, kwargs))
    }

    /// Feeds this stream into a new filter stage.
    pub fn filter(&self, filter_name: &str, kwargs: &Vec<(String, String)>) -> (r:
        FilterableStream)
        requires
            stream_wf(self.0@),
        ensures
            stream_wf(r.0@),
            r.0@ == spec_filter(self.0@, filter_name@, kw_view(kwargs@)),
    {
        FilterableStream(filter(&self.0, filter_name, kwargs))
    }
}

/// A stream produced by an output stage: the handle a whole pipeline is
/// compiled from.
pub struct OutputStream(pub Stream);

impl OutputStream {
    /// Wraps a stream handle.
    pub fn new(stream: Stream) -> (r: OutputStream)
        requires
            stream_wf(stream@),
        ensures
            r.0@ == stream@,
            stream_wf(r.0@),
    {
        OutputStream(stream)
    }

    /// Compiles the pipeline reachable from this stream.
    pub fn compile(&self, cmd: &str, overwrite_output: bool) -> (r: Result<Vec<String>, GraphError>)
        requires
            stream_wf(self.0@),
        ensures
            match r {
                Ok(a) => spec_compile(self.0@.nodes, self.0.index, cmd@, overwrite_output) == Ok::<
                    Seq<Seq<char>>,
                    GraphError,
                >(args_view(a@)),
                Err(e) => spec_compile(self.0@.nodes, self.0.index, cmd@, overwrite_output)
                    == Err::<Seq<Seq<char>>, GraphError>(e),
            },
    {
        compile(&self.0, cmd, overwrite_output)
    }
}

/// A handle to an output stage, from which pin-narrowed output streams can be
/// taken.
pub struct OutputNode {
    pub stream: Stream,
}

impl OutputNode {
    /// Builds an output stage consuming the given stream.
    pub fn new(stream: &Stream, filename: &str, kwargs: &Vec<(String, String)>) -> (r: OutputNode)
        requires
            stream_wf(stream@),
        ensures
            stream_wf(r.stream@),
            r.stream@ == spec_output(stream@, filename@, kw_view(kwargs@)),
    {
        OutputNode { stream: output(stream, filename, kwargs) }
    }

    /// A stream on the given output pin of this node, optionally narrowed by a
    /// selector.
    pub fn stream(&self, label: String, upstream_selector: Option<char>) -> (r: OutputStream)
        requires
            stream_wf(self.stream@),
        ensures
            stream_wf(r.0@),
            r.0@ == (GStream { label: label@, selector: upstream_selector, ..self.stream@ }),
    {
        let g = copy_graph(&self.stream.graph);
        let s = Stream { graph: g, index: self.stream.index, label, selector: upstream_selector };
        proof {
            assert(s@ =~= (GStream {
                label: s.label@,
                selector: upstream_selector,
                ..self.stream@
            }));
        }
        OutputStream(s)
    }
}

/// The terminal node a stream handle refers to, as a one-element list.
pub fn get_stream_spec_node(stream: &Stream) -> (r: Vec<Node>)
    requires
        stream_wf(stream@),
    ensures
        r@.len() == 1,
        r@[0]@ == stream@.nodes[stream@.index],
{
    let mut r: Vec<Node> = Vec::new();
    r.push(copy_node(&stream.graph.nodes[stream.index]));
    r
}

} // verus!
