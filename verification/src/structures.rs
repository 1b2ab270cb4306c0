//! The data model: edges, graphs, graph parameters and the builder.
//!
//! A [`Graph`] is meant to be produced through [`GraphBuilder`], which
//! enforces the structural invariants: every edge index lies in
//! `1..=nodes_count`, exactly the declared number of edges is present,
//! and the described undirected graph is connected.

use crate::dfs::spec_connected;
use crate::errors::{build_error_view, AddingEdgeError, BuildGraphError, BuildGraphErrorView,
    GraphParametersParsingError, GraphParametersParsingErrorView, ParsingEdgeError,
    ParsingEdgeErrorView};
use crate::text::{is_i32_token, is_u32_token, is_usize_token, i32_token_val, scan_token_end,
    skip_spaces, skip_ws_idx, token_end_idx, u32_token_val, usize_token_val, parse_i32_token,
    parse_u32_token, parse_usize_token};
use vstd::prelude::*;
use vstd::string::StrSliceExecFns;

verus! {

/// Basic element of a directed graph: connects the ordered pair of nodes
/// (`from_index`, `to_index`) with a weight.
#[derive(Copy, Clone, Debug, PartialEq, Eq, Structural)]
pub struct Edge {
    /// Number of the node where the edge starts.
    pub from_index: u32,
    /// Number of the node where the edge ends.
    pub to_index: u32,
    /// Edge weight.
    pub weight: i32,
}

impl Edge {
    /// Edge constructor.
    pub fn new(from_index: u32, to_index: u32, weight: i32) -> (r: Edge)
        ensures
            r == (Edge { from_index, to_index, weight }),
    {
        Edge { from_index, to_index, weight }
    }
}

/// Both node indices of `e` lie in `1..=nodes_count`.
pub open spec fn edge_valid(e: Edge, nodes_count: u32) -> bool {
    &&& 1 <= e.from_index <= nodes_count
    &&& 1 <= e.to_index <= nodes_count
}

/// Every edge of `edges` is valid for `nodes_count` nodes.
pub open spec fn edges_valid(edges: Seq<Edge>, nodes_count: u32) -> bool {
    forall|i: int| 0 <= i < edges.len() ==> edge_valid(#[trigger] edges[i], nodes_count)
}

/// The three raw fields of an edge line, or the error naming the first
/// missing field.  Fields past the third are ignored.
pub open spec fn spec_edge_fields(s: Seq<char>) -> Result<
    (Seq<char>, Seq<char>, Seq<char>),
    BuildGraphErrorView,
> {
    let a1 = skip_ws_idx(s, 0);
    let b1 = token_end_idx(s, a1);
    let a2 = skip_ws_idx(s, b1);
    let b2 = token_end_idx(s, a2);
    let a3 = skip_ws_idx(s, b2);
    let b3 = token_end_idx(s, a3);
    if a1 == s.len() {
        Err(BuildGraphErrorView::ParsingEdgeError(ParsingEdgeErrorView::EmptyLine))
    } else if a2 == s.len() {
        Err(BuildGraphErrorView::ParsingEdgeError(ParsingEdgeErrorView::MissingToIndexField))
    } else if a3 == s.len() {
        Err(BuildGraphErrorView::ParsingEdgeError(ParsingEdgeErrorView::MissingWeightField))
    } else {
        Ok((s.subrange(a1, b1), s.subrange(a2, b2), s.subrange(a3, b3)))
    }
}

/// The edge denoted by three raw fields, or the error naming the first
/// field that is not an integer of the right kind.
pub open spec fn spec_edge_from_fields(f: Seq<char>, t: Seq<char>, w: Seq<char>) -> Result<
    Edge,
    BuildGraphErrorView,
> {
    if !is_u32_token(f) {
        Err(BuildGraphErrorView::ParsingEdgeError(
            ParsingEdgeErrorView::FromIndexValueMustBeInteger(f),
        ))
    } else if !is_u32_token(t) {
        Err(BuildGraphErrorView::ParsingEdgeError(
            ParsingEdgeErrorView::ToIndexValueMustBeInteger(t),
        ))
    } else if !is_i32_token(w) {
        Err(BuildGraphErrorView::ParsingEdgeError(
            ParsingEdgeErrorView::WeightValueMustBeInteger(w),
        ))
    } else {
        Ok(Edge {
            from_index: u32_token_val(f) as u32,
            to_index: u32_token_val(t) as u32,
            weight: i32_token_val(w) as i32,
        })
    }
}

/// The edge denoted by one line of the description, or its parse error.
pub open spec fn spec_edge_line(s: Seq<char>) -> Result<Edge, BuildGraphErrorView> {
    match spec_edge_fields(s) {
        Ok(ftw) => spec_edge_from_fields(ftw.0, ftw.1, ftw.2),
        Err(e) => Err(e),
    }
}

/// The graph parameters denoted by the first line, or its parse error.
pub open spec fn spec_params(line: Seq<char>) -> Result<GraphParameters, BuildGraphErrorView> {
    let a1 = skip_ws_idx(line, 0);
    let b1 = token_end_idx(line, a1);
    let a2 = skip_ws_idx(line, b1);
    let b2 = token_end_idx(line, a2);
    let t1 = line.subrange(a1, b1);
    let t2 = line.subrange(a2, b2);
    if a1 == line.len() {
        Err(BuildGraphErrorView::GraphParametersParsingError(
            GraphParametersParsingErrorView::EmptyInput,
        ))
    } else if !is_u32_token(t1) {
        Err(BuildGraphErrorView::GraphParametersParsingError(
            GraphParametersParsingErrorView::NodesCountValueMustBeInteger(t1),
        ))
    } else if a2 == line.len() {
        Err(BuildGraphErrorView::GraphParametersParsingError(
            GraphParametersParsingErrorView::MissingEdgesCountValue,
        ))
    } else if !is_usize_token(t2) {
        Err(BuildGraphErrorView::GraphParametersParsingError(
            GraphParametersParsingErrorView::EdgesCountValueIsNotInteger(t2),
        ))
    } else {
        Ok(GraphParameters {
            nodes_count: u32_token_val(t1) as u32,
            edges_count: usize_token_val(t2) as usize,
        })
    }
}

/// The three whitespace-separated fields of one edge line, still as raw
/// text; convertible to an [`Edge`] when each field parses as an integer.
#[derive(Debug)]
pub struct EdgeDescription<'a> {
    /// Raw text of the index of the node where the edge starts.
    pub from_index: &'a str,
    /// Raw text of the index of the node where the edge ends.
    pub to_index: &'a str,
    /// Raw text of the edge weight.
    pub weight: &'a str,
}

impl<'a> EdgeDescription<'a> {
    /// Splits a line into its first three whitespace-separated fields;
    /// fields past the third are ignored.
    pub fn try_from(s: &'a str) -> (r: Result<EdgeDescription<'a>, BuildGraphError>)
        ensures
            match r {
                Ok(ed) => spec_edge_fields(s@) == Ok::<(Seq<char>, Seq<char>, Seq<char>),
                    BuildGraphErrorView>((ed.from_index@, ed.to_index@, ed.weight@)),
                Err(e) => spec_edge_fields(s@) == Err::<(Seq<char>, Seq<char>, Seq<char>),
                    BuildGraphErrorView>(build_error_view(e)),
            },
    {
        let len = s.unicode_len();
        proof {
            crate::text::lemma_skip_ws_bounds(s@, 0);
        }
        let a1 = skip_spaces(s, 0, len);
        if a1 == len {
            return Err(BuildGraphError::ParsingEdgeError(ParsingEdgeError::EmptyLine));
        }
        proof {
            crate::text::lemma_token_end_bounds(s@, a1 as int);
        }
        let b1 = scan_token_end(s, a1, len);
        proof {
            crate::text::lemma_skip_ws_bounds(s@, b1 as int);
        }
        let a2 = skip_spaces(s, b1, len);
        if a2 == len {
            return Err(BuildGraphError::ParsingEdgeError(ParsingEdgeError::MissingToIndexField));
        }
        proof {
            crate::text::lemma_token_end_bounds(s@, a2 as int);
        }
        let b2 = scan_token_end(s, a2, len);
        proof {
            crate::text::lemma_skip_ws_bounds(s@, b2 as int);
        }
        let a3 = skip_spaces(s, b2, len);
        if a3 == len {
            return Err(BuildGraphError::ParsingEdgeError(ParsingEdgeError::MissingWeightField));
        }
        proof {
            crate::text::lemma_token_end_bounds(s@, a3 as int);
        }
        let b3 = scan_token_end(s, a3, len);
        Ok(EdgeDescription {
            from_index: s.substring_char(a1, b1),
            to_index: s.substring_char(a2, b2),
            weight: s.substring_char(a3, b3),
        })
    }
}

impl Edge {
    /// Converts the three raw fields of an [`EdgeDescription`] into an
    /// [`Edge`], reporting the first field that is not an integer.
    pub fn try_from(ed: EdgeDescription<'_>) -> (r: Result<Edge, BuildGraphError>)
        ensures
            match r {
                Ok(edge) => spec_edge_from_fields(ed.from_index@, ed.to_index@, ed.weight@)
                    == Ok::<Edge, BuildGraphErrorView>(edge),
                Err(e) => spec_edge_from_fields(ed.from_index@, ed.to_index@, ed.weight@)
                    == Err::<Edge, BuildGraphErrorView>(build_error_view(e)),
            },
    {
        let from_index = match parse_u32_token(ed.from_index) {
            Some(v) => v,
            None => {
                return Err(BuildGraphError::ParsingEdgeError(
                    ParsingEdgeError::FromIndexValueMustBeInteger(ed.from_index.to_owned())));
            },
        };
        let to_index = match parse_u32_token(ed.to_index) {
            Some(v) => v,
            None => {
                return Err(BuildGraphError::ParsingEdgeError(
                    ParsingEdgeError::ToIndexValueMustBeInteger(ed.to_index.to_owned())));
            },
        };
        let weight = match parse_i32_token(ed.weight) {
            Some(v) => v,
            None => {
                return Err(BuildGraphError::ParsingEdgeError(
                    ParsingEdgeError::WeightValueMustBeInteger(ed.weight.to_owned())));
            },
        };
        Ok(Edge::new(from_index, to_index, weight))
    }
}

/// Number of nodes and declared number of edges of a graph description.
#[derive(Debug, Clone)]
pub struct GraphParameters {
    /// Number of nodes in the graph (indexed from 1 to `nodes_count`).
    pub nodes_count: u32,
    /// Declared number of edges in the graph.
    pub edges_count: usize,
}

impl GraphParameters {
    /// Creates graph parameters from the two counts.
    pub fn new(nodes_count: u32, max_edges_count: usize) -> (r: GraphParameters)
        ensures
            r == (GraphParameters { nodes_count, edges_count: max_edges_count }),
    {
        GraphParameters { nodes_count, edges_count: max_edges_count }
    }

    /// Reads the node count and the declared edge count from the first
    /// line of a description.  Fields past the second are ignored.
    ///
    /// A line with no field at all reports
    /// [`GraphParametersParsingError::EmptyInput`].
    pub fn try_from(line: &str) -> (r: Result<GraphParameters, BuildGraphError>)
        ensures
            match r {
                Ok(gp) => spec_params(line@) == Ok::<GraphParameters, BuildGraphErrorView>(gp),
                Err(e) => spec_params(line@) == Err::<GraphParameters, BuildGraphErrorView>(
                    build_error_view(e),
                ),
            },
    {
        let len = line.unicode_len();
        proof {
            crate::text::lemma_skip_ws_bounds(line@, 0);
        }
        let a1 = skip_spaces(line, 0, len);
        if a1 == len {
            return Err(BuildGraphError::GraphParametersParsingError(
                GraphParametersParsingError::EmptyInput));
        }
        proof {
            crate::text::lemma_token_end_bounds(line@, a1 as int);
        }
        let b1 = scan_token_end(line, a1, len);
        let t1 = line.substring_char(a1, b1);
        let nodes_count = match parse_u32_token(t1) {
            Some(v) => v,
            None => {
                return Err(BuildGraphError::GraphParametersParsingError(
                    GraphParametersParsingError::NodesCountValueMustBeInteger(t1.to_owned())));
            },
        };
        proof {
            crate::text::lemma_skip_ws_bounds(line@, b1 as int);
        }
        let a2 = skip_spaces(line, b1, len);
        if a2 == len {
            return Err(BuildGraphError::GraphParametersParsingError(
                GraphParametersParsingError::MissingEdgesCountValue));
        }
        proof {
            crate::text::lemma_token_end_bounds(line@, a2 as int);
        }
        let b2 = scan_token_end(line, a2, len);
        let t2 = line.substring_char(a2, b2);
        let edges_count = match parse_usize_token(t2) {
            Some(v) => v,
            None => {
                return Err(BuildGraphError::GraphParametersParsingError(
                    GraphParametersParsingError::EdgesCountValueIsNotInteger(t2.to_owned())));
            },
        };
        Ok(GraphParameters::new(nodes_count, edges_count))
    }
}

/// Spec-level image of a graph: node count and edge sequence.
pub struct GraphView {
    pub nodes_count: u32,
    pub edges: Seq<Edge>,
}

/// Directed graph, holding its node count and its edge list.
///
/// Meant to be produced through [`GraphBuilder`], which establishes
/// [`Graph::wf`] together with connectivity.
#[derive(Debug, Clone)]
pub struct Graph {
    /// Number of nodes in the graph (indexed from 1 to `nodes_count`).
    pub nodes_count: u32,
    /// Vector of edges.
    pub edges: Vec<Edge>,
}

impl View for Graph {
    type V = GraphView;

    open spec fn view(&self) -> GraphView {
        GraphView { nodes_count: self.nodes_count, edges: self.edges@ }
    }
}

impl Graph {
    /// Every edge index of the graph lies in `1..=nodes_count`.
    pub open spec fn wf(&self) -> bool {
        edges_valid(self.edges@, self.nodes_count)
    }

    /// Creates a graph from a node count and a vector of edges.
    pub fn new(nodes_count: u32, edges: Vec<Edge>) -> (r: Graph)
        ensures
            r@ == (GraphView { nodes_count, edges: edges@ }),
    {
        Graph { nodes_count, edges }
    }
}

/// Spec-level image of a graph builder.
pub struct GraphBuilderView {
    pub nodes_count: u32,
    pub max_edges_count: usize,
    pub edges: Seq<Edge>,
}

/// What adding an edge does to a builder: the new builder state, or the
/// error rejecting the edge.  A full builder rejects first; then each
/// index must lie in `1..=nodes_count` (a zero index is out of range,
/// as indices are 1-based).
pub open spec fn add_edge_spec(b: GraphBuilderView, edge: Edge) -> Result<
    GraphBuilderView,
    BuildGraphErrorView,
> {
    if b.edges.len() >= b.max_edges_count {
        Err(BuildGraphErrorView::AddingEdgeError(AddingEdgeError::TooManyEdges {
            edges_count: b.edges.len() as usize,
            edge,
        }))
    } else if edge.from_index == 0 || edge.from_index > b.nodes_count {
        Err(BuildGraphErrorView::AddingEdgeError(AddingEdgeError::WrongFromIndex {
            edge,
            nodes_count: b.nodes_count,
        }))
    } else if edge.to_index == 0 || edge.to_index > b.nodes_count {
        Err(BuildGraphErrorView::AddingEdgeError(AddingEdgeError::WrongToIndex {
            edge,
            nodes_count: b.nodes_count,
        }))
    } else {
        Ok(GraphBuilderView {
            nodes_count: b.nodes_count,
            max_edges_count: b.max_edges_count,
            edges: b.edges.push(edge),
        })
    }
}

/// What building does to a builder: the finished graph, or the error.
/// The edge count must equal the declared count and the described
/// undirected graph must be connected.
pub open spec fn build_spec(b: GraphBuilderView) -> Result<GraphView, BuildGraphErrorView> {
    if b.edges.len() < b.max_edges_count {
        Err(BuildGraphErrorView::TooFewEdges {
            current_count: b.edges.len() as usize,
            declared: b.max_edges_count,
        })
    } else if !spec_connected(b.nodes_count, b.edges) {
        Err(BuildGraphErrorView::GraphNotConnected)
    } else {
        Ok(GraphView { nodes_count: b.nodes_count, edges: b.edges })
    }
}

/// Mutable staging area for building a [`Graph`]: collects edges up to
/// the declared count, validating each index as it comes.
pub struct GraphBuilder {
    /// Number of nodes in the graph.
    nodes_count: u32,
    /// Declared (maximum) number of edges.
    max_edges_count: usize,
    /// Edges collected so far.
    edges: Vec<Edge>,
}

impl View for GraphBuilder {
    type V = GraphBuilderView;

    closed spec fn view(&self) -> GraphBuilderView {
        GraphBuilderView {
            nodes_count: self.nodes_count,
            max_edges_count: self.max_edges_count,
            edges: self.edges@,
        }
    }
}

impl GraphBuilder {
    /// The builder never holds more edges than declared, and every held
    /// edge is valid for its node count.
    pub open spec fn wf(&self) -> bool {
        &&& self@.edges.len() <= self@.max_edges_count
        &&& edges_valid(self@.edges, self@.nodes_count)
    }

    /// Creates an empty builder for the given graph parameters.
    pub fn new(gp: GraphParameters) -> (r: GraphBuilder)
        ensures
            r@ == (GraphBuilderView {
                nodes_count: gp.nodes_count,
                max_edges_count: gp.edges_count,
                edges: Seq::<Edge>::empty(),
            }),
            r.wf(),
    {
        let GraphParameters { nodes_count, edges_count: max_edges_count } = gp;
        GraphBuilder { nodes_count, max_edges_count, edges: Vec::new() }
    }

    /// Adds one edge, or reports why it is rejected; a rejected edge
    /// leaves the builder unchanged.
    pub fn add_edge(&mut self, edge: Edge) -> (r: Result<(), BuildGraphError>)
        requires
            old(self).wf(),
        ensures
            final(self).wf(),
            match add_edge_spec(old(self)@, edge) {
                Ok(v) => r == Ok::<(), BuildGraphError>(()) && final(self)@ == v,
                Err(e) => (r matches Err(re) && build_error_view(re) == e) && final(self)@
                    == old(self)@,
            },
    {
        if self.edges.len() >= self.max_edges_count {
            return Err(BuildGraphError::AddingEdgeError(AddingEdgeError::TooManyEdges {
                edges_count: self.edges.len(),
                edge,
            }));
        }
        if edge.from_index == 0 || edge.from_index > self.nodes_count {
            return Err(BuildGraphError::AddingEdgeError(AddingEdgeError::WrongFromIndex {
                edge,
                nodes_count: self.nodes_count,
            }));
        }
        if edge.to_index == 0 || edge.to_index > self.nodes_count {
            return Err(BuildGraphError::AddingEdgeError(AddingEdgeError::WrongToIndex {
                edge,
                nodes_count: self.nodes_count,
            }));
        }
        self.edges.push(edge);
        Ok(())
    }

    /// Decides whether the collected edges connect all nodes.
    fn is_connected(&self) -> (r: bool)
        requires
            self.wf(),
        ensures
            r == spec_connected(self@.nodes_count, self@.edges),
    {
        crate::dfs::is_connected(&self.edges, self.nodes_count)
    }

    /// Finishes the builder: checks the edge count and the connectivity
    /// of the described graph, and hands the edges over to the graph.
    pub fn build(self) -> (r: Result<Graph, BuildGraphError>)
        requires
            self.wf(),
        ensures
            match build_spec(self@) {
                Ok(v) => (r matches Ok(g) && g@ == v),
                Err(e) => (r matches Err(re) && build_error_view(re) == e),
            },
            r matches Ok(g) ==> g.wf() && g@.edges.len() == self@.max_edges_count
                && spec_connected(g@.nodes_count, g@.edges),
    {
        if self.edges.len() < self.max_edges_count {
            return Err(BuildGraphError::TooFewEdges {
                current_count: self.edges.len(),
                declared: self.max_edges_count,
            });
        }
        if !self.is_connected() {
            return Err(BuildGraphError::GraphNotConnected);
        }
        Ok(Graph::new(self.nodes_count, self.edges))
    }
}

impl core::str::FromStr for Edge {
    type Err = BuildGraphError;

    /// Parses one edge line: three whitespace-separated integer fields.
    fn from_str(s: &str) -> Result<Edge, BuildGraphError> {
        match EdgeDescription::try_from(s) {
            Ok(ed) => Edge::try_from(ed),
            Err(e) => Err(e),
        }
    }
}

} // verus!
