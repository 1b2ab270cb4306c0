//! Typed errors for graph construction and for the algorithms.
//!
//! Every failure of the builder pipeline is reported through
//! [`BuildGraphError`]; errors raised while a numbered edge line is being
//! processed are wrapped in [`BuildGraphError::ErrorInGraphDescriptionFile`]
//! together with that line number (the first edge line is line 1).

use vstd::prelude::*;

verus! {

/// Errors of the whole graph-building pipeline.
#[derive(Debug, PartialEq)]
pub enum BuildGraphError {
    /// The described graph failed the connectivity check.
    GraphNotConnected,
    /// Fewer edge lines were supplied than the declared edge count.
    TooFewEdges { current_count: usize, declared: usize },
    /// An edge line could not be parsed.
    ParsingEdgeError(ParsingEdgeError),
    /// A parsed edge could not be added to the builder.
    AddingEdgeError(AddingEdgeError),
    /// The first line (the graph parameters) could not be parsed.
    GraphParametersParsingError(GraphParametersParsingError),
    /// An error, wrapped with the number of the edge line that caused it.
    ErrorInGraphDescriptionFile { line_no: usize, error: Box<BuildGraphError> },
}

/// Errors raised while splitting an edge line into its three fields
/// and reading their values.
#[derive(Debug, Clone, PartialEq)]
pub enum ParsingEdgeError {
    /// The line holds no field at all.
    EmptyLine,
    /// The line holds only one field: the `to_index` field is missing.
    MissingToIndexField,
    /// The line holds only two fields: the `weight` field is missing.
    MissingWeightField,
    /// The `from_index` field is not an unsigned integer; holds the raw field.
    FromIndexValueMustBeInteger(String),
    /// The `to_index` field is not an unsigned integer; holds the raw field.
    ToIndexValueMustBeInteger(String),
    /// The `weight` field is not a signed integer; holds the raw field.
    WeightValueMustBeInteger(String),
}

/// Errors raised while adding a parsed edge to the builder.
#[derive(Debug, Clone, PartialEq)]
pub enum AddingEdgeError {
    /// The builder already holds the declared number of edges.
    TooManyEdges { edges_count: usize, edge: crate::structures::Edge },
    /// The edge's `from_index` lies outside `1..=nodes_count`.
    WrongFromIndex { edge: crate::structures::Edge, nodes_count: u32 },
    /// The edge's `to_index` lies outside `1..=nodes_count`.
    WrongToIndex { edge: crate::structures::Edge, nodes_count: u32 },
}

/// Errors raised while reading the first line of the description.
#[derive(Debug, Clone, PartialEq)]
pub enum GraphParametersParsingError {
    /// The input holds no first line with any field on it.
    EmptyInput,
    /// The first line holds no `edges_count` field.
    MissingEdgesCountValue,
    /// The `nodes_count` field is not an unsigned integer; holds the raw field.
    NodesCountValueMustBeInteger(String),
    /// The `edges_count` field is not an unsigned integer; holds the raw field.
    EdgesCountValueIsNotInteger(String),
}

impl From<ParsingEdgeError> for BuildGraphError {
    fn from(e: ParsingEdgeError) -> (r: Self) {
        BuildGraphError::ParsingEdgeError(e)
    }
}

impl vstd::std_specs::convert::FromSpecImpl<ParsingEdgeError> for BuildGraphError {
    open spec fn obeys_from_spec() -> bool {
        true
    }

    open spec fn from_spec(e: ParsingEdgeError) -> Self {
        BuildGraphError::ParsingEdgeError(e)
    }
}

impl From<AddingEdgeError> for BuildGraphError {
    fn from(e: AddingEdgeError) -> (r: Self) {
        BuildGraphError::AddingEdgeError(e)
    }
}

impl vstd::std_specs::convert::FromSpecImpl<AddingEdgeError> for BuildGraphError {
    open spec fn obeys_from_spec() -> bool {
        true
    }

    open spec fn from_spec(e: AddingEdgeError) -> Self {
        BuildGraphError::AddingEdgeError(e)
    }
}

impl From<GraphParametersParsingError> for BuildGraphError {
    fn from(e: GraphParametersParsingError) -> (r: Self) {
        BuildGraphError::GraphParametersParsingError(e)
    }
}

impl vstd::std_specs::convert::FromSpecImpl<GraphParametersParsingError> for BuildGraphError {
    open spec fn obeys_from_spec() -> bool {
        true
    }

    open spec fn from_spec(e: GraphParametersParsingError) -> Self {
        BuildGraphError::GraphParametersParsingError(e)
    }
}

/// Top-level error type of the algorithms.
#[derive(Debug, Clone, PartialEq)]
pub enum AlgorithmError {
    /// An error returned by Dijkstra's algorithm.
    DijkstrasError(DijkstrasError),
}

/// Errors returned by Dijkstra's algorithm, at the algorithm-suite level.
#[derive(Debug, Clone, PartialEq)]
pub enum DijkstrasError {
    /// The start node index exceeds the number of nodes in the graph.
    InvalidStartNode { start_node: u32, nodes_count: u32 },
    /// The end node index exceeds the number of nodes in the graph.
    InvalidEndNode { end_node: u32, nodes_count: u32 },
}

impl From<DijkstrasError> for AlgorithmError {
    fn from(e: DijkstrasError) -> (r: Self) {
        AlgorithmError::DijkstrasError(e)
    }
}

impl vstd::std_specs::convert::FromSpecImpl<DijkstrasError> for AlgorithmError {
    open spec fn obeys_from_spec() -> bool {
        true
    }

    open spec fn from_spec(e: DijkstrasError) -> Self {
        AlgorithmError::DijkstrasError(e)
    }
}

/// Spec-level image of [`ParsingEdgeError`]: raw fields as character
/// sequences.
pub enum ParsingEdgeErrorView {
    EmptyLine,
    MissingToIndexField,
    MissingWeightField,
    FromIndexValueMustBeInteger(Seq<char>),
    ToIndexValueMustBeInteger(Seq<char>),
    WeightValueMustBeInteger(Seq<char>),
}

/// Spec-level image of [`GraphParametersParsingError`].
pub enum GraphParametersParsingErrorView {
    EmptyInput,
    MissingEdgesCountValue,
    NodesCountValueMustBeInteger(Seq<char>),
    EdgesCountValueIsNotInteger(Seq<char>),
}

/// Spec-level image of [`BuildGraphError`].
pub enum BuildGraphErrorView {
    GraphNotConnected,
    TooFewEdges { current_count: usize, declared: usize },
    ParsingEdgeError(ParsingEdgeErrorView),
    AddingEdgeError(AddingEdgeError),
    GraphParametersParsingError(GraphParametersParsingErrorView),
    ErrorInGraphDescriptionFile { line_no: usize, error: Box<BuildGraphErrorView> },
}

impl View for ParsingEdgeError {
    type V = ParsingEdgeErrorView;

    open spec fn view(&self) -> ParsingEdgeErrorView {
        match self {
            ParsingEdgeError::EmptyLine => ParsingEdgeErrorView::EmptyLine,
            ParsingEdgeError::MissingToIndexField => ParsingEdgeErrorView::MissingToIndexField,
            ParsingEdgeError::MissingWeightField => ParsingEdgeErrorView::MissingWeightField,
            ParsingEdgeError::FromIndexValueMustBeInteger(raw) =>
                ParsingEdgeErrorView::FromIndexValueMustBeInteger(raw@),
            ParsingEdgeError::ToIndexValueMustBeInteger(raw) =>
                ParsingEdgeErrorView::ToIndexValueMustBeInteger(raw@),
            ParsingEdgeError::WeightValueMustBeInteger(raw) =>
                ParsingEdgeErrorView::WeightValueMustBeInteger(raw@),
        }
    }
}

impl View for GraphParametersParsingError {
    type V = GraphParametersParsingErrorView;

    open spec fn view(&self) -> GraphParametersParsingErrorView {
        match self {
            GraphParametersParsingError::EmptyInput => GraphParametersParsingErrorView::EmptyInput,
            GraphParametersParsingError::MissingEdgesCountValue =>
                GraphParametersParsingErrorView::MissingEdgesCountValue,
            GraphParametersParsingError::NodesCountValueMustBeInteger(raw) =>
                GraphParametersParsingErrorView::NodesCountValueMustBeInteger(raw@),
            GraphParametersParsingError::EdgesCountValueIsNotInteger(raw) =>
                GraphParametersParsingErrorView::EdgesCountValueIsNotInteger(raw@),
        }
    }
}

/// The spec-level image of a [`BuildGraphError`], with every raw text
/// payload replaced by its character sequence.
pub open spec fn build_error_view(e: BuildGraphError) -> BuildGraphErrorView
    decreases e,
{
    match e {
        BuildGraphError::GraphNotConnected => BuildGraphErrorView::GraphNotConnected,
        BuildGraphError::TooFewEdges { current_count, declared } =>
            BuildGraphErrorView::TooFewEdges { current_count, declared },
        BuildGraphError::ParsingEdgeError(pe) => BuildGraphErrorView::ParsingEdgeError(pe@),
        BuildGraphError::AddingEdgeError(ae) => BuildGraphErrorView::AddingEdgeError(ae),
        BuildGraphError::GraphParametersParsingError(ge) =>
            BuildGraphErrorView::GraphParametersParsingError(ge@),
        BuildGraphError::ErrorInGraphDescriptionFile { line_no, error } =>
            BuildGraphErrorView::ErrorInGraphDescriptionFile {
            line_no,
            error: Box::new(build_error_view(*error)),
        },
    }
}

} // verus!
