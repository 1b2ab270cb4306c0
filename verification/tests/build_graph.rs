use graph_algorithms::build_graph;
use graph_algorithms::AddingEdgeError;
use graph_algorithms::BuildGraphError;
use graph_algorithms::Edge;
use graph_algorithms::GraphParametersParsingError;

#[test]
fn wrong_to_index_is_reported_with_its_line() {
    let err = build_graph("3 2\n1 2 100\n2 4 100").unwrap_err();
    let expected = BuildGraphError::ErrorInGraphDescriptionFile {
        line_no: 2,
        error: Box::new(BuildGraphError::from(AddingEdgeError::WrongToIndex {
            edge: Edge::new(2, 4, 100),
            nodes_count: 3,
        })),
    };
    assert_eq!(err, expected);
}

#[test]
fn too_few_edges_is_reported_after_all_lines() {
    let err = build_graph("4 3\n1 2 500\n1 4 350").unwrap_err();
    let expected = BuildGraphError::TooFewEdges {
        current_count: 2,
        declared: 3,
    };
    assert_eq!(err, expected);
}

#[test]
fn empty_input_is_reported() {
    let err = build_graph("").unwrap_err();
    assert_eq!(
        err,
        BuildGraphError::GraphParametersParsingError(GraphParametersParsingError::EmptyInput)
    );
}

#[test]
fn blank_first_line_is_reported_as_empty_input() {
    let err = build_graph("   \n1 2 3").unwrap_err();
    assert_eq!(
        err,
        BuildGraphError::GraphParametersParsingError(GraphParametersParsingError::EmptyInput)
    );
}

#[test]
fn missing_edges_count_is_reported() {
    let err = build_graph("3").unwrap_err();
    assert_eq!(
        err,
        BuildGraphError::GraphParametersParsingError(
            GraphParametersParsingError::MissingEdgesCountValue
        )
    );
}

#[test]
fn non_integer_nodes_count_is_reported() {
    let err = build_graph("x 2\n1 2 3").unwrap_err();
    assert_eq!(
        err,
        BuildGraphError::GraphParametersParsingError(
            GraphParametersParsingError::NodesCountValueMustBeInteger(String::from("x"))
        )
    );
}

#[test]
fn non_integer_edges_count_is_reported() {
    let err = build_graph("3 two\n1 2 3").unwrap_err();
    assert_eq!(
        err,
        BuildGraphError::GraphParametersParsingError(
            GraphParametersParsingError::EdgesCountValueIsNotInteger(String::from("two"))
        )
    );
}

#[test]
fn successful_build_keeps_declared_count_and_edges() {
    let graph = build_graph("4 3\n1 2 100\n2 3 200\n4 1 125").unwrap();
    assert_eq!(graph.nodes_count, 4);
    assert_eq!(graph.edges.len(), 3);
    assert_eq!(graph.edges[0], Edge::new(1, 2, 100));
    assert_eq!(graph.edges[1], Edge::new(2, 3, 200));
    assert_eq!(graph.edges[2], Edge::new(4, 1, 125));
}

#[test]
fn crlf_line_endings_are_accepted() {
    let graph = build_graph("3 2\r\n1 2 7\r\n2 3 9\r\n").unwrap();
    assert_eq!(graph.edges.len(), 2);
    assert_eq!(graph.edges[1], Edge::new(2, 3, 9));
}

#[test]
fn too_many_edges_is_wrapped_with_its_line() {
    let err = build_graph("3 1\n1 2 5\n2 3 6").unwrap_err();
    let expected = BuildGraphError::ErrorInGraphDescriptionFile {
        line_no: 2,
        error: Box::new(BuildGraphError::from(AddingEdgeError::TooManyEdges {
            edges_count: 1,
            edge: Edge::new(2, 3, 6),
        })),
    };
    assert_eq!(err, expected);
}

#[test]
fn empty_edge_line_is_wrapped_with_its_line() {
    let err = build_graph("2 2\n\n1 2 5").unwrap_err();
    assert_eq!(
        format!("{:?}", err),
        format!(
            "{:?}",
            BuildGraphError::ErrorInGraphDescriptionFile {
                line_no: 1,
                error: Box::new(BuildGraphError::ParsingEdgeError(
                    graph_algorithms::ParsingEdgeError::EmptyLine
                )),
            }
        )
    );
}

#[test]
fn empty_graph_description_builds() {
    let graph = build_graph("0 0").unwrap();
    assert_eq!(graph.nodes_count, 0);
    assert_eq!(graph.edges.len(), 0);
}

#[test]
fn unicode_spaces_separate_fields() {
    let graph = build_graph("3\u{2002}2\n1\u{00A0}2 7\n2\u{3000}3 9").unwrap();
    assert_eq!(graph.edges[0], Edge::new(1, 2, 7));
    assert_eq!(graph.edges[1], Edge::new(2, 3, 9));
}
