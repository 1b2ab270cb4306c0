use graph_algorithms::AddingEdgeError;
use graph_algorithms::BuildGraphError;
use graph_algorithms::Edge;
use graph_algorithms::GraphBuilder;
use graph_algorithms::GraphParameters;

fn test_builder() -> GraphBuilder {
    GraphBuilder::new(GraphParameters::new(3, 2))
}

#[test]
fn structures_too_many_edges() {
    let mut graph_builder = test_builder();
    graph_builder.add_edge("1 3 200".parse().unwrap()).unwrap();
    graph_builder.add_edge("2 1 50".parse().unwrap()).unwrap();

    let third_edge: Edge = "3 4 170".parse().unwrap();

    let expected = BuildGraphError::from(AddingEdgeError::TooManyEdges {
        edges_count: 2,
        edge: third_edge,
    });

    let actual = graph_builder.add_edge(third_edge).unwrap_err();
    assert_eq!(actual, expected);
}

#[test]
fn structures_invalid_from_index() {
    let mut graph_builder = test_builder();
    let invalid_edge: Edge = "10 3 120".parse().unwrap();

    let expected = BuildGraphError::from(AddingEdgeError::WrongFromIndex {
        edge: invalid_edge,
        nodes_count: 3,
    });

    let actual = graph_builder.add_edge(invalid_edge).unwrap_err();
    assert_eq!(actual, expected);
}

#[test]
fn structures_invalid_to_index() {
    let mut graph_builder = test_builder();
    let invalid_edge: Edge = "2 7 120".parse().unwrap();

    let expected = BuildGraphError::from(AddingEdgeError::WrongToIndex {
        edge: invalid_edge,
        nodes_count: 3,
    });

    let actual = graph_builder.add_edge(invalid_edge).unwrap_err();
    assert_eq!(actual, expected);
}

#[test]
fn structures_error_too_few_edges() {
    let mut graph_builder = test_builder();

    graph_builder.add_edge("1 3 100".parse().unwrap()).unwrap();
    let expected = BuildGraphError::TooFewEdges {
        current_count: 1,
        declared: 2,
    };
    let actual = graph_builder.build().unwrap_err();
    assert_eq!(actual, expected);
}
