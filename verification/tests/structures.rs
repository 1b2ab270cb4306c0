use graph_algorithms::AddingEdgeError;
use graph_algorithms::BuildGraphError;
use graph_algorithms::Edge;
use graph_algorithms::EdgeDescription;
use graph_algorithms::Graph;
use graph_algorithms::GraphBuilder;
use graph_algorithms::GraphParameters;
use graph_algorithms::ParsingEdgeError;

fn create_test_graph_builder() -> GraphBuilder {
    GraphBuilder::new(GraphParameters::new(3, 2))
}

#[test]
fn ok() {
    let edge_description = EdgeDescription::try_from("1 5 200").unwrap();
    let expected = Edge::new(1, 5, 200);
    let actual = Edge::try_from(edge_description).unwrap();
    assert_eq!(expected, actual);
}

#[test]
fn too_many_edges() {
    let mut graph_builder = create_test_graph_builder();
    graph_builder.add_edge("1 3 200".parse().unwrap()).unwrap();
    graph_builder.add_edge("2 1 50".parse().unwrap()).unwrap();

    let third_edge: Edge = "3 4 170".parse().unwrap();

    let expected = BuildGraphError::from(AddingEdgeError::TooManyEdges {
        edges_count: 2,
        edge: third_edge,
    });

    let actual = graph_builder.add_edge(third_edge).unwrap_err();
    assert_eq!(actual, expected);
}

#[test]
fn invalid_from_index() {
    let mut graph_builder = create_test_graph_builder();
    let invalid_edge: Edge = "10 3 120".parse().unwrap();

    let expected = BuildGraphError::from(AddingEdgeError::WrongFromIndex {
        edge: invalid_edge,
        nodes_count: 3,
    });

    let actual = graph_builder.add_edge(invalid_edge).unwrap_err();
    assert_eq!(actual, expected);
}

#[test]
fn invalid_to_index() {
    let mut graph_builder = create_test_graph_builder();
    let invalid_edge: Edge = "2 7 120".parse().unwrap();

    let expected = BuildGraphError::from(AddingEdgeError::WrongToIndex {
        edge: invalid_edge,
        nodes_count: 3,
    });

    let actual = graph_builder.add_edge(invalid_edge).unwrap_err();
    assert_eq!(actual, expected);
}

#[test]
fn structures_ok() {
    let mut graph_builder = create_test_graph_builder();
    let first_edge: Edge = "1 3 100".parse().unwrap();
    let second_edge: Edge = "2 3 130".parse().unwrap();

    graph_builder.add_edge("1 3 100".parse().unwrap()).unwrap();
    graph_builder.add_edge("2 3 130".parse().unwrap()).unwrap();
    let expected = Graph {
        nodes_count: 3,
        edges: vec![first_edge, second_edge],
    };
    let actual = graph_builder.build().unwrap();
    assert_eq!(format!("{:?}", actual), format!("{:?}", expected));
}

#[test]
fn error_too_few_edges() {
    let mut graph_builder = create_test_graph_builder();

    graph_builder.add_edge("1 3 100".parse().unwrap()).unwrap();
    let expected = BuildGraphError::TooFewEdges {
        current_count: 1,
        declared: 2,
    };
    let actual = graph_builder.build().unwrap_err();
    assert_eq!(actual, expected);
}

#[test]
fn empty_line_is_rejected() {
    let err = EdgeDescription::try_from("   ").unwrap_err();
    assert_eq!(err, BuildGraphError::ParsingEdgeError(ParsingEdgeError::EmptyLine));
}

#[test]
fn missing_to_index_field_is_reported() {
    let err = EdgeDescription::try_from("1").unwrap_err();
    assert_eq!(
        err,
        BuildGraphError::ParsingEdgeError(ParsingEdgeError::MissingToIndexField)
    );
}

#[test]
fn missing_weight_field_is_reported() {
    let err = EdgeDescription::try_from("1 2").unwrap_err();
    assert_eq!(
        err,
        BuildGraphError::ParsingEdgeError(ParsingEdgeError::MissingWeightField)
    );
}

#[test]
fn non_integer_from_index_is_reported() {
    let err: BuildGraphError = "x 2 130".parse::<Edge>().unwrap_err();
    assert_eq!(
        err,
        BuildGraphError::ParsingEdgeError(ParsingEdgeError::FromIndexValueMustBeInteger(
            String::from("x")
        ))
    );
}

#[test]
fn non_integer_to_index_is_reported() {
    let err: BuildGraphError = "1 x 130".parse::<Edge>().unwrap_err();
    assert_eq!(
        err,
        BuildGraphError::ParsingEdgeError(ParsingEdgeError::ToIndexValueMustBeInteger(
            String::from("x")
        ))
    );
}

#[test]
fn non_integer_weight_is_reported() {
    let err: BuildGraphError = "1 2 xxx".parse::<Edge>().unwrap_err();
    assert_eq!(
        err,
        BuildGraphError::ParsingEdgeError(ParsingEdgeError::WeightValueMustBeInteger(
            String::from("xxx")
        ))
    );
}

#[test]
fn negative_weight_and_plus_signs_parse() {
    let e: Edge = "+1 2 -2147483648".parse().unwrap();
    assert_eq!(e, Edge::new(1, 2, i32::MIN));
    let e2: Edge = "4294967295 1 +2147483647".parse().unwrap();
    assert_eq!(e2, Edge::new(u32::MAX, 1, i32::MAX));
}

#[test]
fn out_of_range_numbers_are_rejected() {
    assert!("4294967296 1 5".parse::<Edge>().is_err());
    assert!("1 1 2147483648".parse::<Edge>().is_err());
    assert!("1 1 -2147483649".parse::<Edge>().is_err());
}

#[test]
fn zero_index_is_rejected() {
    let mut graph_builder = create_test_graph_builder();
    let edge: Edge = "0 1 5".parse().unwrap();
    let expected = BuildGraphError::from(AddingEdgeError::WrongFromIndex {
        edge,
        nodes_count: 3,
    });
    assert_eq!(graph_builder.add_edge(edge).unwrap_err(), expected);
}

#[test]
fn extra_fields_are_ignored() {
    let e: Edge = "1 2 30 extra stuff".parse().unwrap();
    assert_eq!(e, Edge::new(1, 2, 30));
}
