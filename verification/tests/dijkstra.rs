use graph_algorithms::build_graph;
use graph_algorithms::AlgorithmError;
use graph_algorithms::DijkstrasError;
use graph_algorithms::find_shortest_path_length;
use graph_algorithms::DijkstraAlgorithmError;
use graph_algorithms::Edge;
use graph_algorithms::Graph;
use graph_algorithms::PositiveInteger;

fn node(v: u32) -> PositiveInteger {
    PositiveInteger::try_from(v).unwrap()
}

#[test]
fn shortest_path_prefers_the_lighter_detour() {
    // nodes 1..5; the path 1 -> 3 -> 4 weighs 60, beating any route
    // through node 2
    let graph = build_graph("5 4\n1 2 50\n1 3 40\n3 4 20\n4 5 70").unwrap();
    let distance = find_shortest_path_length(&graph, node(1), node(4)).unwrap();
    assert_eq!(distance, 60);
}

#[test]
fn start_equal_to_end_yields_zero() {
    let graph = build_graph("3 2\n1 2 100\n2 3 150").unwrap();
    assert_eq!(find_shortest_path_length(&graph, node(2), node(2)).unwrap(), 0);
}

#[test]
fn invalid_end_node_is_rejected() {
    let graph = build_graph("3 2\n1 2 100\n2 3 150").unwrap();
    let actual = find_shortest_path_length(&graph, node(1), node(4)).unwrap_err();
    let expected = DijkstraAlgorithmError::InvalidEndNode {
        end_node: 4,
        nodes_count: 3,
    };
    assert_eq!(actual, expected);
}

#[test]
fn invalid_start_node_is_rejected() {
    let graph = build_graph("3 2\n1 2 100\n2 3 150").unwrap();
    let actual = find_shortest_path_length(&graph, node(9), node(1)).unwrap_err();
    let expected = DijkstraAlgorithmError::InvalidStartNode {
        start_node: 9,
        nodes_count: 3,
    };
    assert_eq!(actual, expected);
}

#[test]
fn unreachable_end_node_is_reported() {
    // a graph built by hand, with node 2 isolated
    let graph = Graph::new(2, vec![Edge::new(1, 1, 0)]);
    let actual = find_shortest_path_length(&graph, node(1), node(2)).unwrap_err();
    assert_eq!(actual, DijkstraAlgorithmError::EndNodeUnreachable { end_node: 2 });
}

#[test]
fn direct_heavy_edge_loses_to_a_light_chain() {
    let graph = build_graph("4 4\n1 4 100\n1 2 10\n2 3 10\n3 4 10").unwrap();
    assert_eq!(find_shortest_path_length(&graph, node(1), node(4)).unwrap(), 30);
}

// An independent shortest-distance computation by relaxing every edge
// nodes_count times (there are no negative weights).
fn distances_by_sweeping(nodes_count: u32, edges: &[(u32, u32, u32)], start: u32) -> Vec<u64> {
    let n = nodes_count as usize;
    let inf = u64::MAX / 4;
    let mut dist = vec![inf; n + 1];
    dist[start as usize] = 0;
    for _ in 0..=n {
        for &(a, b, w) in edges {
            let (au, bu, w64) = (a as usize, b as usize, w as u64);
            if dist[au] + w64 < dist[bu] {
                dist[bu] = dist[au] + w64;
            }
            if dist[bu] + w64 < dist[au] {
                dist[au] = dist[bu] + w64;
            }
        }
    }
    dist
}

#[test]
fn distances_match_an_independent_computation_for_all_pairs() {
    let text = "6 8\n1 2 7\n1 3 9\n1 6 14\n2 3 10\n2 4 15\n3 4 11\n3 6 2\n4 5 6\n";
    let graph = build_graph(text).unwrap();
    let pairs: Vec<(u32, u32, u32)> = graph
        .edges
        .iter()
        .map(|e| (e.from_index, e.to_index, e.weight as u32))
        .collect();
    for s in 1..=6u32 {
        let expected = distances_by_sweeping(6, &pairs, s);
        for t in 1..=6u32 {
            let got = find_shortest_path_length(&graph, node(s), node(t)).unwrap();
            assert_eq!(got as u64, expected[t as usize]);
        }
    }
}

#[test]
fn algorithm_error_wraps_dijkstras_error() {
    let inner = DijkstrasError::InvalidEndNode {
        end_node: 4,
        nodes_count: 3,
    };
    let wrapped = AlgorithmError::from(inner.clone());
    assert_eq!(wrapped, AlgorithmError::DijkstrasError(inner));
}
