use graph_algorithms::adjacency_list;
use graph_algorithms::build_graph;
use graph_algorithms::dfs;
use graph_algorithms::is_connected;
use graph_algorithms::Edge;

#[test]
fn graph_not_connected() {
    let nodes_count = 5;
    let mut edges: Vec<Edge> = Vec::new();
    edges.push(Edge {
        from_index: 1,
        to_index: 2,
        weight: 100,
    });
    edges.push(Edge {
        from_index: 3,
        to_index: 4,
        weight: 100,
    });
    edges.push(Edge {
        from_index: 4,
        to_index: 5,
        weight: 100,
    });
    edges.push(Edge {
        from_index: 5,
        to_index: 3,
        weight: 100,
    });
    assert_eq!(false, is_connected(&edges, nodes_count));
}

#[test]
fn graph_connected() {
    let nodes_count = 5;
    let mut edges: Vec<Edge> = Vec::new();
    edges.push(Edge {
        from_index: 1,
        to_index: 2,
        weight: 100,
    });
    edges.push(Edge {
        from_index: 4,
        to_index: 5,
        weight: 100,
    });
    edges.push(Edge {
        from_index: 3,
        to_index: 5,
        weight: 100,
    });
    edges.push(Edge {
        from_index: 1,
        to_index: 4,
        weight: 100,
    });
    assert_eq!(true, is_connected(&edges, nodes_count));
}

#[test]
fn dfs_marks_exactly_the_reachable_nodes() {
    let edges = vec![Edge::new(1, 2, 5), Edge::new(2, 3, 5), Edge::new(5, 6, 5)];
    let adjacency = adjacency_list(&edges, 6);
    let visited = dfs(1, &adjacency);
    assert_eq!(visited, vec![false, true, true, true, false, false, false]);
}

// An independent connectivity check: repeatedly sweep the edge list,
// marking neighbors of marked nodes, until nothing changes.
fn reachable_by_sweeping(nodes_count: u32, edges: &[(u32, u32)]) -> Vec<bool> {
    let n = nodes_count as usize;
    let mut marked = vec![false; n + 1];
    if n >= 1 {
        marked[1] = true;
    }
    let mut changed = true;
    while changed {
        changed = false;
        for &(a, b) in edges {
            if marked[a as usize] && !marked[b as usize] {
                marked[b as usize] = true;
                changed = true;
            }
            if marked[b as usize] && !marked[a as usize] {
                marked[a as usize] = true;
                changed = true;
            }
        }
    }
    marked
}

#[test]
fn built_graph_is_connected_by_independent_check() {
    let graph = build_graph("5 5\n1 2 9\n2 3 8\n3 4 7\n4 5 6\n5 1 5").unwrap();
    let pairs: Vec<(u32, u32)> = graph
        .edges
        .iter()
        .map(|e| (e.from_index, e.to_index))
        .collect();
    let marked = reachable_by_sweeping(graph.nodes_count, &pairs);
    for v in 1..=graph.nodes_count {
        assert!(marked[v as usize]);
    }
}

#[test]
fn disconnected_description_is_rejected() {
    let err = build_graph("4 2\n1 2 5\n3 4 5").unwrap_err();
    assert_eq!(format!("{:?}", err), "GraphNotConnected");
}
