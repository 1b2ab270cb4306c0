use graph_algorithms::build_graph;
use graph_algorithms::calculate_min_total_weight;
use graph_algorithms::UnionFind;

#[test]
fn union_find_singletons() {
    let uf = UnionFind::new(4);
    for i in 0..=4 {
        assert_eq!(uf.find_parent(i), i);
    }
}

#[test]
fn union_find_merges_sets() {
    let mut uf = UnionFind::new(4);
    assert!(uf.union(1, 2));
    assert!(!uf.union(1, 2));
    assert_eq!(uf.find_parent(1), uf.find_parent(2));
    assert!(uf.merge_parents(2, 3));
    assert_eq!(uf.find_parent(1), uf.find_parent(3));
    assert!(!uf.merge_parents(3, 1));
    assert_ne!(uf.find_parent(4), uf.find_parent(1));
}

#[test]
fn union_find_compresses_without_changing_sets() {
    let mut uf = UnionFind::new(6);
    uf.union(1, 2);
    uf.union(3, 4);
    uf.union(2, 3);
    let r1 = uf.find_mut_parent(1);
    let r4 = uf.find_mut_parent(4);
    assert_eq!(r1, r4);
    assert_eq!(uf.find_parent(1), r1);
}

#[test]
fn mst_weight_of_a_triangle() {
    let graph = build_graph("3 3\n1 2 10\n2 3 20\n1 3 30").unwrap();
    assert_eq!(calculate_min_total_weight(graph), 30);
}

#[test]
fn mst_weight_with_duplicate_and_cycle_edges() {
    // declares four edges over three nodes; the two heaviest close cycles
    let graph = build_graph("3 4\n1 2 100\n2 1 80\n3 1 90\n1 3 110").unwrap();
    assert_eq!(calculate_min_total_weight(graph), 170);
}

#[test]
fn mst_weight_is_the_same_on_two_clones() {
    let graph = build_graph("4 5\n1 2 9\n2 3 8\n3 4 7\n4 1 6\n1 3 5").unwrap();
    let first = calculate_min_total_weight(graph.clone());
    let second = calculate_min_total_weight(graph);
    assert_eq!(first, second);
}

#[test]
fn mst_weight_handles_negative_weights() {
    let graph = build_graph("3 3\n1 2 -5\n2 3 4\n1 3 -2").unwrap();
    assert_eq!(calculate_min_total_weight(graph), -7);
}

// An independent union-find-free connectivity test over an edge subset,
// by sweeping until no new node is marked.
fn subset_connects_all(nodes_count: u32, edges: &[(u32, u32, i32)], chosen: usize) -> bool {
    let n = nodes_count as usize;
    let mut marked = vec![false; n + 1];
    marked[1] = true;
    for _ in 0..n {
        for (k, &(a, b, _)) in edges.iter().enumerate() {
            if chosen & (1 << k) != 0 {
                if marked[a as usize] && !marked[b as usize] {
                    marked[b as usize] = true;
                }
                if marked[b as usize] && !marked[a as usize] {
                    marked[a as usize] = true;
                }
            }
        }
    }
    (1..=n).all(|v| marked[v])
}

#[test]
fn mst_weight_is_minimal_over_all_spanning_subsets() {
    let text = "4 5\n1 2 10\n2 3 20\n3 4 30\n4 1 40\n1 3 50";
    let edges = [
        (1u32, 2u32, 10i32),
        (2, 3, 20),
        (3, 4, 30),
        (4, 1, 40),
        (1, 3, 50),
    ];
    let mut best: Option<i32> = None;
    for chosen in 0usize..(1 << edges.len()) {
        if subset_connects_all(4, &edges, chosen) {
            let weight: i32 = edges
                .iter()
                .enumerate()
                .filter(|(k, _)| chosen & (1 << k) != 0)
                .map(|(_, e)| e.2)
                .sum();
            best = Some(match best {
                None => weight,
                Some(b) if weight < b => weight,
                Some(b) => b,
            });
        }
    }
    let graph = build_graph(text).unwrap();
    assert_eq!(calculate_min_total_weight(graph), best.unwrap());
}
