//! Dijkstra's single-source shortest-path search between two nodes.
//!
//! The min-priority queue of the search is a vector of
//! [`NodeDistance`] entries popped by scanning for a minimum; candidate
//! distances are accumulated in 64 bits before the improvement test, so
//! the relaxation is total.  The search is proved correct: a returned
//! distance is the least cost of any walk between the two nodes, a
//! distance is returned whenever a walk of cost below `u32::MAX`
//! exists, and exhausting the queue is reported as
//! [`DijkstraAlgorithmError::EndNodeUnreachable`] instead of failing.

use crate::dfs::{adj_matches_edges, adj_view, adjacency_list, connects_weighted, edge_in_adj,
    is_weighted_path, pair_from_edges, path_cost, reaches_with_cost};
use crate::positive_integer::PositiveInteger;
use crate::structures::{edge_valid, Edge, Graph};
use vstd::prelude::*;

verus! {

/// A node index paired with a candidate distance from the start node.
#[derive(Clone, Copy, Debug, PartialEq, Eq, Structural)]
pub struct NodeDistance {
    /// Node index.
    pub index: u32,
    /// Candidate distance from the start node.
    pub distance: u32,
}

impl NodeDistance {
    /// NodeDistance constructor.
    pub fn new(index: u32, distance: u32) -> (r: NodeDistance)
        ensures
            r == (NodeDistance { index, distance }),
    {
        NodeDistance { index, distance }
    }
}

/// Errors returned by the shortest-path search.
#[derive(Debug, Clone, PartialEq)]
pub enum DijkstraAlgorithmError {
    /// The start node index exceeds the number of nodes in the graph.
    InvalidStartNode { start_node: u32, nodes_count: u32 },
    /// The end node index exceeds the number of nodes in the graph.
    InvalidEndNode { end_node: u32, nodes_count: u32 },
    /// The queue ran dry before the end node was popped: no path joins
    /// the two nodes.
    EndNodeUnreachable { end_node: u32 },
}

/// Checks that `index` does not exceed `nodes_count`.
fn is_node_index_valid(index: u32, nodes_count: u32) -> (r: bool)
    ensures
        r == (index <= nodes_count),
{
    index <= nodes_count
}

/// Validates the two node indices against the node count, reporting the
/// start node first.
fn validate_nodes(start_node: u32, end_node: u32, nodes_count: u32) -> (r: Result<
    (),
    DijkstraAlgorithmError,
>)
    ensures
        start_node > nodes_count ==> r == Err::<(), DijkstraAlgorithmError>(
            DijkstraAlgorithmError::InvalidStartNode { start_node, nodes_count },
        ),
        start_node <= nodes_count && end_node > nodes_count ==> r == Err::<(),
            DijkstraAlgorithmError>(DijkstraAlgorithmError::InvalidEndNode {
            end_node,
            nodes_count,
        }),
        start_node <= nodes_count && end_node <= nodes_count ==> r == Ok::<(),
            DijkstraAlgorithmError>(()),
{
    if !is_node_index_valid(start_node, nodes_count) {
        return Err(DijkstraAlgorithmError::InvalidStartNode { start_node, nodes_count });
    }
    if !is_node_index_valid(end_node, nodes_count) {
        return Err(DijkstraAlgorithmError::InvalidEndNode { end_node, nodes_count });
    }
    Ok(())
}

/// Removes and returns an entry of minimal distance.
fn pop_min(heap: &mut Vec<NodeDistance>) -> (r: Option<NodeDistance>)
    ensures
        old(heap)@.len() == 0 ==> r is None && final(heap)@ == old(heap)@,
        old(heap)@.len() > 0 ==> (r matches Some(m) && (exists|idx: int|
            0 <= idx < old(heap)@.len() && old(heap)@[idx] == m && final(heap)@ == old(
                heap,
            )@.remove(idx)) && (forall|i: int|
            0 <= i < old(heap)@.len() ==> m.distance <= (#[trigger] old(heap)@[i]).distance)),
{
    if heap.len() == 0 {
        return None;
    }
    let mut best: usize = 0;
    let mut i: usize = 1;
    while i < heap.len()
        invariant
            best < i <= heap@.len(),
            forall|k: int| 0 <= k < i ==> heap@[best as int].distance <= (#[trigger] heap@[k]).distance,
        decreases heap@.len() - i,
    {
        if heap[i].distance < heap[best].distance {
            best = i;
        }
        i = i + 1;
    }
    let m = heap[best];
    heap.remove(best);
    Some(m)
}

/// The sum of a sequence of unsigned distances.
pub open spec fn sum_u32(s: Seq<u32>) -> int
    decreases s.len(),
{
    if s.len() == 0 {
        0
    } else {
        sum_u32(s.drop_last()) + s.last()
    }
}

proof fn lemma_sum_u32_nonneg(s: Seq<u32>)
    ensures
        sum_u32(s) >= 0,
    decreases s.len(),
{
    if s.len() > 0 {
        lemma_sum_u32_nonneg(s.drop_last());
    }
}

proof fn lemma_sum_u32_update(s: Seq<u32>, i: int, v: u32)
    requires
        0 <= i < s.len(),
    ensures
        sum_u32(s.update(i, v)) == sum_u32(s) - s[i] + v,
    decreases s.len(),
{
    if i == s.len() - 1 {
        assert(s.update(i, v).drop_last() =~= s.drop_last());
        assert(s.update(i, v).last() == v);
    } else {
        assert(s.update(i, v).drop_last() =~= s.drop_last().update(i, v));
        lemma_sum_u32_update(s.drop_last(), i, v);
        assert(s.update(i, v).last() == s.last());
    }
}

/// An element other than the removed one stays in the sequence.
proof fn lemma_remove_other_stays(s: Seq<NodeDistance>, idx: int, p: int)
    requires
        0 <= idx < s.len(),
        0 <= p < s.len(),
        p != idx,
    ensures
        s.remove(idx).contains(s[p]),
{
    if p < idx {
        assert(s.remove(idx)[p] == s[p]);
    } else {
        assert(s.remove(idx)[p - 1] == s[p]);
    }
}

/// The cut argument behind Dijkstra's rule.  Take any non-negative
/// weighted walk from the start node.  As long as every settled node is
/// relaxed toward all its neighbors and optimal for every walk reaching
/// it, and every reached unsettled node still has its exact recorded
/// distance on the queue, then at each position of the walk either
/// `bound` (a lower bound of the queue) undercuts the walk's prefix
/// cost, or the position is settled below its prefix cost.
proof fn lemma_cut_bound(
    edges: Seq<Edge>,
    a: Seq<Seq<(usize, usize)>>,
    n: u32,
    dist: Seq<u32>,
    heap: Seq<NodeDistance>,
    settled: Set<int>,
    start: u32,
    bound: int,
    p: Seq<int>,
    ws: Seq<int>,
    i: int,
)
    requires
        adj_matches_edges(a, edges, n),
        crate::structures::edges_valid(edges, n),
        dist.len() == n + 1,
        start <= n,
        dist[start as int] == 0,
        0 <= bound <= u32::MAX,
        forall|v: int| #[trigger] settled.contains(v) ==> 0 <= v <= n,
        forall|v: int, jj: int|
            settled.contains(v) && 0 <= jj < a[v].len() ==> dist[(#[trigger] a[v][jj]).0
                as int] as int <= dist[v] + a[v][jj].1,
        forall|v: int|
            0 <= v <= n && dist[v] < u32::MAX && !settled.contains(v) ==> exists|e: int|
                0 <= e < heap.len() && (#[trigger] heap[e]) == (NodeDistance {
                    index: v as u32,
                    distance: dist[v],
                }),
        forall|e: int| 0 <= e < heap.len() ==> bound <= (#[trigger] heap[e]).distance,
        p.len() == ws.len() + 1,
        p[0] == start as int,
        forall|j: int|
            0 <= j < ws.len() ==> connects_weighted(edges, #[trigger] p[j], p[j + 1], ws[j]),
        forall|j: int| 0 <= j < ws.len() ==> #[trigger] ws[j] >= 0,
        0 <= i <= ws.len(),
    ensures
        bound <= path_cost(ws.take(i)) || (settled.contains(p[i]) && dist[p[i]] as int
            <= path_cost(ws.take(i)) && path_cost(ws.take(i)) < u32::MAX),
    decreases i,
{
    if i == 0 {
        assert(ws.take(0) =~= Seq::<int>::empty());
        if !settled.contains(start as int) {
            let e = choose|e: int|
                0 <= e < heap.len() && (#[trigger] heap[e]) == (NodeDistance {
                    index: start,
                    distance: dist[start as int],
                });
            assert(bound <= heap[e].distance);
        }
    } else {
        lemma_cut_bound(edges, a, n, dist, heap, settled, start, bound, p, ws, i - 1);
        assert(ws.take(i).drop_last() =~= ws.take(i - 1));
        assert(ws.take(i).last() == ws[i - 1]);
        let ci = path_cost(ws.take(i));
        let cprev = path_cost(ws.take(i - 1));
        assert(ci == cprev + ws[i - 1]);
        assert(ws[i - 1] >= 0);
        if bound <= cprev {
            // the bound already undercuts the shorter prefix
        } else {
            // the previous position is settled below its prefix cost
            assert(connects_weighted(edges, p[i - 1], p[i], ws[i - 1]));
            let k = choose|k: int|
                0 <= k < edges.len() && ((#[trigger] edges[k]).from_index == p[i - 1]
                    && edges[k].to_index == p[i] || edges[k].from_index == p[i]
                    && edges[k].to_index == p[i - 1]) && edges[k].weight == ws[i - 1];
            assert(edge_valid(edges[k], n));
            assert(edge_in_adj(a, edges[k]));
            if edges[k].from_index == p[i - 1] && edges[k].to_index == p[i] {
                let pr = (edges[k].to_index as usize, edges[k].weight as usize);
                let jj = choose|jj: int|
                    0 <= jj < a[p[i - 1]].len() && (#[trigger] a[p[i - 1]][jj]) == pr;
                assert(dist[p[i]] as int <= dist[p[i - 1]] + ws[i - 1]);
            } else {
                let pr = (edges[k].from_index as usize, edges[k].weight as usize);
                let jj = choose|jj: int|
                    0 <= jj < a[p[i - 1]].len() && (#[trigger] a[p[i - 1]][jj]) == pr;
                assert(dist[p[i]] as int <= dist[p[i - 1]] + ws[i - 1]);
            }
            assert(dist[p[i]] as int <= ci);
            if ci >= u32::MAX {
                // any queue value fits under a saturated prefix cost
                assert(bound <= u32::MAX <= ci);
            } else {
                assert(0 <= p[i] <= n);
                if !settled.contains(p[i]) {
                    let e = choose|e: int|
                        0 <= e < heap.len() && (#[trigger] heap[e]) == (NodeDistance {
                            index: p[i] as u32,
                            distance: dist[p[i]],
                        });
                    assert(bound <= heap[e].distance);
                }
            }
        }
    }
}

/// Every step weight of a weighted walk over non-negative edges is
/// non-negative, and the walk also witnesses plain reachability.
proof fn lemma_walk_weights_nonneg(edges: Seq<Edge>, p: Seq<int>, ws: Seq<int>, s: int, t: int)
    requires
        is_weighted_path(edges, p, ws, s, t),
        forall|i: int| 0 <= i < edges.len() ==> (#[trigger] edges[i]).weight >= 0,
    ensures
        forall|j: int| 0 <= j < ws.len() ==> #[trigger] ws[j] >= 0,
        crate::dfs::reaches(edges, s, t),
{
    assert forall|j: int| 0 <= j < ws.len() implies #[trigger] ws[j] >= 0 by {
        assert(connects_weighted(edges, p[j], p[j + 1], ws[j]));
        let k = choose|k: int|
            0 <= k < edges.len() && ((#[trigger] edges[k]).from_index == p[j]
                && edges[k].to_index == p[j + 1] || edges[k].from_index == p[j + 1]
                && edges[k].to_index == p[j]) && edges[k].weight == ws[j];
    }
    assert forall|j: int|
        0 <= j < p.len() - 1 implies crate::dfs::connects(edges, #[trigger] p[j], p[j + 1]) by {
        assert(connects_weighted(edges, p[j], p[j + 1], ws[j]));
        let k = choose|k: int|
            0 <= k < edges.len() && ((#[trigger] edges[k]).from_index == p[j]
                && edges[k].to_index == p[j + 1] || edges[k].from_index == p[j + 1]
                && edges[k].to_index == p[j]) && edges[k].weight == ws[j];
    }
    assert(crate::dfs::is_path(edges, p, s, t));
}

/// Calculates the length of the shortest path between two given nodes.
///
/// Requires a well-formed graph with non-negative weights, as Dijkstra's
/// rule is meaningless otherwise.  Node indices beyond the node count
/// are rejected eagerly.  For valid indices: a returned distance is the
/// cost of some walk between the two nodes and undercuts the cost of
/// every such walk; whenever any walk of cost below `u32::MAX` joins the
/// two nodes a distance is returned; and the only error then possible is
/// [`DijkstraAlgorithmError::EndNodeUnreachable`].
#[verifier::rlimit(100)]
pub fn find_shortest_path_length(
    graph: &Graph,
    start_node: PositiveInteger,
    end_node: PositiveInteger,
) -> (r: Result<u32, DijkstraAlgorithmError>)
    requires
        graph.wf(),
        graph.nodes_count < u32::MAX,
        forall|i: int| 0 <= i < graph.edges@.len() ==> (#[trigger] graph.edges@[i]).weight >= 0,
    ensures
        start_node@ > graph.nodes_count ==> r == Err::<u32, DijkstraAlgorithmError>(
            DijkstraAlgorithmError::InvalidStartNode {
                start_node: start_node@,
                nodes_count: graph.nodes_count,
            },
        ),
        start_node@ <= graph.nodes_count && end_node@ > graph.nodes_count ==> r == Err::<u32,
            DijkstraAlgorithmError>(DijkstraAlgorithmError::InvalidEndNode {
            end_node: end_node@,
            nodes_count: graph.nodes_count,
        }),
        start_node@ <= graph.nodes_count && end_node@ <= graph.nodes_count && start_node@
            == end_node@ ==> r == Ok::<u32, DijkstraAlgorithmError>(0),
        r matches Ok(_) ==> start_node@ <= graph.nodes_count && end_node@ <= graph.nodes_count
            && crate::dfs::reaches(graph.edges@, start_node@ as int, end_node@ as int),
        r matches Ok(d) ==> d < u32::MAX && reaches_with_cost(
            graph.edges@,
            start_node@ as int,
            end_node@ as int,
            d as int,
        ),
        r matches Ok(d) ==> forall|c: int|
            reaches_with_cost(graph.edges@, start_node@ as int, end_node@ as int, c)
                ==> d as int <= c,
        start_node@ <= graph.nodes_count && end_node@ <= graph.nodes_count && (exists|c: int|
            reaches_with_cost(graph.edges@, start_node@ as int, end_node@ as int, c) && c
                < u32::MAX) ==> (r matches Ok(_)),
        start_node@ <= graph.nodes_count && end_node@ <= graph.nodes_count && !(r matches Ok(_))
            ==> r == Err::<u32, DijkstraAlgorithmError>(
            DijkstraAlgorithmError::EndNodeUnreachable { end_node: end_node@ },
        ),
{
    let n = graph.nodes_count;
    let start = start_node.value();
    let end = end_node.value();
    match validate_nodes(start, end, n) {
        Err(e) => {
            return Err(e);
        },
        Ok(()) => {},
    }
    // create adjacency list describing the given graph
    let adjacency = adjacency_list(&graph.edges, n);
    let ghost a = adj_view(adjacency);
    let rows = adjacency.len();
    proof {
        assert forall|u: int, j: int|
            0 <= u < a.len() && 0 <= j < a[u].len() implies ((#[trigger] a[u][j]).0 as int) <= n
            && a[u][j].1 <= i32::MAX by {
            assert(pair_from_edges(graph.edges@, u, a[u][j]));
            let k = choose|k: int|
                0 <= k < graph.edges@.len() && (((#[trigger] graph.edges@[k]).from_index == u
                    && graph.edges@[k].to_index == a[u][j].0 && graph.edges@[k].weight
                    == a[u][j].1) || (graph.edges@[k].to_index == u && graph.edges@[k].from_index
                    == a[u][j].0 && graph.edges@[k].weight == a[u][j].1));
            assert(edge_valid(graph.edges@[k], n));
        }
    }
    // distances known so far, u32::MAX standing for not yet reached
    let mut calculated_distances: Vec<u32> = Vec::new();
    while calculated_distances.len() < rows
        invariant
            calculated_distances@.len() <= rows,
            forall|v: int|
                0 <= v < calculated_distances@.len() ==> (#[trigger] calculated_distances@[v])
                    == u32::MAX,
        decreases rows - calculated_distances.len(),
    {
        calculated_distances.push(u32::MAX);
    }
    calculated_distances[start as usize] = 0;
    let mut heap: Vec<NodeDistance> = Vec::new();
    heap.push(NodeDistance::new(start, 0));
    let ghost mut settled: Set<int> = Set::empty();
    proof {
        assert(heap@[0] == (NodeDistance { index: start, distance: 0u32 }));
        lemma_sum_u32_nonneg(calculated_distances@);
        crate::dfs::lemma_reaches_with_cost_refl(graph.edges@, start as int);
    }
    while heap.len() > 0
        invariant
            calculated_distances@.len() == rows,
            rows == n + 1,
            a.len() == rows,
            a == adj_view(adjacency),
            n < u32::MAX,
            n == graph.nodes_count,
            start == start_node@,
            end == end_node@,
            start <= n,
            end <= n,
            graph.wf(),
            adj_matches_edges(a, graph.edges@, n),
            forall|i: int|
                0 <= i < graph.edges@.len() ==> (#[trigger] graph.edges@[i]).weight >= 0,
            forall|u: int, j: int|
                0 <= u < a.len() && 0 <= j < a[u].len() ==> ((#[trigger] a[u][j]).0 as int) <= n
                    && a[u][j].1 <= i32::MAX,
            calculated_distances@[start as int] == 0,
            forall|i: int| 0 <= i < heap@.len() ==> ((#[trigger] heap@[i]).index as int) <= n,
            forall|i: int| 0 <= i < heap@.len() ==> (#[trigger] heap@[i]).distance < u32::MAX,
            forall|i: int|
                0 <= i < heap@.len() ==> (#[trigger] heap@[i]).distance
                    >= calculated_distances@[heap@[i].index as int],
            forall|i: int|
                0 <= i < heap@.len() ==> reaches_with_cost(
                    graph.edges@,
                    start as int,
                    (#[trigger] heap@[i]).index as int,
                    heap@[i].distance as int,
                ),
            !settled.contains(end as int),
            forall|v: int|
                #[trigger] settled.contains(v) ==> 0 <= v <= n && calculated_distances@[v]
                    < u32::MAX,
            forall|v: int, jj: int|
                settled.contains(v) && 0 <= jj < a[v].len()
                    ==> calculated_distances@[(#[trigger] a[v][jj]).0 as int] as int
                    <= calculated_distances@[v] + a[v][jj].1,
            forall|v: int, pth: Seq<int>, wts: Seq<int>|
                settled.contains(v) && is_weighted_path(
                    graph.edges@,
                    pth,
                    wts,
                    start as int,
                    v,
                ) ==> calculated_distances@[v] as int <= path_cost(wts),
            forall|v: int|
                0 <= v <= n && (#[trigger] calculated_distances@[v]) < u32::MAX
                    && !settled.contains(v) ==> exists|e: int|
                    0 <= e < heap@.len() && (#[trigger] heap@[e]) == (NodeDistance {
                        index: v as u32,
                        distance: calculated_distances@[v],
                    }),
        decreases sum_u32(calculated_distances@), heap@.len(),
    {
        let ghost sum0 = sum_u32(calculated_distances@);
        let ghost heap0 = heap@;
        let popped_node = match pop_min(&mut heap) {
            Some(m) => m,
            None => {
                // unreachable: the loop condition guarantees an entry
                proof {
                    assert(false);
                }
                return Err(DijkstraAlgorithmError::EndNodeUnreachable { end_node: end });
            },
        };
        let ghost popidx = choose|idx: int|
            0 <= idx < heap0.len() && heap0[idx] == popped_node && heap@ == heap0.remove(idx);
        proof {
            assert forall|i: int| 0 <= i < heap@.len() implies heap0.contains(
                #[trigger] heap@[i],
            ) by {
                if i < popidx {
                    assert(heap@[i] == heap0[i]);
                } else {
                    assert(heap@[i] == heap0[i + 1]);
                }
            }
        }
        // if the popped node is the one we are looking for
        if popped_node.index == end {
            proof {
                // the end node is never settled, so by the cut argument
                // over the queue this entry came from, its distance
                // undercuts every walk to the end node
                assert forall|pth: Seq<int>, wts: Seq<int>|
                    is_weighted_path(
                        graph.edges@,
                        pth,
                        wts,
                        start as int,
                        popped_node.index as int,
                    ) implies popped_node.distance as int <= path_cost(wts) by {
                    lemma_walk_weights_nonneg(
                        graph.edges@,
                        pth,
                        wts,
                        start as int,
                        popped_node.index as int,
                    );
                    lemma_cut_bound(
                        graph.edges@,
                        a,
                        n,
                        calculated_distances@,
                        heap0,
                        settled,
                        start,
                        popped_node.distance as int,
                        pth,
                        wts,
                        wts.len() as int,
                    );
                    assert(wts.take(wts.len() as int) =~= wts);
                }
                assert(reaches_with_cost(
                    graph.edges@,
                    start as int,
                    end as int,
                    popped_node.distance as int,
                ));
                let (wp, wws) = choose|wp: Seq<int>, wws: Seq<int>|
                    is_weighted_path(graph.edges@, wp, wws, start as int, end as int)
                        && path_cost(wws) == popped_node.distance as int;
                lemma_walk_weights_nonneg(graph.edges@, wp, wws, start as int, end as int);
                if start == end {
                    crate::dfs::lemma_reaches_with_cost_refl(graph.edges@, start as int);
                    let (zp, zws) = choose|zp: Seq<int>, zws: Seq<int>|
                        is_weighted_path(graph.edges@, zp, zws, start as int, end as int)
                            && path_cost(zws) == 0;
                    assert(popped_node.distance as int <= 0);
                }
            }
            return Ok(popped_node.distance);
        }
        proof {
            lemma_sum_u32_nonneg(calculated_distances@);
        }
        // if we already found a better way to the popped node
        if popped_node.distance > calculated_distances[popped_node.index as usize] {
            proof {
                // the witness entry of any recorded distance is not the
                // stale popped entry, so it survives the removal
                assert forall|v: int|
                    0 <= v <= n && (#[trigger] calculated_distances@[v]) < u32::MAX
                        && !settled.contains(v) implies exists|e: int|
                    0 <= e < heap@.len() && (#[trigger] heap@[e]) == (NodeDistance {
                        index: v as u32,
                        distance: calculated_distances@[v],
                    }) by {
                    let w = NodeDistance { index: v as u32, distance: calculated_distances@[v] };
                    let we = choose|e: int| 0 <= e < heap0.len() && (#[trigger] heap0[e]) == w;
                    assert(w != popped_node);
                    lemma_remove_other_stays(heap0, popidx, we);
                    let e2 = choose|e: int| 0 <= e < heap@.len() && heap@[e] == w;
                    assert(heap@[e2] == w);
                }
            }
            continue;
        }
        // settle the popped node: this entry is fresh, so by the cut
        // argument its distance — the recorded one — is now known optimal
        proof {
            assert(popped_node.distance == calculated_distances@[popped_node.index as int]);
            assert forall|pth: Seq<int>, wts: Seq<int>|
                is_weighted_path(
                    graph.edges@,
                    pth,
                    wts,
                    start as int,
                    popped_node.index as int,
                ) implies calculated_distances@[popped_node.index as int] as int <= path_cost(
                wts,
            ) by {
                lemma_walk_weights_nonneg(
                    graph.edges@,
                    pth,
                    wts,
                    start as int,
                    popped_node.index as int,
                );
                lemma_cut_bound(
                    graph.edges@,
                    a,
                    n,
                    calculated_distances@,
                    heap0,
                    settled,
                    start,
                    popped_node.distance as int,
                    pth,
                    wts,
                    wts.len() as int,
                );
                assert(wts.take(wts.len() as int) =~= wts);
            }
            settled = settled.insert(popped_node.index as int);
            assert forall|v: int|
                0 <= v <= n && (#[trigger] calculated_distances@[v]) < u32::MAX
                    && !settled.contains(v) implies exists|e: int|
                0 <= e < heap@.len() && (#[trigger] heap@[e]) == (NodeDistance {
                    index: v as u32,
                    distance: calculated_distances@[v],
                }) by {
                let w = NodeDistance { index: v as u32, distance: calculated_distances@[v] };
                let we = choose|e: int| 0 <= e < heap0.len() && (#[trigger] heap0[e]) == w;
                assert(v != popped_node.index as int);
                assert(w.index != popped_node.index);
                lemma_remove_other_stays(heap0, popidx, we);
                let e2 = choose|e: int| 0 <= e < heap@.len() && heap@[e] == w;
                assert(heap@[e2] == w);
            }
        }
        let ghost heap1 = heap@;
        let ghost dist1 = calculated_distances@;
        let ghost settled1 = settled;
        // for every neighbour of the popped node, see if the way through
        // it is shorter
        let row_len = adjacency[popped_node.index as usize].len();
        let mut j: usize = 0;
        while j < row_len
            invariant
                calculated_distances@.len() == rows,
                rows == n + 1,
                a.len() == rows,
                a == adj_view(adjacency),
                n < u32::MAX,
                start <= n,
                end <= n,
                (popped_node.index as int) <= n,
                popped_node.index != end,
                row_len == a[popped_node.index as int].len(),
                j <= row_len,
                graph.wf(),
                adj_matches_edges(a, graph.edges@, n),
                forall|i: int|
                    0 <= i < graph.edges@.len() ==> (#[trigger] graph.edges@[i]).weight >= 0,
                forall|u: int, jj: int|
                    0 <= u < a.len() && 0 <= jj < a[u].len() ==> ((#[trigger] a[u][jj]).0 as int)
                        <= n && a[u][jj].1 <= i32::MAX,
                calculated_distances@[start as int] == 0,
                settled == settled1,
                settled.contains(popped_node.index as int),
                !settled.contains(end as int),
                calculated_distances@[popped_node.index as int] == popped_node.distance,
                popped_node.distance < u32::MAX,
                reaches_with_cost(
                    graph.edges@,
                    start as int,
                    popped_node.index as int,
                    popped_node.distance as int,
                ),
                forall|i: int| 0 <= i < heap@.len() ==> ((#[trigger] heap@[i]).index as int) <= n,
                forall|i: int| 0 <= i < heap@.len() ==> (#[trigger] heap@[i]).distance < u32::MAX,
                forall|i: int|
                    0 <= i < heap@.len() ==> (#[trigger] heap@[i]).distance
                        >= calculated_distances@[heap@[i].index as int],
                forall|i: int|
                    0 <= i < heap@.len() ==> reaches_with_cost(
                        graph.edges@,
                        start as int,
                        (#[trigger] heap@[i]).index as int,
                        heap@[i].distance as int,
                    ),
                forall|v: int|
                    #[trigger] settled.contains(v) ==> 0 <= v <= n && calculated_distances@[v]
                        < u32::MAX,
                forall|v: int, jj: int|
                    settled.contains(v) && v != popped_node.index as int && 0 <= jj
                        < a[v].len() ==> calculated_distances@[(#[trigger] a[v][jj]).0
                        as int] as int <= calculated_distances@[v] + a[v][jj].1,
                forall|jj: int|
                    0 <= jj < j ==> calculated_distances@[(#[trigger] a[popped_node.index
                        as int][jj]).0 as int] as int <= popped_node.distance as int
                        + a[popped_node.index as int][jj].1,
                forall|v: int, pth: Seq<int>, wts: Seq<int>|
                    settled.contains(v) && is_weighted_path(
                        graph.edges@,
                        pth,
                        wts,
                        start as int,
                        v,
                    ) ==> calculated_distances@[v] as int <= path_cost(wts),
                forall|v: int|
                    0 <= v <= n && (#[trigger] calculated_distances@[v]) < u32::MAX
                        && !settled.contains(v) ==> exists|e: int|
                        0 <= e < heap@.len() && (#[trigger] heap@[e]) == (NodeDistance {
                            index: v as u32,
                            distance: calculated_distances@[v],
                        }),
                sum_u32(calculated_distances@) < sum0 || (calculated_distances@ == dist1 && heap@
                    == heap1),
                sum_u32(dist1) == sum0,
                sum_u32(calculated_distances@) <= sum0,
            decreases row_len - j,
        {
            let p = adjacency[popped_node.index as usize][j];
            let target_node = p.0;
            let weight = p.1;
            assert(a[popped_node.index as int][j as int] == p);
            let new_distance_wide: u64 = popped_node.distance as u64 + weight as u64;
            // if the way through the popped node is shorter
            if new_distance_wide < calculated_distances[target_node] as u64 {
                let new_distance = new_distance_wide as u32;
                let ghost hb = heap@;
                let ghost db = calculated_distances@;
                proof {
                    // a settled node is already optimal for the walk
                    // through the popped node, so the target is unsettled
                    assert(pair_from_edges(graph.edges@, popped_node.index as int, p));
                    assert(connects_weighted(
                        graph.edges@,
                        popped_node.index as int,
                        target_node as int,
                        weight as int,
                    ));
                    crate::dfs::lemma_reaches_with_cost_step(
                        graph.edges@,
                        start as int,
                        popped_node.index as int,
                        target_node as int,
                        popped_node.distance as int,
                        weight as int,
                    );
                    if settled.contains(target_node as int) {
                        let (wp, wws) = choose|wp: Seq<int>, wws: Seq<int>|
                            is_weighted_path(
                                graph.edges@,
                                wp,
                                wws,
                                start as int,
                                target_node as int,
                            ) && path_cost(wws) == popped_node.distance as int + weight as int;
                        assert(false);
                    }
                    lemma_sum_u32_update(
                        calculated_distances@,
                        target_node as int,
                        new_distance,
                    );
                }
                heap.push(NodeDistance::new(target_node as u32, new_distance));
                calculated_distances[target_node] = new_distance;
                proof {
                    assert(heap@[heap@.len() - 1] == (NodeDistance {
                        index: target_node as u32,
                        distance: new_distance,
                    }));
                    assert forall|v: int|
                        0 <= v <= n && (#[trigger] calculated_distances@[v]) < u32::MAX
                            && !settled.contains(v) implies exists|e: int|
                        0 <= e < heap@.len() && (#[trigger] heap@[e]) == (NodeDistance {
                            index: v as u32,
                            distance: calculated_distances@[v],
                        }) by {
                        let w = NodeDistance {
                            index: v as u32,
                            distance: calculated_distances@[v],
                        };
                        if v == target_node as int {
                            assert(heap@[heap@.len() - 1] == w);
                        } else {
                            assert(calculated_distances@[v] == db[v]);
                            let we = choose|e: int|
                                0 <= e < hb.len() && (#[trigger] hb[e]) == w;
                            assert(heap@[we] == w);
                        }
                    }
                }
            }
            j = j + 1;
        }
        proof {
            lemma_sum_u32_nonneg(calculated_distances@);
            if calculated_distances@ == dist1 && heap@ == heap1 {
                assert(heap@.len() < heap0.len());
            }
        }
    }
    proof {
        // with the queue empty, every reached node is settled; were any
        // walk of cost below u32::MAX to join the two nodes, the cut
        // argument would settle the end node, which never happens
        if exists|c: int|
            reaches_with_cost(graph.edges@, start as int, end as int, c) && c < u32::MAX {
            let c = choose|c: int|
                reaches_with_cost(graph.edges@, start as int, end as int, c) && c < u32::MAX;
            let (wp, wws) = choose|wp: Seq<int>, wws: Seq<int>|
                is_weighted_path(graph.edges@, wp, wws, start as int, end as int) && path_cost(
                    wws,
                ) == c;
            lemma_walk_weights_nonneg(graph.edges@, wp, wws, start as int, end as int);
            lemma_cut_bound(
                graph.edges@,
                a,
                n,
                calculated_distances@,
                heap@,
                settled,
                start,
                u32::MAX as int,
                wp,
                wws,
                wws.len() as int,
            );
            assert(wws.take(wws.len() as int) =~= wws);
        }
        if start == end {
            crate::dfs::lemma_reaches_with_cost_refl(graph.edges@, start as int);
        }
    }
    Err(DijkstraAlgorithmError::EndNodeUnreachable { end_node: end })
}

} // verus!
