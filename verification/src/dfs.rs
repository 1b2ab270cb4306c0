//! Adjacency lists, depth-first search and the connectivity check,
//! together with the reachability theory their contracts are stated in.
//!
//! Reachability is defined over the edge list itself: `reaches` holds when
//! some sequence of nodes forms an undirected path.  The iterative DFS is
//! proved to compute exactly the set of reachable nodes, and
//! [`is_connected`] to decide [`spec_connected`].

use crate::structures::{edge_valid, edges_valid, Edge};
use vstd::prelude::*;

verus! {

/// Some edge of `edges` joins `u` and `v`, in either direction.
pub open spec fn connects(edges: Seq<Edge>, u: int, v: int) -> bool {
    exists|k: int|
        0 <= k < edges.len() && ((#[trigger] edges[k]).from_index == u && edges[k].to_index == v
            || edges[k].from_index == v && edges[k].to_index == u)
}

/// `p` is a walk from `s` to `t` along edges of `edges`.
pub open spec fn is_path(edges: Seq<Edge>, p: Seq<int>, s: int, t: int) -> bool {
    &&& p.len() >= 1
    &&& p[0] == s
    &&& p[p.len() - 1] == t
    &&& forall|i: int| 0 <= i < p.len() - 1 ==> connects(edges, #[trigger] p[i], p[i + 1])
}

/// `t` can be reached from `s` along edges of `edges`.
pub open spec fn reaches(edges: Seq<Edge>, s: int, t: int) -> bool {
    exists|p: Seq<int>| is_path(edges, p, s, t)
}

/// Every node of `1..=nodes_count` can be reached from node 1.
pub open spec fn spec_connected(nodes_count: u32, edges: Seq<Edge>) -> bool {
    forall|v: int| 1 <= v <= nodes_count ==> reaches(edges, 1, v)
}

pub proof fn lemma_reaches_refl(edges: Seq<Edge>, s: int)
    ensures
        reaches(edges, s, s),
{
    let p = seq![s];
    assert(is_path(edges, p, s, s));
}

pub proof fn lemma_reaches_step(edges: Seq<Edge>, s: int, u: int, v: int)
    requires
        reaches(edges, s, u),
        connects(edges, u, v),
    ensures
        reaches(edges, s, v),
{
    let p = choose|p: Seq<int>| is_path(edges, p, s, u);
    let q = p.push(v);
    assert forall|i: int| 0 <= i < q.len() - 1 implies connects(edges, #[trigger] q[i], q[i + 1])
    by {
        if i < p.len() - 1 {
            assert(connects(edges, p[i], p[i + 1]));
        } else {
            assert(q[i] == u && q[i + 1] == v);
        }
    }
    assert(is_path(edges, q, s, v));
}

/// Any set that holds `s` and is closed under single edge steps holds
/// every node reachable from `s`.
pub proof fn lemma_reaches_in_closed_set(edges: Seq<Edge>, s: int, t: int, inv: Set<int>)
    requires
        reaches(edges, s, t),
        inv.contains(s),
        forall|u: int, v: int|
            inv.contains(u) && connects(edges, u, v) ==> inv.contains(v),
    ensures
        inv.contains(t),
{
    let p = choose|p: Seq<int>| is_path(edges, p, s, t);
    lemma_path_in_closed_set(edges, p, s, inv, p.len() - 1);
}

proof fn lemma_path_in_closed_set(edges: Seq<Edge>, p: Seq<int>, s: int, inv: Set<int>, i: int)
    requires
        p.len() >= 1,
        p[0] == s,
        forall|j: int| 0 <= j < p.len() - 1 ==> connects(edges, #[trigger] p[j], p[j + 1]),
        inv.contains(s),
        forall|u: int, v: int|
            inv.contains(u) && connects(edges, u, v) ==> inv.contains(v),
        0 <= i < p.len(),
    ensures
        inv.contains(p[i]),
    decreases i,
{
    if i > 0 {
        lemma_path_in_closed_set(edges, p, s, inv, i - 1);
        assert(connects(edges, p[i - 1], p[i]));
    }
}

/// The adjacency list of an undirected weighted graph:
/// row `u` holds one `(neighbor, weight)` pair per incident edge.
pub type AdjacencyList = Vec<Vec<(usize, usize)>>;

/// Row `u` of `a` holds a pair leading to `v`.
pub open spec fn adj_connects(a: Seq<Seq<(usize, usize)>>, u: int, v: int) -> bool {
    &&& 0 <= u < a.len()
    &&& exists|j: int| 0 <= j < a[u].len() && (#[trigger] a[u][j]).0 == v
}

/// `p` is a walk from `s` to `t` along rows of the adjacency list `a`.
pub open spec fn is_adj_path(a: Seq<Seq<(usize, usize)>>, p: Seq<int>, s: int, t: int) -> bool {
    &&& p.len() >= 1
    &&& p[0] == s
    &&& p[p.len() - 1] == t
    &&& forall|i: int| 0 <= i < p.len() - 1 ==> adj_connects(a, #[trigger] p[i], p[i + 1])
}

/// `t` can be reached from `s` along the adjacency list `a`.
pub open spec fn adj_reaches(a: Seq<Seq<(usize, usize)>>, s: int, t: int) -> bool {
    exists|p: Seq<int>| is_adj_path(a, p, s, t)
}

pub(crate) proof fn lemma_adj_reaches_refl(a: Seq<Seq<(usize, usize)>>, s: int)
    ensures
        adj_reaches(a, s, s),
{
    let p = seq![s];
    assert(is_adj_path(a, p, s, s));
}

pub(crate) proof fn lemma_adj_reaches_step(a: Seq<Seq<(usize, usize)>>, s: int, u: int, v: int)
    requires
        adj_reaches(a, s, u),
        adj_connects(a, u, v),
    ensures
        adj_reaches(a, s, v),
{
    let p = choose|p: Seq<int>| is_adj_path(a, p, s, u);
    let q = p.push(v);
    assert forall|i: int| 0 <= i < q.len() - 1 implies adj_connects(a, #[trigger] q[i], q[i + 1])
    by {
        if i < p.len() - 1 {
            assert(adj_connects(a, p[i], p[i + 1]));
        } else {
            assert(q[i] == u && q[i + 1] == v);
        }
    }
    assert(is_adj_path(a, q, s, v));
}

pub(crate) proof fn lemma_adj_reaches_in_closed_set(
    a: Seq<Seq<(usize, usize)>>,
    s: int,
    t: int,
    inv: Set<int>,
)
    requires
        adj_reaches(a, s, t),
        inv.contains(s),
        forall|u: int, v: int|
            inv.contains(u) && adj_connects(a, u, v) ==> inv.contains(v),
    ensures
        inv.contains(t),
{
    let p = choose|p: Seq<int>| is_adj_path(a, p, s, t);
    lemma_adj_path_in_closed_set(a, p, s, inv, p.len() - 1);
}

proof fn lemma_adj_path_in_closed_set(
    a: Seq<Seq<(usize, usize)>>,
    p: Seq<int>,
    s: int,
    inv: Set<int>,
    i: int,
)
    requires
        p.len() >= 1,
        p[0] == s,
        forall|j: int| 0 <= j < p.len() - 1 ==> adj_connects(a, #[trigger] p[j], p[j + 1]),
        inv.contains(s),
        forall|u: int, v: int|
            inv.contains(u) && adj_connects(a, u, v) ==> inv.contains(v),
        0 <= i < p.len(),
    ensures
        inv.contains(p[i]),
    decreases i,
{
    if i > 0 {
        lemma_adj_path_in_closed_set(a, p, s, inv, i - 1);
        assert(adj_connects(a, p[i - 1], p[i]));
    }
}

/// Some edge of `edges` leaving `u` carries exactly the pair `p`:
/// its other endpoint and its weight.
pub open spec fn pair_from_edges(edges: Seq<Edge>, u: int, p: (usize, usize)) -> bool {
    exists|k: int|
        0 <= k < edges.len() && (((#[trigger] edges[k]).from_index == u && edges[k].to_index
            == p.0 && edges[k].weight == p.1) || (edges[k].to_index == u && edges[k].from_index
            == p.0 && edges[k].weight == p.1))
}

/// Row `u` of `a` holds exactly the pair `p`.
pub open spec fn adj_has_pair(a: Seq<Seq<(usize, usize)>>, u: int, p: (usize, usize)) -> bool {
    0 <= u < a.len() && exists|j: int| 0 <= j < a[u].len() && (#[trigger] a[u][j]) == p
}

/// Both directions of edge `e` appear in the adjacency list `a`.
pub open spec fn edge_in_adj(a: Seq<Seq<(usize, usize)>>, e: Edge) -> bool {
    &&& adj_has_pair(a, e.from_index as int, (e.to_index as usize, e.weight as usize))
    &&& adj_has_pair(a, e.to_index as int, (e.from_index as usize, e.weight as usize))
}

/// The adjacency list `a` describes exactly the undirected edges of
/// `edges`: every pair of row `u` comes from an edge at `u`, and both
/// directions of every edge are present.
pub open spec fn adj_matches_edges(
    a: Seq<Seq<(usize, usize)>>,
    edges: Seq<Edge>,
    nodes_count: u32,
) -> bool {
    &&& a.len() == nodes_count + 1
    &&& forall|u: int, j: int|
        0 <= u < a.len() && 0 <= j < a[u].len() ==> pair_from_edges(
            edges,
            u,
            (#[trigger] a[u][j]),
        )
    &&& forall|k: int| 0 <= k < edges.len() ==> edge_in_adj(a, #[trigger] edges[k])
}

/// `b` extends `a` row by row: no pair is lost.
pub open spec fn adj_extends(a: Seq<Seq<(usize, usize)>>, b: Seq<Seq<(usize, usize)>>) -> bool {
    &&& a.len() == b.len()
    &&& forall|u: int|
        0 <= u < a.len() ==> (#[trigger] b[u]).len() >= a[u].len() && forall|j: int|
            0 <= j < a[u].len() ==> (#[trigger] a[u][j]) == b[u][j]
}

proof fn lemma_adj_extends_has_pair(
    a: Seq<Seq<(usize, usize)>>,
    b: Seq<Seq<(usize, usize)>>,
    u: int,
    p: (usize, usize),
)
    requires
        adj_extends(a, b),
        adj_has_pair(a, u, p),
    ensures
        adj_has_pair(b, u, p),
{
    let j = choose|j: int| 0 <= j < a[u].len() && (#[trigger] a[u][j]) == p;
    assert(b[u][j] == p);
}

/// A pair drawn from the first `k` edges is also drawn from the first
/// `k + 1` edges.
proof fn lemma_pair_from_prefix(edges: Seq<Edge>, k: int, u: int, p: (usize, usize))
    requires
        0 <= k < edges.len(),
        pair_from_edges(edges.take(k), u, p),
    ensures
        pair_from_edges(edges.take(k + 1), u, p),
{
    let kk = choose|kk: int|
        0 <= kk < edges.take(k).len() && (((#[trigger] edges.take(k)[kk]).from_index == u
            && edges.take(k)[kk].to_index == p.0 && edges.take(k)[kk].weight == p.1)
            || (edges.take(k)[kk].to_index == u && edges.take(k)[kk].from_index == p.0
            && edges.take(k)[kk].weight == p.1));
    assert(edges.take(k + 1)[kk] == edges.take(k)[kk]);
}

/// Appending the two directions of edge `k` to the right rows extends an
/// adjacency correspondence for `k` edges to one for `k + 1` edges.
proof fn lemma_adj_insert(
    before: Seq<Seq<(usize, usize)>>,
    after: Seq<Seq<(usize, usize)>>,
    edges: Seq<Edge>,
    k: int,
    nodes_count: u32,
)
    requires
        0 <= k < edges.len(),
        edges_valid(edges, nodes_count),
        edges[k].weight >= 0,
        adj_matches_edges(before, edges.take(k), nodes_count),
        ({
            let e = edges[k];
            let mid = before.update(
                e.from_index as int,
                before[e.from_index as int].push((e.to_index as usize, e.weight as usize)),
            );
            after == mid.update(
                e.to_index as int,
                mid[e.to_index as int].push((e.from_index as usize, e.weight as usize)),
            )
        }),
    ensures
        adj_matches_edges(after, edges.take(k + 1), nodes_count),
{
    let e = edges[k];
    let f = e.from_index as int;
    let t = e.to_index as int;
    let pf = (e.to_index as usize, e.weight as usize);
    let pt = (e.from_index as usize, e.weight as usize);
    let prefix1 = edges.take(k + 1);
    assert(prefix1[k] == e);
    assert(edge_valid(e, nodes_count));
    let mid = before.update(f, before[f].push(pf));
    assert(adj_extends(before, mid));
    assert(adj_extends(mid, after));
    assert(adj_extends(before, after));
    // every pair of `after` comes from the first k + 1 edges
    assert forall|u: int, j: int|
        0 <= u < after.len() && 0 <= j < after[u].len() implies pair_from_edges(
        prefix1,
        u,
        (#[trigger] after[u][j]),
    ) by {
        if j < before[u].len() {
            assert(after[u][j] == before[u][j]);
            assert(pair_from_edges(edges.take(k), u, before[u][j]));
            lemma_pair_from_prefix(edges, k, u, before[u][j]);
        } else if u == f && j < mid[u].len() {
            assert(after[u][j] == mid[u][j]);
            assert(mid[f] == before[f].push(pf));
            assert(mid[u][j] == pf);
            assert((prefix1[k].from_index == u && prefix1[k].to_index == pf.0
                && prefix1[k].weight == pf.1));
        } else {
            assert(u == t);
            assert(after[t] == mid[t].push(pt));
            assert(after[u][j] == pt);
            assert((prefix1[k].to_index == u && prefix1[k].from_index == pt.0
                && prefix1[k].weight == pt.1));
        }
    }
    // both directions of every one of the first k + 1 edges are present
    assert forall|kk: int| 0 <= kk < prefix1.len() implies edge_in_adj(
        after,
        #[trigger] prefix1[kk],
    ) by {
        if kk < k {
            assert(prefix1[kk] == edges.take(k)[kk]);
            assert(edge_in_adj(before, edges.take(k)[kk]));
            lemma_adj_extends_has_pair(
                before,
                after,
                edges.take(k)[kk].from_index as int,
                (edges.take(k)[kk].to_index as usize, edges.take(k)[kk].weight as usize),
            );
            lemma_adj_extends_has_pair(
                before,
                after,
                edges.take(k)[kk].to_index as int,
                (edges.take(k)[kk].from_index as usize, edges.take(k)[kk].weight as usize),
            );
        } else {
            assert(prefix1[kk] == e);
            assert(mid[f][before[f].len() as int] == pf);
            assert(adj_has_pair(mid, f, pf));
            lemma_adj_extends_has_pair(mid, after, f, pf);
            assert(after[t][mid[t].len() as int] == pt);
            assert(adj_has_pair(after, t, pt));
        }
    }
}

/// `rows` empty adjacency rows.
pub open spec fn empty_rows(rows: int) -> Seq<Seq<(usize, usize)>> {
    Seq::new(rows as nat, |u: int| Seq::<(usize, usize)>::empty())
}

/// Appends the two directions of `e` to the rows of its endpoints.
pub open spec fn adj_add_edge(a: Seq<Seq<(usize, usize)>>, e: Edge) -> Seq<Seq<(usize, usize)>> {
    let mid = a.update(
        e.from_index as int,
        a[e.from_index as int].push((e.to_index as usize, e.weight as usize)),
    );
    mid.update(
        e.to_index as int,
        mid[e.to_index as int].push((e.from_index as usize, e.weight as usize)),
    )
}

/// The adjacency list of `edges` over `nodes_count + 1` rows, built by
/// appending both directions of each edge in turn; this pins the rows
/// exactly, one pair per edge direction.
pub open spec fn spec_adjacency(edges: Seq<Edge>, nodes_count: u32) -> Seq<Seq<(usize, usize)>>
    decreases edges.len(),
{
    if edges.len() == 0 {
        empty_rows(nodes_count as int + 1)
    } else {
        adj_add_edge(spec_adjacency(edges.drop_last(), nodes_count), edges.last())
    }
}

/// Reads one edge of the list.
fn edges_index(edges: &Vec<Edge>, i: usize) -> (e: &Edge)
    requires
        i < edges@.len(),
    ensures
        *e == edges@[i as int],
{
    &edges[i]
}

/// Builds the undirected adjacency list of `edges` over
/// `nodes_count + 1` rows; row 0 stays empty.
///
/// Weights must be non-negative, as they are held as unsigned machine
/// words for the shortest-path search.
pub fn adjacency_list(edges: &Vec<Edge>, nodes_count: u32) -> (a: AdjacencyList)
    requires
        edges_valid(edges@, nodes_count),
        nodes_count < u32::MAX,
        forall|i: int| 0 <= i < edges@.len() ==> (#[trigger] edges@[i]).weight >= 0,
    ensures
        adj_view(a) == spec_adjacency(edges@, nodes_count),
        adj_matches_edges(adj_view(a), edges@, nodes_count),
        adj_view(a).len() == nodes_count + 1,
{
    let rows: usize = (nodes_count + 1) as usize;
    let mut a: AdjacencyList = Vec::new();
    while a.len() < rows
        invariant
            a@.len() <= rows,
            forall|u: int| 0 <= u < a@.len() ==> (#[trigger] a@[u])@.len() == 0,
        decreases rows - a.len(),
    {
        a.push(Vec::new());
    }
    proof {
        assert(edges@.take(0int) =~= Seq::<Edge>::empty());
        assert(adj_matches_edges(adj_view(a), edges@.take(0int), nodes_count));
        assert(adj_view(a) =~~= empty_rows(rows as int));
    }
    let mut k: usize = 0;
    while k < edges.len()
        invariant
            a@.len() == rows,
            rows == nodes_count + 1,
            k <= edges@.len(),
            edges_valid(edges@, nodes_count),
            forall|i: int| 0 <= i < edges@.len() ==> (#[trigger] edges@[i]).weight >= 0,
            adj_matches_edges(adj_view(a), edges@.take(k as int), nodes_count),
            adj_view(a) == spec_adjacency(edges@.take(k as int), nodes_count),
        decreases edges@.len() - k,
    {
        let e = *edges_index(edges, k);
        assert(edge_valid(edges@[k as int], nodes_count));
        let ghost before = adj_view(a);
        let from = e.from_index as usize;
        let to = e.to_index as usize;
        let w = e.weight as usize;
        a[from].push((to, w));
        let ghost mid = adj_view(a);
        proof {
            assert(mid =~~= before.update(from as int, before[from as int].push((to, w))));
        }
        a[to].push((from, w));
        let ghost after = adj_view(a);
        proof {
            assert(after =~~= mid.update(to as int, mid[to as int].push((from, w))));
            lemma_adj_insert(before, after, edges@, k as int, nodes_count);
            assert(edges@.take(k + 1).drop_last() =~= edges@.take(k as int));
            assert(edges@.take(k + 1).last() == edges@[k as int]);
            assert(after =~~= adj_add_edge(before, edges@[k as int]));
            assert(adj_view(a) == spec_adjacency(edges@.take(k + 1), nodes_count));
        }
        k = k + 1;
    }
    proof {
        assert(edges@.take(edges@.len() as int) =~= edges@);
    }
    a
}

/// Pushing onto a sequence adds exactly the pushed element to its members.
proof fn lemma_push_contains<A>(s: Seq<A>, x: A)
    ensures
        forall|y: A| s.push(x).contains(y) <==> s.contains(y) || y == x,
{
    assert forall|y: A| s.push(x).contains(y) implies s.contains(y) || y == x by {
        let i = choose|i: int| 0 <= i < s.push(x).len() && s.push(x)[i] == y;
        if i < s.len() {
            assert(s[i] == y);
        }
    }
    assert forall|y: A| s.contains(y) || y == x implies s.push(x).contains(y) by {
        if s.contains(y) {
            let i = choose|i: int| 0 <= i < s.len() && s[i] == y;
            assert(s.push(x)[i] == y);
        } else {
            assert(s.push(x)[s.len() as int] == y);
        }
    }
}

/// Number of `false` entries in a sequence of flags.
pub open spec fn count_false(s: Seq<bool>) -> int
    decreases s.len(),
{
    if s.len() == 0 {
        0
    } else {
        count_false(s.drop_last()) + if s.last() {
            0int
        } else {
            1int
        }
    }
}

proof fn lemma_count_false_nonneg(s: Seq<bool>)
    ensures
        count_false(s) >= 0,
    decreases s.len(),
{
    if s.len() > 0 {
        lemma_count_false_nonneg(s.drop_last());
    }
}

proof fn lemma_count_false_update(s: Seq<bool>, i: int)
    requires
        0 <= i < s.len(),
        !s[i],
    ensures
        count_false(s.update(i, true)) == count_false(s) - 1,
    decreases s.len(),
{
    if i == s.len() - 1 {
        assert(s.update(i, true).drop_last() =~= s.drop_last());
        assert(s.update(i, true).last());
    } else {
        assert(s.update(i, true).drop_last() =~= s.drop_last().update(i, true));
        lemma_count_false_update(s.drop_last(), i);
        assert(s.update(i, true).last() == s.last());
    }
}

/// The sequence-of-views of a nested vector.
pub open spec fn adj_view(a: AdjacencyList) -> Seq<Seq<(usize, usize)>> {
    a@.map_values(|row: Vec<(usize, usize)>| row@)
}

/// Every neighbor index of `a` is a valid row index.
pub open spec fn adj_in_range(a: Seq<Seq<(usize, usize)>>) -> bool {
    forall|u: int, j: int|
        0 <= u < a.len() && 0 <= j < a[u].len() ==> (#[trigger] a[u][j]).0 < a.len()
}

/// Iterative depth-first search over an adjacency list.
///
/// Returns one flag per row; the flag of `v` is set exactly when `v` can
/// be reached from `start_index`.
pub fn dfs(start_index: usize, adjacency_list: &AdjacencyList) -> (visited: Vec<bool>)
    requires
        start_index < adjacency_list@.len(),
        adj_in_range(adj_view(*adjacency_list)),
    ensures
        visited@.len() == adjacency_list@.len(),
        forall|v: int|
            0 <= v < visited@.len() ==> (visited@[v] <==> adj_reaches(
                adj_view(*adjacency_list),
                start_index as int,
                v,
            )),
{
    let ghost a = adj_view(*adjacency_list);
    let n = adjacency_list.len();
    let mut visited: Vec<bool> = Vec::new();
    while visited.len() < n
        invariant
            visited@.len() <= n,
            forall|v: int| 0 <= v < visited@.len() ==> !(#[trigger] visited@[v]),
        decreases n - visited.len(),
    {
        visited.push(false);
    }
    let ghost all_false = visited@;
    let mut stack: Vec<usize> = Vec::new();
    visited[start_index] = true;
    let ghost empty_stack = stack@;
    stack.push(start_index);
    proof {
        lemma_push_contains(empty_stack, start_index);
        lemma_adj_reaches_refl(a, start_index as int);
        lemma_count_false_nonneg(visited@);
        assert forall|u: usize|
            u < n && visited@[u as int] && !stack@.contains(u) implies (forall|j: int|
            0 <= j < a[u as int].len() ==> visited@[(#[trigger] a[u as int][j]).0 as int]) by {
            if u == start_index {
                assert(stack@[0] == start_index);
                assert(stack@.contains(u));
            } else {
                assert(!all_false[u as int]);
            }
        }
    }
    while stack.len() > 0
        invariant
            visited@.len() == n,
            n == a.len(),
            a == adj_view(*adjacency_list),
            adj_in_range(a),
            start_index < n,
            visited@[start_index as int],
            forall|i: int|
                0 <= i < stack@.len() ==> (#[trigger] stack@[i]) < n && visited@[stack@[i] as int],
            forall|v: int|
                0 <= v < n && visited@[v] ==> adj_reaches(a, start_index as int, v),
            forall|u: usize|
                u < n && visited@[u as int] && !stack@.contains(u) ==> (forall|j: int|
                    0 <= j < a[u as int].len() ==> visited@[(#[trigger] a[u as int][j]).0 as int]),
        decreases count_false(visited@), stack@.len(),
    {
        let ghost cf0 = count_false(visited@);
        let ghost stack0 = stack@;
        let u = stack.pop().unwrap();
        proof {
            assert(stack0 =~= stack@.push(u));
            lemma_push_contains(stack@, u);
        }
        let ghost stack1 = stack@;
        let ghost visited1 = visited@;
        let row_len = adjacency_list[u].len();
        let mut j: usize = 0;
        while j < row_len
            invariant
                visited@.len() == n,
                n == a.len(),
                a == adj_view(*adjacency_list),
                adj_in_range(a),
                start_index < n,
                visited@[start_index as int],
                u < n,
                visited@[u as int],
                row_len == a[u as int].len(),
                j <= row_len,
                forall|i: int|
                    0 <= i < stack@.len() ==> (#[trigger] stack@[i]) < n
                        && visited@[stack@[i] as int],
                forall|v: int|
                    0 <= v < n && visited@[v] ==> adj_reaches(a, start_index as int, v),
                forall|w: usize|
                    w < n && visited@[w as int] && !stack@.contains(w) && w != u ==> (forall|
                        jj: int,
                    |
                        0 <= jj < a[w as int].len() ==> visited@[(#[trigger] a[w as int][jj]).0
                            as int]),
                forall|jj: int| 0 <= jj < j ==> visited@[(#[trigger] a[u as int][jj]).0 as int],
                count_false(visited@) < cf0 || (visited@ == visited1 && stack@ == stack1),
                count_false(visited1) == cf0,
            decreases row_len - j,
        {
            let ghost vis_it = visited@;
            let ghost stack_it = stack@;
            let p = adjacency_list[u][j];
            let nb = p.0;
            assert(a[u as int][j as int].0 == nb);
            if !visited[nb] {
                proof {
                    lemma_count_false_update(visited@, nb as int);
                    assert(adj_connects(a, u as int, nb as int));
                    lemma_adj_reaches_step(a, start_index as int, u as int, nb as int);
                }
                visited[nb] = true;
                let ghost sbp = stack@;
                stack.push(nb);
                proof {
                    lemma_push_contains(sbp, nb);
                    assert(stack@[stack@.len() - 1] == nb);
                    assert(stack@.contains(nb));
                }
            }
            proof {
                assert forall|w: usize|
                    w < n && visited@[w as int] && !stack@.contains(w) && w != u implies (forall|
                    jj: int,
                |
                    0 <= jj < a[w as int].len() ==> visited@[(#[trigger] a[w as int][jj]).0
                        as int]) by {
                    if !vis_it[w as int] {
                        assert(w == nb);
                        assert(stack@.contains(w));
                    }
                    assert(vis_it[w as int]);
                    assert(!stack_it.contains(w));
                    assert forall|jj: int|
                        0 <= jj < a[w as int].len() implies visited@[(#[trigger] a[w
                        as int][jj]).0 as int] by {
                        assert(vis_it[(a[w as int][jj]).0 as int]);
                    }
                }
            }
            j = j + 1;
        }
        proof {
            lemma_count_false_nonneg(visited@);
            if visited@ == visited1 && stack@ == stack1 {
                assert(stack@.len() < stack0.len());
            }
        }
    }
    proof {
        let reach_set = Set::new(|i: int| 0 <= i < n && visited@[i]);
        assert forall|v: int|
            0 <= v < visited@.len() && adj_reaches(a, start_index as int, v) implies visited@[v]
        by {
            assert(reach_set.contains(start_index as int));
            assert forall|x: int, y: int|
                reach_set.contains(x) && adj_connects(a, x, y) implies reach_set.contains(y) by {
                let j = choose|j: int| 0 <= j < a[x].len() && (#[trigger] a[x][j]).0 == y;
                assert(!stack@.contains(x as usize));
                assert(visited@[(a[x as int][j]).0 as int]);
            }
            lemma_adj_reaches_in_closed_set(a, start_index as int, v, reach_set);
        }
    }
    visited
}

/// Decides whether every node of `1..=nodes_count` can be reached from
/// node 1 along the undirected edges of `edges`.
///
/// A graph with no nodes is vacuously connected.  The visited flag of
/// node `v` is held at position `v - 1`, so the check is total for every
/// node count.
pub fn is_connected(edges: &Vec<Edge>, nodes_count: u32) -> (r: bool)
    requires
        edges_valid(edges@, nodes_count),
    ensures
        r == spec_connected(nodes_count, edges@),
{
    if nodes_count == 0 {
        return true;
    }
    let n_us = nodes_count as usize;
    let mut visited: Vec<bool> = Vec::new();
    while visited.len() < n_us
        invariant
            visited@.len() <= n_us,
            forall|v: int| 0 <= v < visited@.len() ==> !(#[trigger] visited@[v]),
        decreases n_us - visited.len(),
    {
        visited.push(false);
    }
    let ghost all_false = visited@;
    let mut stack: Vec<u32> = Vec::new();
    visited[0] = true;
    let ghost empty_stack = stack@;
    stack.push(1);
    proof {
        lemma_push_contains(empty_stack, 1u32);
        lemma_reaches_refl(edges@, 1);
        lemma_count_false_nonneg(visited@);
        assert forall|u: u32|
            1 <= u <= nodes_count && visited@[u - 1] && !stack@.contains(u) implies (forall|
            k: int,
        |
            0 <= k < edges@.len() ==> ((#[trigger] edges@[k]).from_index == u
                ==> visited@[edges@[k].to_index - 1]) && (edges@[k].to_index == u
                ==> visited@[edges@[k].from_index - 1])) by {
            if u == 1 {
                assert(stack@[0] == 1u32);
                assert(stack@.contains(u));
            } else {
                assert(!all_false[u - 1]);
            }
        }
    }
    while stack.len() > 0
        invariant
            visited@.len() == n_us,
            n_us == nodes_count,
             1 <= nodes_count,
            edges_valid(edges@, nodes_count),
            visited@[0],
            forall|i: int|
                0 <= i < stack@.len() ==> 1 <= (#[trigger] stack@[i]) <= nodes_count
                    && visited@[stack@[i] - 1],
            forall|v: int| 0 <= v < n_us && visited@[v] ==> reaches(edges@, 1, v + 1),
            forall|u: u32|
                1 <= u <= nodes_count && visited@[u - 1] && !stack@.contains(u) ==> (forall|
                    k: int,
                |
                    0 <= k < edges@.len() ==> ((#[trigger] edges@[k]).from_index == u
                        ==> visited@[edges@[k].to_index - 1]) && (edges@[k].to_index == u
                        ==> visited@[edges@[k].from_index - 1])),
        decreases count_false(visited@), stack@.len(),
    {
        let ghost cf0 = count_false(visited@);
        let ghost stack0 = stack@;
        let u = stack.pop().unwrap();
        proof {
            assert(stack0 =~= stack@.push(u));
            lemma_push_contains(stack@, u);
        }
        let ghost stack1 = stack@;
        let ghost visited1 = visited@;
        let mut k: usize = 0;
        while k < edges.len()
            invariant
                visited@.len() == n_us,
                n_us == nodes_count,
                1 <= nodes_count,
                edges_valid(edges@, nodes_count),
                visited@[0],
                1 <= u <= nodes_count,
                visited@[u - 1],
                k <= edges@.len(),
                forall|i: int|
                    0 <= i < stack@.len() ==> 1 <= (#[trigger] stack@[i]) <= nodes_count
                        && visited@[stack@[i] - 1],
                forall|v: int| 0 <= v < n_us && visited@[v] ==> reaches(edges@, 1, v + 1),
                forall|w: u32|
                    1 <= w <= nodes_count && visited@[w - 1] && !stack@.contains(w) && w != u
                        ==> (forall|kk: int|
                        0 <= kk < edges@.len() ==> ((#[trigger] edges@[kk]).from_index == w
                            ==> visited@[edges@[kk].to_index - 1]) && (edges@[kk].to_index == w
                            ==> visited@[edges@[kk].from_index - 1])),
                forall|kk: int|
                    0 <= kk < k ==> ((#[trigger] edges@[kk]).from_index == u
                        ==> visited@[edges@[kk].to_index - 1]) && (edges@[kk].to_index == u
                        ==> visited@[edges@[kk].from_index - 1]),
                count_false(visited@) < cf0 || (visited@ == visited1 && stack@ == stack1),
                count_false(visited1) == cf0,
            decreases edges@.len() - k,
        {
            let ghost vis_it = visited@;
            let ghost stack_it = stack@;
            let e = *edges_index(edges, k);
            assert(edge_valid(edges@[k as int], nodes_count));
            if e.from_index == u {
                let nb = e.to_index;
                if !visited[(nb - 1) as usize] {
                    proof {
                        lemma_count_false_update(visited@, nb - 1);
                        assert(connects(edges@, u as int, nb as int));
                        lemma_reaches_step(edges@, 1, u as int, nb as int);
                    }
                    visited[(nb - 1) as usize] = true;
                    let ghost sbp = stack@;
                    stack.push(nb);
                    proof {
                        lemma_push_contains(sbp, nb);
                    }
                }
            }
            let ghost vis_mid = visited@;
            let ghost stack_mid = stack@;
            if e.to_index == u {
                let nb = e.from_index;
                if !visited[(nb - 1) as usize] {
                    proof {
                        lemma_count_false_update(visited@, nb - 1);
                        assert(connects(edges@, u as int, nb as int));
                        lemma_reaches_step(edges@, 1, u as int, nb as int);
                    }
                    visited[(nb - 1) as usize] = true;
                    let ghost sbp = stack@;
                    stack.push(nb);
                    proof {
                        lemma_push_contains(sbp, nb);
                        assert(stack@[stack@.len() - 1] == nb);
                        assert(stack@.contains(nb));
                    }
                }
            }
            proof {
                if e.from_index == u && !vis_it[e.to_index - 1] {
                    assert(stack_mid[stack_it.len() as int] == e.to_index);
                    assert(stack@[stack_it.len() as int] == e.to_index);
                    assert(stack@.contains(e.to_index));
                }
                if e.to_index == u && !vis_mid[e.from_index - 1] {
                    assert(stack@[stack@.len() - 1] == e.from_index);
                    assert(stack@.contains(e.from_index));
                }
                assert forall|w: u32|
                    1 <= w <= nodes_count && visited@[w - 1] && !stack@.contains(w) && w != u
                    implies (forall|kk: int|
                    0 <= kk < edges@.len() ==> ((#[trigger] edges@[kk]).from_index == w
                        ==> visited@[edges@[kk].to_index - 1]) && (edges@[kk].to_index == w
                        ==> visited@[edges@[kk].from_index - 1])) by {
                    if !vis_it[w - 1] {
                        if vis_mid[w - 1] {
                            assert(e.from_index == u && !vis_it[e.to_index - 1]);
                            assert(w == e.to_index);
                        } else {
                            assert(e.to_index == u && !vis_mid[e.from_index - 1]);
                            assert(w == e.from_index);
                        }
                        assert(stack@.contains(w));
                    }
                    assert(vis_it[w - 1]);
                    assert(!stack_it.contains(w));
                    assert forall|kk: int|
                        0 <= kk < edges@.len() implies ((#[trigger] edges@[kk]).from_index == w
                            ==> visited@[edges@[kk].to_index - 1]) && (edges@[kk].to_index == w
                            ==> visited@[edges@[kk].from_index - 1]) by {
                        assert(edge_valid(edges@[kk], nodes_count));
                        if edges@[kk].from_index == w {
                            assert(vis_it[edges@[kk].to_index - 1]);
                        }
                        if edges@[kk].to_index == w {
                            assert(vis_it[edges@[kk].from_index - 1]);
                        }
                    }
                }
            }
            k = k + 1;
        }
        proof {
            lemma_count_false_nonneg(visited@);
            if visited@ == visited1 && stack@ == stack1 {
                assert(stack@.len() < stack0.len());
            }
        }
    }
    proof {
        let reach_set = Set::new(|i: int| 1 <= i <= nodes_count && visited@[i - 1]);
        assert forall|v: int|
            1 <= v <= nodes_count && reaches(edges@, 1, v) implies visited@[v - 1] by {
            assert(reach_set.contains(1));
            assert forall|x: int, y: int|
                reach_set.contains(x) && connects(edges@, x, y) implies reach_set.contains(y) by {
                let k = choose|k: int|
                    0 <= k < edges@.len() && ((#[trigger] edges@[k]).from_index == x
                        && edges@[k].to_index == y || edges@[k].from_index == y
                        && edges@[k].to_index == x);
                assert(edge_valid(edges@[k], nodes_count));
                assert(stack@.len() == 0);
                assert(!stack@.contains(x as u32));
            }
            lemma_reaches_in_closed_set(edges@, 1, v, reach_set);
        }
    }
    let mut v: usize = 0;
    while v < n_us
        invariant
            v <= n_us,
            n_us == nodes_count,
            visited@.len() == n_us,
            forall|w: int| 0 <= w < n_us && visited@[w] ==> reaches(edges@, 1, w + 1),
            forall|w: int| 1 <= w <= nodes_count && reaches(edges@, 1, w) ==> visited@[w - 1],
            forall|w: int| 0 <= w < v ==> visited@[w],
        decreases n_us - v,
    {
        if !visited[v] {
            assert(!reaches(edges@, 1, v + 1));
            return false;
        }
        v = v + 1;
    }
    assert forall|w: int| 1 <= w <= nodes_count implies reaches(edges@, 1, w) by {
        assert(visited@[w - 1]);
    }
    true
}

/// Some edge of `edges` joins `u` and `v` and weighs `w`.
pub open spec fn connects_weighted(edges: Seq<Edge>, u: int, v: int, w: int) -> bool {
    exists|k: int|
        0 <= k < edges.len() && ((#[trigger] edges[k]).from_index == u && edges[k].to_index == v
            || edges[k].from_index == v && edges[k].to_index == u) && edges[k].weight == w
}

/// `p` is a walk from `s` to `t` whose steps weigh `ws`.
pub open spec fn is_weighted_path(
    edges: Seq<Edge>,
    p: Seq<int>,
    ws: Seq<int>,
    s: int,
    t: int,
) -> bool {
    &&& p.len() == ws.len() + 1
    &&& p[0] == s
    &&& p[p.len() - 1] == t
    &&& forall|i: int|
        0 <= i < ws.len() ==> connects_weighted(edges, #[trigger] p[i], p[i + 1], ws[i])
}

/// The total weight of a sequence of step weights.
pub open spec fn path_cost(ws: Seq<int>) -> int
    decreases ws.len(),
{
    if ws.len() == 0 {
        0
    } else {
        path_cost(ws.drop_last()) + ws.last()
    }
}

/// `t` can be reached from `s` along a walk of total weight `c`.
pub open spec fn reaches_with_cost(edges: Seq<Edge>, s: int, t: int, c: int) -> bool {
    exists|p: Seq<int>, ws: Seq<int>| is_weighted_path(edges, p, ws, s, t) && path_cost(ws) == c
}

pub proof fn lemma_reaches_with_cost_refl(edges: Seq<Edge>, s: int)
    ensures
        reaches_with_cost(edges, s, s, 0),
{
    let p = seq![s];
    let ws = Seq::<int>::empty();
    assert(is_weighted_path(edges, p, ws, s, s));
    assert(path_cost(ws) == 0);
}

pub proof fn lemma_reaches_with_cost_step(edges: Seq<Edge>, s: int, u: int, v: int, c: int, w: int)
    requires
        reaches_with_cost(edges, s, u, c),
        connects_weighted(edges, u, v, w),
    ensures
        reaches_with_cost(edges, s, v, c + w),
{
    let (p, ws) = choose|p: Seq<int>, ws: Seq<int>|
        is_weighted_path(edges, p, ws, s, u) && path_cost(ws) == c;
    let q = p.push(v);
    let wq = ws.push(w);
    assert(wq.drop_last() =~= ws);
    assert forall|i: int|
        0 <= i < wq.len() implies connects_weighted(edges, #[trigger] q[i], q[i + 1], wq[i]) by {
        if i < ws.len() {
            assert(connects_weighted(edges, p[i], p[i + 1], ws[i]));
        } else {
            assert(q[i] == u && q[i + 1] == v && wq[i] == w);
        }
    }
    assert(is_weighted_path(edges, q, wq, s, v));
    assert(path_cost(wq) == c + w);
}

} // verus!
