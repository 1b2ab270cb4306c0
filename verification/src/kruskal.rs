//! Kruskal's minimum-spanning-tree weight computation and its
//! union-find supporting structure.
//!
//! [`UnionFind`]'s view assigns each element its current root; merging
//! is specified purely through the equivalence the roots induce, so path
//! compression and union by rank stay implementation details.
//! [`calculate_min_total_weight`] is pinned to [`kruskal_total`]: the
//! fold of the stably weight-sorted edge list that adds each edge
//! joining two distinct components.

use crate::structures::{edge_valid, Edge, Graph};
use vstd::prelude::*;

verus! {

/// Disjoint-set structure over `0..len` with union by rank and path
/// halving; the view maps each element to its current root.
pub struct UnionFind {
    parent: Vec<u32>,
    rank: Vec<u8>,
    root: Ghost<Seq<u32>>,
    depth: Ghost<Seq<nat>>,
}

impl View for UnionFind {
    type V = Seq<u32>;

    closed spec fn view(&self) -> Seq<u32> {
        self.root@
    }
}

impl UnionFind {
    /// The parent forest is acyclic (witnessed by a decreasing ghost
    /// depth), and the ghost root map matches it.
    pub closed spec fn wf(&self) -> bool {
        &&& self.parent@.len() == self.rank@.len()
        &&& self.parent@.len() == self.root@.len()
        &&& self.parent@.len() == self.depth@.len()
        &&& forall|i: int|
            0 <= i < self.parent@.len() ==> (#[trigger] self.parent@[i]) < self.parent@.len()
        &&& forall|i: int|
            0 <= i < self.root@.len() ==> (#[trigger] self.root@[i]) < self.root@.len()
        &&& forall|i: int|
            0 <= i < self.root@.len() ==> self.parent@[(#[trigger] self.root@[i]) as int]
                == self.root@[i]
        &&& forall|i: int|
            0 <= i < self.parent@.len() ==> self.root@[(#[trigger] self.parent@[i]) as int]
                == self.root@[i]
        &&& forall|i: int|
            0 <= i < self.parent@.len() ==> ((#[trigger] self.parent@[i]) as int == i
                ==> self.root@[i] as int == i)
        &&& forall|i: int|
            0 <= i < self.parent@.len() ==> ((#[trigger] self.parent@[i]) as int != i
                ==> self.depth@[self.parent@[i] as int] < self.depth@[i])
    }

    /// Creates `n + 1` singleton sets; element 0 stays unused, as the
    /// callers index nodes from 1.
    pub fn new(n: u32) -> (r: UnionFind)
        requires
            n < u32::MAX,
        ensures
            r.wf(),
            r@.len() == n + 1,
            forall|i: int| 0 <= i < r@.len() ==> (#[trigger] r@[i]) as int == i,
    {
        let size = n + 1;
        let mut rank: Vec<u8> = Vec::new();
        while rank.len() < size as usize
            invariant
                rank@.len() <= size,
            decreases size as usize - rank.len(),
        {
            rank.push(0);
        }
        let mut parent: Vec<u32> = Vec::new();
        let mut i: u32 = 0;
        while i < size
            invariant
                i <= size,
                parent@.len() == i,
                forall|k: int| 0 <= k < parent@.len() ==> (#[trigger] parent@[k]) as int == k,
            decreases size - i,
        {
            parent.push(i);
            i = i + 1;
        }
        let ghost root = parent@;
        let ghost depth = Seq::new(size as nat, |k: int| 0nat);
        UnionFind { parent, rank, root: Ghost(root), depth: Ghost(depth) }
    }

    /// Finds the representative of the set holding `index`, without
    /// mutation.
    pub fn find_parent(&self, index: u32) -> (r: u32)
        requires
            self.wf(),
            (index as int) < self@.len(),
        ensures
            r == self@[index as int],
    {
        let mut current_index = index;
        while self.parent[current_index as usize] != current_index
            invariant
                self.wf(),
                (current_index as int) < self@.len(),
                self@[current_index as int] == self@[index as int],
            decreases self.depth@[current_index as int],
        {
            current_index = self.parent[current_index as usize];
        }
        current_index
    }

    /// Finds the representative of the set holding `index`, compressing
    /// the traversed path by halving; the partition is unchanged.
    pub fn find_mut_parent(&mut self, index: u32) -> (r: u32)
        requires
            old(self).wf(),
            (index as int) < old(self)@.len(),
        ensures
            final(self).wf(),
            final(self)@ == old(self)@,
            r == old(self)@[index as int],
    {
        let ghost v0 = self@;
        let ghost orig = index;
        let mut index = index;
        let mut parent = self.parent[index as usize];
        while parent != index
            invariant
                self.wf(),
                self@ == v0,
                (index as int) < self@.len(),
                parent == self.parent@[index as int],
                self@[index as int] == v0[orig as int],
                (orig as int) < v0.len(),
            decreases self.depth@[index as int],
        {
            let ghost dcur = self.depth@[index as int];
            let grandparent = self.parent[parent as usize];
            self.parent[index as usize] = grandparent;
            proof {
                assert(self.depth@[index as int] == dcur);
            }
            index = parent;
            parent = grandparent;
        }
        index
    }

    /// Merges the sets holding `x` and `y`; returns whether two distinct
    /// sets were joined.  The new partition is the old one with the two
    /// sets pooled.
    pub fn union(&mut self, x: u32, y: u32) -> (r: bool)
        requires
            old(self).wf(),
            (x as int) < old(self)@.len(),
            (y as int) < old(self)@.len(),
        ensures
            final(self).wf(),
            final(self)@.len() == old(self)@.len(),
            r == (old(self)@[x as int] != old(self)@[y as int]),
            forall|i: int, j: int|
                0 <= i < old(self)@.len() && 0 <= j < old(self)@.len() ==> ((final(self)@[i]
                    == final(self)@[j]) <==> (old(self)@[i] == old(self)@[j] || (old(self)@[i]
                    == old(self)@[x as int] && old(self)@[j] == old(self)@[y as int]) || (old(
                    self,
                )@[i] == old(self)@[y as int] && old(self)@[j] == old(self)@[x as int]))),
    {
        let ghost v0 = self@;
        if x == y {
            return false;
        }
        let xrep = self.find_mut_parent(x);
        let yrep = self.find_mut_parent(y);
        if xrep == yrep {
            return false;
        }
        let xrepu = xrep as usize;
        let yrepu = yrep as usize;
        let xrank = self.rank[xrepu];
        let yrank = self.rank[yrepu];
        let winner: u32;
        let loser: u32;
        if xrank < yrank {
            self.parent[xrepu] = yrep;
            winner = yrep;
            loser = xrep;
        } else if xrank > yrank {
            self.parent[yrepu] = xrep;
            winner = xrep;
            loser = yrep;
        } else {
            self.parent[yrepu] = xrep;
            // the rank of a forest over at most u32::MAX elements stays
            // far below u8::MAX; the explicit bound keeps the increment
            // total
            if self.rank[xrepu] < u8::MAX {
                let new_rank = self.rank[xrepu] + 1;
                self.rank[xrepu] = new_rank;
            }
            winner = xrep;
            loser = yrep;
        }
        proof {
            assert(v0[xrep as int] == xrep);
            assert(v0[yrep as int] == yrep);
        }
        let ghost dw = self.depth@[winner as int];
        let ghost newroot = Seq::new(v0.len(), |k: int| if v0[k] == loser {
            winner
        } else {
            v0[k]
        });
        let ghost newdepth = Seq::new(
            self.depth@.len(),
            |k: int|
                if v0[k] == loser {
                    (self.depth@[k] + dw + 1) as nat
                } else {
                    self.depth@[k]
                },
        );
        proof {
            self.root = Ghost(newroot);
            self.depth = Ghost(newdepth);
        }
        proof {
            assert(self.parent@[loser as int] == winner);
            assert forall|i: int|
                0 <= i < self.parent@.len() implies ((#[trigger] self.parent@[i]) as int != i
                ==> self.depth@[self.parent@[i] as int] < self.depth@[i]) by {
                if self.parent@[i] as int != i {
                    if i == loser as int {
                        assert(v0[winner as int] == winner);
                        assert(self.depth@[winner as int] == dw);
                    }
                }
            }
            assert forall|i: int, j: int|
                0 <= i < v0.len() && 0 <= j < v0.len() implies ((self@[i] == self@[j]) <==> (
            v0[i] == v0[j] || (v0[i] == v0[x as int] && v0[j] == v0[y as int]) || (v0[i] == v0[y
                as int] && v0[j] == v0[x as int]))) by {
                assert(v0[x as int] == xrep && v0[y as int] == yrep);
            }
        }
        true
    }

    /// Resolves the representatives of `x` and `y` and merges their sets
    /// when they differ; returns whether a merge happened.
    pub fn merge_parents(&mut self, x: u32, y: u32) -> (r: bool)
        requires
            old(self).wf(),
            (x as int) < old(self)@.len(),
            (y as int) < old(self)@.len(),
        ensures
            final(self).wf(),
            final(self)@.len() == old(self)@.len(),
            r == (old(self)@[x as int] != old(self)@[y as int]),
            forall|i: int, j: int|
                0 <= i < old(self)@.len() && 0 <= j < old(self)@.len() ==> ((final(self)@[i]
                    == final(self)@[j]) <==> (old(self)@[i] == old(self)@[j] || (old(self)@[i]
                    == old(self)@[x as int] && old(self)@[j] == old(self)@[y as int]) || (old(
                    self,
                )@[i] == old(self)@[y as int] && old(self)@[j] == old(self)@[x as int]))),
    {
        let ghost v0 = self@;
        let x_parent = self.find_parent(x);
        let y_parent = self.find_parent(y);
        proof {
            assert(v0[v0[x as int] as int] == v0[x as int]);
            assert(v0[v0[y as int] as int] == v0[y as int]);
        }
        if x_parent != y_parent {
            self.union(x_parent, y_parent)
        } else {
            false
        }
    }
}

/// Inserts `e` into `s` directly before the first element of strictly
/// larger weight, so equal weights keep their arrival order.
pub open spec fn spec_insert(s: Seq<Edge>, e: Edge) -> Seq<Edge>
    decreases s.len(),
{
    if s.len() == 0 {
        seq![e]
    } else if s[0].weight <= e.weight {
        seq![s[0]] + spec_insert(s.drop_first(), e)
    } else {
        seq![e] + s
    }
}

/// Stable insertion sort of an edge sequence by ascending weight.
pub open spec fn spec_sort(s: Seq<Edge>) -> Seq<Edge>
    decreases s.len(),
{
    if s.len() == 0 {
        s
    } else {
        spec_insert(spec_sort(s.drop_last()), s.last())
    }
}

proof fn lemma_spec_insert_len(s: Seq<Edge>, e: Edge)
    ensures
        spec_insert(s, e).len() == s.len() + 1,
    decreases s.len(),
{
    if s.len() > 0 && s[0].weight <= e.weight {
        lemma_spec_insert_len(s.drop_first(), e);
    }
}

pub proof fn lemma_spec_sort_len(s: Seq<Edge>)
    ensures
        spec_sort(s).len() == s.len(),
    decreases s.len(),
{
    if s.len() > 0 {
        lemma_spec_sort_len(s.drop_last());
        lemma_spec_insert_len(spec_sort(s.drop_last()), s.last());
    }
}

proof fn lemma_spec_insert_contains(s: Seq<Edge>, e: Edge, x: Edge)
    requires
        spec_insert(s, e).contains(x),
    ensures
        s.contains(x) || x == e,
    decreases s.len(),
{
    let t = spec_insert(s, e);
    let i = choose|i: int| 0 <= i < t.len() && t[i] == x;
    if s.len() == 0 {
    } else if s[0].weight <= e.weight {
        if i == 0 {
            assert(s[0] == x);
        } else {
            assert(spec_insert(s.drop_first(), e)[i - 1] == x);
            lemma_spec_insert_contains(s.drop_first(), e, x);
            if s.drop_first().contains(x) {
                let j = choose|j: int| 0 <= j < s.drop_first().len() && s.drop_first()[j] == x;
                assert(s[j + 1] == x);
            }
        }
    } else {
        if i > 0 {
            assert(s[i - 1] == x);
        }
    }
}

/// Sorting only rearranges: every edge of the sorted sequence comes
/// from the input.
pub proof fn lemma_spec_sort_contains(s: Seq<Edge>, x: Edge)
    requires
        spec_sort(s).contains(x),
    ensures
        s.contains(x),
    decreases s.len(),
{
    if s.len() > 0 {
        lemma_spec_insert_contains(spec_sort(s.drop_last()), s.last(), x);
        if spec_sort(s.drop_last()).contains(x) {
            lemma_spec_sort_contains(s.drop_last(), x);
            let j = choose|j: int| 0 <= j < s.drop_last().len() && s.drop_last()[j] == x;
            assert(s[j] == x);
        } else {
            assert(s[s.len() - 1] == x);
        }
    }
}

/// `spec_insert` splits `s` exactly at the first index whose weight is
/// strictly larger than that of `e`.
proof fn lemma_spec_insert_at(s: Seq<Edge>, e: Edge, j: int)
    requires
        0 <= j <= s.len(),
        forall|k: int| 0 <= k < j ==> (#[trigger] s[k]).weight <= e.weight,
        j < s.len() ==> s[j].weight > e.weight,
    ensures
        spec_insert(s, e) == s.take(j) + seq![e] + s.skip(j),
    decreases j,
{
    if j == 0 {
        if s.len() == 0 {
            assert(spec_insert(s, e) =~= s.take(0) + seq![e] + s.skip(0));
        } else {
            assert(spec_insert(s, e) =~= s.take(0) + seq![e] + s.skip(0));
        }
    } else {
        assert(s[0].weight <= e.weight);
        lemma_spec_insert_at(s.drop_first(), e, j - 1);
        assert(spec_insert(s, e) == seq![s[0]] + spec_insert(s.drop_first(), e));
        assert(spec_insert(s, e) =~= s.take(j) + seq![e] + s.skip(j));
    }
}

/// Sorts the edges by ascending weight with a stable insertion sort.
fn sort_edges(edges: Vec<Edge>) -> (r: Vec<Edge>)
    ensures
        r@ == spec_sort(edges@),
{
    let mut result: Vec<Edge> = Vec::new();
    let mut i: usize = 0;
    while i < edges.len()
        invariant
            i <= edges@.len(),
            result@ == spec_sort(edges@.take(i as int)),
        decreases edges@.len() - i,
    {
        let e = edges[i];
        let mut j: usize = 0;
        proof {
            lemma_spec_sort_len(edges@.take(i as int));
        }
        while j < result.len() && result[j].weight <= e.weight
            invariant
                j <= result@.len(),
                forall|k: int| 0 <= k < j ==> (#[trigger] result@[k]).weight <= e.weight,
            decreases result@.len() - j,
        {
            j = j + 1;
        }
        proof {
            lemma_spec_insert_at(result@, e, j as int);
        }
        result.insert(j, e);
        proof {
            assert(result@ =~= spec_sort(edges@.take(i as int)).take(j as int) + seq![e]
                + spec_sort(edges@.take(i as int)).skip(j as int));
            assert(edges@.take(i + 1).drop_last() =~= edges@.take(i as int));
            assert(edges@.take(i + 1).last() == edges@[i as int]);
            assert(result@ == spec_sort(edges@.take(i + 1)));
        }
        i = i + 1;
    }
    proof {
        assert(edges@.take(edges@.len() as int) =~= edges@);
    }
    result
}

/// The labels of the singleton partition over `0..=nodes_count`.
pub open spec fn initial_labels(nodes_count: u32) -> Seq<u32> {
    Seq::new(nodes_count as nat + 1, |k: int| k as u32)
}

/// Relabels the class of `b` with the label of `a`, pooling the two
/// classes.
pub open spec fn merge_labels(s: Seq<u32>, a: int, b: int) -> Seq<u32> {
    Seq::new(s.len(), |k: int| if s[k] == s[b] {
        s[a]
    } else {
        s[k]
    })
}

/// Folds Kruskal's rule over an edge sequence: an edge whose endpoints
/// lie in distinct classes pools them and contributes its weight.
/// Returns the final labels and the accumulated weight.
pub open spec fn kruskal_fold(edges: Seq<Edge>, s: Seq<u32>) -> (Seq<u32>, int)
    decreases edges.len(),
{
    if edges.len() == 0 {
        (s, 0)
    } else {
        let e = edges[0];
        if s[e.from_index as int] == s[e.to_index as int] {
            kruskal_fold(edges.drop_first(), s)
        } else {
            let rec = kruskal_fold(
                edges.drop_first(),
                merge_labels(s, e.from_index as int, e.to_index as int),
            );
            (rec.0, rec.1 + e.weight)
        }
    }
}

/// The minimum-spanning-tree weight of a connected graph: the Kruskal
/// fold over its stably weight-sorted edge list.
pub open spec fn kruskal_total(nodes_count: u32, edges: Seq<Edge>) -> int {
    kruskal_fold(spec_sort(edges), initial_labels(nodes_count)).1
}

/// Pooling two classes relates labels exactly as joining the two sets.
proof fn lemma_merge_labels_equiv(s: Seq<u32>, a: int, b: int)
    requires
        0 <= a < s.len(),
        0 <= b < s.len(),
    ensures
        merge_labels(s, a, b).len() == s.len(),
        forall|i: int, j: int|
            0 <= i < s.len() && 0 <= j < s.len() ==> ((merge_labels(s, a, b)[i] == merge_labels(
                s,
                a,
                b,
            )[j]) <==> (s[i] == s[j] || (s[i] == s[a] && s[j] == s[b]) || (s[i] == s[b] && s[j]
                == s[a]))),
{
}

/// The absolute weight of each step is bounded, so the fold total of a
/// sequence is bounded by its length.
proof fn lemma_kruskal_fold_bound(edges: Seq<Edge>, s: Seq<u32>)
    ensures
        -(edges.len() * 0x8000_0000) <= kruskal_fold(edges, s).1 <= edges.len() * 0x8000_0000,
    decreases edges.len(),
{
    if edges.len() > 0 {
        let e = edges[0];
        lemma_kruskal_fold_bound(edges.drop_first(), s);
        lemma_kruskal_fold_bound(
            edges.drop_first(),
            merge_labels(s, e.from_index as int, e.to_index as int),
        );
    }
}

/// Uses Kruskal's algorithm to compute the weight of the minimum
/// spanning tree of a connected graph.
///
/// The total must fit in 32 signed bits, as the original accumulates it
/// there; the graph's node count must leave room for the unused element
/// 0 of the union-find structure.
pub fn calculate_min_total_weight(graph: Graph) -> (r: i32)
    requires
        graph.wf(),
        graph.nodes_count < u32::MAX,
        i32::MIN <= kruskal_total(graph.nodes_count, graph.edges@) <= i32::MAX,
    ensures
        r as int == kruskal_total(graph.nodes_count, graph.edges@),
{
    let n = graph.nodes_count;
    let ghost edges0 = graph.edges@;
    let mut union_find = UnionFind::new(n);
    let sorted = sort_edges(graph.edges);
    proof {
        lemma_spec_sort_len(edges0);
        assert forall|k: int| 0 <= k < sorted@.len() implies edge_valid(
            #[trigger] sorted@[k],
            n,
        ) by {
            assert(sorted@.contains(sorted@[k]));
            lemma_spec_sort_contains(edges0, sorted@[k]);
            let j = choose|j: int| 0 <= j < edges0.len() && edges0[j] == sorted@[k];
            assert(edge_valid(edges0[j], n));
        }
    }
    let ghost labels0 = initial_labels(n);
    let ghost mut labels = labels0;
    proof {
        assert(sorted@.skip(0) =~= sorted@);
    }
    let mut total: i128 = 0;
    let mut k: usize = 0;
    while k < sorted.len()
        invariant
            k <= sorted@.len(),
            union_find.wf(),
            union_find@.len() == n + 1,
            labels.len() == n + 1,
            n < u32::MAX,
            forall|k2: int| 0 <= k2 < sorted@.len() ==> edge_valid(#[trigger] sorted@[k2], n),
            forall|i: int, j: int|
                0 <= i < labels.len() && 0 <= j < labels.len() ==> ((union_find@[i]
                    == union_find@[j]) <==> (labels[i] == labels[j])),
            kruskal_fold(sorted@, labels0).1 == total + kruskal_fold(
                sorted@.skip(k as int),
                labels,
            ).1,
            -(k * 0x8000_0000) <= total <= k * 0x8000_0000,
        decreases sorted@.len() - k,
    {
        let e = *sorted_index(&sorted, k);
        let ghost cur = sorted@.skip(k as int);
        let ghost ufv = union_find@;
        proof {
            assert(cur[0] == e);
            assert(cur.drop_first() =~= sorted@.skip(k as int + 1));
        }
        let merged = union_find.merge_parents(e.from_index, e.to_index);
        if merged {
            proof {
                assert(labels[e.from_index as int] != labels[e.to_index as int]);
                lemma_merge_labels_equiv(labels, e.from_index as int, e.to_index as int);
                lemma_kruskal_fold_bound(sorted@.skip(k as int + 1), merge_labels(
                    labels,
                    e.from_index as int,
                    e.to_index as int,
                ));
            }
            total = total + e.weight as i128;
            proof {
                labels = merge_labels(labels, e.from_index as int, e.to_index as int);
            }
        } else {
            proof {
                assert(labels[e.from_index as int] == labels[e.to_index as int]);
            }
        }
        k = k + 1;
    }
    proof {
        assert(sorted@.skip(sorted@.len() as int) =~= Seq::<Edge>::empty());
        assert(kruskal_fold(sorted@.skip(sorted@.len() as int), labels).1 == 0);
    }
    total as i32
}

/// Reads one edge of the sorted list.
fn sorted_index(edges: &Vec<Edge>, i: usize) -> (e: &Edge)
    requires
        i < edges@.len(),
    ensures
        *e == edges@[i as int],
{
    &edges[i]
}

/// Computing the minimum-spanning-tree weight is a function of the
/// graph's data alone: any two results that satisfy the contract of
/// [`calculate_min_total_weight`] for graphs holding equal node counts
/// and equal edge lists are equal — running the computation twice on
/// two clones of one graph yields identical values.
pub proof fn lemma_min_total_weight_deterministic(
    nodes_count: u32,
    edges: Seq<Edge>,
    r1: int,
    r2: int,
)
    requires
        r1 == kruskal_total(nodes_count, edges),
        r2 == kruskal_total(nodes_count, edges),
    ensures
        r1 == r2,
{
}

} // verus!
