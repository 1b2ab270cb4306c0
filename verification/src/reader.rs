//! Building a graph from its textual description.
//!
//! The input is split into lines exactly as the line grammar below
//! specifies: lines end at a line feed, and a carriage return directly
//! before a line feed is not part of the line.  The first line carries
//! the graph parameters; every following line describes one edge and is
//! numbered from 1.  [`spec_build_graph`] is the specification of the
//! whole pipeline, and [`build_graph`] is proved to implement it.

use crate::errors::{build_error_view, BuildGraphError, BuildGraphErrorView,
    GraphParametersParsingError, GraphParametersParsingErrorView};
use crate::structures::{add_edge_spec, build_spec, spec_edge_line, spec_params, Edge,
    EdgeDescription, Graph, GraphBuilder, GraphBuilderView, GraphParameters, GraphView};
use crate::text::{find_nl_idx, find_line_feed, lemma_find_nl_bounds};
use vstd::prelude::*;
use vstd::string::StrSliceExecFns;

verus! {

/// Removes one trailing carriage return, if present.
pub open spec fn strip_cr(line: Seq<char>) -> Seq<char> {
    if line.len() > 0 && line.last() == '\r' {
        line.drop_last()
    } else {
        line
    }
}

/// The lines of `s`: split at each line feed, with a carriage return
/// directly before the line feed stripped.  A final line ending is
/// optional, and a trailing carriage return without a line feed stays.
pub open spec fn spec_lines(s: Seq<char>) -> Seq<Seq<char>>
    decreases s.len(),
{
    if s.len() == 0 {
        Seq::empty()
    } else {
        let i = find_nl_idx(s, 0);
        if 0 <= i < s.len() {
            seq![strip_cr(s.take(i))] + spec_lines(s.skip(i + 1))
        } else {
            seq![s]
        }
    }
}

/// There are never more lines than characters.
proof fn lemma_spec_lines_count(s: Seq<char>)
    ensures
        spec_lines(s).len() <= s.len(),
    decreases s.len(),
{
    if s.len() > 0 {
        lemma_find_nl_bounds(s, 0);
        let i = find_nl_idx(s, 0);
        if 0 <= i < s.len() {
            lemma_spec_lines_count(s.skip(i + 1));
        }
    }
}

/// Scanning for a line feed in a suffix mirrors scanning the whole text.
proof fn lemma_find_nl_skip(s: Seq<char>, p: int, k: int)
    requires
        0 <= p,
        0 <= k,
        p + k <= s.len(),
    ensures
        find_nl_idx(s.skip(p), k) == find_nl_idx(s, p + k) - p,
    decreases s.len() - p - k,
{
    if p + k < s.len() {
        assert(s.skip(p)[k] == s[p + k]);
        if s[p + k] != '\n' {
            lemma_find_nl_skip(s, p, k + 1);
        }
    }
}

/// Walks the lines of a graph description: first the parameter line,
/// then one edge per line.
pub struct GraphDescriptionReader<'a> {
    /// The whole description.
    s: &'a str,
    /// Character length of the description.
    len: usize,
    /// Character position of the next unread line.
    pos: usize,
}

impl<'a> GraphDescriptionReader<'a> {
    /// The position is a valid index into the text.
    pub closed spec fn wf(&self) -> bool {
        self.len == self.s@.len() && self.pos <= self.len
    }

    /// The lines not yet read.
    pub closed spec fn remaining(&self) -> Seq<Seq<char>> {
        spec_lines(self.s@.skip(self.pos as int))
    }

    /// Creates a reader over a whole description.
    pub fn new(input: &'a str) -> (r: Self)
        ensures
            r.wf(),
            r.remaining() == spec_lines(input@),
            input@.len() <= usize::MAX,
    {
        let len = input.unicode_len();
        let r = GraphDescriptionReader { s: input, len, pos: 0 };
        proof {
            assert(input@.skip(0) =~= input@);
        }
        r
    }

    /// Hands out the next line, or `None` when the text is exhausted.
    fn next_line(&mut self) -> (r: Option<&'a str>)
        requires
            old(self).wf(),
        ensures
            final(self).wf(),
            old(self).remaining().len() == 0 ==> r is None && final(self).remaining() == old(
                self,
            ).remaining(),
            old(self).remaining().len() > 0 ==> (r matches Some(line) && line@ == old(
                self,
            ).remaining()[0] && final(self).remaining() == old(self).remaining().drop_first()),
    {
        let ghost t = self.s@.skip(self.pos as int);
        if self.pos == self.len {
            proof {
                assert(t =~= Seq::<char>::empty());
            }
            return None;
        }
        proof {
            lemma_find_nl_skip(self.s@, self.pos as int, 0);
            lemma_find_nl_bounds(self.s@, self.pos as int);
        }
        let e = find_line_feed(self.s, self.pos, self.len);
        let ghost i = find_nl_idx(t, 0);
        proof {
            assert(i == e - self.pos);
        }
        let line_end: usize = if e < self.len && e > self.pos && self.s.get_char(e - 1) == '\r' {
            e - 1
        } else {
            e
        };
        let line = self.s.substring_char(self.pos, line_end);
        let ghost oldpos = self.pos as int;
        proof {
            assert(t.take(i) =~= self.s@.subrange(oldpos, e as int));
            if e < self.len {
                if e > self.pos && self.s@[e - 1] == '\r' {
                    assert(t.take(i).len() > 0 && t.take(i).last() == '\r');
                    assert(strip_cr(t.take(i)) =~= self.s@.subrange(oldpos, line_end as int));
                } else {
                    assert(!(t.take(i).len() > 0 && t.take(i).last() == '\r'));
                    assert(strip_cr(t.take(i)) == t.take(i));
                }
                assert(line@ == strip_cr(t.take(i)));
                assert(spec_lines(t) == seq![strip_cr(t.take(i))] + spec_lines(t.skip(i + 1)));
                assert(spec_lines(t)[0] == strip_cr(t.take(i)));
            } else {
                assert(i == t.len());
                assert(t.take(i) =~= t);
                assert(line@ == t);
                assert(spec_lines(t) == seq![t]);
                assert(spec_lines(t)[0] == t);
            }
        }
        if e < self.len {
            self.pos = e + 1;
            proof {
                assert(self.s@.skip(self.pos as int) =~= t.skip(i + 1));
                assert(self.remaining() =~= spec_lines(t).drop_first());
            }
        } else {
            self.pos = self.len;
            proof {
                assert(self.s@.skip(self.pos as int) =~= Seq::<char>::empty());
                assert(self.remaining() =~= spec_lines(t).drop_first());
            }
        }
        Some(line)
    }

    /// Whether any line is left to read.
    fn has_more(&self) -> (r: bool)
        requires
            self.wf(),
        ensures
            r == (self.remaining().len() > 0),
    {
        proof {
            if self.pos < self.len {
                assert(self.s@.skip(self.pos as int).len() > 0);
                assert(self.remaining().len() > 0);
            } else {
                assert(self.s@.skip(self.pos as int) =~= Seq::<char>::empty());
            }
        }
        self.pos < self.len
    }

    /// Reads the graph parameters from the next line; with no line left
    /// the input is empty.
    pub fn graph_parameters(&mut self) -> (r: Result<GraphParameters, BuildGraphError>)
        requires
            old(self).wf(),
        ensures
            final(self).wf(),
            old(self).remaining().len() == 0 ==> (r matches Err(e) && build_error_view(e)
                == BuildGraphErrorView::GraphParametersParsingError(
                GraphParametersParsingErrorView::EmptyInput,
            )),
            old(self).remaining().len() > 0 ==> final(self).remaining() == old(
                self,
            ).remaining().drop_first() && (match r {
                Ok(gp) => spec_params(old(self).remaining()[0]) == Ok::<GraphParameters,
                    BuildGraphErrorView>(gp),
                Err(e) => spec_params(old(self).remaining()[0]) == Err::<GraphParameters,
                    BuildGraphErrorView>(build_error_view(e)),
            }),
    {
        match self.next_line() {
            None => Err(BuildGraphError::GraphParametersParsingError(
                GraphParametersParsingError::EmptyInput,
            )),
            Some(line) => GraphParameters::try_from(line),
        }
    }

    /// Reads the next line as an edge, or `None` when the text is
    /// exhausted.
    fn next_edge(&mut self) -> (r: Option<Result<Edge, BuildGraphError>>)
        requires
            old(self).wf(),
        ensures
            final(self).wf(),
            old(self).remaining().len() == 0 ==> r is None && final(self).remaining() == old(
                self,
            ).remaining(),
            old(self).remaining().len() > 0 ==> (r matches Some(er) && final(self).remaining()
                == old(self).remaining().drop_first() && (match er {
                Ok(edge) => spec_edge_line(old(self).remaining()[0]) == Ok::<Edge,
                    BuildGraphErrorView>(edge),
                Err(e) => spec_edge_line(old(self).remaining()[0]) == Err::<Edge,
                    BuildGraphErrorView>(build_error_view(e)),
            })),
    {
        match self.next_line() {
            None => None,
            Some(line) => Some(
                match EdgeDescription::try_from(line) {
                    Ok(ed) => Edge::try_from(ed),
                    Err(e) => Err(e),
                },
            ),
        }
    }
}

/// Feeding a sequence of edge lines into a builder: each line is parsed
/// and added in turn, and the first failure is wrapped with its 1-based
/// line number, `line_no` being the number of the first line of `lines`.
pub open spec fn spec_feed(
    b: GraphBuilderView,
    lines: Seq<Seq<char>>,
    line_no: int,
) -> Result<GraphBuilderView, BuildGraphErrorView>
    decreases lines.len(),
{
    if lines.len() == 0 {
        Ok(b)
    } else {
        let first = match spec_edge_line(lines[0]) {
            Ok(edge) => add_edge_spec(b, edge),
            Err(e) => Err(e),
        };
        match first {
            Ok(b2) => spec_feed(b2, lines.drop_first(), line_no + 1),
            Err(e) => Err(BuildGraphErrorView::ErrorInGraphDescriptionFile {
                line_no: line_no as usize,
                error: Box::new(e),
            }),
        }
    }
}

/// The whole pipeline: the first line gives the parameters, every later
/// line one edge, and the finished builder must hold exactly the
/// declared number of edges and describe a connected graph.
pub open spec fn spec_build_graph(s: Seq<char>) -> Result<GraphView, BuildGraphErrorView> {
    let lines = spec_lines(s);
    if lines.len() == 0 {
        Err(BuildGraphErrorView::GraphParametersParsingError(
            GraphParametersParsingErrorView::EmptyInput,
        ))
    } else {
        match spec_params(lines[0]) {
            Err(e) => Err(e),
            Ok(gp) => {
                let b0 = GraphBuilderView {
                    nodes_count: gp.nodes_count,
                    max_edges_count: gp.edges_count,
                    edges: Seq::empty(),
                };
                match spec_feed(b0, lines.drop_first(), 1) {
                    Err(e) => Err(e),
                    Ok(b) => build_spec(b),
                }
            },
        }
    }
}

/// Builds a graph from a textual description.
///
/// The result is exactly what [`spec_build_graph`] assigns to the input;
/// a successful build is well formed and connected, and holds as many
/// edges as the description declared.
pub fn build_graph(input: &str) -> (r: Result<Graph, BuildGraphError>)
    ensures
        match r {
            Ok(g) => spec_build_graph(input@) == Ok::<GraphView, BuildGraphErrorView>(g@),
            Err(e) => spec_build_graph(input@) == Err::<GraphView, BuildGraphErrorView>(
                build_error_view(e),
            ),
        },
        r matches Ok(g) ==> g.wf() && crate::dfs::spec_connected(g@.nodes_count, g@.edges),
{
    let ghost lines = spec_lines(input@);
    let mut reader = GraphDescriptionReader::new(input);
    let gp = match reader.graph_parameters() {
        Ok(gp) => gp,
        Err(e) => {
            return Err(e);
        },
    };
    let ghost all = lines.drop_first();
    let mut builder = GraphBuilder::new(gp);
    let ghost b0 = builder@;
    let mut line_no: usize = 0;
    proof {
        lemma_spec_lines_count(input@);
        assert(all.skip(0) =~= all);
    }
    while reader.has_more()
        invariant
            reader.wf(),
            builder.wf(),
            lines == spec_lines(input@),
            lines.len() > 0,
            spec_params(lines[0]) == Ok::<GraphParameters, BuildGraphErrorView>(gp),
            b0 == (GraphBuilderView {
                nodes_count: gp.nodes_count,
                max_edges_count: gp.edges_count,
                edges: Seq::<Edge>::empty(),
            }),
            all == lines.drop_first(),
            line_no <= all.len(),
            all.len() < usize::MAX,
            reader.remaining() == all.skip(line_no as int),
            spec_feed(b0, all, 1) == spec_feed(builder@, all.skip(line_no as int), line_no + 1),
        decreases all.len() - line_no,
    {
        let er = match reader.next_edge() {
            Some(er) => er,
            None => {
                // unreachable: the loop condition guarantees a line
                proof {
                    assert(false);
                }
                return Err(BuildGraphError::GraphNotConnected);
            },
        };
        let ghost cur = all.skip(line_no as int);
        proof {
            assert(cur.drop_first() =~= all.skip(line_no as int + 1));
        }
        match er {
            Err(e) => {
                let wrapped = BuildGraphError::ErrorInGraphDescriptionFile {
                    line_no: line_no + 1,
                    error: Box::new(e),
                };
                proof {
                    assert(spec_feed(builder@, cur, line_no + 1) == Err::<GraphBuilderView,
                        BuildGraphErrorView>(BuildGraphErrorView::ErrorInGraphDescriptionFile {
                        line_no: (line_no + 1) as usize,
                        error: Box::new(build_error_view(e)),
                    }));
                }
                return Err(wrapped);
            },
            Ok(edge) => {
                let ghost bprev = builder@;
                match builder.add_edge(edge) {
                    Ok(()) => {
                        proof {
                            assert(spec_feed(bprev, cur, line_no + 1) == spec_feed(
                                builder@,
                                cur.drop_first(),
                                line_no + 2,
                            ));
                        }
                        line_no = line_no + 1;
                    },
                    Err(e) => {
                        let wrapped = BuildGraphError::ErrorInGraphDescriptionFile {
                            line_no: line_no + 1,
                            error: Box::new(e),
                        };
                        proof {
                            assert(spec_feed(bprev, cur, line_no + 1) == Err::<GraphBuilderView,
                                BuildGraphErrorView>(
                                BuildGraphErrorView::ErrorInGraphDescriptionFile {
                                    line_no: (line_no + 1) as usize,
                                    error: Box::new(build_error_view(e)),
                                },
                            ));
                        }
                        return Err(wrapped);
                    },
                }
            },
        }
    }
    proof {
        assert(all.skip(line_no as int).len() == 0);
        assert(spec_feed(builder@, all.skip(line_no as int), line_no + 1) == Ok::<
            GraphBuilderView,
            BuildGraphErrorView,
        >(builder@));
    }
    builder.build()
}

/// Feeding preserves the builder's bounds: the node count and the
/// declared edge count never change, the edge list never exceeds the
/// declared count, and every accepted edge is valid.
proof fn lemma_spec_feed_wf(b: GraphBuilderView, lines: Seq<Seq<char>>, line_no: int)
    requires
        b.edges.len() <= b.max_edges_count,
        crate::structures::edges_valid(b.edges, b.nodes_count),
    ensures
        spec_feed(b, lines, line_no) matches Ok(b2) ==> b2.nodes_count == b.nodes_count
            && b2.max_edges_count == b.max_edges_count && b2.edges.len() <= b2.max_edges_count
            && crate::structures::edges_valid(b2.edges, b2.nodes_count),
    decreases lines.len(),
{
    if lines.len() > 0 {
        match spec_edge_line(lines[0]) {
            Ok(edge) => {
                match add_edge_spec(b, edge) {
                    Ok(b2) => {
                        assert forall|i: int|
                            0 <= i < b2.edges.len() implies crate::structures::edge_valid(
                            #[trigger] b2.edges[i],
                            b2.nodes_count,
                        ) by {
                            if i < b.edges.len() {
                                assert(crate::structures::edge_valid(b.edges[i], b.nodes_count));
                            }
                        }
                        lemma_spec_feed_wf(b2, lines.drop_first(), line_no + 1);
                    },
                    Err(_) => {},
                }
            },
            Err(_) => {},
        }
    }
}

/// A successful build delivers exactly what the first line declared:
/// the declared node count, exactly the declared number of edges, every
/// edge index in `1..=nodes_count`, and a connected graph.
pub proof fn lemma_built_graph_matches_declaration(s: Seq<char>, g: GraphView)
    requires
        spec_build_graph(s) == Ok::<GraphView, BuildGraphErrorView>(g),
    ensures
        spec_lines(s).len() > 0,
        spec_params(spec_lines(s)[0]) matches Ok(gp) && g.nodes_count == gp.nodes_count
            && g.edges.len() == gp.edges_count,
        crate::structures::edges_valid(g.edges, g.nodes_count),
        crate::dfs::spec_connected(g.nodes_count, g.edges),
{
    let lines = spec_lines(s);
    let gp = spec_params(lines[0])->Ok_0;
    let b0 = GraphBuilderView {
        nodes_count: gp.nodes_count,
        max_edges_count: gp.edges_count,
        edges: Seq::empty(),
    };
    lemma_spec_feed_wf(b0, lines.drop_first(), 1);
}

} // verus!
