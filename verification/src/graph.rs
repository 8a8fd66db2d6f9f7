//! The pipeline graph: a directed chain of named elements built from a
//! pipeline description string, stored in a `petgraph` directed graph.

use vstd::prelude::*;

use crate::text::char_pos;
use crate::text::is_ws_char;
use crate::text::lemma_char_pos;
use crate::text::lemma_rtrim_len;
use crate::text::lemma_ws_pos;
use crate::text::lemma_ws_run;
use crate::text::rtrim_point;
use crate::text::trim_spec;
use crate::text::ws_end;
use crate::text::ws_pos;
use crate::text::ws_run;
use crate::text::word_end;
use crate::text::find_char;

verus! {

// ---------------------------------------------------------------------------
// Trusted view of the petgraph directed graph
// ---------------------------------------------------------------------------

#[verifier::external_type_specification]
#[verifier::external_body]
#[verifier::reject_recursive_types(N)]
#[verifier::reject_recursive_types(E)]
#[verifier::reject_recursive_types(Ty)]
#[verifier::reject_recursive_types(Ix)]
pub struct ExGraph<N, E, Ty, Ix>(petgraph::graph::Graph<N, E, Ty, Ix>);

#[verifier::external_type_specification]
#[verifier::external_body]
pub struct ExDirected(petgraph::Directed);

/// The node weights of a petgraph directed graph, in index order.
pub uninterp spec fn graph_nodes(g: petgraph::graph::DiGraph<String, ()>) -> Seq<Seq<char>>;

/// The edges of a petgraph directed graph, in index order, each as the pair
/// of its source and target node indices.
pub uninterp spec fn graph_edges(g: petgraph::graph::DiGraph<String, ()>) -> Seq<(int, int)>;

/// Relies on petgraph's `Graph::new`: a fresh graph has no nodes and no
/// edges.
#[verifier::external_body]
fn graph_new() -> (g: petgraph::graph::DiGraph<String, ()>)
    ensures
        graph_nodes(g) == Seq::<Seq<char>>::empty(),
        graph_edges(g) == Seq::<(int, int)>::empty(),
{
    petgraph::graph::DiGraph::new()
}

/// Relies on petgraph's `Graph::add_node`: it appends one node holding the
/// given weight and returns its index, the old node count. It panics only
/// at the index type's maximum node count, which the precondition rules out.
#[verifier::external_body]
fn graph_add_node(g: &mut petgraph::graph::DiGraph<String, ()>, name: String) -> (i: usize)
    requires
        graph_nodes(*old(g)).len() < 0xffff_ffffusize,
    ensures
        graph_nodes(*final(g)) == graph_nodes(*old(g)).push(name@),
        graph_edges(*final(g)) == graph_edges(*old(g)),
        i == graph_nodes(*old(g)).len(),
{
    g.add_node(name).index()
}

/// Relies on petgraph's `Graph::add_edge`: it appends one edge from `a` to
/// `b`. It panics only on out-of-bounds node indices or at the index type's
/// maximum edge count, which the preconditions rule out.
#[verifier::external_body]
fn graph_add_edge(g: &mut petgraph::graph::DiGraph<String, ()>, a: usize, b: usize)
    requires
        a < graph_nodes(*old(g)).len(),
        b < graph_nodes(*old(g)).len(),
        graph_edges(*old(g)).len() < 0xffff_ffffusize,
    ensures
        graph_nodes(*final(g)) == graph_nodes(*old(g)),
        graph_edges(*final(g)) == graph_edges(*old(g)).push((a as int, b as int)),
{
    g.add_edge(
        petgraph::graph::NodeIndex::new(a),
        petgraph::graph::NodeIndex::new(b),
        (),
    );
}

/// Relies on petgraph's `Graph::node_count`: the number of nodes.
#[verifier::external_body]
fn graph_node_count(g: &petgraph::graph::DiGraph<String, ()>) -> (n: usize)
    ensures
        n == graph_nodes(*g).len(),
{
    g.node_count()
}

/// Relies on petgraph's `Graph::edge_count`: the number of edges.
#[verifier::external_body]
fn graph_edge_count(g: &petgraph::graph::DiGraph<String, ()>) -> (n: usize)
    ensures
        n == graph_edges(*g).len(),
{
    g.edge_count()
}

/// Relies on petgraph's `Graph::node_weight`: the weight stored at a valid
/// node index.
#[verifier::external_body]
fn graph_node_name(g: &petgraph::graph::DiGraph<String, ()>, i: usize) -> (r: String)
    requires
        i < graph_nodes(*g).len(),
    ensures
        r@ == graph_nodes(*g)[i as int],
{
    match g.node_weight(petgraph::graph::NodeIndex::new(i)) {
        Some(w) => w.clone(),
        None => String::new(),
    }
}

/// Relies on petgraph's `Graph::edge_endpoints`: the source and target node
/// indices of a valid edge index.
#[verifier::external_body]
fn graph_edge_endpoints(g: &petgraph::graph::DiGraph<String, ()>, i: usize) -> (r: (usize, usize))
    requires
        i < graph_edges(*g).len(),
    ensures
        (r.0 as int, r.1 as int) == graph_edges(*g)[i as int],
{
    match g.edge_endpoints(petgraph::graph::EdgeIndex::new(i)) {
        Some((a, b)) => (a.index(), b.index()),
        None => (0, 0),
    }
}

// ---------------------------------------------------------------------------
// The description grammar
// ---------------------------------------------------------------------------

/// The ordered segments of a pipeline description: the pieces between `!`
/// separators. A string without a separator is one segment.
pub open spec fn split_bang(s: Seq<char>) -> Seq<Seq<char>>
    decreases s.len(),
{
    let p = char_pos(s, '!') as int;
    if p >= s.len() {
        seq![s]
    } else {
        seq![s.take(p)] + split_bang(s.skip(p + 1))
    }
}

/// The element name a segment declares: its first whitespace-delimited
/// token, where a token containing `=` names the element by what follows
/// the first `=` (the `name=foo` alias syntax).
pub open spec fn segment_name(seg: Seq<char>) -> Seq<char> {
    let t = trim_spec(seg);
    let tok = t.take(ws_pos(t) as int);
    if char_pos(tok, '=') < tok.len() {
        tok.skip(char_pos(tok, '=') as int + 1)
    } else {
        tok
    }
}

/// The node names a pipeline description declares, in order. An empty
/// description declares no nodes at all.
pub open spec fn pipeline_nodes(desc: Seq<char>) -> Seq<Seq<char>> {
    if desc.len() == 0 {
        Seq::empty()
    } else {
        split_bang(desc).map_values(|seg: Seq<char>| segment_name(seg))
    }
}

/// The edges of a chain of `n` nodes: each node points to its immediate
/// successor.
pub open spec fn chain_edges(n: int) -> Seq<(int, int)> {
    if n <= 1 {
        Seq::empty()
    } else {
        Seq::new((n - 1) as nat, |i: int| (i, i + 1))
    }
}

pub proof fn lemma_split_bang_count(s: Seq<char>)
    ensures
        1 <= split_bang(s).len() <= s.len() + 1,
    decreases s.len(),
{
    lemma_char_pos(s, '!');
    let p = char_pos(s, '!') as int;
    if p < s.len() {
        lemma_split_bang_count(s.skip(p + 1));
    }
}

/// Reads the element name out of one description segment.
fn segment_name_exec(seg: &str) -> (r: String)
    ensures
        r@ == segment_name(seg@),
{
    let n = seg.unicode_len();
    proof {
        assert(seg@.skip(0) =~= seg@);
        lemma_ws_run(seg@);
    }
    let a = ws_end(seg, 0);
    if a == n {
        proof {
            let t = trim_spec(seg@);
            assert(t =~= Seq::<char>::empty());
            assert(t.take(ws_pos(t) as int) =~= Seq::<char>::empty());
            assert(segment_name(seg@) =~= Seq::<char>::empty());
        }
        return String::new();
    }
    let b = rtrim_point(seg);
    proof {
        lemma_rtrim_len(seg@);
        if b <= a {
            assert(is_ws_char(seg@[a as int]));
            assert(false);
        }
    }
    let ghost t = trim_spec(seg@);
    proof {
        assert(t =~= seg@.subrange(a as int, b as int));
    }
    let w = word_end(seg, a);
    let tok_end = if w < b {
        w
    } else {
        b
    };
    proof {
        lemma_ws_pos(t);
        lemma_ws_pos(seg@.skip(a as int));
        let wp = ws_pos(t) as int;
        // the first whitespace inside the trimmed segment is at tok_end
        if w < b {
            if wp < w - a {
                assert(t[wp] == seg@[a + wp]);
                assert(seg@.skip(a as int)[wp] == seg@[a + wp]);
                assert(false);
            }
            if wp > w - a {
                assert(t[w - a] == seg@[w as int]);
                assert(seg@.skip(a as int)[w - a] == seg@[w as int]);
                assert(false);
            }
        } else {
            if wp < b - a {
                assert(t[wp] == seg@[a + wp]);
                assert(seg@.skip(a as int)[wp] == seg@[a + wp]);
                assert(false);
            }
        }
        assert(ws_pos(t) == tok_end - a);
    }
    let ghost tok = t.take(ws_pos(t) as int);
    proof {
        assert(tok =~= seg@.subrange(a as int, tok_end as int));
    }
    let q = find_char(seg, a, '=');
    let cut_start = if q < tok_end {
        q + 1
    } else {
        a
    };
    proof {
        lemma_char_pos(tok, '=');
        let cp = char_pos(tok, '=') as int;
        if q < tok_end {
            if cp < q - a {
                assert(tok[cp] == seg@[a + cp]);
                assert(false);
            }
            if cp > q - a {
                assert(tok[q - a] == seg@[q as int]);
                assert(false);
            }
            assert(segment_name(seg@) == tok.skip(cp + 1));
            assert(tok.skip(cp + 1) =~= seg@.subrange(cut_start as int, tok_end as int));
        } else {
            if cp < tok.len() {
                assert(tok[cp] == seg@[a + cp]);
                assert(false);
            }
            assert(segment_name(seg@) == tok);
            assert(tok =~= seg@.subrange(cut_start as int, tok_end as int));
        }
    }
    let out = seg.substring_char(cut_start, tok_end);
    out.to_owned()
}

// ---------------------------------------------------------------------------
// The pipeline graph
// ---------------------------------------------------------------------------

/// A directed graph of named pipeline elements. Built once from a
/// description string; logically immutable afterwards.
pub struct PipelineGraph {
    graph: petgraph::graph::DiGraph<String, ()>,
}

impl PipelineGraph {
    /// The element names, in insertion order. A name identifies an element
    /// but need not be unique; colliding names still get distinct nodes.
    pub closed spec fn nodes(&self) -> Seq<Seq<char>> {
        graph_nodes(self.graph)
    }

    /// The edges, in insertion order, as pairs of node indices.
    pub closed spec fn edges(&self) -> Seq<(int, int)> {
        graph_edges(self.graph)
    }

    /// Every edge connects two nodes that exist in the node set.
    pub open spec fn wf(&self) -> bool {
        forall|i: int|
            0 <= i < self.edges().len() ==> 0 <= (#[trigger] self.edges()[i]).0
                < self.nodes().len() && 0 <= self.edges()[i].1 < self.nodes().len()
    }

    /// The number of elements.
    pub fn node_count(&self) -> (n: usize)
        ensures
            n == self.nodes().len(),
    {
        graph_node_count(&self.graph)
    }

    /// The name of the element at a valid node index.
    pub fn node_id(&self, i: usize) -> (r: String)
        requires
            i < self.nodes().len(),
        ensures
            r@ == self.nodes()[i as int],
    {
        graph_node_name(&self.graph, i)
    }

    /// The number of edges.
    pub fn edge_count(&self) -> (n: usize)
        ensures
            n == self.edges().len(),
    {
        graph_edge_count(&self.graph)
    }

    /// The source and target node indices of a valid edge index.
    pub fn edge_at(&self, i: usize) -> (r: (usize, usize))
        requires
            self.wf(),
            i < self.edges().len(),
        ensures
            (r.0 as int, r.1 as int) == self.edges()[i as int],
            r.0 < self.nodes().len(),
            r.1 < self.nodes().len(),
    {
        graph_edge_endpoints(&self.graph, i)
    }

    /// All element names, in insertion order.
    pub fn node_ids(&self) -> (r: Vec<String>)
        ensures
            r@.len() == self.nodes().len(),
            forall|i: int| 0 <= i < r@.len() ==> (#[trigger] r@[i])@ == self.nodes()[i],
    {
        let n = self.node_count();
        let mut out: Vec<String> = Vec::new();
        let mut i: usize = 0;
        while i < n
            invariant
                0 <= i <= n,
                n == self.nodes().len(),
                out@.len() == i,
                forall|j: int| 0 <= j < i ==> (#[trigger] out@[j])@ == self.nodes()[j],
            decreases n - i,
        {
            let name = self.node_id(i);
            out.push(name);
            i += 1;
        }
        out
    }
}

/// Builds the pipeline graph a description string declares: one element per
/// `!`-separated segment, in order, and an edge from each element to its
/// immediate successor. An empty description yields an empty graph.
pub fn build_graph(description: &str) -> (g: PipelineGraph)
    requires
        description@.len() < 0xffff_fffe,
    ensures
        g.wf(),
        g.nodes() == pipeline_nodes(description@),
        g.edges() == chain_edges(g.nodes().len() as int),
{
    let n = description.unicode_len();
    let mut graph = graph_new();
    if n == 0 {
        let g = PipelineGraph { graph };
        proof {
            assert(g.nodes() =~= pipeline_nodes(description@));
            assert(g.edges() =~= chain_edges(0));
        }
        return g;
    }
    let ghost names = pipeline_nodes(description@);
    proof {
        lemma_split_bang_count(description@);
        assert(description@.skip(0) =~= description@);
        assert(names =~= split_bang(description@).map_values(
            |seg: Seq<char>| segment_name(seg),
        ));
        assert(graph_nodes(graph) =~= names.take(0));
        assert(graph_edges(graph) =~= chain_edges(0));
    }
    let mut pos: usize = 0;
    let mut k: usize = 0;
    let mut done = false;
    while !done
        invariant
            n == description@.len(),
            0 < n < 0xffff_fffe,
            pos <= n,
            names == pipeline_nodes(description@),
            names.len() == split_bang(description@).len(),
            names.len() <= n + 1,
            k <= names.len(),
            graph_nodes(graph) == names.take(k as int),
            graph_edges(graph) == chain_edges(k as int),
            done ==> k == names.len(),
            !done ==> split_bang(description@).skip(k as int) == split_bang(
                description@.skip(pos as int),
            ),
            !done ==> k < names.len(),
        decreases (n - pos) + (if done { 0int } else { 1int }),
    {
        let e = find_char(description, pos, '!');
        let ghost suffix = description@.skip(pos as int);
        let ghost segs = split_bang(description@);
        proof {
            lemma_split_bang_count(description@.skip((e + 1) as int));
            let p = char_pos(suffix, '!') as int;
            assert(p == e - pos);
            if e < n {
                assert(suffix.take(p) =~= description@.subrange(pos as int, e as int));
                assert(suffix.skip(p + 1) =~= description@.skip(e + 1));
                assert(split_bang(suffix) == seq![description@.subrange(pos as int, e as int)]
                    + split_bang(description@.skip(e + 1)));
            } else {
                assert(suffix.len() == n - pos);
                assert(split_bang(suffix) == seq![suffix]);
                assert(suffix =~= description@.subrange(pos as int, n as int));
            }
            assert(segs[k as int] == split_bang(suffix)[0]);
            assert(segs[k as int] == description@.subrange(pos as int, (if e < n {
                e as int
            } else {
                n as int
            })));
        }
        let seg_hi = if e < n {
            e
        } else {
            n
        };
        let seg = description.substring_char(pos, seg_hi);
        let name = segment_name_exec(seg);
        proof {
            assert(names[k as int] == segment_name(segs[k as int]));
            assert(name@ == names[k as int]);
        }
        let idx = graph_add_node(&mut graph, name);
        proof {
            assert(graph_nodes(graph) =~= names.take(k + 1));
        }
        if k > 0 {
            graph_add_edge(&mut graph, k - 1, k);
            proof {
                assert(graph_edges(graph) =~= chain_edges((k + 1) as int));
            }
        } else {
            proof {
                assert(graph_edges(graph) =~= chain_edges(1));
            }
        }
        k += 1;
        if e >= n {
            proof {
                assert(split_bang(suffix).len() == 1);
                assert(segs.skip(k - 1).len() == 1);
                assert(k == names.len());
            }
            done = true;
        } else {
            pos = e + 1;
            proof {
                assert(segs.skip(k as int) =~= segs.skip((k - 1) as int).skip(1));
                assert(segs.skip((k - 1) as int).skip(1) =~= split_bang(
                    description@.skip(pos as int),
                ));
            }
        }
    }
    let g = PipelineGraph { graph };
    proof {
        assert(g.nodes() =~= names);
        lemma_chain_edges_wf(g.nodes().len() as int);
    }
    g
}

/// For every non-empty description the builder's result has exactly one
/// node per `!`-separated segment, in segment order, and exactly one edge
/// fewer than nodes, each edge joining a node to its immediate successor: a
/// single path.
pub proof fn lemma_builder_chain_shape(desc: Seq<char>)
    requires
        desc.len() > 0,
    ensures
        pipeline_nodes(desc).len() == split_bang(desc).len(),
        chain_edges(pipeline_nodes(desc).len() as int).len() == pipeline_nodes(desc).len() - 1,
        forall|i: int|
            0 <= i < pipeline_nodes(desc).len() - 1 ==> #[trigger] chain_edges(
                pipeline_nodes(desc).len() as int,
            )[i] == (i, i + 1),
{
    lemma_split_bang_count(desc);
}

/// Building twice from the same description is idempotent: the two graphs
/// are structurally identical — same node ids in the same order, same
/// edges — though they are distinct instances.
pub proof fn lemma_build_idempotent(g1: PipelineGraph, g2: PipelineGraph, desc: Seq<char>)
    requires
        g1.nodes() == pipeline_nodes(desc),
        g1.edges() == chain_edges(g1.nodes().len() as int),
        g2.nodes() == pipeline_nodes(desc),
        g2.edges() == chain_edges(g2.nodes().len() as int),
    ensures
        g1.nodes() == g2.nodes(),
        g1.edges() == g2.edges(),
{
}

/// Every chain edge connects existing nodes.
proof fn lemma_chain_edges_wf(n: int)
    ensures
        forall|i: int|
            0 <= i < chain_edges(n).len() ==> 0 <= (#[trigger] chain_edges(n)[i]).0 < n && 0 <= chain_edges(
                n,
            )[i].1 < n,
{
}

} // verus!
