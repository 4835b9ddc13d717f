//! The node/edge/stream data model.
//!
//! A pipeline graph is a persistent, append-only arena of immutable nodes.
//! Every edge points from a consuming node to a strictly earlier node in the
//! arena, so a well-formed graph is acyclic by construction.  Node identity is
//! a structural 64-bit hash of the node's own configuration and its whole
//! upstream subgraph; equality of nodes is defined as equality of hashes (a
//! deliberate simplification: hash collisions are accepted as equality).

use vstd::prelude::*;
use crate::strutil::{lex_lt, str_lt, str_eq, lemma_lex_trichotomy, lemma_lex_transitive};

verus! {

broadcast use vstd::string::group_string_axioms;

/// The three pipeline stage kinds.
#[derive(Clone, Copy, PartialEq, Eq, Structural, Debug)]
pub enum NodeKind {
    Input,
    Filter,
    Output,
}

/// Everything that can go wrong while narrowing a stream or compiling a graph.
#[derive(Clone, Copy, PartialEq, Eq, Structural, Debug)]
pub enum GraphError {
    /// The reachable graph contains a cycle (under hash identity).
    NotADag,
    /// A selector was requested on a stream that already carries one, or an
    /// unknown selector was requested.
    InvalidSelector,
    /// A filter output pin feeds more than one consumer.
    FanoutViolation,
    /// An input or output node lacks its mandatory "filename" option.
    MissingRequiredOption,
}

/// A directed connection into a node: the producing side of the edge.
#[derive(Clone)]
pub struct Edge {
    /// Arena index of the upstream (producing) node.
    pub upstream: usize,
    /// Output-pin label on the upstream node.
    pub label: String,
    /// Optional sub-stream discriminator (audio/video).
    pub selector: Option<char>,
}

/// A pipeline stage.  Incoming edges are keyed by position: the edge at
/// position `j` feeds the node's input pin `j`.  Outgoing edges are never
/// stored; they are recovered by traversal.
#[derive(Clone)]
pub struct Node {
    pub kind: NodeKind,
    /// Operation identifier: the filter name, or a fixed tag for input/output.
    pub name: String,
    /// Option mapping, kept sorted strictly by key.
    pub kwargs: Vec<(String, String)>,
    pub incoming: Vec<Edge>,
    /// Structural hash of the subgraph rooted at this node.
    pub h: u64,
}

/// An arena of nodes; edges address nodes by index.
#[derive(Clone)]
pub struct Graph {
    pub nodes: Vec<Node>,
}

/// A caller-facing handle to one output pin of one node, optionally narrowed
/// by a selector.  Each stream owns the whole arena its node lives in.
#[derive(Clone)]
pub struct Stream {
    pub graph: Graph,
    pub index: usize,
    pub label: String,
    pub selector: Option<char>,
}

/// Mathematical model of an edge.
#[verifier::ext_equal]
pub ghost struct GEdge {
    pub upstream: int,
    pub label: Seq<char>,
    pub selector: Option<char>,
}

/// Mathematical model of a node.
#[verifier::ext_equal]
pub ghost struct GNode {
    pub kind: NodeKind,
    pub name: Seq<char>,
    pub kwargs: Seq<(Seq<char>, Seq<char>)>,
    pub incoming: Seq<GEdge>,
    pub h: u64,
}

/// Mathematical model of a stream handle.
#[verifier::ext_equal]
pub ghost struct GStream {
    pub nodes: Seq<GNode>,
    pub index: int,
    pub label: Seq<char>,
    pub selector: Option<char>,
}

impl View for Edge {
    type V = GEdge;

    open spec fn view(&self) -> GEdge {
        GEdge { upstream: self.upstream as int, label: self.label@, selector: self.selector }
    }
}

/// The view of an option list: each key and value as a character sequence.
pub open spec fn kw_view(s: Seq<(String, String)>) -> Seq<(Seq<char>, Seq<char>)> {
    Seq::new(s.len(), |i: int| (s[i].0@, s[i].1@))
}

impl View for Node {
    type V = GNode;

    open spec fn view(&self) -> GNode {
        GNode {
            kind: self.kind,
            name: self.name@,
            kwargs: kw_view(self.kwargs@),
            incoming: Seq::new(self.incoming@.len(), |i: int| self.incoming@[i]@),
            h: self.h,
        }
    }
}

impl View for Graph {
    type V = Seq<GNode>;

    open spec fn view(&self) -> Seq<GNode> {
        Seq::new(self.nodes@.len(), |i: int| self.nodes@[i]@)
    }
}

impl View for Stream {
    type V = GStream;

    open spec fn view(&self) -> GStream {
        GStream {
            nodes: self.graph@,
            index: self.index as int,
            label: self.label@,
            selector: self.selector,
        }
    }
}

/// Every edge points to a strictly earlier arena slot.
pub open spec fn downward(g: Seq<GNode>) -> bool {
    forall|i: int, j: int|
        0 <= i < g.len() && 0 <= j < g[i].incoming.len() ==> 0 <= #[trigger] g[i].incoming[j].upstream
            < i
}

/// An option list sorted strictly by key (hence with unique keys).
pub open spec fn kw_sorted(kw: Seq<(Seq<char>, Seq<char>)>) -> bool {
    forall|i: int, j: int| 0 <= i < j < kw.len() ==> lex_lt(#[trigger] kw[i].0, #[trigger] kw[j].0)
}

/// Wrapped sum of the code points of a character sequence.
pub open spec fn char_sum(s: Seq<char>) -> u64
    decreases s.len(),
{
    if s.len() == 0 {
        0u64
    } else {
        char_sum(s.drop_last()).wrapping_add((s.last() as u32) as u64)
    }
}

/// Polynomial hash of a character sequence.
pub open spec fn hash_chars(s: Seq<char>) -> u64
    decreases s.len(),
{
    if s.len() == 0 {
        0xcbf29ce484222325u64
    } else {
        hash_chars(s.drop_last()).wrapping_mul(0x100000001b3u64).wrapping_add(
            (s.last() as u32) as u64,
        )
    }
}

/// Hash of an option mapping, over its canonical (sorted) order.
pub open spec fn kwargs_hash(kw: Seq<(Seq<char>, Seq<char>)>) -> u64
    decreases kw.len(),
{
    if kw.len() == 0 {
        7u64
    } else {
        kwargs_hash(kw.drop_last()).wrapping_mul(31u64).wrapping_add(
            hash_chars(kw.last().0).wrapping_mul(3u64).wrapping_add(hash_chars(kw.last().1)),
        )
    }
}

/// Numeric tag of a node kind, mixed into the node's own hash.
pub open spec fn kind_code(k: NodeKind) -> u64 {
    match k {
        NodeKind::Input => 1u64,
        NodeKind::Filter => 2u64,
        NodeKind::Output => 3u64,
    }
}

/// Numeric code of an optional selector, mixed into an edge's hash.
pub open spec fn sel_code(s: Option<char>) -> u64 {
    match s {
        None => 0u64,
        Some(c) => ((c as u32) as u64).wrapping_add(1u64),
    }
}

/// Hash of a node's own configuration: kind, name and option mapping.
pub open spec fn own_hash(kind: NodeKind, name: Seq<char>, kwargs: Seq<(Seq<char>, Seq<char>)>) -> u64 {
    hash_chars(name).wrapping_mul(0x9e3779b9u64).wrapping_add(kwargs_hash(kwargs)).wrapping_add(
        kind_code(kind),
    )
}

/// Hash of the edge tuple (downstream pin, upstream subgraph hash, upstream
/// pin label, upstream selector) for edge `j` of node `i`.
pub open spec fn edge_term(g: Seq<GNode>, i: int, j: int) -> u64
    decreases i, 0int, j
        when downward(g) && 0 <= i < g.len() && 0 <= j < g[i].incoming.len()
{
    let e = g[i].incoming[j];
    node_hash(g, e.upstream).wrapping_mul(0x100000001b3u64).wrapping_add(
        hash_chars(e.label),
    ).wrapping_mul(31u64).wrapping_add(sel_code(e.selector)).wrapping_mul(31u64).wrapping_add(
        j as u64,
    )
}

/// Wrapped (order-independent) sum of the edge tuple hashes of the first `j`
/// incoming edges of node `i`.
pub open spec fn edges_hash(g: Seq<GNode>, i: int, j: int) -> u64
    decreases i, 1int, j
        when downward(g) && 0 <= i < g.len() && 0 <= j <= g[i].incoming.len()
{
    if j <= 0 {
        0u64
    } else {
        edges_hash(g, i, j - 1).wrapping_add(edge_term(g, i, j - 1))
    }
}

/// Structural hash of the subgraph rooted at node `i`: the node's own hash
/// combined with the sum of all incoming edge tuple hashes.  The definition
/// never reads the stored `h` fields; it is a pure function of the structure.
pub open spec fn node_hash(g: Seq<GNode>, i: int) -> u64
    decreases i, 2int, 0int
        when downward(g) && 0 <= i < g.len()
{
    own_hash(g[i].kind, g[i].name, g[i].kwargs).wrapping_add(
        edges_hash(g, i, g[i].incoming.len() as int),
    )
}

/// A well-formed node: canonical options, inputs have no incoming edges, and
/// the stored hash is the structural hash.
pub open spec fn node_wf(g: Seq<GNode>, i: int) -> bool {
    &&& kw_sorted(g[i].kwargs)
    &&& (g[i].kind is Input ==> g[i].incoming.len() == 0)
    &&& g[i].h == node_hash(g, i)
}

/// A well-formed graph: an acyclic-by-construction arena of well-formed nodes.
pub open spec fn graph_wf(g: Seq<GNode>) -> bool {
    &&& downward(g)
    &&& forall|i: int| 0 <= i < g.len() ==> node_wf(g, i)
}

/// A well-formed stream handle into a well-formed graph.
pub open spec fn stream_wf(s: GStream) -> bool {
    &&& graph_wf(s.nodes)
    &&& 0 <= s.index < s.nodes.len()
}

/// Identity of a stream: the node's structural hash summed with the code
/// points of the output-pin label.
pub open spec fn stream_hash(s: GStream) -> u64 {
    s.nodes[s.index].h.wrapping_add(char_sum(s.label))
}

/// The structural hash of a node only depends on the arena slots at or below
/// it, so extending the arena preserves it.
pub proof fn lemma_node_hash_prefix(g1: Seq<GNode>, g2: Seq<GNode>, i: int)
    requires
        downward(g1),
        downward(g2),
        g1.len() <= g2.len(),
        forall|k: int| 0 <= k < g1.len() ==> g1[k] == g2[k],
        0 <= i < g1.len(),
    ensures
        node_hash(g2, i) == node_hash(g1, i),
    decreases i, 1int,
{
    lemma_edges_hash_prefix(g1, g2, i, g1[i].incoming.len() as int);
}

proof fn lemma_edges_hash_prefix(g1: Seq<GNode>, g2: Seq<GNode>, i: int, j: int)
    requires
        downward(g1),
        downward(g2),
        g1.len() <= g2.len(),
        forall|k: int| 0 <= k < g1.len() ==> g1[k] == g2[k],
        0 <= i < g1.len(),
        0 <= j <= g1[i].incoming.len(),
    ensures
        edges_hash(g2, i, j) == edges_hash(g1, i, j),
        j < g1[i].incoming.len() ==> edge_term(g2, i, j) == edge_term(g1, i, j),
    decreases i, 0int, j,
{
    if j < g1[i].incoming.len() {
        lemma_node_hash_prefix(g1, g2, g1[i].incoming[j].upstream);
    }
    if j > 0 {
        lemma_edges_hash_prefix(g1, g2, i, j - 1);
        lemma_node_hash_prefix(g1, g2, g1[i].incoming[j - 1].upstream);
    }
}

/// Shifting a whole arena by an offset (as when two arenas are appended)
/// preserves every structural hash.
pub proof fn lemma_node_hash_shift(g1: Seq<GNode>, g2: Seq<GNode>, off: int, i: int)
    requires
        downward(g1),
        downward(g2),
        0 <= off,
        off + g1.len() <= g2.len(),
        forall|k: int| #![trigger g2[off + k]]
            0 <= k < g1.len() ==> {
                let a = g1[k];
                let b = g2[off + k];
                &&& b.kind == a.kind
                &&& b.name == a.name
                &&& b.kwargs == a.kwargs
                &&& b.incoming.len() == a.incoming.len()
                &&& forall|j: int|
                    0 <= j < a.incoming.len() ==> #[trigger] b.incoming[j] == GEdge {
                        upstream: a.incoming[j].upstream + off,
                        ..a.incoming[j]
                    }
            },
        0 <= i < g1.len(),
    ensures
        node_hash(g2, off + i) == node_hash(g1, i),
    decreases i, 1int,
{
    lemma_edges_hash_shift(g1, g2, off, i, g1[i].incoming.len() as int);
}

proof fn lemma_edges_hash_shift(g1: Seq<GNode>, g2: Seq<GNode>, off: int, i: int, j: int)
    requires
        downward(g1),
        downward(g2),
        0 <= off,
        off + g1.len() <= g2.len(),
        forall|k: int| #![trigger g2[off + k]]
            0 <= k < g1.len() ==> {
                let a = g1[k];
                let b = g2[off + k];
                &&& b.kind == a.kind
                &&& b.name == a.name
                &&& b.kwargs == a.kwargs
                &&& b.incoming.len() == a.incoming.len()
                &&& forall|j2: int|
                    0 <= j2 < a.incoming.len() ==> #[trigger] b.incoming[j2] == GEdge {
                        upstream: a.incoming[j2].upstream + off,
                        ..a.incoming[j2]
                    }
            },
        0 <= i < g1.len(),
        0 <= j <= g1[i].incoming.len(),
    ensures
        edges_hash(g2, off + i, j) == edges_hash(g1, i, j),
        j < g1[i].incoming.len() ==> edge_term(g2, off + i, j) == edge_term(g1, i, j),
    decreases i, 0int, j,
{
    if j < g1[i].incoming.len() {
        lemma_node_hash_shift(g1, g2, off, g1[i].incoming[j].upstream);
    }
    if j > 0 {
        lemma_edges_hash_shift(g1, g2, off, i, j - 1);
        lemma_node_hash_shift(g1, g2, off, g1[i].incoming[j - 1].upstream);
    }
}

/// Inserts a binding into a canonically ordered option mapping, replacing an
/// existing binding of the same key.
pub open spec fn kw_insert(
    m: Seq<(Seq<char>, Seq<char>)>,
    k: Seq<char>,
    v: Seq<char>,
) -> Seq<(Seq<char>, Seq<char>)>
    decreases m.len(),
{
    if m.len() == 0 {
        seq![(k, v)]
    } else if lex_lt(k, m[0].0) {
        seq![(k, v)] + m
    } else if k == m[0].0 {
        m.update(0, (k, v))
    } else {
        seq![m[0]] + kw_insert(m.skip(1), k, v)
    }
}

/// The canonical form of an option list: sorted strictly by key, later
/// bindings of a key replacing earlier ones.
pub open spec fn kw_canon(s: Seq<(Seq<char>, Seq<char>)>) -> Seq<(Seq<char>, Seq<char>)>
    decreases s.len(),
{
    if s.len() == 0 {
        Seq::empty()
    } else {
        kw_insert(kw_canon(s.drop_last()), s.last().0, s.last().1)
    }
}

/// Looks a key up in an option mapping; the earliest binding wins.
pub open spec fn kw_get(m: Seq<(Seq<char>, Seq<char>)>, k: Seq<char>) -> Option<Seq<char>>
    decreases m.len(),
{
    if m.len() == 0 {
        None
    } else {
        match kw_get(m.drop_last(), k) {
            Some(v) => Some(v),
            None => if m.last().0 == k {
                Some(m.last().1)
            } else {
                None
            },
        }
    }
}

/// `kw_insert` on a sorted mapping is a replacement or a splice at the first
/// position whose key is not smaller than the inserted key.
proof fn lemma_kw_insert_splice(m: Seq<(Seq<char>, Seq<char>)>, k: Seq<char>, v: Seq<char>, idx: int)
    requires
        kw_sorted(m),
        0 <= idx <= m.len(),
        forall|t: int| 0 <= t < idx ==> lex_lt(#[trigger] m[t].0, k),
        idx < m.len() ==> !lex_lt(m[idx].0, k),
    ensures
        idx < m.len() && m[idx].0 == k ==> kw_insert(m, k, v) == m.update(idx, (k, v)),
        !(idx < m.len() && m[idx].0 == k) ==> kw_insert(m, k, v) == m.take(idx) + seq![(k, v)]
            + m.skip(idx),
    decreases m.len(),
{
    if m.len() == 0 {
        assert(kw_insert(m, k, v) =~= m.take(0) + seq![(k, v)] + m.skip(0));
    } else if idx == 0 {
        lemma_lex_trichotomy(k, m[0].0);
        if m[0].0 == k {
        } else {
            assert(lex_lt(k, m[0].0));
            assert(kw_insert(m, k, v) =~= m.take(0) + seq![(k, v)] + m.skip(0));
        }
    } else {
        lemma_lex_trichotomy(k, m[0].0);
        let m1 = m.skip(1);
        assert(forall|i: int, j: int|
            0 <= i < j < m1.len() ==> lex_lt(#[trigger] m1[i].0, #[trigger] m1[j].0)) by {
            assert(forall|i: int| 0 <= i < m1.len() ==> m1[i] == m[i + 1]);
        }
        assert(forall|t: int| 0 <= t < idx - 1 ==> lex_lt(#[trigger] m1[t].0, k)) by {
            assert(forall|t: int| 0 <= t < m1.len() ==> m1[t] == m[t + 1]);
        }
        lemma_kw_insert_splice(m1, k, v, idx - 1);
        if idx < m.len() && m[idx].0 == k {
            assert(m1[idx - 1] == m[idx]);
            assert(kw_insert(m, k, v) =~= m.update(idx, (k, v)));
        } else {
            assert(kw_insert(m, k, v) =~= m.take(idx) + seq![(k, v)] + m.skip(idx));
        }
    }
}

/// Inserts a binding into a canonically ordered option list, keeping it
/// canonically ordered.
pub fn kw_insert_exec(m: &mut Vec<(String, String)>, k: String, v: String)
    requires
        kw_sorted(kw_view(old(m)@)),
    ensures
        kw_view(final(m)@) == kw_insert(kw_view(old(m)@), k@, v@),
        kw_sorted(kw_view(final(m)@)),
{
    let ghost gm = kw_view(m@);
    let mut idx: usize = 0;
    while idx < m.len() && str_lt(m[idx].0.as_str(), k.as_str())
        invariant
            0 <= idx <= m.len(),
            kw_view(m@) == gm,
            kw_sorted(gm),
            forall|t: int| 0 <= t < idx ==> lex_lt(#[trigger] gm[t].0, k@),
        decreases m.len() - idx,
    {
        idx = idx + 1;
    }
    proof {
        lemma_kw_insert_splice(gm, k@, v@, idx as int);
    }
    if idx < m.len() && str_eq(m[idx].0.as_str(), k.as_str()) {
        m.set(idx, (k, v));
        proof {
            assert(kw_view(m@) =~= gm.update(idx as int, (k@, v@)));
            assert forall|i: int, j: int| 0 <= i < j < kw_view(m@).len() implies lex_lt(
                #[trigger] kw_view(m@)[i].0,
                #[trigger] kw_view(m@)[j].0,
            ) by {
                assert(gm[i].0 == kw_view(m@)[i].0 || i == idx);
                assert(gm[j].0 == kw_view(m@)[j].0 || j == idx);
            }
        }
    } else {
        proof {
            if idx < gm.len() {
                lemma_lex_trichotomy(k@, gm[idx as int].0);
            }
        }
        m.insert(idx, (k, v));
        proof {
            assert(kw_view(m@) =~= gm.take(idx as int) + seq![(k@, v@)] + gm.skip(idx as int));
            assert forall|i: int, j: int| 0 <= i < j < kw_view(m@).len() implies lex_lt(
                #[trigger] kw_view(m@)[i].0,
                #[trigger] kw_view(m@)[j].0,
            ) by {
                let n = kw_view(m@);
                if i < idx && j == idx {
                } else if i == idx && j > idx {
                    assert(n[j] == gm[j - 1]);
                    if idx < j - 1 {
                        lemma_lex_transitive(k@, gm[idx as int].0, gm[j - 1].0);
                    }
                } else if i < idx && j > idx {
                    assert(n[i] == gm[i] && n[j] == gm[j - 1]);
                } else if i > idx && j > idx {
                    assert(n[i] == gm[i - 1] && n[j] == gm[j - 1]);
                }
            }
        }
    }
}

/// Rewrites an option list into its canonical form: sorted strictly by key,
/// with a later binding of a key replacing an earlier one.
pub fn canonical_kwargs(kw: &Vec<(String, String)>) -> (r: Vec<(String, String)>)
    ensures
        kw_view(r@) == kw_canon(kw_view(kw@)),
        kw_sorted(kw_view(r@)),
{
    let mut r: Vec<(String, String)> = Vec::new();
    let ghost gkw = kw_view(kw@);
    let mut i: usize = 0;
    proof {
        assert(kw_view(r@) =~= Seq::empty());
        assert(gkw.take(0) =~= Seq::<(Seq<char>, Seq<char>)>::empty());
    }
    while i < kw.len()
        invariant
            0 <= i <= kw.len(),
            gkw == kw_view(kw@),
            gkw.len() == kw@.len(),
            kw_view(r@) == kw_canon(gkw.take(i as int)),
            kw_sorted(kw_view(r@)),
        decreases kw.len() - i,
    {
        let key = kw[i].0.clone();
        let val = kw[i].1.clone();
        kw_insert_exec(&mut r, key, val);
        proof {
            assert(gkw.take(i + 1).drop_last() =~= gkw.take(i as int));
            assert(gkw.take(i + 1).last() == gkw[i as int]);
        }
        i = i + 1;
    }
    proof {
        assert(gkw.take(gkw.len() as int) =~= gkw);
    }
    r
}

/// Computes the polynomial hash of a string slice.
pub fn hash_str(s: &str) -> (r: u64)
    ensures
        r == hash_chars(s@),
    decreases s@.len(),
{
    let n = s.unicode_len();
    if n == 0 {
        0xcbf29ce484222325u64
    } else {
        let c = s.get_char(n - 1);
        let h = hash_str(s.substring_char(0, n - 1));
        proof {
            assert(s@.subrange(0, n - 1) =~= s@.drop_last());
        }
        h.wrapping_mul(0x100000001b3u64).wrapping_add((c as u32) as u64)
    }
}

/// Computes the wrapped code-point sum of a string slice.
pub fn char_sum_str(s: &str) -> (r: u64)
    ensures
        r == char_sum(s@),
    decreases s@.len(),
{
    let n = s.unicode_len();
    if n == 0 {
        0u64
    } else {
        let c = s.get_char(n - 1);
        let h = char_sum_str(s.substring_char(0, n - 1));
        proof {
            assert(s@.subrange(0, n - 1) =~= s@.drop_last());
        }
        h.wrapping_add((c as u32) as u64)
    }
}

/// Computes the hash of an option list, in its stored order.
pub fn kwargs_hash_exec(kw: &Vec<(String, String)>) -> (r: u64)
    ensures
        r == kwargs_hash(kw_view(kw@)),
{
    let ghost gkw = kw_view(kw@);
    let mut h: u64 = 7;
    let mut i: usize = 0;
    proof {
        assert(gkw.take(0) =~= Seq::<(Seq<char>, Seq<char>)>::empty());
    }
    while i < kw.len()
        invariant
            0 <= i <= kw.len(),
            gkw == kw_view(kw@),
            gkw.len() == kw@.len(),
            h == kwargs_hash(gkw.take(i as int)),
        decreases kw.len() - i,
    {
        let hk = hash_str(kw[i].0.as_str());
        let hv = hash_str(kw[i].1.as_str());
        h = h.wrapping_mul(31u64).wrapping_add(hk.wrapping_mul(3u64).wrapping_add(hv));
        proof {
            assert(gkw.take(i + 1).drop_last() =~= gkw.take(i as int));
            assert(gkw.take(i + 1).last() == gkw[i as int]);
        }
        i = i + 1;
    }
    proof {
        assert(gkw.take(gkw.len() as int) =~= gkw);
    }
    h
}

/// Computes the hash of a node's own configuration.
pub fn own_hash_exec(kind: NodeKind, name: &str, kwargs: &Vec<(String, String)>) -> (r: u64)
    ensures
        r == own_hash(kind, name@, kw_view(kwargs@)),
{
    let code: u64 = match kind {
        NodeKind::Input => 1,
        NodeKind::Filter => 2,
        NodeKind::Output => 3,
    };
    hash_str(name).wrapping_mul(0x9e3779b9u64).wrapping_add(kwargs_hash_exec(kwargs)).wrapping_add(
        code,
    )
}

/// An edge's tuple hash expressed over the upstream node's stored hash field.
pub open spec fn field_edge_term(up_h: u64, label: Seq<char>, sel: Option<char>, j: int) -> u64 {
    up_h.wrapping_mul(0x100000001b3u64).wrapping_add(hash_chars(label)).wrapping_mul(
        31u64,
    ).wrapping_add(sel_code(sel)).wrapping_mul(31u64).wrapping_add(j as u64)
}

/// Sum of the first `j` edge tuple hashes of a prospective node, expressed
/// over the stored hash fields of an existing arena.
pub open spec fn field_edges_hash(g: Seq<GNode>, edges: Seq<GEdge>, j: int) -> u64
    decreases j,
{
    if j <= 0 {
        0u64
    } else {
        let e = edges[j - 1];
        field_edges_hash(g, edges, j - 1).wrapping_add(
            field_edge_term(g[e.upstream].h, e.label, e.selector, j - 1),
        )
    }
}

/// Appending a node whose edges stay inside the old arena keeps the arena
/// acyclic by construction.
pub proof fn lemma_push_downward(g: Seq<GNode>, n: GNode)
    requires
        downward(g),
        forall|j: int| 0 <= j < n.incoming.len() ==> 0 <= #[trigger] n.incoming[j].upstream
            < g.len(),
    ensures
        downward(g.push(n)),
{
    let g2 = g.push(n);
    assert forall|i: int, j: int|
        0 <= i < g2.len() && 0 <= j < g2[i].incoming.len() implies 0 <= #[trigger] g2[i].incoming[j].upstream
        < i by {
        if i < g.len() {
            assert(g2[i] == g[i]);
            assert(0 <= g[i].incoming[j].upstream < i);
        } else {
            assert(g2[i] == n);
        }
    }
}

/// In a well-formed arena the structural hash of a newly appended node equals
/// its own hash plus the edge sum computed from the stored upstream hashes.
#[verifier::rlimit(100)]
pub proof fn lemma_new_node_hash(g: Seq<GNode>, n: GNode)
    requires
        graph_wf(g),
        forall|j: int| 0 <= j < n.incoming.len() ==> 0 <= #[trigger] n.incoming[j].upstream
            < g.len(),
    ensures
        downward(g.push(n)),
        node_hash(g.push(n), g.len() as int) == own_hash(n.kind, n.name, n.kwargs).wrapping_add(
            field_edges_hash(g, n.incoming, n.incoming.len() as int),
        ),
{
    lemma_push_downward(g, n);
    lemma_new_edges_hash(g, n, n.incoming.len() as int);
}

proof fn lemma_new_edges_hash(g: Seq<GNode>, n: GNode, j: int)
    requires
        graph_wf(g),
        downward(g.push(n)),
        forall|j2: int| 0 <= j2 < n.incoming.len() ==> 0 <= #[trigger] n.incoming[j2].upstream
            < g.len(),
        0 <= j <= n.incoming.len(),
    ensures
        edges_hash(g.push(n), g.len() as int, j) == field_edges_hash(g, n.incoming, j),
    decreases j,
{
    let g2 = g.push(n);
    assert(g2[g.len() as int] == n);
    assert(forall|k: int| 0 <= k < g.len() ==> g2[k] == #[trigger] g[k]);
    if j > 0 {
        lemma_new_edges_hash(g, n, j - 1);
        let e = n.incoming[j - 1];
        lemma_node_hash_prefix(g, g2, e.upstream);
        assert(node_wf(g, e.upstream));
        assert(node_hash(g2, e.upstream) == g[e.upstream].h);
        assert(g2[g.len() as int].incoming[j - 1] == e);
        assert(edge_term(g2, g.len() as int, j - 1) == node_hash(g2, e.upstream).wrapping_mul(
            0x100000001b3u64,
        ).wrapping_add(hash_chars(e.label)).wrapping_mul(31u64).wrapping_add(
            sel_code(e.selector),
        ).wrapping_mul(31u64).wrapping_add((j - 1) as u64));
        assert(edge_term(g2, g.len() as int, j - 1) == field_edge_term(
            g[e.upstream].h,
            e.label,
            e.selector,
            j - 1,
        ));
    }
}

/// Copies an option list.
pub fn copy_kwargs(kw: &Vec<(String, String)>) -> (r: Vec<(String, String)>)
    ensures
        kw_view(r@) == kw_view(kw@),
        r@.len() == kw@.len(),
{
    let mut r: Vec<(String, String)> = Vec::new();
    let mut i: usize = 0;
    while i < kw.len()
        invariant
            0 <= i <= kw.len(),
            r@.len() == i,
            forall|t: int| 0 <= t < i ==> #[trigger] r@[t].0@ == kw@[t].0@ && r@[t].1@ == kw@[t].1@,
        decreases kw.len() - i,
    {
        r.push((kw[i].0.clone(), kw[i].1.clone()));
        i = i + 1;
    }
    proof {
        assert(kw_view(r@) =~= kw_view(kw@));
    }
    r
}

/// Copies a node, preserving its model.
pub fn copy_node(n: &Node) -> (r: Node)
    ensures
        r@ == n@,
{
    let mut incoming: Vec<Edge> = Vec::new();
    let mut i: usize = 0;
    while i < n.incoming.len()
        invariant
            0 <= i <= n.incoming@.len(),
            incoming@.len() == i,
            forall|t: int| 0 <= t < i ==> #[trigger] incoming@[t]@ == n.incoming@[t]@,
        decreases n.incoming.len() - i,
    {
        let e = &n.incoming[i];
        incoming.push(Edge { upstream: e.upstream, label: e.label.clone(), selector: e.selector });
        i = i + 1;
    }
    let r = Node {
        kind: n.kind,
        name: n.name.clone(),
        kwargs: copy_kwargs(&n.kwargs),
        incoming,
        h: n.h,
    };
    proof {
        assert(r@.incoming =~= n@.incoming);
        assert(r@ =~= n@);
    }
    r
}

/// Copies a graph, preserving its model.
pub fn copy_graph(g: &Graph) -> (r: Graph)
    ensures
        r@ == g@,
{
    let mut nodes: Vec<Node> = Vec::new();
    let mut i: usize = 0;
    while i < g.nodes.len()
        invariant
            0 <= i <= g.nodes@.len(),
            nodes@.len() == i,
            forall|t: int| 0 <= t < i ==> #[trigger] nodes@[t]@ == g.nodes@[t]@,
        decreases g.nodes.len() - i,
    {
        nodes.push(copy_node(&g.nodes[i]));
        i = i + 1;
    }
    let r = Graph { nodes };
    proof {
        assert(r@ =~= g@);
    }
    r
}

/// Structural isomorphism of the first `k` edges of node `i` of arena `a` and
/// node `j` of arena `b`: equal pin labels and selectors, and isomorphic
/// upstream subgraphs.
pub open spec fn edges_iso(a: Seq<GNode>, i: int, b: Seq<GNode>, j: int, k: int) -> bool
    decreases i, 0int, k
        when downward(a) && downward(b) && 0 <= i < a.len() && 0 <= j < b.len() && 0 <= k
            <= a[i].incoming.len() && a[i].incoming.len() == b[j].incoming.len()
{
    k <= 0 || {
        let ea = a[i].incoming[k - 1];
        let eb = b[j].incoming[k - 1];
        &&& edges_iso(a, i, b, j, k - 1)
        &&& ea.label == eb.label
        &&& ea.selector == eb.selector
        &&& subgraph_iso(a, ea.upstream, b, eb.upstream)
    }
}

/// Structural isomorphism of two subgraphs: same kind, name and options at the
/// roots, and pairwise isomorphic upstream edges.
pub open spec fn subgraph_iso(a: Seq<GNode>, i: int, b: Seq<GNode>, j: int) -> bool
    decreases i, 1int, 0int
        when downward(a) && downward(b) && 0 <= i < a.len() && 0 <= j < b.len()
{
    &&& a[i].kind == b[j].kind
    &&& a[i].name == b[j].name
    &&& a[i].kwargs == b[j].kwargs
    &&& a[i].incoming.len() == b[j].incoming.len()
    &&& edges_iso(a, i, b, j, a[i].incoming.len() as int)
}

/// Structural hashing is content addressing: two independently built nodes
/// with identical names, options and upstream structure hash equal.
pub proof fn lemma_iso_hash(a: Seq<GNode>, i: int, b: Seq<GNode>, j: int)
    requires
        downward(a),
        downward(b),
        0 <= i < a.len(),
        0 <= j < b.len(),
        subgraph_iso(a, i, b, j),
    ensures
        node_hash(a, i) == node_hash(b, j),
    decreases i, 1int, 0int,
{
    lemma_iso_edges_hash(a, i, b, j, a[i].incoming.len() as int);
}

proof fn lemma_iso_edges_hash(a: Seq<GNode>, i: int, b: Seq<GNode>, j: int, k: int)
    requires
        downward(a),
        downward(b),
        0 <= i < a.len(),
        0 <= j < b.len(),
        a[i].incoming.len() == b[j].incoming.len(),
        0 <= k <= a[i].incoming.len(),
        edges_iso(a, i, b, j, k),
    ensures
        edges_hash(a, i, k) == edges_hash(b, j, k),
    decreases i, 0int, k,
{
    if k > 0 {
        lemma_iso_edges_hash(a, i, b, j, k - 1);
        let ea = a[i].incoming[k - 1];
        let eb = b[j].incoming[k - 1];
        lemma_iso_hash(a, ea.upstream, b, eb.upstream);
        assert(edge_term(a, i, k - 1) == edge_term(b, j, k - 1));
    }
}

/// The view of a freshly constructed node over an existing arena `g`: its
/// stored hash is its own hash plus the edge sum over the stored upstream
/// hashes, which for a well-formed arena is its structural hash.
pub open spec fn spec_make_node(
    kind: NodeKind,
    name: Seq<char>,
    kwargs: Seq<(Seq<char>, Seq<char>)>,
    incoming: Seq<GEdge>,
    g: Seq<GNode>,
) -> GNode {
    GNode {
        kind,
        name,
        kwargs,
        incoming,
        h: own_hash(kind, name, kwargs).wrapping_add(
            field_edges_hash(g, incoming, incoming.len() as int),
        ),
    }
}

/// The stream returned by `input`: a one-node arena holding an input stage
/// whose options are the canonical form of the caller's options with the
/// "filename" binding set.
pub open spec fn spec_input(filename: Seq<char>, kwargs: Seq<(Seq<char>, Seq<char>)>) -> GStream {
    let kw = kw_insert(kw_canon(kwargs), "filename"@, filename);
    let n = spec_make_node(NodeKind::Input, "input"@, kw, Seq::empty(), Seq::empty());
    GStream { nodes: Seq::empty().push(n), index: 0, label: Seq::empty(), selector: None }
}

/// The edge created by feeding a stream into a new node.
pub open spec fn spec_stream_edge(s: GStream) -> GEdge {
    GEdge { upstream: s.index, label: s.label, selector: s.selector }
}

/// The stream returned by `filter` on a single source stream: the source's
/// arena extended with one filter node consuming the source's pin.
pub open spec fn spec_filter(
    s: GStream,
    name: Seq<char>,
    kwargs: Seq<(Seq<char>, Seq<char>)>,
) -> GStream {
    let edges = seq![spec_stream_edge(s)];
    let n = spec_make_node(NodeKind::Filter, name, kw_canon(kwargs), edges, s.nodes);
    GStream {
        nodes: s.nodes.push(n),
        index: s.nodes.len() as int,
        label: Seq::empty(),
        selector: None,
    }
}

/// The stream returned by `output` on a single source stream.
pub open spec fn spec_output(
    s: GStream,
    filename: Seq<char>,
    kwargs: Seq<(Seq<char>, Seq<char>)>,
) -> GStream {
    let kw = kw_insert(kw_canon(kwargs), "filename"@, filename);
    let edges = seq![spec_stream_edge(s)];
    let n = spec_make_node(NodeKind::Output, "output"@, kw, edges, s.nodes);
    GStream {
        nodes: s.nodes.push(n),
        index: s.nodes.len() as int,
        label: Seq::empty(),
        selector: None,
    }
}

/// Appending a well-formed new node to a well-formed arena gives a well-formed
/// arena.
pub proof fn lemma_push_wf(g: Seq<GNode>, n: GNode)
    requires
        graph_wf(g),
        forall|j: int| 0 <= j < n.incoming.len() ==> 0 <= #[trigger] n.incoming[j].upstream
            < g.len(),
        kw_sorted(n.kwargs),
        n.kind is Input ==> n.incoming.len() == 0,
        n.h == own_hash(n.kind, n.name, n.kwargs).wrapping_add(
            field_edges_hash(g, n.incoming, n.incoming.len() as int),
        ),
    ensures
        graph_wf(g.push(n)),
{
    let g2 = g.push(n);
    lemma_push_downward(g, n);
    lemma_new_node_hash(g, n);
    assert forall|i: int| 0 <= i < g2.len() implies node_wf(g2, i) by {
        if i < g.len() {
            assert(g2[i] == g[i]);
            assert(node_wf(g, i));
            lemma_node_hash_prefix(g, g2, i);
        } else {
            assert(g2[i] == n);
        }
    }
}

/// The view of a sequence of incoming edges.
pub open spec fn edges_view(s: Seq<Edge>) -> Seq<GEdge> {
    Seq::new(s.len(), |j: int| s[j]@)
}

/// Computes the stored hash of a prospective node's incoming edges over the
/// arena it will be appended to.
pub fn edges_hash_exec(g: &Graph, edges: &Vec<Edge>) -> (r: u64)
    requires
        forall|j: int| 0 <= j < edges@.len() ==> 0 <= #[trigger] edges@[j]@.upstream < g@.len(),
    ensures
        r == field_edges_hash(g@, edges_view(edges@), edges@.len() as int),
{
    let ghost ge = edges_view(edges@);
    let mut r: u64 = 0;
    let mut j: usize = 0;
    while j < edges.len()
        invariant
            0 <= j <= edges@.len(),
            ge == edges_view(edges@),
            ge.len() == edges@.len(),
            forall|t: int| 0 <= t < ge.len() ==> 0 <= #[trigger] ge[t].upstream < g@.len(),
            r == field_edges_hash(g@, ge, j as int),
        decreases edges.len() - j,
    {
        let e = &edges[j];
        let up_h = g.nodes[e.upstream].h;
        let lbl = hash_str(e.label.as_str());
        let sc: u64 = match e.selector {
            None => 0,
            Some(c) => ((c as u32) as u64).wrapping_add(1),
        };
        let term = up_h.wrapping_mul(0x100000001b3u64).wrapping_add(lbl).wrapping_mul(
            31u64,
        ).wrapping_add(sc).wrapping_mul(31u64).wrapping_add(j as u64);
        proof {
            assert(g@[e.upstream as int].h == up_h);
            assert(term == field_edge_term(g@[ge[j as int].upstream].h, ge[j as int].label, ge[j as int].selector, j as int));
        }
        r = r.wrapping_add(term);
        j = j + 1;
    }
    r
}

impl Stream {
    /// Builds a handle to an output pin of a node in a well-formed arena.
    pub fn new(graph: Graph, index: usize, label: String, selector: Option<char>) -> (s: Stream)
        requires
            graph_wf(graph@),
            index < graph@.len(),
        ensures
            s@ == (GStream {
                nodes: graph@,
                index: index as int,
                label: label@,
                selector,
            }),
            stream_wf(s@),
    {
        Stream { graph, index, label, selector }
    }

    /// Structural equality of two streams: equality of their hashes, which by
    /// content addressing identifies equal subgraphs (hash collisions are
    /// accepted as equality).
    pub fn eq(&self, other: &Stream) -> (r: bool)
        requires
            stream_wf(self@),
            stream_wf(other@),
        ensures
            r == (stream_hash(self@) == stream_hash(other@)),
    {
        let h1 = self.graph.nodes[self.index].h.wrapping_add(char_sum_str(self.label.as_str()));
        let h2 = other.graph.nodes[other.index].h.wrapping_add(char_sum_str(other.label.as_str()));
        h1 == h2
    }

    /// Narrows the stream by a selector item ("a" for audio, "v" for video).
    /// Fails if the stream already carries a selector, or on an unknown item.
    pub fn get(&self, item: &str) -> (r: Result<Stream, GraphError>)
        requires
            stream_wf(self@),
        ensures
            self@.selector is Some ==> r == Result::<Stream, GraphError>::Err(
                GraphError::InvalidSelector,
            ),
            self@.selector is None && item@ == "a"@ ==> r is Ok && r->Ok_0@ == (GStream {
                selector: Some('a'),
                ..self@
            }),
            self@.selector is None && item@ != "a"@ && item@ == "v"@ ==> r is Ok && r->Ok_0@
                == (GStream { selector: Some('v'), ..self@ }),
            self@.selector is None && item@ != "a"@ && item@ != "v"@ ==> r
                == Result::<Stream, GraphError>::Err(GraphError::InvalidSelector),
            r is Ok ==> stream_wf(r->Ok_0@),
    {
        if self.selector.is_some() {
            return Err(GraphError::InvalidSelector);
        }
        let is_a = str_eq(item, "a");
        let is_v = str_eq(item, "v");
        if is_a || is_v {
            let g = copy_graph(&self.graph);
            let sel = if is_a { 'a' } else { 'v' };
            let s = Stream { graph: g, index: self.index, label: self.label.clone(), selector: Some(sel) };
            proof {
                assert(s@ =~= (GStream { selector: Some(sel), ..self@ }));
            }
            Ok(s)
        } else {
            Err(GraphError::InvalidSelector)
        }
    }

    /// Narrows the stream to its audio sub-stream.
    pub fn audio(&self) -> (r: Result<Stream, GraphError>)
        requires
            stream_wf(self@),
        ensures
            self@.selector is Some ==> r == Result::<Stream, GraphError>::Err(
                GraphError::InvalidSelector,
            ),
            self@.selector is None ==> r is Ok && r->Ok_0@ == (GStream {
                selector: Some('a'),
                ..self@
            }) && stream_wf(r->Ok_0@),
    {
        self.get("a")
    }

    /// Narrows the stream to its video sub-stream.
    pub fn video(&self) -> (r: Result<Stream, GraphError>)
        requires
            stream_wf(self@),
        ensures
            self@.selector is Some ==> r == Result::<Stream, GraphError>::Err(
                GraphError::InvalidSelector,
            ),
            self@.selector is None ==> r is Ok && r->Ok_0@ == (GStream {
                selector: Some('v'),
                ..self@
            }) && stream_wf(r->Ok_0@),
    {
        proof {
            reveal_strlit("a");
            reveal_strlit("v");
            assert("a"@ != "v"@) by {
                assert("a"@[0] == 'a');
                assert("v"@[0] == 'v');
                assert(('a' as u32) != ('v' as u32));
                vstd::utf8::char_u32_cast('a', 'a' as u32);
                vstd::utf8::char_u32_cast('v', 'v' as u32);
            }
        }
        self.get("v")
    }
}

/// Builds an input stage.  The "filename" option is set to the given name,
/// replacing any binding the caller supplied.
pub fn input(filename: &str, kwargs: &Vec<(String, String)>) -> (s: Stream)
    ensures
        stream_wf(s@),
        s@ == spec_input(filename@, kw_view(kwargs@)),
{
    let mut kw = canonical_kwargs(kwargs);
    kw_insert_exec(&mut kw, "filename".to_owned(), filename.to_owned());
    let h = own_hash_exec(NodeKind::Input, "input", &kw).wrapping_add(0);
    let node = Node {
        kind: NodeKind::Input,
        name: "input".to_owned(),
        kwargs: kw,
        incoming: Vec::new(),
        h,
    };
    let ghost gn = node@;
    let mut nodes: Vec<Node> = Vec::new();
    nodes.push(node);
    let graph = Graph { nodes };
    proof {
        assert(gn.incoming =~= Seq::<GEdge>::empty());
        assert(field_edges_hash(Seq::<GNode>::empty(), gn.incoming, 0) == 0u64);
        assert(gn =~= spec_input(filename@, kw_view(kwargs@)).nodes[0]);
        assert(graph@ =~= Seq::empty().push(gn));
        lemma_push_wf(Seq::empty(), gn);
    }
    let s = Stream { graph, index: 0, label: String::new(), selector: None };
    proof {
        assert(s@ =~= spec_input(filename@, kw_view(kwargs@)));
    }
    s
}

/// Builds a new node consuming the given stream and returns a handle to it.
fn extend_with_node(
    stream: &Stream,
    kind: NodeKind,
    name: String,
    kw: Vec<(String, String)>,
) -> (s: Stream)
    requires
        stream_wf(stream@),
        kw_sorted(kw_view(kw@)),
        !(kind is Input),
    ensures
        stream_wf(s@),
        s@ == (GStream {
            nodes: stream@.nodes.push(
                spec_make_node(
                    kind,
                    name@,
                    kw_view(kw@),
                    seq![spec_stream_edge(stream@)],
                    stream@.nodes,
                ),
            ),
            index: stream@.nodes.len() as int,
            label: Seq::empty(),
            selector: None,
        }),
{
    let mut graph = copy_graph(&stream.graph);
    let mut incoming: Vec<Edge> = Vec::new();
    incoming.push(
        Edge { upstream: stream.index, label: stream.label.clone(), selector: stream.selector },
    );
    proof {
        assert(edges_view(incoming@) =~= seq![spec_stream_edge(stream@)]);
    }
    let h = own_hash_exec(kind, name.as_str(), &kw).wrapping_add(
        edges_hash_exec(&graph, &incoming),
    );
    let node = Node { kind, name, kwargs: kw, incoming, h };
    let ghost gn = node@;
    let ghost gnodes = graph@;
    proof {
        assert(gn =~= spec_make_node(
            kind,
            gn.name,
            kw_view(kw@),
            seq![spec_stream_edge(stream@)],
            gnodes,
        ));
        lemma_push_wf(gnodes, gn);
    }
    let index = graph.nodes.len();
    graph.nodes.push(node);
    proof {
        assert(graph@ =~= gnodes.push(gn));
    }
    let s = Stream { graph, index, label: String::new(), selector: None };
    proof {
        assert(s@ =~= (GStream {
            nodes: stream@.nodes.push(
                spec_make_node(
                    kind,
                    gn.name,
                    kw_view(kw@),
                    seq![spec_stream_edge(stream@)],
                    stream@.nodes,
                ),
            ),
            index: stream@.nodes.len() as int,
            label: Seq::empty(),
            selector: None,
        }));
    }
    s
}

/// Builds a filter stage consuming a single source stream.
pub fn filter(stream: &Stream, filter_name: &str, kwargs: &Vec<(String, String)>) -> (s: Stream)
    requires
        stream_wf(stream@),
    ensures
        stream_wf(s@),
        s@ == spec_filter(stream@, filter_name@, kw_view(kwargs@)),
{
    let kw = canonical_kwargs(kwargs);
    extend_with_node(stream, NodeKind::Filter, filter_name.to_owned(), kw)
}

/// Builds an output stage consuming a single source stream.  The "filename"
/// option is set to the given name.
pub fn output(stream: &Stream, filename: &str, kwargs: &Vec<(String, String)>) -> (s: Stream)
    requires
        stream_wf(stream@),
    ensures
        stream_wf(s@),
        s@ == spec_output(stream@, filename@, kw_view(kwargs@)),
{
    let mut kw = canonical_kwargs(kwargs);
    kw_insert_exec(&mut kw, "filename".to_owned(), filename.to_owned());
    extend_with_node(stream, NodeKind::Output, "output".to_owned(), kw)
}

/// Edges re-based by an arena offset.
pub open spec fn shift_edges(edges: Seq<GEdge>, off: int) -> Seq<GEdge> {
    Seq::new(edges.len(), |j: int| GEdge { upstream: edges[j].upstream + off, ..edges[j] })
}

/// An arena re-based by an offset, as when appending it to another arena.
pub open spec fn shift_nodes(g: Seq<GNode>, off: int) -> Seq<GNode> {
    Seq::new(g.len(), |i: int| GNode { incoming: shift_edges(g[i].incoming, off), ..g[i] })
}

/// The views of a sequence of streams.
pub open spec fn stream_views(s: Seq<Stream>) -> Seq<GStream> {
    Seq::new(s.len(), |i: int| s[i]@)
}

/// The arena holding the (re-based) arenas of all given streams, in order.
pub open spec fn merge_nodes(ss: Seq<GStream>) -> Seq<GNode>
    decreases ss.len(),
{
    if ss.len() == 0 {
        Seq::empty()
    } else {
        let pre = merge_nodes(ss.drop_last());
        pre + shift_nodes(ss.last().nodes, pre.len() as int)
    }
}

/// Where stream `k`'s arena starts inside the merged arena.
pub open spec fn merge_offset(ss: Seq<GStream>, k: int) -> int {
    merge_nodes(ss.take(k)).len() as int
}

/// The index of stream `k`'s node inside the merged arena.
pub open spec fn merged_index(ss: Seq<GStream>, k: int) -> int {
    merge_offset(ss, k) + ss[k].index
}

/// The incoming edges of a node consuming all given streams, pin `k` fed by
/// stream `k`.
pub open spec fn multi_edges(ss: Seq<GStream>) -> Seq<GEdge> {
    Seq::new(
        ss.len(),
        |k: int| GEdge { upstream: merged_index(ss, k), label: ss[k].label, selector: ss[k].selector },
    )
}

/// The stream returned by a multi-input filter.
pub open spec fn spec_filter_multi(
    ss: Seq<GStream>,
    name: Seq<char>,
    kwargs: Seq<(Seq<char>, Seq<char>)>,
) -> GStream {
    let g = merge_nodes(ss);
    let n = spec_make_node(NodeKind::Filter, name, kw_canon(kwargs), multi_edges(ss), g);
    GStream { nodes: g.push(n), index: g.len() as int, label: Seq::empty(), selector: None }
}

/// The stream returned by a multi-input output stage.
pub open spec fn spec_output_multi(
    ss: Seq<GStream>,
    filename: Seq<char>,
    kwargs: Seq<(Seq<char>, Seq<char>)>,
) -> GStream {
    let g = merge_nodes(ss);
    let kw = kw_insert(kw_canon(kwargs), "filename"@, filename);
    let n = spec_make_node(NodeKind::Output, "output"@, kw, multi_edges(ss), g);
    GStream { nodes: g.push(n), index: g.len() as int, label: Seq::empty(), selector: None }
}

/// Appends a re-based copy of a well-formed arena to another.
fn append_shifted(dst: &mut Graph, src: &Graph)
    requires
        graph_wf(old(dst)@),
        graph_wf(src@),
    ensures
        final(dst)@ == old(dst)@ + shift_nodes(src@, old(dst)@.len() as int),
        graph_wf(final(dst)@),
{
    let ghost g0 = dst@;
    let ghost gs = src@;
    let ghost off = g0.len() as int;
    let off_e = dst.nodes.len();
    let mut k: usize = 0;
    while k < src.nodes.len()
        invariant
            0 <= k <= src.nodes@.len(),
            gs == src@,
            gs.len() == src.nodes@.len(),
            graph_wf(gs),
            off == g0.len() as int,
            off_e as int == off,
            dst@.len() == off + k,
            forall|t: int| 0 <= t < off ==> #[trigger] dst@[t] == g0[t],
            forall|t: int| 0 <= t < k ==> #[trigger] dst@[off + t] == shift_nodes(gs, off)[t],
        decreases src.nodes.len() - k,
    {
        let n = &src.nodes[k];
        let dlen = dst.nodes.len();
        let mut incoming: Vec<Edge> = Vec::new();
        let mut j: usize = 0;
        while j < n.incoming.len()
            invariant
                0 <= j <= n.incoming@.len(),
                n@ == gs[k as int],
                0 <= (k as int) < gs.len(),
                graph_wf(gs),
                off == g0.len() as int,
                off_e as int == off,
                dst@.len() == off + k,
                dlen == dst.nodes@.len(),
                incoming@.len() == j,
                forall|t: int| 0 <= t < j ==> #[trigger] incoming@[t]@ == (GEdge {
                    upstream: n@.incoming[t].upstream + off,
                    ..n@.incoming[t]
                }),
            decreases n.incoming.len() - j,
        {
            let e = &n.incoming[j];
            proof {
                assert(gs[k as int].incoming[j as int] == e@);
                assert(0 <= e@.upstream < k as int);
                assert(off_e + e.upstream < dlen);
            }
            incoming.push(
                Edge { upstream: off_e + e.upstream, label: e.label.clone(), selector: e.selector },
            );
            j = j + 1;
        }
        let node = Node {
            kind: n.kind,
            name: n.name.clone(),
            kwargs: copy_kwargs(&n.kwargs),
            incoming,
            h: n.h,
        };
        proof {
            assert(node@.incoming =~= shift_edges(gs[k as int].incoming, off));
            assert(node@ =~= shift_nodes(gs, off)[k as int]);
        }
        let ghost dpre = dst@;
        dst.nodes.push(node);
        proof {
            assert(dst@ =~= dpre.push(node@));
        }
        k = k + 1;
    }
    proof {
        assert forall|t: int| 0 <= t < dst@.len() implies dst@[t] == (g0 + shift_nodes(gs, off))[t] by {
            if t >= off {
                assert(dst@[off + (t - off)] == shift_nodes(gs, off)[t - off]);
            }
        }
        assert(dst@ =~= g0 + shift_nodes(gs, off));
        lemma_append_shifted_wf(g0, gs, dst@);
    }
}

/// A re-based well-formed arena appended to a well-formed arena yields a
/// well-formed arena.
proof fn lemma_append_shifted_wf(g0: Seq<GNode>, gs: Seq<GNode>, g2: Seq<GNode>)
    requires
        graph_wf(g0),
        graph_wf(gs),
        g2 == g0 + shift_nodes(gs, g0.len() as int),
    ensures
        graph_wf(g2),
{
    let off = g0.len() as int;
    assert(forall|t: int| 0 <= t < off ==> #[trigger] g2[t] == g0[t]);
    assert(forall|t: int| 0 <= t < gs.len() ==> #[trigger] g2[off + t] == shift_nodes(gs, off)[t]);
    assert(downward(g2)) by {
        assert forall|i: int, j: int|
            0 <= i < g2.len() && 0 <= j < g2[i].incoming.len() implies 0 <= #[trigger] g2[i].incoming[j].upstream
            < i by {
            if i < off {
                assert(g2[i] == g0[i]);
                assert(0 <= g0[i].incoming[j].upstream < i);
            } else {
                let t = i - off;
                assert(g2[i] == shift_nodes(gs, off)[t]);
                assert(g2[i].incoming[j] == GEdge {
                    upstream: gs[t].incoming[j].upstream + off,
                    ..gs[t].incoming[j]
                });
                assert(0 <= gs[t].incoming[j].upstream < t);
            }
        }
    }
    assert forall|i: int| 0 <= i < g2.len() implies node_wf(g2, i) by {
        if i < off {
            assert(g2[i] == g0[i]);
            assert(node_wf(g0, i));
            lemma_node_hash_prefix(g0, g2, i);
        } else {
            let t = i - off;
            assert(g2[i] == shift_nodes(gs, off)[t]);
            assert(node_wf(gs, t));
            assert forall|k: int| #![trigger g2[off + k]] 0 <= k < gs.len() implies {
                let a = gs[k];
                let b = g2[off + k];
                &&& b.kind == a.kind
                &&& b.name == a.name
                &&& b.kwargs == a.kwargs
                &&& b.incoming.len() == a.incoming.len()
                &&& forall|j: int|
                    0 <= j < a.incoming.len() ==> #[trigger] b.incoming[j] == GEdge {
                        upstream: a.incoming[j].upstream + off,
                        ..a.incoming[j]
                    }
            } by {
                assert(g2[off + k] == shift_nodes(gs, off)[k]);
            }
            lemma_node_hash_shift(gs, g2, off, t);
        }
    }
}

/// Merges the arenas of all given streams into one, returning the merged
/// arena together with each stream's node index inside it.
fn merge_streams(streams: &Vec<Stream>) -> (r: (Graph, Vec<usize>))
    requires
        forall|k: int| 0 <= k < streams@.len() ==> stream_wf(#[trigger] streams@[k]@),
    ensures
        r.0@ == merge_nodes(stream_views(streams@)),
        graph_wf(r.0@),
        r.1@.len() == streams@.len(),
        forall|k: int| 0 <= k < streams@.len() ==> r.1@[k] as int == merged_index(
            stream_views(streams@),
            k,
        ) && 0 <= r.1@[k] < r.0@.len(),
{
    let ghost ss = stream_views(streams@);
    let mut g = Graph { nodes: Vec::new() };
    let mut idxs: Vec<usize> = Vec::new();
    let mut k: usize = 0;
    proof {
        assert(g@ =~= Seq::<GNode>::empty());
        assert(ss.take(0) =~= Seq::<GStream>::empty());
        assert(graph_wf(g@));
    }
    while k < streams.len()
        invariant
            0 <= k <= streams@.len(),
            ss == stream_views(streams@),
            ss.len() == streams@.len(),
            forall|t: int| 0 <= t < streams@.len() ==> stream_wf(#[trigger] streams@[t]@),
            g@ == merge_nodes(ss.take(k as int)),
            graph_wf(g@),
            idxs@.len() == k,
            forall|t: int| #![trigger idxs@[t]]
                0 <= t < k ==> idxs@[t] as int == merged_index(ss, t) && 0 <= idxs@[t] < g@.len(),
        decreases streams.len() - k,
    {
        let ghost gpre = g@;
        let off = g.nodes.len();
        append_shifted(&mut g, &streams[k].graph);
        let glen = g.nodes.len();
        proof {
            assert(ss.take(k + 1).drop_last() =~= ss.take(k as int));
            assert(ss.take(k + 1).last() == ss[k as int]);
            assert(g@ =~= merge_nodes(ss.take(k + 1)));
            assert(merge_offset(ss, k as int) == gpre.len() as int);
            assert(shift_nodes(ss[k as int].nodes, off as int).len() == ss[k as int].nodes.len());
            assert(stream_wf(streams@[k as int]@));
            assert(glen as int == g@.len());
            assert(g@.len() == gpre.len() + shift_nodes(ss[k as int].nodes, off as int).len());
            assert(ss[k as int] == streams@[k as int]@);
            assert(0 <= ss[k as int].index < ss[k as int].nodes.len());
            assert(off as int == gpre.len());
            assert(off + ss[k as int].index < glen as int);
        }
        let st = &streams[k];
        proof {
            assert(st@ == ss[k as int]);
            assert(off + st.index < glen as int) by {
                assert(st@.index == st.index as int);
                assert(st.index as int == ss[k as int].index);
                assert(off + ss[k as int].index < glen as int);
            }
            assert forall|t: int| #![trigger idxs@[t]] 0 <= t < k implies idxs@[t]
                < g@.len() by {
                assert(idxs@[t] < gpre.len());
                assert(gpre.len() <= g@.len());
            }
        }
        let idx = off + st.index;
        proof {
            assert(idx as int == merged_index(ss, k as int));
        }
        idxs.push(idx);
        k = k + 1;
    }
    proof {
        assert(ss.take(ss.len() as int) =~= ss);
    }
    (g, idxs)
}

/// Builds a filter stage consuming the given streams in order, pin `k` fed by
/// stream `k`.
pub fn filter_multi(
    streams: &Vec<Stream>,
    filter_name: &str,
    kwargs: &Vec<(String, String)>,
) -> (s: Stream)
    requires
        streams@.len() >= 1,
        forall|k: int| 0 <= k < streams@.len() ==> stream_wf(#[trigger] streams@[k]@),
    ensures
        stream_wf(s@),
        s@ == spec_filter_multi(stream_views(streams@), filter_name@, kw_view(kwargs@)),
{
    let kw = canonical_kwargs(kwargs);
    extend_with_node_multi(streams, NodeKind::Filter, filter_name.to_owned(), kw)
}

/// Builds an output stage consuming the given streams in order.  The
/// "filename" option is set to the given name.
pub fn output_multi(
    streams: &Vec<Stream>,
    filename: &str,
    kwargs: &Vec<(String, String)>,
) -> (s: Stream)
    requires
        streams@.len() >= 1,
        forall|k: int| 0 <= k < streams@.len() ==> stream_wf(#[trigger] streams@[k]@),
    ensures
        stream_wf(s@),
        s@ == spec_output_multi(stream_views(streams@), filename@, kw_view(kwargs@)),
{
    let mut kw = canonical_kwargs(kwargs);
    kw_insert_exec(&mut kw, "filename".to_owned(), filename.to_owned());
    extend_with_node_multi(streams, NodeKind::Output, "output".to_owned(), kw)
}

/// Builds a node consuming all given streams over their merged arena.
fn extend_with_node_multi(
    streams: &Vec<Stream>,
    kind: NodeKind,
    name: String,
    kw: Vec<(String, String)>,
) -> (s: Stream)
    requires
        streams@.len() >= 1,
        forall|k: int| 0 <= k < streams@.len() ==> stream_wf(#[trigger] streams@[k]@),
        kw_sorted(kw_view(kw@)),
        !(kind is Input),
    ensures
        stream_wf(s@),
        s@ == ({
            let ss = stream_views(streams@);
            let g = merge_nodes(ss);
            GStream {
                nodes: g.push(spec_make_node(kind, name@, kw_view(kw@), multi_edges(ss), g)),
                index: g.len() as int,
                label: Seq::empty(),
                selector: None,
            }
        }),
{
    let ghost ss = stream_views(streams@);
    let (mut graph, idxs) = merge_streams(streams);
    let ghost gnodes = graph@;
    let mut incoming: Vec<Edge> = Vec::new();
    let mut k: usize = 0;
    while k < streams.len()
        invariant
            0 <= k <= streams@.len(),
            ss == stream_views(streams@),
            ss.len() == streams@.len(),
            idxs@.len() == streams@.len(),
            forall|t: int| #![trigger idxs@[t]]
                0 <= t < streams@.len() ==> idxs@[t] as int == merged_index(ss, t) && 0 <= idxs@[t]
                    < gnodes.len(),
            incoming@.len() == k,
            forall|t: int| 0 <= t < k ==> #[trigger] incoming@[t]@ == multi_edges(ss)[t],
        decreases streams.len() - k,
    {
        incoming.push(
            Edge {
                upstream: idxs[k],
                label: streams[k].label.clone(),
                selector: streams[k].selector,
            },
        );
        proof {
            assert(incoming@[k as int]@ =~= multi_edges(ss)[k as int]);
        }
        k = k + 1;
    }
    proof {
        assert(edges_view(incoming@) =~= multi_edges(ss));
    }
    let h = own_hash_exec(kind, name.as_str(), &kw).wrapping_add(
        edges_hash_exec(&graph, &incoming),
    );
    let node = Node { kind, name, kwargs: kw, incoming, h };
    let ghost gn = node@;
    proof {
        assert(gn =~= spec_make_node(kind, gn.name, kw_view(kw@), multi_edges(ss), gnodes));
        lemma_push_wf(gnodes, gn);
    }
    let index = graph.nodes.len();
    graph.nodes.push(node);
    proof {
        assert(graph@ =~= gnodes.push(gn));
    }
    let s = Stream { graph, index, label: String::new(), selector: None };
    proof {
        assert(s@ =~= (GStream {
            nodes: gnodes.push(spec_make_node(kind, gn.name, kw_view(kw@), multi_edges(ss), gnodes)),
            index: gnodes.len() as int,
            label: Seq::empty(),
            selector: None,
        }));
    }
    s
}

} // verus!
