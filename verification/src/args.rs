//! The argument compiler: serializes a sorted graph into the flat, ordered
//! argument list for the external media tool.
//!
//! The layout is: input arguments (option flags, then `-i` and the filename,
//! per input node in sorted order), one `-filter_complex` expression built
//! from a fragment per filter node, output arguments (`-map` entries, option
//! flags, filename, per output node), and an optional overwrite flag.  Option
//! mappings are emitted in their canonical (lexicographic) order, so the
//! output is a pure function of the graph.

use vstd::prelude::*;
use crate::model::{
    Graph, GNode, GEdge, Edge, Node, NodeKind, GraphError, Stream, kw_get, kw_view, stream_wf,
    downward,
};
use crate::sort::{spec_topo, topo_sort, order_bounds};
use crate::strutil::{dec_rep, usize_to_string, str_eq};

verus! {

broadcast use vstd::string::group_string_axioms;

/// The order restricted to nodes of one kind.
pub open spec fn kind_filter(g: Seq<GNode>, order: Seq<usize>, kind: NodeKind) -> Seq<usize>
    decreases order.len(),
{
    if order.len() == 0 {
        Seq::empty()
    } else {
        let pre = kind_filter(g, order.drop_last(), kind);
        if g[order.last() as int].kind == kind {
            pre.push(order.last())
        } else {
            pre
        }
    }
}

/// Every listed node carries the mandatory "filename" option.
pub open spec fn all_have_filename(g: Seq<GNode>, idxs: Seq<usize>) -> bool {
    forall|k: int|
        0 <= k < idxs.len() ==> kw_get(g[#[trigger] idxs[k] as int].kwargs, "filename"@) is Some
}

/// The (upstream hash, upstream pin label) of the first `j` edges of node `i`.
pub open spec fn occs_node(g: Seq<GNode>, i: usize, j: int) -> Seq<(u64, Seq<char>)>
    decreases j,
{
    if j <= 0 {
        Seq::empty()
    } else {
        let e = g[i as int].incoming[j - 1];
        occs_node(g, i, j - 1).push((g[e.upstream].h, e.label))
    }
}

/// Every edge's (upstream hash, pin label), scanning the sorted order; this is
/// the outgoing-edge view of the graph, which no single node stores.
pub open spec fn occs_scan(g: Seq<GNode>, order: Seq<usize>) -> Seq<(u64, Seq<char>)>
    decreases order.len(),
{
    if order.len() == 0 {
        Seq::empty()
    } else {
        occs_scan(g, order.drop_last()) + occs_node(
            g,
            order.last(),
            g[order.last() as int].incoming.len() as int,
        )
    }
}

/// Whether the pin occurs among the first `t` edge occurrences.
pub open spec fn occ_in(occs: Seq<(u64, Seq<char>)>, t: int, h: u64, l: Seq<char>) -> bool {
    exists|u: int| 0 <= u < t && occs[u] == (h, l)
}

/// How many of the first `t` edge occurrences consume the pin.
pub open spec fn count_occ(occs: Seq<(u64, Seq<char>)>, t: int, h: u64, l: Seq<char>) -> int
    decreases t,
{
    if t <= 0 {
        0
    } else {
        count_occ(occs, t - 1, h, l) + if occs[t - 1] == (h, l) {
            1int
        } else {
            0int
        }
    }
}

/// The distinct consumed pins of the node with hash `gh`, in first-occurrence
/// order, among the first `t` edge occurrences.
pub open spec fn pins_of(gh: u64, occs: Seq<(u64, Seq<char>)>, t: int) -> Seq<(u64, Seq<char>)>
    decreases t,
{
    if t <= 0 {
        Seq::empty()
    } else {
        let pre = pins_of(gh, occs, t - 1);
        if occs[t - 1].0 == gh && !occ_in(occs, t - 1, occs[t - 1].0, occs[t - 1].1) {
            pre.push(occs[t - 1])
        } else {
            pre
        }
    }
}

/// All consumed pins of the filter nodes, scanning the sorted filter list.
pub open spec fn alloc_pins(
    g: Seq<GNode>,
    filters: Seq<usize>,
    occs: Seq<(u64, Seq<char>)>,
) -> Seq<(u64, Seq<char>)>
    decreases filters.len(),
{
    if filters.len() == 0 {
        Seq::empty()
    } else {
        alloc_pins(g, filters.drop_last(), occs) + pins_of(
            g[filters.last() as int].h,
            occs,
            occs.len() as int,
        )
    }
}

/// No filter output pin feeds more than one consumer.
pub open spec fn fanout_ok(occs: Seq<(u64, Seq<char>)>, pins: Seq<(u64, Seq<char>)>) -> bool {
    forall|k: int|
        0 <= k < pins.len() ==> count_occ(occs, occs.len() as int, #[trigger] pins[k].0, pins[k].1)
            <= 1
}

/// Input nodes are named by their position in the input list, under pin "".
pub open spec fn input_names(g: Seq<GNode>, inputs: Seq<usize>) -> Seq<(u64, Seq<char>, Seq<char>)> {
    Seq::new(
        inputs.len(),
        |k: int| (g[inputs[k] as int].h, Seq::empty(), dec_rep(k as nat)),
    )
}

/// Filter pins are named "s0", "s1", ... in allocation order.
pub open spec fn pin_names(pins: Seq<(u64, Seq<char>)>) -> Seq<(u64, Seq<char>, Seq<char>)> {
    Seq::new(pins.len(), |k: int| (pins[k].0, pins[k].1, seq!['s'] + dec_rep(k as nat)))
}

/// Looks a (hash, pin label) up in the name allocation; the earliest entry
/// wins.
pub open spec fn name_lookup(
    names: Seq<(u64, Seq<char>, Seq<char>)>,
    h: u64,
    l: Seq<char>,
) -> Option<Seq<char>>
    decreases names.len(),
{
    if names.len() == 0 {
        None
    } else {
        match name_lookup(names.drop_last(), h, l) {
            Some(v) => Some(v),
            None => if names.last().0 == h && names.last().1 == l {
                Some(names.last().2)
            } else {
                None
            },
        }
    }
}

/// The allocated name of a pin, or the empty name where none was allocated.
pub open spec fn prefix_of(names: Seq<(u64, Seq<char>, Seq<char>)>, h: u64, l: Seq<char>) -> Seq<
    char,
> {
    match name_lookup(names, h, l) {
        Some(v) => v,
        None => Seq::empty(),
    }
}

/// The ":a" / ":v" suffix of a selector-narrowed edge.
pub open spec fn sel_suffix(sel: Option<char>) -> Seq<char> {
    match sel {
        None => Seq::empty(),
        Some(c) => seq![':'].push(c),
    }
}

/// How an edge's source is written: the allocated name plus the selector
/// suffix, bracketed except when it stands as a final argument and the source
/// is an input node (inputs are addressed positionally there).
pub open spec fn render_in(
    g: Seq<GNode>,
    names: Seq<(u64, Seq<char>, Seq<char>)>,
    e: GEdge,
    is_final: bool,
) -> Seq<char> {
    let base = prefix_of(names, g[e.upstream].h, e.label) + sel_suffix(e.selector);
    if is_final && g[e.upstream].kind is Input {
        base
    } else {
        seq!['['] + base + seq![']']
    }
}

/// The concatenated rendered sources of the first `j` edges of a filter node.
pub open spec fn filter_inputs_str(
    g: Seq<GNode>,
    names: Seq<(u64, Seq<char>, Seq<char>)>,
    edges: Seq<GEdge>,
    j: int,
) -> Seq<char>
    decreases j,
{
    if j <= 0 {
        Seq::empty()
    } else {
        filter_inputs_str(g, names, edges, j - 1) + render_in(g, names, edges[j - 1], false)
    }
}

/// The "k=v" pairs of the first `j` options, joined with ':'.
pub open spec fn kw_text(kw: Seq<(Seq<char>, Seq<char>)>, j: int) -> Seq<char>
    decreases j,
{
    if j <= 0 {
        Seq::empty()
    } else if j == 1 {
        kw[0].0 + seq!['='] + kw[0].1
    } else {
        kw_text(kw, j - 1) + seq![':'] + kw[j - 1].0 + seq!['='] + kw[j - 1].1
    }
}

/// A filter node's text: its name, and "=k=v:..." if it has options.
pub open spec fn filter_text(n: GNode) -> Seq<char> {
    if n.kwargs.len() == 0 {
        n.name
    } else {
        n.name + seq!['='] + kw_text(n.kwargs, n.kwargs.len() as int)
    }
}

/// The "[name]" outputs of the first `j` allocated pins of a filter node.
pub open spec fn filter_outputs_str(
    names: Seq<(u64, Seq<char>, Seq<char>)>,
    pins: Seq<(u64, Seq<char>)>,
    j: int,
) -> Seq<char>
    decreases j,
{
    if j <= 0 {
        Seq::empty()
    } else {
        filter_outputs_str(names, pins, j - 1) + seq!['['] + prefix_of(
            names,
            pins[j - 1].0,
            pins[j - 1].1,
        ) + seq![']']
    }
}

/// One filter node's expression fragment: `<inputs><name[=opts]><outputs>`.
pub open spec fn filter_fragment(
    g: Seq<GNode>,
    names: Seq<(u64, Seq<char>, Seq<char>)>,
    occs: Seq<(u64, Seq<char>)>,
    i: usize,
) -> Seq<char> {
    filter_inputs_str(g, names, g[i as int].incoming, g[i as int].incoming.len() as int)
        + filter_text(g[i as int]) + filter_outputs_str(
        names,
        pins_of(g[i as int].h, occs, occs.len() as int),
        pins_of(g[i as int].h, occs, occs.len() as int).len() as int,
    )
}

/// The whole filter-graph expression: the fragments joined with ';'.
pub open spec fn filter_expr(
    g: Seq<GNode>,
    names: Seq<(u64, Seq<char>, Seq<char>)>,
    occs: Seq<(u64, Seq<char>)>,
    filters: Seq<usize>,
) -> Seq<char>
    decreases filters.len(),
{
    if filters.len() == 0 {
        Seq::empty()
    } else if filters.len() == 1 {
        filter_fragment(g, names, occs, filters[0])
    } else {
        filter_expr(g, names, occs, filters.drop_last()) + seq![';'] + filter_fragment(
            g,
            names,
            occs,
            filters.last(),
        )
    }
}

/// The "-key value" argument pairs of the first `j` options, the "filename"
/// option excluded.
pub open spec fn kw_args(kw: Seq<(Seq<char>, Seq<char>)>, j: int) -> Seq<Seq<char>>
    decreases j,
{
    if j <= 0 {
        Seq::empty()
    } else {
        kw_args(kw, j - 1) + if kw[j - 1].0 == "filename"@ {
            Seq::empty()
        } else {
            seq![seq!['-'] + kw[j - 1].0, kw[j - 1].1]
        }
    }
}

/// One input node's arguments: option flags, then "-i" and the filename.
pub open spec fn input_args_node(n: GNode) -> Seq<Seq<char>> {
    kw_args(n.kwargs, n.kwargs.len() as int) + seq![
        "-i"@,
        match kw_get(n.kwargs, "filename"@) {
            Some(v) => v,
            None => Seq::empty(),
        },
    ]
}

/// The arguments of the first `k` input nodes, concatenated.
pub open spec fn inputs_args(g: Seq<GNode>, inputs: Seq<usize>, k: int) -> Seq<Seq<char>>
    decreases k,
{
    if k <= 0 {
        Seq::empty()
    } else {
        inputs_args(g, inputs, k - 1) + input_args_node(g[inputs[k - 1] as int])
    }
}

/// The "-map" entries of the first `j` edges of an output node: an entry is
/// emitted unless the source renders as the implicit default "0" and it is the
/// node's only incoming edge.
pub open spec fn output_maps(
    g: Seq<GNode>,
    names: Seq<(u64, Seq<char>, Seq<char>)>,
    n: GNode,
    j: int,
) -> Seq<Seq<char>>
    decreases j,
{
    if j <= 0 {
        Seq::empty()
    } else {
        output_maps(g, names, n, j - 1) + ({
            let r = render_in(g, names, n.incoming[j - 1], true);
            if r != seq!['0'] || n.incoming.len() > 1 {
                seq!["-map"@, r]
            } else {
                Seq::empty()
            }
        })
    }
}

/// One output node's arguments: its "-map" entries, option flags, and the
/// filename as the final positional argument.
pub open spec fn output_args_node(
    g: Seq<GNode>,
    names: Seq<(u64, Seq<char>, Seq<char>)>,
    n: GNode,
) -> Seq<Seq<char>> {
    output_maps(g, names, n, n.incoming.len() as int) + kw_args(n.kwargs, n.kwargs.len() as int)
        + seq![
        match kw_get(n.kwargs, "filename"@) {
            Some(v) => v,
            None => Seq::empty(),
        },
    ]
}

/// The arguments of the first `k` output nodes, concatenated.
pub open spec fn outputs_args(
    g: Seq<GNode>,
    names: Seq<(u64, Seq<char>, Seq<char>)>,
    outputs: Seq<usize>,
    k: int,
) -> Seq<Seq<char>>
    decreases k,
{
    if k <= 0 {
        Seq::empty()
    } else {
        outputs_args(g, names, outputs, k - 1) + output_args_node(g, names, g[outputs[k - 1] as int])
    }
}

/// The serialized arguments of the graph reachable from the terminal, without
/// the leading program name: the sorted inputs, the filter-graph expression,
/// the sorted outputs, and the defensive overwrite flag when there is no
/// output node at all.  Errors, in the order they are discovered: `NotADag`
/// from the sort, `MissingRequiredOption` on an input, `FanoutViolation` on an
/// over-consumed filter pin, `MissingRequiredOption` on an output.
pub open spec fn spec_get_args(g: Seq<GNode>, terminal: usize, overwrite: bool) -> Result<
    Seq<Seq<char>>,
    GraphError,
> {
    match spec_topo(g, terminal) {
        Err(e) => Err(e),
        Ok(order) => {
            let inputs = kind_filter(g, order, NodeKind::Input);
            let filters = kind_filter(g, order, NodeKind::Filter);
            let outputs = kind_filter(g, order, NodeKind::Output);
            if !all_have_filename(g, inputs) {
                Err(GraphError::MissingRequiredOption)
            } else {
                let occs = occs_scan(g, order);
                let pins = alloc_pins(g, filters, occs);
                if !fanout_ok(occs, pins) {
                    Err(GraphError::FanoutViolation)
                } else if !all_have_filename(g, outputs) {
                    Err(GraphError::MissingRequiredOption)
                } else {
                    let names = input_names(g, inputs) + pin_names(pins);
                    let expr = filter_expr(g, names, occs, filters);
                    Ok(
                        inputs_args(g, inputs, inputs.len() as int) + (if expr.len() == 0 {
                            Seq::empty()
                        } else {
                            seq!["-filter_complex"@, expr]
                        }) + outputs_args(g, names, outputs, outputs.len() as int) + (if overwrite
                            && outputs.len() == 0 {
                            seq!["-y"@]
                        } else {
                            Seq::empty()
                        }),
                    )
                }
            }
        },
    }
}

/// The full compiled command: the program name, the serialized arguments, and
/// the overwrite flag if requested.
pub open spec fn spec_compile(
    g: Seq<GNode>,
    terminal: usize,
    cmd: Seq<char>,
    overwrite: bool,
) -> Result<Seq<Seq<char>>, GraphError> {
    match spec_get_args(g, terminal, overwrite) {
        Err(e) => Err(e),
        Ok(a) => Ok(
            seq![cmd] + a + if overwrite {
                seq!["-y"@]
            } else {
                Seq::empty()
            },
        ),
    }
}

/// The view of an argument list.
pub open spec fn args_view(s: Seq<String>) -> Seq<Seq<char>> {
    Seq::new(s.len(), |i: int| s[i]@)
}

/// The view of an edge-occurrence or pin list.
pub open spec fn occs_view(s: Seq<(u64, String)>) -> Seq<(u64, Seq<char>)> {
    Seq::new(s.len(), |i: int| (s[i].0, s[i].1@))
}

/// The view of a name allocation.
pub open spec fn names_view(s: Seq<(u64, String, String)>) -> Seq<(u64, Seq<char>, Seq<char>)> {
    Seq::new(s.len(), |i: int| (s[i].0, s[i].1@, s[i].2@))
}

/// Restricts the sorted order to nodes of one kind.
fn kind_filter_exec(g: &Graph, order: &Vec<usize>, kind: NodeKind) -> (r: Vec<usize>)
    requires
        order_bounds(g@, order@),
    ensures
        r@ == kind_filter(g@, order@, kind),
        order_bounds(g@, r@),
{
    let mut r: Vec<usize> = Vec::new();
    let mut k: usize = 0;
    proof {
        assert(order@.take(0) =~= Seq::<usize>::empty());
        assert(r@ =~= kind_filter(g@, order@.take(0), kind));
    }
    while k < order.len()
        invariant
            0 <= k <= order@.len(),
            order_bounds(g@, order@),
            r@ == kind_filter(g@, order@.take(k as int), kind),
            order_bounds(g@, r@),
        decreases order.len() - k,
    {
        proof {
            assert(order@.take(k + 1).drop_last() =~= order@.take(k as int));
            assert(order@.take(k + 1).last() == order@[k as int]);
        }
        let i = order[k];
        let is_kind = match (g.nodes[i].kind, kind) {
            (NodeKind::Input, NodeKind::Input) => true,
            (NodeKind::Filter, NodeKind::Filter) => true,
            (NodeKind::Output, NodeKind::Output) => true,
            _ => false,
        };
        if is_kind {
            r.push(i);
        }
        k = k + 1;
    }
    proof {
        assert(order@.take(order@.len() as int) =~= order@);
    }
    r
}

/// Looks a key up in a node's option list.
fn kw_get_exec(kw: &Vec<(String, String)>, key: &str) -> (r: Option<String>)
    ensures
        match r {
            Some(v) => kw_get(kw_view(kw@), key@) == Some(v@),
            None => kw_get(kw_view(kw@), key@) is None,
        },
{
    let mut acc: Option<String> = None;
    let mut k: usize = 0;
    proof {
        assert(kw_view(kw@).take(0) =~= Seq::<(Seq<char>, Seq<char>)>::empty());
    }
    while k < kw.len()
        invariant
            0 <= k <= kw@.len(),
            kw_view(kw@).len() == kw@.len(),
            match acc {
                Some(v) => kw_get(kw_view(kw@).take(k as int), key@) == Some(v@),
                None => kw_get(kw_view(kw@).take(k as int), key@) is None,
            },
        decreases kw.len() - k,
    {
        proof {
            assert(kw_view(kw@).take(k + 1).drop_last() =~= kw_view(kw@).take(k as int));
            assert(kw_view(kw@).take(k + 1).last() == kw_view(kw@)[k as int]);
        }
        if acc.is_none() && str_eq(kw[k].0.as_str(), key) {
            acc = Some(kw[k].1.clone());
        }
        k = k + 1;
    }
    proof {
        assert(kw_view(kw@).take(kw@.len() as int) =~= kw_view(kw@));
    }
    acc
}

/// Checks that every listed node carries the "filename" option.
fn check_filenames(g: &Graph, idxs: &Vec<usize>) -> (r: bool)
    requires
        order_bounds(g@, idxs@),
    ensures
        r == all_have_filename(g@, idxs@),
{
    let mut k: usize = 0;
    while k < idxs.len()
        invariant
            0 <= k <= idxs@.len(),
            order_bounds(g@, idxs@),
            forall|t: int| 0 <= t < k ==> kw_get(
                g@[#[trigger] idxs@[t] as int].kwargs,
                "filename"@,
            ) is Some,
        decreases idxs.len() - k,
    {
        let got = kw_get_exec(&g.nodes[idxs[k]].kwargs, "filename");
        if got.is_none() {
            return false;
        }
        k = k + 1;
    }
    true
}

/// Gathers every edge's (upstream hash, pin label) over the sorted order: the
/// outgoing-edge view of the graph.
fn get_outgoing_edge_map(g: &Graph, order: &Vec<usize>) -> (r: Vec<(u64, String)>)
    requires
        downward(g@),
        order_bounds(g@, order@),
    ensures
        occs_view(r@) == occs_scan(g@, order@),
{
    let mut r: Vec<(u64, String)> = Vec::new();
    let mut k: usize = 0;
    proof {
        assert(order@.take(0) =~= Seq::<usize>::empty());
        assert(occs_view(r@) =~= occs_scan(g@, order@.take(0)));
    }
    while k < order.len()
        invariant
            0 <= k <= order@.len(),
            downward(g@),
            order_bounds(g@, order@),
            occs_view(r@) == occs_scan(g@, order@.take(k as int)),
        decreases order.len() - k,
    {
        let i = order[k];
        let ghost pre = occs_view(r@);
        let mut j: usize = 0;
        while j < g.nodes[i].incoming.len()
            invariant
                0 <= j <= g@[i as int].incoming.len(),
                downward(g@),
                0 <= (i as int) < g@.len(),
                occs_view(r@) == pre + occs_node(g@, i, j as int),
            decreases g@[i as int].incoming.len() - j,
        {
            let e = &g.nodes[i].incoming[j];
            proof {
                assert(g@[i as int].incoming[j as int] == e@);
                assert(0 <= e@.upstream < i as int);
            }
            let ghost rpre = occs_view(r@);
            r.push((g.nodes[e.upstream].h, e.label.clone()));
            proof {
                assert(occs_view(r@) =~= rpre.push((g@[e@.upstream].h, e@.label)));
                assert(occs_node(g@, i, j + 1) == occs_node(g@, i, j as int).push(
                    (g@[e@.upstream].h, e@.label),
                ));
                assert(occs_view(r@) =~= pre + occs_node(g@, i, j + 1));
            }
            j = j + 1;
        }
        proof {
            assert(order@.take(k + 1).drop_last() =~= order@.take(k as int));
            assert(order@.take(k + 1).last() == order@[k as int]);
            assert(occs_view(r@) =~= occs_scan(g@, order@.take(k + 1)));
        }
        k = k + 1;
    }
    proof {
        assert(order@.take(order@.len() as int) =~= order@);
    }
    r
}

/// Whether the pin occurs among the first `t` edge occurrences.
fn occ_in_exec(occs: &Vec<(u64, String)>, t: usize, h: u64, l: &str) -> (r: bool)
    requires
        t <= occs@.len(),
    ensures
        r == occ_in(occs_view(occs@), t as int, h, l@),
{
    let mut u: usize = 0;
    while u < t
        invariant
            0 <= u <= t <= occs@.len(),
            forall|w: int| 0 <= w < u ==> occs_view(occs@)[w] != (h, l@),
        decreases t - u,
    {
        if occs[u].0 == h && str_eq(occs[u].1.as_str(), l) {
            proof {
                assert(occs_view(occs@)[u as int] == (h, l@));
            }
            return true;
        }
        u = u + 1;
    }
    false
}

/// Counts the consumers of a pin.
fn count_occ_exec(occs: &Vec<(u64, String)>, h: u64, l: &str) -> (r: usize)
    ensures
        r as int == count_occ(occs_view(occs@), occs@.len() as int, h, l@),
{
    let mut c: usize = 0;
    let mut t: usize = 0;
    while t < occs.len()
        invariant
            0 <= t <= occs@.len(),
            c <= t,
            c as int == count_occ(occs_view(occs@), t as int, h, l@),
        decreases occs.len() - t,
    {
        if occs[t].0 == h && str_eq(occs[t].1.as_str(), l) {
            c = c + 1;
        }
        t = t + 1;
    }
    c
}

/// The distinct consumed pins of the node with the given hash, in
/// first-occurrence order.
fn node_pins(gh: u64, occs: &Vec<(u64, String)>) -> (r: Vec<(u64, String)>)
    ensures
        occs_view(r@) == pins_of(gh, occs_view(occs@), occs@.len() as int),
{
    let mut r: Vec<(u64, String)> = Vec::new();
    let mut t: usize = 0;
    proof {
        assert(occs_view(r@) =~= pins_of(gh, occs_view(occs@), 0));
    }
    while t < occs.len()
        invariant
            0 <= t <= occs@.len(),
            occs_view(r@) == pins_of(gh, occs_view(occs@), t as int),
        decreases occs.len() - t,
    {
        let is_new = !occ_in_exec(occs, t, occs[t].0, occs[t].1.as_str());
        if occs[t].0 == gh && is_new {
            r.push((occs[t].0, occs[t].1.clone()));
            proof {
                assert(occs_view(r@) =~= pins_of(gh, occs_view(occs@), t + 1));
            }
        } else {
            proof {
                assert(occs_view(occs@)[t as int] == (occs@[t as int].0, occs@[t as int].1@));
                assert(occs_view(r@) =~= pins_of(gh, occs_view(occs@), t + 1));
            }
        }
        t = t + 1;
    }
    r
}

/// Allocates the symbolic stream names: one pin list entry per distinct
/// consumed output pin of each filter node, scanning the sorted filter list.
fn allocate_filter_stream_name(
    g: &Graph,
    filters: &Vec<usize>,
    occs: &Vec<(u64, String)>,
) -> (r: Vec<(u64, String)>)
    requires
        order_bounds(g@, filters@),
    ensures
        occs_view(r@) == alloc_pins(g@, filters@, occs_view(occs@)),
{
    let mut r: Vec<(u64, String)> = Vec::new();
    let mut k: usize = 0;
    proof {
        assert(filters@.take(0) =~= Seq::<usize>::empty());
        assert(occs_view(r@) =~= alloc_pins(g@, filters@.take(0), occs_view(occs@)));
    }
    while k < filters.len()
        invariant
            0 <= k <= filters@.len(),
            order_bounds(g@, filters@),
            occs_view(r@) == alloc_pins(g@, filters@.take(k as int), occs_view(occs@)),
        decreases filters.len() - k,
    {
        let mut pins = node_pins(g.nodes[filters[k]].h, occs);
        let ghost pre = occs_view(r@);
        let ghost gpins = occs_view(pins@);
        r.append(&mut pins);
        proof {
            assert(occs_view(r@) =~= pre + gpins);
            assert(filters@.take(k + 1).drop_last() =~= filters@.take(k as int));
            assert(filters@.take(k + 1).last() == filters@[k as int]);
            assert(occs_view(r@) =~= alloc_pins(g@, filters@.take(k + 1), occs_view(occs@)));
        }
        k = k + 1;
    }
    proof {
        assert(filters@.take(filters@.len() as int) =~= filters@);
    }
    r
}

/// Checks that no allocated pin feeds more than one consumer.
fn check_fanout(occs: &Vec<(u64, String)>, pins: &Vec<(u64, String)>) -> (r: bool)
    ensures
        r == fanout_ok(occs_view(occs@), occs_view(pins@)),
{
    let mut k: usize = 0;
    while k < pins.len()
        invariant
            0 <= k <= pins@.len(),
            forall|t: int| 0 <= t < k ==> count_occ(
                occs_view(occs@),
                occs@.len() as int,
                #[trigger] occs_view(pins@)[t].0,
                occs_view(pins@)[t].1,
            ) <= 1,
        decreases pins.len() - k,
    {
        let c = count_occ_exec(occs, pins[k].0, pins[k].1.as_str());
        if c > 1 {
            proof {
                assert(occs_view(pins@)[k as int] == (pins@[k as int].0, pins@[k as int].1@));
                assert(count_occ(
                    occs_view(occs@),
                    occs@.len() as int,
                    occs_view(pins@)[k as int].0,
                    occs_view(pins@)[k as int].1,
                ) > 1);
            }
            return false;
        }
        k = k + 1;
    }
    true
}

/// Builds the full name allocation: positional input names, then the
/// sequential "sN" filter pin names.
fn build_names(g: &Graph, inputs: &Vec<usize>, pins: &Vec<(u64, String)>) -> (r: Vec<
    (u64, String, String),
>)
    requires
        order_bounds(g@, inputs@),
    ensures
        names_view(r@) == input_names(g@, inputs@) + pin_names(occs_view(pins@)),
{
    let mut r: Vec<(u64, String, String)> = Vec::new();
    let mut k: usize = 0;
    while k < inputs.len()
        invariant
            0 <= k <= inputs@.len(),
            order_bounds(g@, inputs@),
            r@.len() == k,
            forall|t: int| 0 <= t < k ==> #[trigger] names_view(r@)[t] == input_names(
                g@,
                inputs@,
            )[t],
        decreases inputs.len() - k,
    {
        let ghost rpre = r@;
        r.push((g.nodes[inputs[k]].h, String::new(), usize_to_string(k)));
        proof {
            assert forall|t: int| 0 <= t < k implies #[trigger] names_view(r@)[t] == names_view(
                rpre,
            )[t] by {
                assert(r@[t] == rpre[t]);
            }
            assert(names_view(r@)[k as int].0 == input_names(g@, inputs@)[k as int].0);
            assert(names_view(r@)[k as int].1 =~= input_names(g@, inputs@)[k as int].1);
            assert(names_view(r@)[k as int].2 =~= input_names(g@, inputs@)[k as int].2);
            assert(names_view(r@)[k as int] == input_names(g@, inputs@)[k as int]);
        }
        k = k + 1;
    }
    let ghost half = names_view(r@);
    proof {
        assert(half =~= input_names(g@, inputs@));
    }
    let mut k2: usize = 0;
    while k2 < pins.len()
        invariant
            0 <= k2 <= pins@.len(),
            r@.len() == half.len() + k2,
            forall|t: int| 0 <= t < half.len() ==> #[trigger] names_view(r@)[t] == half[t],
            forall|t: int| 0 <= t < k2 ==> #[trigger] names_view(r@)[half.len() + t] == pin_names(
                occs_view(pins@),
            )[t],
        decreases pins.len() - k2,
    {
        let mut nm = "s".to_owned();
        nm.append(usize_to_string(k2).as_str());
        proof {
            reveal_strlit("s");
            assert("s"@ =~= seq!['s']);
            assert(nm@ =~= seq!['s'] + dec_rep(k2 as nat));
        }
        let ghost rpre = r@;
        r.push((pins[k2].0, pins[k2].1.clone(), nm));
        proof {
            assert forall|t: int| 0 <= t < rpre.len() implies #[trigger] names_view(r@)[t]
                == names_view(rpre)[t] by {
                assert(r@[t] == rpre[t]);
            }
            let t = half.len() + k2;
            assert(names_view(r@)[t as int].0 == pin_names(occs_view(pins@))[k2 as int].0);
            assert(names_view(r@)[t as int].1 =~= pin_names(occs_view(pins@))[k2 as int].1);
            assert(names_view(r@)[t as int].2 =~= pin_names(occs_view(pins@))[k2 as int].2);
            assert(names_view(r@)[t as int] == pin_names(occs_view(pins@))[k2 as int]);
        }
        k2 = k2 + 1;
    }
    proof {
        assert forall|t: int|
            0 <= t < names_view(r@).len() implies names_view(r@)[t] == (input_names(g@, inputs@)
            + pin_names(occs_view(pins@)))[t] by {
            if t < half.len() {
                assert(names_view(r@)[t] == half[t]);
            } else {
                assert(names_view(r@)[half.len() + (t - half.len())] == pin_names(
                    occs_view(pins@),
                )[t - half.len()]);
            }
        }
        assert(names_view(r@) =~= input_names(g@, inputs@) + pin_names(occs_view(pins@)));
    }
    r
}

/// The allocated name of a pin, or the empty string where none was allocated.
fn lookup_prefix(names: &Vec<(u64, String, String)>, h: u64, l: &str) -> (r: String)
    ensures
        r@ == prefix_of(names_view(names@), h, l@),
{
    let mut acc: Option<String> = None;
    let mut k: usize = 0;
    proof {
        assert(names_view(names@).take(0) =~= Seq::<(u64, Seq<char>, Seq<char>)>::empty());
    }
    while k < names.len()
        invariant
            0 <= k <= names@.len(),
            names_view(names@).len() == names@.len(),
            match acc {
                Some(v) => name_lookup(names_view(names@).take(k as int), h, l@) == Some(v@),
                None => name_lookup(names_view(names@).take(k as int), h, l@) is None,
            },
        decreases names.len() - k,
    {
        proof {
            assert(names_view(names@).take(k + 1).drop_last() =~= names_view(names@).take(
                k as int,
            ));
            assert(names_view(names@).take(k + 1).last() == names_view(names@)[k as int]);
        }
        if acc.is_none() && names[k].0 == h && str_eq(names[k].1.as_str(), l) {
            acc = Some(names[k].2.clone());
        }
        k = k + 1;
    }
    proof {
        assert(names_view(names@).take(names@.len() as int) =~= names_view(names@));
    }
    match acc {
        Some(v) => v,
        None => String::new(),
    }
}

/// Renders an edge's source: the allocated name, the selector suffix, and
/// brackets except for a positionally addressed input in a final argument.
fn format_input_stream_name(
    g: &Graph,
    names: &Vec<(u64, String, String)>,
    e: &Edge,
    is_final_arg: bool,
) -> (r: String)
    requires
        0 <= e@.upstream < g@.len(),
    ensures
        r@ == render_in(g@, names_view(names@), e@, is_final_arg),
{
    let mut base = lookup_prefix(names, g.nodes[e.upstream].h, e.label.as_str());
    match e.selector {
        Some(c) => {
            base.push(':');
            base.push(c);
        },
        None => {},
    }
    proof {
        assert(base@ =~= prefix_of(names_view(names@), g@[e@.upstream].h, e@.label) + sel_suffix(
            e@.selector,
        ));
    }
    let is_input = match g.nodes[e.upstream].kind {
        NodeKind::Input => true,
        _ => false,
    };
    if is_final_arg && is_input {
        base
    } else {
        let mut s = "[".to_owned();
        s.append(base.as_str());
        s.append("]");
        proof {
            reveal_strlit("[");
            reveal_strlit("]");
            assert("["@ =~= seq!['[']);
            assert("]"@ =~= seq![']']);
            assert(s@ =~= seq!['['] + base@ + seq![']']);
        }
        s
    }
}

/// Renders an allocated pin as a bracketed output name.
fn format_output_stream_name(names: &Vec<(u64, String, String)>, h: u64, l: &str) -> (r: String)
    ensures
        r@ == seq!['['] + prefix_of(names_view(names@), h, l@) + seq![']'],
{
    let base = lookup_prefix(names, h, l);
    let mut s = "[".to_owned();
    s.append(base.as_str());
    s.append("]");
    proof {
        reveal_strlit("[");
        reveal_strlit("]");
        assert("["@ =~= seq!['[']);
        assert("]"@ =~= seq![']']);
        assert(s@ =~= seq!['['] + base@ + seq![']']);
    }
    s
}

/// One filter node's expression fragment.
fn get_filter_spec(
    g: &Graph,
    names: &Vec<(u64, String, String)>,
    occs: &Vec<(u64, String)>,
    i: usize,
) -> (r: String)
    requires
        downward(g@),
        i < g@.len(),
    ensures
        r@ == filter_fragment(g@, names_view(names@), occs_view(occs@), i),
{
    let node = &g.nodes[i];
    let mut s = String::new();
    let mut j: usize = 0;
    proof {
        assert(s@ =~= filter_inputs_str(g@, names_view(names@), g@[i as int].incoming, 0));
    }
    while j < node.incoming.len()
        invariant
            0 <= j <= g@[i as int].incoming.len(),
            downward(g@),
            0 <= (i as int) < g@.len(),
            node@ == g@[i as int],
            s@ == filter_inputs_str(g@, names_view(names@), g@[i as int].incoming, j as int),
        decreases g@[i as int].incoming.len() - j,
    {
        let e = &node.incoming[j];
        proof {
            assert(g@[i as int].incoming[j as int] == e@);
            assert(0 <= e@.upstream < i as int);
        }
        let part = format_input_stream_name(g, names, e, false);
        s.append(part.as_str());
        j = j + 1;
    }
    let text = get_filter(node);
    s.append(text.as_str());
    let ghost mid = s@;
    let pins = node_pins(node.h, occs);
    let ghost gpins = pins_of(g@[i as int].h, occs_view(occs@), occs@.len() as int);
    let mut t: usize = 0;
    proof {
        assert(occs_view(pins@) == gpins);
        assert(occs_view(pins@).len() == pins@.len());
        assert(s@ =~= mid + filter_outputs_str(names_view(names@), gpins, 0));
    }
    while t < pins.len()
        invariant
            0 <= t <= pins@.len(),
            occs_view(pins@) == gpins,
            gpins.len() == pins@.len(),
            s@ == mid + filter_outputs_str(names_view(names@), gpins, t as int),
        decreases pins.len() - t,
    {
        let part = format_output_stream_name(names, pins[t].0, pins[t].1.as_str());
        s.append(part.as_str());
        proof {
            assert(gpins[t as int] == (pins@[t as int].0, pins@[t as int].1@));
            assert(s@ =~= mid + filter_outputs_str(names_view(names@), gpins, t + 1));
        }
        t = t + 1;
    }
    s
}

/// A filter node's text: its name, and its options as "=k=v:..." in canonical
/// order.
fn get_filter(node: &Node) -> (r: String)
    ensures
        r@ == filter_text(node@),
{
    let mut s = node.name.clone();
    if node.kwargs.len() == 0 {
        return s;
    }
    s.append("=");
    proof {
        reveal_strlit("=");
        assert("="@ =~= seq!['=']);
        assert(s@ =~= node@.name + seq!['='] + kw_text(node@.kwargs, 0));
    }
    let mut j: usize = 0;
    while j < node.kwargs.len()
        invariant
            0 <= j <= node.kwargs@.len(),
            node@.kwargs.len() == node.kwargs@.len(),
            node.kwargs@.len() > 0,
            node@.kwargs == kw_view(node.kwargs@),
            s@ == node@.name + seq!['='] + kw_text(node@.kwargs, j as int),
        decreases node.kwargs.len() - j,
    {
        if j > 0 {
            s.append(":");
        }
        s.append(node.kwargs[j].0.as_str());
        s.append("=");
        s.append(node.kwargs[j].1.as_str());
        proof {
            reveal_strlit(":");
            reveal_strlit("=");
            assert(":"@ =~= seq![':']);
            assert("="@ =~= seq!['=']);
            assert(node@.kwargs[j as int] == (node.kwargs@[j as int].0@, node.kwargs@[j as int].1@));
            assert(s@ =~= node@.name + seq!['='] + kw_text(node@.kwargs, j + 1));
        }
        j = j + 1;
    }
    s
}

/// The whole filter-graph expression: one fragment per filter node in sorted
/// order, joined with ';'.
fn get_filter_args(
    g: &Graph,
    names: &Vec<(u64, String, String)>,
    occs: &Vec<(u64, String)>,
    filters: &Vec<usize>,
) -> (r: String)
    requires
        downward(g@),
        order_bounds(g@, filters@),
    ensures
        r@ == filter_expr(g@, names_view(names@), occs_view(occs@), filters@),
{
    let mut s = String::new();
    let mut k: usize = 0;
    proof {
        assert(filters@.take(0) =~= Seq::<usize>::empty());
        assert(s@ =~= filter_expr(g@, names_view(names@), occs_view(occs@), filters@.take(0)));
    }
    while k < filters.len()
        invariant
            0 <= k <= filters@.len(),
            downward(g@),
            order_bounds(g@, filters@),
            s@ == filter_expr(g@, names_view(names@), occs_view(occs@), filters@.take(k as int)),
        decreases filters.len() - k,
    {
        if k > 0 {
            s.append(";");
        }
        let frag = get_filter_spec(g, names, occs, filters[k]);
        s.append(frag.as_str());
        proof {
            reveal_strlit(";");
            assert(";"@ =~= seq![';']);
            assert(filters@.take(k + 1).drop_last() =~= filters@.take(k as int));
            assert(filters@.take(k + 1).last() == filters@[k as int]);
            assert(s@ =~= filter_expr(
                g@,
                names_view(names@),
                occs_view(occs@),
                filters@.take(k + 1),
            ));
        }
        k = k + 1;
    }
    proof {
        assert(filters@.take(filters@.len() as int) =~= filters@);
    }
    s
}

/// A node's options as alternating "-key value" arguments, the "filename"
/// option excluded, in canonical order.
fn convert_kwargs_to_cmd_args(kwargs: &Vec<(String, String)>) -> (r: Vec<String>)
    ensures
        args_view(r@) == kw_args(kw_view(kwargs@), kwargs@.len() as int),
{
    let mut r: Vec<String> = Vec::new();
    let mut j: usize = 0;
    proof {
        assert(args_view(r@) =~= kw_args(kw_view(kwargs@), 0));
    }
    while j < kwargs.len()
        invariant
            0 <= j <= kwargs@.len(),
            kw_view(kwargs@).len() == kwargs@.len(),
            args_view(r@) == kw_args(kw_view(kwargs@), j as int),
        decreases kwargs.len() - j,
    {
        proof {
            reveal_strlit("filename");
            reveal_strlit("-");
            assert("-"@ =~= seq!['-']);
            assert(kw_view(kwargs@)[j as int] == (kwargs@[j as int].0@, kwargs@[j as int].1@));
        }
        if !str_eq(kwargs[j].0.as_str(), "filename") {
            let mut flag = "-".to_owned();
            flag.append(kwargs[j].0.as_str());
            r.push(flag);
            r.push(kwargs[j].1.clone());
        }
        proof {
            assert(args_view(r@) =~= kw_args(kw_view(kwargs@), j + 1));
        }
        j = j + 1;
    }
    r
}

/// One input node's arguments: option flags, then "-i" and the filename.
fn get_input_args(node: &Node) -> (r: Vec<String>)
    requires
        kw_get(node@.kwargs, "filename"@) is Some,
    ensures
        args_view(r@) == input_args_node(node@),
{
    let mut r = convert_kwargs_to_cmd_args(&node.kwargs);
    r.push("-i".to_owned());
    let filename = match kw_get_exec(&node.kwargs, "filename") {
        Some(v) => v,
        None => String::new(),
    };
    r.push(filename);
    proof {
        assert(args_view(r@) =~= input_args_node(node@));
    }
    r
}

/// One output node's arguments: "-map" entries, option flags, filename.
fn get_output_args(g: &Graph, names: &Vec<(u64, String, String)>, node: &Node) -> (r: Vec<String>)
    requires
        kw_get(node@.kwargs, "filename"@) is Some,
        forall|j: int| 0 <= j < node@.incoming.len() ==> 0 <= #[trigger] node@.incoming[j].upstream
            < g@.len(),
    ensures
        args_view(r@) == output_args_node(g@, names_view(names@), node@),
{
    let mut r: Vec<String> = Vec::new();
    let n_edges = node.incoming.len();
    let mut j: usize = 0;
    proof {
        assert(args_view(r@) =~= output_maps(g@, names_view(names@), node@, 0));
    }
    while j < node.incoming.len()
        invariant
            0 <= j <= node.incoming@.len(),
            node@.incoming.len() == node.incoming@.len(),
            n_edges == node.incoming@.len(),
            forall|t: int| 0 <= t < node@.incoming.len() ==> 0 <= #[trigger] node@.incoming[t].upstream
                < g@.len(),
            args_view(r@) == output_maps(g@, names_view(names@), node@, j as int),
        decreases node.incoming.len() - j,
    {
        let e = &node.incoming[j];
        proof {
            assert(node@.incoming[j as int] == e@);
        }
        let rendered = format_input_stream_name(g, names, e, true);
        proof {
            reveal_strlit("0");
            assert("0"@ =~= seq!['0']);
        }
        if !str_eq(rendered.as_str(), "0") || n_edges > 1 {
            r.push("-map".to_owned());
            r.push(rendered);
        }
        proof {
            assert(args_view(r@) =~= output_maps(g@, names_view(names@), node@, j + 1));
        }
        j = j + 1;
    }
    let ghost maps = args_view(r@);
    let mut flags = convert_kwargs_to_cmd_args(&node.kwargs);
    let ghost gflags = args_view(flags@);
    r.append(&mut flags);
    let filename = match kw_get_exec(&node.kwargs, "filename") {
        Some(v) => v,
        None => String::new(),
    };
    r.push(filename);
    proof {
        assert(args_view(r@) =~= output_args_node(g@, names_view(names@), node@));
    }
    r
}

/// Serializes the graph reachable from the terminal into its argument list:
/// sorted inputs, the filter-graph expression, sorted outputs, and the
/// defensive overwrite flag when there is no output node.
pub fn get_args(graph: &Graph, terminal: usize, overwrite_output: bool) -> (r: Result<
    Vec<String>,
    GraphError,
>)
    requires
        downward(graph@),
        terminal < graph@.len(),
    ensures
        match r {
            Ok(a) => spec_get_args(graph@, terminal, overwrite_output) == Ok::<
                Seq<Seq<char>>,
                GraphError,
            >(args_view(a@)),
            Err(e) => spec_get_args(graph@, terminal, overwrite_output) == Err::<
                Seq<Seq<char>>,
                GraphError,
            >(e),
        },
{
    let order = match topo_sort(graph, terminal) {
        Ok(o) => o,
        Err(e) => {
            return Err(e);
        },
    };
    let inputs = kind_filter_exec(graph, &order, NodeKind::Input);
    let filters = kind_filter_exec(graph, &order, NodeKind::Filter);
    let outputs = kind_filter_exec(graph, &order, NodeKind::Output);
    if !check_filenames(graph, &inputs) {
        return Err(GraphError::MissingRequiredOption);
    }
    let occs = get_outgoing_edge_map(graph, &order);
    let pins = allocate_filter_stream_name(graph, &filters, &occs);
    if !check_fanout(&occs, &pins) {
        return Err(GraphError::FanoutViolation);
    }
    if !check_filenames(graph, &outputs) {
        return Err(GraphError::MissingRequiredOption);
    }
    let names = build_names(graph, &inputs, &pins);
    let mut args: Vec<String> = Vec::new();
    let mut k: usize = 0;
    proof {
        assert(inputs@.take(0) =~= Seq::<usize>::empty());
        assert(args_view(args@) =~= inputs_args(graph@, inputs@, 0));
    }
    while k < inputs.len()
        invariant
            0 <= k <= inputs@.len(),
            order_bounds(graph@, inputs@),
            all_have_filename(graph@, inputs@),
            args_view(args@) == inputs_args(graph@, inputs@, k as int),
        decreases inputs.len() - k,
    {
        let mut part = get_input_args(&graph.nodes[inputs[k]]);
        let ghost gpart = args_view(part@);
        let ghost pre = args_view(args@);
        args.append(&mut part);
        proof {
            assert(args_view(args@) =~= pre + gpart);
            assert(args_view(args@) =~= inputs_args(graph@, inputs@, k + 1));
        }
        k = k + 1;
    }
    let expr = get_filter_args(graph, &names, &occs, &filters);
    let ghost gexpr = expr@;
    let ghost gins = args_view(args@);
    if expr.unicode_len() != 0 {
        args.push("-filter_complex".to_owned());
        args.push(expr);
    }
    let ghost mid = args_view(args@);
    proof {
        assert(mid =~= gins + if gexpr.len() == 0 {
            Seq::<Seq<char>>::empty()
        } else {
            seq!["-filter_complex"@, gexpr]
        });
    }
    let ghost gouts = outputs_args(
        graph@,
        names_view(names@),
        outputs@,
        outputs@.len() as int,
    );
    let mut k2: usize = 0;
    proof {
        assert(mid + outputs_args(graph@, names_view(names@), outputs@, 0) =~= mid);
    }
    while k2 < outputs.len()
        invariant
            0 <= k2 <= outputs@.len(),
            downward(graph@),
            order_bounds(graph@, outputs@),
            all_have_filename(graph@, outputs@),
            args_view(args@) == mid + outputs_args(
                graph@,
                names_view(names@),
                outputs@,
                k2 as int,
            ),
        decreases outputs.len() - k2,
    {
        let i = outputs[k2];
        proof {
            assert(kw_get(graph@[i as int].kwargs, "filename"@) is Some);
        }
        let mut part = get_output_args(graph, &names, &graph.nodes[i]);
        let ghost gpart = args_view(part@);
        let ghost pre = args_view(args@);
        args.append(&mut part);
        proof {
            assert(args_view(args@) =~= pre + gpart);
            assert(args_view(args@) =~= mid + outputs_args(
                graph@,
                names_view(names@),
                outputs@,
                k2 + 1,
            ));
        }
        k2 = k2 + 1;
    }
    let ghost with_outs = args_view(args@);
    proof {
        assert(with_outs == mid + gouts);
    }
    if overwrite_output && outputs.len() == 0 {
        args.push("-y".to_owned());
    }
    proof {
        assert(args_view(args@) =~= with_outs + if overwrite_output && outputs@.len() == 0 {
            seq!["-y"@]
        } else {
            Seq::<Seq<char>>::empty()
        });
        assert(args_view(args@) =~= match spec_get_args(graph@, terminal, overwrite_output) {
            Ok(a) => a,
            Err(_) => Seq::empty(),
        });
    }
    Ok(args)
}

/// Compiles the graph reachable from the stream's node into the full command:
/// the program name, the serialized arguments, and the overwrite flag if
/// requested.
pub fn compile(stream: &Stream, cmd: &str, overwrite_output: bool) -> (r: Result<
    Vec<String>,
    GraphError,
>)
    requires
        stream_wf(stream@),
    ensures
        match r {
            Ok(a) => spec_compile(stream@.nodes, stream.index, cmd@, overwrite_output) == Ok::<
                Seq<Seq<char>>,
                GraphError,
            >(args_view(a@)),
            Err(e) => spec_compile(stream@.nodes, stream.index, cmd@, overwrite_output) == Err::<
                Seq<Seq<char>>,
                GraphError,
            >(e),
        },
{
    let rest = match get_args(&stream.graph, stream.index, overwrite_output) {
        Ok(a) => a,
        Err(e) => {
            return Err(e);
        },
    };
    let mut args: Vec<String> = Vec::new();
    args.push(cmd.to_owned());
    let mut rest_mut = rest;
    let ghost grest = args_view(rest_mut@);
    args.append(&mut rest_mut);
    if overwrite_output {
        args.push("-y".to_owned());
    }
    proof {
        assert(args_view(args@) =~= seq![cmd@] + grest + if overwrite_output {
            seq!["-y"@]
        } else {
            Seq::<Seq<char>>::empty()
        });
    }
    Ok(args)
}

} // verus!
