//! Cycle-checked depth-first topological sorting.
//!
//! The sorter linearizes all nodes reachable by following incoming edges
//! backward from a terminal node.  Node identity is the structural hash: a
//! node whose hash is already placed is skipped (this collapses structurally
//! equal duplicates to one logical node), and meeting a hash that is on the
//! recursion stack is a cycle.  A well-formed arena has only downward edges,
//! so index-level cycles cannot be built by the constructors; a cycle shows up
//! exactly when a node's hash recurs in its own upstream chain.

use vstd::prelude::*;
use crate::model::{Graph, GNode, GraphError, downward};

verus! {

/// The traversal state: the hashes on the recursion stack, and the indices
/// already placed in the output order.
#[verifier::ext_equal]
pub ghost struct SortState {
    pub stack: Seq<u64>,
    pub order: Seq<usize>,
}

/// Whether a hash is already placed in the order.
pub open spec fn placed(g: Seq<GNode>, order: Seq<usize>, h: u64) -> bool {
    exists|k: int| 0 <= k < order.len() && g[order[k] as int].h == h
}

/// Depth-first visit of one node: a no-op if its hash is placed, a cycle if
/// its hash is on the stack, otherwise its upstream edges are visited and the
/// node is appended to the order.
pub open spec fn dfs_node(g: Seq<GNode>, i: usize, st: SortState) -> Result<SortState, GraphError>
    decreases i, 1int, 0int
        when downward(g) && 0 <= i < g.len()
{
    if placed(g, st.order, g[i as int].h) {
        Ok(st)
    } else if st.stack.contains(g[i as int].h) {
        Err(GraphError::NotADag)
    } else {
        match dfs_edges(g, i, 0, SortState { stack: st.stack.push(g[i as int].h), order: st.order }) {
            Ok(st1) => Ok(SortState { stack: st.stack, order: st1.order.push(i) }),
            Err(e) => Err(e),
        }
    }
}

/// Visits the upstream targets of the edges of node `i`, from pin `j` on.
pub open spec fn dfs_edges(g: Seq<GNode>, i: usize, j: int, st: SortState) -> Result<
    SortState,
    GraphError,
>
    decreases i, 0int, g[i as int].incoming.len() - j
        when downward(g) && 0 <= i < g.len() && 0 <= j <= g[i as int].incoming.len()
{
    if j >= g[i as int].incoming.len() {
        Ok(st)
    } else {
        match dfs_node(g, g[i as int].incoming[j].upstream as usize, st) {
            Ok(st1) => dfs_edges(g, i, j + 1, st1),
            Err(e) => Err(e),
        }
    }
}

/// The dependency-respecting linearization of all nodes reachable from the
/// terminal, or `NotADag` if the reachable graph has a cycle.
pub open spec fn spec_topo(g: Seq<GNode>, terminal: usize) -> Result<Seq<usize>, GraphError> {
    match dfs_node(g, terminal, SortState { stack: Seq::empty(), order: Seq::empty() }) {
        Ok(st) => Ok(st.order),
        Err(e) => Err(e),
    }
}

/// A successful edge visit restores the recursion stack it was given.
pub proof fn lemma_dfs_edges_stack(g: Seq<GNode>, i: usize, j: int, st: SortState)
    requires
        downward(g),
        0 <= i < g.len(),
        0 <= j <= g[i as int].incoming.len(),
    ensures
        dfs_edges(g, i, j, st) is Ok ==> dfs_edges(g, i, j, st)->Ok_0.stack == st.stack,
    decreases i, 0int, g[i as int].incoming.len() - j,
{
    if j < g[i as int].incoming.len() {
        match dfs_node(g, g[i as int].incoming[j].upstream as usize, st) {
            Ok(st1) => {
                lemma_dfs_edges_stack(g, i, j + 1, st1);
            },
            Err(_) => {},
        }
    }
}

/// All order entries are in bounds.
pub open spec fn order_bounds(g: Seq<GNode>, order: Seq<usize>) -> bool {
    forall|k: int| 0 <= k < order.len() ==> #[trigger] order[k] < g.len()
}

/// Checks whether the hash is placed, by scanning the order.
fn hash_placed(g: &Graph, order: &Vec<usize>, h: u64) -> (r: bool)
    requires
        order_bounds(g@, order@),
    ensures
        r == placed(g@, order@, h),
{
    let mut k: usize = 0;
    while k < order.len()
        invariant
            0 <= k <= order@.len(),
            order_bounds(g@, order@),
            forall|t: int| 0 <= t < k ==> g@[#[trigger] order@[t] as int].h != h,
        decreases order.len() - k,
    {
        if g.nodes[order[k]].h == h {
            return true;
        }
        k = k + 1;
    }
    false
}

/// Checks whether the hash is on the recursion stack.
fn stack_contains(stack: &Vec<u64>, h: u64) -> (r: bool)
    ensures
        r == stack@.contains(h),
{
    let mut k: usize = 0;
    while k < stack.len()
        invariant
            0 <= k <= stack@.len(),
            forall|t: int| 0 <= t < k ==> stack@[t] != h,
        decreases stack.len() - k,
    {
        if stack[k] == h {
            return true;
        }
        k = k + 1;
    }
    false
}

/// Executable depth-first visit of one node, mirroring `dfs_node`.
fn visit_node(g: &Graph, i: usize, stack: &mut Vec<u64>, order: &mut Vec<usize>) -> (r: Result<
    (),
    GraphError,
>)
    requires
        downward(g@),
        i < g@.len(),
        order_bounds(g@, old(order)@),
    ensures
        ({
            let res = dfs_node(g@, i, SortState { stack: old(stack)@, order: old(order)@ });
            match r {
                Ok(()) => res == Ok::<SortState, GraphError>(
                    SortState { stack: final(stack)@, order: final(order)@ },
                ) && order_bounds(g@, final(order)@),
                Err(e) => res == Err::<SortState, GraphError>(e),
            }
        }),
    decreases i, 1int, 0int,
{
    let h = g.nodes[i].h;
    if hash_placed(g, order, h) {
        return Ok(());
    }
    if stack_contains(stack, h) {
        return Err(GraphError::NotADag);
    }
    stack.push(h);
    let res = visit_edges(g, i, 0, stack, order);
    match res {
        Ok(()) => {
            proof {
                lemma_dfs_edges_stack(
                    g@,
                    i,
                    0,
                    SortState { stack: old(stack)@.push(h), order: old(order)@ },
                );
                assert(stack@ == old(stack)@.push(h));
            }
            let _restored = stack.pop();
            order.push(i);
            proof {
                assert(stack@ =~= old(stack)@);
            }
            Ok(())
        },
        Err(e) => Err(e),
    }
}

/// Executable visit of the upstream edges of node `i` from pin `j` on,
/// mirroring `dfs_edges`.
fn visit_edges(g: &Graph, i: usize, j: usize, stack: &mut Vec<u64>, order: &mut Vec<usize>) -> (r:
    Result<(), GraphError>)
    requires
        downward(g@),
        i < g@.len(),
        j <= g@[i as int].incoming.len(),
        order_bounds(g@, old(order)@),
    ensures
        ({
            let res = dfs_edges(g@, i, j as int, SortState { stack: old(stack)@, order: old(order)@ });
            match r {
                Ok(()) => res == Ok::<SortState, GraphError>(
                    SortState { stack: final(stack)@, order: final(order)@ },
                ) && order_bounds(g@, final(order)@),
                Err(e) => res == Err::<SortState, GraphError>(e),
            }
        }),
    decreases i, 0int, g@[i as int].incoming.len() - j,
{
    if j >= g.nodes[i].incoming.len() {
        return Ok(());
    }
    let up = g.nodes[i].incoming[j].upstream;
    proof {
        assert(g@[i as int].incoming[j as int].upstream == up as int);
        assert(0 <= up < i);
    }
    let res = visit_node(g, up, stack, order);
    match res {
        Ok(()) => visit_edges(g, i, j + 1, stack, order),
        Err(e) => Err(e),
    }
}

/// Topologically sorts all nodes reachable from the terminal, dependencies
/// first, ties broken by first discovery in the depth-first traversal, with
/// structurally equal duplicates collapsed.  Returns `NotADag` if a node's
/// hash recurs in its own upstream chain.
pub fn topo_sort(graph: &Graph, terminal: usize) -> (r: Result<Vec<usize>, GraphError>)
    requires
        downward(graph@),
        terminal < graph@.len(),
    ensures
        match r {
            Ok(order) => spec_topo(graph@, terminal) == Ok::<Seq<usize>, GraphError>(order@)
                && order_bounds(graph@, order@),
            Err(e) => spec_topo(graph@, terminal) == Err::<Seq<usize>, GraphError>(e),
        },
{
    let mut stack: Vec<u64> = Vec::new();
    let mut order: Vec<usize> = Vec::new();
    let res = visit_node(graph, terminal, &mut stack, &mut order);
    match res {
        Ok(()) => Ok(order),
        Err(e) => Err(e),
    }
}

/// Whether a hash is placed among the first `k` entries of the order.
pub open spec fn placed_upto(g: Seq<GNode>, order: Seq<usize>, k: int, h: u64) -> bool {
    exists|t: int| 0 <= t < k && g[order[t] as int].h == h
}

/// No two placed entries share a hash: the order holds one representative per
/// logical (content-addressed) node.
pub open spec fn distinct_hashes(g: Seq<GNode>, order: Seq<usize>) -> bool {
    forall|k1: int, k2: int|
        0 <= k1 < k2 < order.len() ==> g[#[trigger] order[k1] as int].h != g[#[trigger] order[k2] as int].h
}

/// Every placed node's upstream hashes are placed strictly before it.
pub open spec fn deps_ok(g: Seq<GNode>, order: Seq<usize>) -> bool {
    forall|k: int, j: int|
        #![trigger g[order[k] as int].incoming[j]]
        0 <= k < order.len() && 0 <= j < g[order[k] as int].incoming.len() ==> placed_upto(
            g,
            order,
            k,
            g[g[order[k] as int].incoming[j].upstream].h,
        )
}

/// A hash placed in a prefix stays placed, at the same position, in any
/// extension.
proof fn lemma_prefix_placed(g: Seq<GNode>, o1: Seq<usize>, o2: Seq<usize>, h: u64)
    requires
        o1.is_prefix_of(o2),
        placed(g, o1, h),
    ensures
        placed(g, o2, h),
{
    let k = choose|k: int| 0 <= k < o1.len() && g[o1[k] as int].h == h;
    assert(o2[k] == o1[k]);
}

/// The properties the traversal maintains: a successful visit keeps the stack,
/// extends the order, keeps it dependency-closed and duplicate-free, places
/// the visited node's hash, and never places a hash still on the stack.
proof fn lemma_dfs_node_props(g: Seq<GNode>, i: usize, st: SortState)
    requires
        downward(g),
        0 <= i < g.len(),
        order_bounds(g, st.order),
        distinct_hashes(g, st.order),
        deps_ok(g, st.order),
    ensures
        dfs_node(g, i, st) is Err ==> dfs_node(g, i, st) == Err::<SortState, GraphError>(
            GraphError::NotADag,
        ),
        dfs_node(g, i, st) is Ok ==> ({
            let st1 = dfs_node(g, i, st)->Ok_0;
            &&& st1.stack == st.stack
            &&& st.order.is_prefix_of(st1.order)
            &&& order_bounds(g, st1.order)
            &&& distinct_hashes(g, st1.order)
            &&& deps_ok(g, st1.order)
            &&& placed(g, st1.order, g[i as int].h)
            &&& forall|h: u64|
                st.stack.contains(h) && !placed(g, st.order, h) ==> !placed(g, st1.order, h)
        }),
    decreases i, 1int, 0int,
{
    let h = g[i as int].h;
    if placed(g, st.order, h) {
        assert(st.order.is_prefix_of(st.order));
    } else if st.stack.contains(h) {
    } else {
        let stp = SortState { stack: st.stack.push(h), order: st.order };
        lemma_dfs_edges_props(g, i, 0, stp);
        match dfs_edges(g, i, 0, stp) {
            Ok(st1) => {
                let st2 = SortState { stack: st.stack, order: st1.order.push(i) };
                assert(stp.stack.contains(h)) by {
                    assert(stp.stack[st.stack.len() as int] == h);
                }
                assert(!placed(g, st1.order, h));
                assert(st.order.is_prefix_of(st1.order));
                assert(st1.order.is_prefix_of(st1.order.push(i))) by {
                    assert(forall|t: int|
                        0 <= t < st1.order.len() ==> st1.order.push(i)[t] == #[trigger] st1.order[t]);
                    assert(st1.order.is_prefix_of(st1.order.push(i)));
                }
                assert(st.order.is_prefix_of(st2.order)) by {
                    assert(forall|t: int|
                        0 <= t < st.order.len() ==> st2.order[t] == #[trigger] st.order[t]);
                }
                assert(order_bounds(g, st2.order));
                assert(distinct_hashes(g, st2.order)) by {
                    assert forall|k1: int, k2: int|
                        0 <= k1 < k2 < st2.order.len() implies g[#[trigger] st2.order[k1] as int].h
                        != g[#[trigger] st2.order[k2] as int].h by {
                        if k2 == st1.order.len() {
                            assert(g[st2.order[k2] as int].h == h);
                            assert(st2.order[k1] == st1.order[k1]);
                            if g[st1.order[k1] as int].h == h {
                                assert(placed(g, st1.order, h));
                            }
                        } else {
                            assert(st2.order[k1] == st1.order[k1]);
                            assert(st2.order[k2] == st1.order[k2]);
                        }
                    }
                }
                assert(deps_ok(g, st2.order)) by {
                    assert forall|k: int, j: int|
                        0 <= k < st2.order.len() && 0 <= j < g[st2.order[k] as int].incoming.len()
                        implies placed_upto(
                        g,
                        st2.order,
                        k,
                        g[#[trigger] g[st2.order[k] as int].incoming[j].upstream].h,
                    ) by {
                        if k < st1.order.len() {
                            assert(st2.order[k] == st1.order[k]);
                            assert(placed_upto(
                                g,
                                st1.order,
                                k,
                                g[g[st1.order[k] as int].incoming[j].upstream].h,
                            ));
                            let t = choose|t: int|
                                0 <= t < k && g[st1.order[t] as int].h == g[g[st1.order[
                                    k
                                ] as int].incoming[j].upstream].h;
                            assert(st2.order[t] == st1.order[t]);
                        } else {
                            assert(st2.order[k] == i);
                            assert(placed(
                                g,
                                st1.order,
                                g[g[i as int].incoming[j].upstream as int].h,
                            ));
                            let t = choose|t: int|
                                0 <= t < st1.order.len() && g[st1.order[t] as int].h == g[g[
                                    i as int
                                ].incoming[j].upstream as int].h;
                            assert(st2.order[t] == st1.order[t]);
                        }
                    }
                }
                assert(placed(g, st2.order, h)) by {
                    assert(g[st2.order[st1.order.len() as int] as int].h == h);
                }
                assert forall|h2: u64|
                    st.stack.contains(h2) && !placed(g, st.order, h2) implies !placed(
                    g,
                    st2.order,
                    h2,
                ) by {
                    assert(stp.stack.contains(h2)) by {
                        let w = choose|w: int| 0 <= w < st.stack.len() && st.stack[w] == h2;
                        assert(stp.stack[w] == h2);
                    }
                    assert(!placed(g, st1.order, h2));
                    assert(h2 != h);
                    if placed(g, st2.order, h2) {
                        let t = choose|t: int|
                            0 <= t < st2.order.len() && g[st2.order[t] as int].h == h2;
                        if t < st1.order.len() {
                            assert(st2.order[t] == st1.order[t]);
                            assert(placed(g, st1.order, h2));
                        } else {
                            assert(g[st2.order[t] as int].h == h);
                        }
                    }
                }
            },
            Err(_) => {},
        }
    }
}

/// The same properties for the edge sweep: additionally, every upstream hash
/// of the already swept edges is placed.
proof fn lemma_dfs_edges_props(g: Seq<GNode>, i: usize, j: int, st: SortState)
    requires
        downward(g),
        0 <= i < g.len(),
        0 <= j <= g[i as int].incoming.len(),
        order_bounds(g, st.order),
        distinct_hashes(g, st.order),
        deps_ok(g, st.order),
    ensures
        dfs_edges(g, i, j, st) is Err ==> dfs_edges(g, i, j, st) == Err::<SortState, GraphError>(
            GraphError::NotADag,
        ),
        dfs_edges(g, i, j, st) is Ok ==> ({
            let st1 = dfs_edges(g, i, j, st)->Ok_0;
            &&& st1.stack == st.stack
            &&& st.order.is_prefix_of(st1.order)
            &&& order_bounds(g, st1.order)
            &&& distinct_hashes(g, st1.order)
            &&& deps_ok(g, st1.order)
            &&& forall|t: int|
                j <= t < g[i as int].incoming.len() ==> placed(
                    g,
                    st1.order,
                    g[#[trigger] g[i as int].incoming[t].upstream].h,
                )
            &&& forall|h: u64|
                st.stack.contains(h) && !placed(g, st.order, h) ==> !placed(g, st1.order, h)
        }),
    decreases i, 0int, g[i as int].incoming.len() - j,
{
    if j < g[i as int].incoming.len() {
        let up = g[i as int].incoming[j].upstream as usize;
        assert(0 <= g[i as int].incoming[j].upstream < i);
        lemma_dfs_node_props(g, up, st);
        match dfs_node(g, up, st) {
            Ok(stn) => {
                lemma_dfs_edges_props(g, i, j + 1, stn);
                match dfs_edges(g, i, j + 1, stn) {
                    Ok(st1) => {
                        assert(st.order.is_prefix_of(st1.order)) by {
                            assert(st.order.is_prefix_of(stn.order));
                            assert(stn.order.is_prefix_of(st1.order));
                            assert(forall|t: int|
                                0 <= t < st.order.len() ==> st1.order[t] == #[trigger] st.order[t]);
                        }
                        assert(placed(g, st1.order, g[g[i as int].incoming[j].upstream].h)) by {
                            lemma_prefix_placed(g, stn.order, st1.order, g[up as int].h);
                        }
                        assert forall|h: u64|
                            st.stack.contains(h) && !placed(g, st.order, h) implies !placed(
                            g,
                            st1.order,
                            h,
                        ) by {
                            assert(stn.stack == st.stack);
                            assert(!placed(g, stn.order, h));
                        }
                    },
                    Err(_) => {},
                }
            },
            Err(_) => {},
        }
    } else {
        assert(st.order.is_prefix_of(st.order));
    }
}

/// A successful topological sort yields a dependency-closed, duplicate-free
/// order that places the terminal; a failure is exactly `NotADag`.
pub proof fn lemma_topo_props(g: Seq<GNode>, terminal: usize)
    requires
        downward(g),
        0 <= terminal < g.len(),
    ensures
        spec_topo(g, terminal) is Err ==> spec_topo(g, terminal) == Err::<Seq<usize>, GraphError>(
            GraphError::NotADag,
        ),
        spec_topo(g, terminal) is Ok ==> ({
            let order = spec_topo(g, terminal)->Ok_0;
            &&& order_bounds(g, order)
            &&& distinct_hashes(g, order)
            &&& deps_ok(g, order)
            &&& placed(g, order, g[terminal as int].h)
        }),
{
    let st0 = SortState { stack: Seq::empty(), order: Seq::empty() };
    lemma_dfs_node_props(g, terminal, st0);
}

/// A dependency path: each step goes from a node to one of its upstream nodes.
pub open spec fn valid_dep_path(g: Seq<GNode>, p: Seq<int>) -> bool {
    &&& forall|m: int| 0 <= m < p.len() ==> 0 <= #[trigger] p[m] < g.len()
    &&& forall|m: int|
        0 <= m < p.len() - 1 ==> exists|j: int|
            0 <= j < g[#[trigger] p[m]].incoming.len() && g[p[m]].incoming[j].upstream == p[m + 1]
}

/// Hash identity is consistent: nodes with equal hashes have equal sets of
/// upstream hashes.  Under content addressing this is what "two nodes are the
/// same node" means; only a hash collision between structurally different
/// nodes can break it.
pub open spec fn edge_hash_matched(g: Seq<GNode>, i1: int, i2: int, j: int) -> bool {
    exists|j2: int|
        0 <= j2 < g[i2].incoming.len() && g[g[i2].incoming[j2].upstream].h == g[g[i1].incoming[
            j
        ].upstream].h
}

pub open spec fn hash_consistent(g: Seq<GNode>) -> bool {
    forall|i1: int, i2: int, j: int|
        0 <= i1 < g.len() && 0 <= i2 < g.len() && 0 <= j < g[i1].incoming.len() && g[i1].h
            == g[i2].h ==> #[trigger] edge_hash_matched(g, i1, i2, j)
}

/// The position of a hash in the order.
pub open spec fn pos_of(g: Seq<GNode>, order: Seq<usize>, h: u64) -> int {
    choose|k: int| 0 <= k < order.len() && g[order[k] as int].h == h
}

/// One dependency step strictly lowers the position: the upstream node's hash
/// is placed strictly before the downstream node's.
proof fn lemma_dep_step(g: Seq<GNode>, order: Seq<usize>, i: int, u: int)
    requires
        order_bounds(g, order),
        distinct_hashes(g, order),
        deps_ok(g, order),
        hash_consistent(g),
        0 <= i < g.len(),
        0 <= u < g.len(),
        exists|j: int| 0 <= j < g[i].incoming.len() && g[i].incoming[j].upstream == u,
        placed(g, order, g[i].h),
    ensures
        placed(g, order, g[u].h),
        0 <= pos_of(g, order, g[u].h) < pos_of(g, order, g[i].h) < order.len(),
{
    let k = pos_of(g, order, g[i].h);
    assert(0 <= k < order.len() && g[order[k] as int].h == g[i].h);
    let rep = order[k] as int;
    let j = choose|j: int| 0 <= j < g[i].incoming.len() && g[i].incoming[j].upstream == u;
    assert(g[i].incoming[j].upstream == u);
    assert(edge_hash_matched(g, i, rep, j));
    let j2 = choose|j2: int|
        0 <= j2 < g[rep].incoming.len() && g[g[rep].incoming[j2].upstream].h == g[g[i].incoming[
            j
        ].upstream].h;
    assert(0 <= j2 < g[rep].incoming.len() && g[g[rep].incoming[j2].upstream].h == g[u].h);
    assert(placed_upto(g, order, k, g[g[rep].incoming[j2].upstream].h)) by {
        assert(g[order[k] as int].incoming[j2] == g[rep].incoming[j2]);
    }
    let t = choose|t: int| 0 <= t < k && g[order[t] as int].h == g[g[rep].incoming[j2].upstream].h;
    assert(g[order[t] as int].h == g[u].h);
    let t2 = pos_of(g, order, g[u].h);
    assert(0 <= t2 < order.len() && g[order[t2] as int].h == g[u].h);
    assert(t2 == t) by {
        if t2 != t {
            assert(g[order[t] as int].h != g[order[t2] as int].h);
        }
    }
}

/// Along any dependency path whose start is placed, positions in the order
/// strictly decrease: a node stands strictly after everything it transitively
/// depends on.
pub proof fn lemma_path_pos_decreasing(
    g: Seq<GNode>,
    order: Seq<usize>,
    p: Seq<int>,
    a: int,
    b: int,
)
    requires
        order_bounds(g, order),
        distinct_hashes(g, order),
        deps_ok(g, order),
        hash_consistent(g),
        valid_dep_path(g, p),
        0 <= a < b < p.len(),
        placed(g, order, g[p[a]].h),
    ensures
        placed(g, order, g[p[b]].h),
        pos_of(g, order, g[p[b]].h) < pos_of(g, order, g[p[a]].h),
    decreases b - a,
{
    lemma_dep_step(g, order, p[a], p[a + 1]);
    if a + 1 < b {
        lemma_path_pos_decreasing(g, order, p, a + 1, b);
    }
}

/// Every node stands strictly after all nodes it transitively depends on: for
/// any dependency path out of the terminal, each step's hash is placed at a
/// strictly smaller position than the step before it.
pub proof fn lemma_topo_respects_deps(
    g: Seq<GNode>,
    terminal: usize,
    order: Seq<usize>,
    p: Seq<int>,
    a: int,
    b: int,
)
    requires
        downward(g),
        0 <= terminal < g.len(),
        spec_topo(g, terminal) == Ok::<Seq<usize>, GraphError>(order),
        hash_consistent(g),
        valid_dep_path(g, p),
        p.len() > 0,
        p[0] == terminal as int,
        0 <= a < b < p.len(),
    ensures
        placed(g, order, g[p[a]].h),
        placed(g, order, g[p[b]].h),
        pos_of(g, order, g[p[b]].h) < pos_of(g, order, g[p[a]].h),
{
    lemma_topo_props(g, terminal);
    if a > 0 {
        lemma_path_pos_decreasing(g, order, p, 0, a);
    }
    lemma_path_pos_decreasing(g, order, p, a, b);
}

/// A graph with a reachable cycle (under hash identity) cannot be sorted: the
/// sort returns exactly `NotADag`.
pub proof fn lemma_cycle_not_a_dag(g: Seq<GNode>, terminal: usize, p: Seq<int>, a: int, b: int)
    requires
        downward(g),
        0 <= terminal < g.len(),
        hash_consistent(g),
        valid_dep_path(g, p),
        p.len() > 0,
        p[0] == terminal as int,
        0 <= a < b < p.len(),
        g[p[a]].h == g[p[b]].h,
    ensures
        spec_topo(g, terminal) == Err::<Seq<usize>, GraphError>(GraphError::NotADag),
{
    lemma_topo_props(g, terminal);
    match spec_topo(g, terminal) {
        Ok(order) => {
            lemma_topo_respects_deps(g, terminal, order, p, a, b);
            assert(false);
        },
        Err(_) => {},
    }
}

} // verus!
