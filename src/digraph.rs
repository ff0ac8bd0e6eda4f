use vstd::prelude::*;

use petgraph::graph::{Graph, NodeIndex};
use petgraph::Directed;

verus! {

#[verifier::external_type_specification]
#[verifier::external_body]
#[verifier::reject_recursive_types(N)]
#[verifier::reject_recursive_types(E)]
#[verifier::reject_recursive_types(Ty)]
#[verifier::reject_recursive_types(Ix)]
pub struct ExGraph<N, E, Ty, Ix>(Graph<N, E, Ty, Ix>);

#[verifier::external_type_specification]
#[verifier::external_body]
pub struct ExDirected(Directed);

/// The dependency graph handed to petgraph: node weights are pass indices and
/// node/edge indices are `usize`, so the graph has no index limit.
pub type DepGraph = Graph<usize, (), Directed, usize>;

/// The node weights of a graph, in index order.
pub uninterp spec fn graph_nodes(g: Graph<usize, (), Directed, usize>) -> Seq<usize>;

/// The edges of a graph as (source, target) indices, in the order they were added.
pub uninterp spec fn graph_edges(g: Graph<usize, (), Directed, usize>) -> Seq<(usize, usize)>;

/// The order that petgraph's `toposort` picks for a graph built from these
/// nodes and these edges, added in this order; `None` when it reports a cycle.
pub uninterp spec fn toposort_of(nodes: Seq<usize>, edges: Seq<(usize, usize)>) -> Option<
    Seq<usize>,
>;

/// `o` lists each of the nodes `0..n` once, and the source of every edge
/// comes before its target.
pub open spec fn is_topological_order(n: nat, edges: Seq<(usize, usize)>, o: Seq<usize>) -> bool {
    &&& o.len() == n
    &&& o.no_duplicates()
    &&& forall|i: int| 0 <= i < o.len() ==> (#[trigger] o[i]) < n
    &&& forall|i: int, j: int|
        0 <= i < o.len() && 0 <= j < o.len() && edges.contains((#[trigger] o[i], #[trigger] o[j]))
            ==> i < j
}

/// `p` is a walk along `edges`.
pub open spec fn is_walk(edges: Seq<(usize, usize)>, p: Seq<usize>) -> bool {
    &&& p.len() >= 1
    &&& forall|i: int| 0 <= i < p.len() - 1 ==> edges.contains((#[trigger] p[i], p[i + 1]))
}

/// Some walk along `edges` leads from `a` to `b`; every node reaches itself.
pub open spec fn reachable(edges: Seq<(usize, usize)>, a: usize, b: usize) -> bool {
    exists|p: Seq<usize>| is_walk(edges, p) && p[0] == a && p.last() == b
}

/// Some walk of at least one edge along `edges` returns to where it started.
pub open spec fn has_cycle(edges: Seq<(usize, usize)>) -> bool {
    exists|p: Seq<usize>| is_walk(edges, p) && p.len() >= 2 && p[0] == p.last()
}

/// Relies on petgraph's `Graph::with_capacity`: the graph starts without
/// nodes and edges.
#[verifier::external_body]
pub(crate) fn new_graph(nodes: usize, edges: usize) -> (g: DepGraph)
    ensures
        graph_nodes(g) == Seq::<usize>::empty(),
        graph_edges(g) == Seq::<(usize, usize)>::empty(),
{
    Graph::with_capacity(nodes, edges)
}

/// Relies on petgraph's `Graph::add_node`: the node is appended and its index
/// is the former node count; with `usize` indices there is no node limit.
#[verifier::external_body]
pub(crate) fn add_node(g: &mut DepGraph, weight: usize) -> (r: usize)
    ensures
        graph_nodes(*final(g)) == graph_nodes(*old(g)).push(weight),
        graph_edges(*final(g)) == graph_edges(*old(g)),
        r == graph_nodes(*old(g)).len(),
{
    g.add_node(weight).index()
}

/// Relies on petgraph's `Graph::add_edge`: the edge is appended (parallel
/// edges are allowed); it panics only when an endpoint is not a node, and with
/// `usize` indices there is no edge limit.
#[verifier::external_body]
pub(crate) fn add_edge(g: &mut DepGraph, a: usize, b: usize)
    requires
        a < graph_nodes(*old(g)).len(),
        b < graph_nodes(*old(g)).len(),
    ensures
        graph_nodes(*final(g)) == graph_nodes(*old(g)),
        graph_edges(*final(g)) == graph_edges(*old(g)).push((a, b)),
{
    g.add_edge(NodeIndex::new(a), NodeIndex::new(b), ());
}

/// Relies on `petgraph::algo::toposort`: on success every node appears once
/// and each node comes before its successors; it fails only when the graph
/// has a cycle (a self loop included). Which order it picks depends on the
/// graph alone, and this crate builds graphs only by appending nodes and
/// edges, so the nodes and the edge sequence fix it.
#[verifier::external_body]
pub(crate) fn toposort(g: &DepGraph) -> (r: Option<Vec<usize>>)
    ensures
        r matches Some(o) ==> toposort_of(graph_nodes(*g), graph_edges(*g)) == Some(o@),
        r is None ==> toposort_of(graph_nodes(*g), graph_edges(*g)) is None,
        r matches Some(o) ==> is_topological_order(graph_nodes(*g).len(), graph_edges(*g), o@),
        r is None ==> has_cycle(graph_edges(*g)),
{
    petgraph::algo::toposort(g, None).ok().map(|o| o.into_iter().map(|n| n.index()).collect())
}

/// Relies on `petgraph::algo::has_path_connecting`: true exactly when a path
/// leads from `from` to `to`, or the two are the same node.
#[verifier::external_body]
pub(crate) fn has_path(g: &DepGraph, from: usize, to: usize) -> (r: bool)
    requires
        from < graph_nodes(*g).len(),
        to < graph_nodes(*g).len(),
    ensures
        r == reachable(graph_edges(*g), from, to),
{
    petgraph::algo::has_path_connecting(g, NodeIndex::new(from), NodeIndex::new(to), None)
}

/// Builds the graph with nodes `0..n` and exactly `edges`, in order.
pub(crate) fn build_graph(n: usize, edges: &Vec<(usize, usize)>) -> (g: DepGraph)
    requires
        forall|k: int| 0 <= k < edges.len() ==> (#[trigger] edges@[k]).0 < n && edges@[k].1 < n,
    ensures
        graph_nodes(g) == Seq::new(n as nat, |i: int| i as usize),
        graph_edges(g) == edges@,
{
    let mut g = new_graph(n, edges.len());
    let mut i: usize = 0;
    while i < n
        invariant
            i <= n,
            graph_nodes(g) == Seq::new(i as nat, |k: int| k as usize),
            graph_edges(g) == Seq::<(usize, usize)>::empty(),
        decreases n - i,
    {
        add_node(&mut g, i);
        assert(graph_nodes(g) =~= Seq::new((i + 1) as nat, |k: int| k as usize));
        i = i + 1;
    }
    let mut k: usize = 0;
    while k < edges.len()
        invariant
            k <= edges.len(),
            graph_nodes(g) == Seq::new(n as nat, |j: int| j as usize),
            graph_edges(g) == edges@.take(k as int),
            forall|j: int| 0 <= j < edges.len() ==> (#[trigger] edges@[j]).0 < n && edges@[j].1 < n,
        decreases edges.len() - k,
    {
        let (a, b) = edges[k];
        add_edge(&mut g, a, b);
        assert(edges@.take(k + 1) =~= edges@.take(k as int).push((a, b)));
        k = k + 1;
    }
    assert(edges@.take(edges.len() as int) =~= edges@);
    g
}

} // verus!
