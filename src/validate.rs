use vstd::prelude::*;

use crate::deps::{nodes_wf, GraphNode};
use crate::digraph::{graph_edges, graph_nodes, has_path, reachable, DepGraph};
use crate::error::RenderGraphError;
use crate::resources::{RenderGraphResources, ResourceId, ResourcesView};

verus! {

/// `r` is a transient resource that some pass reads and no pass writes.
pub open spec fn never_written(nodes: Seq<GraphNode>, res: ResourcesView, r: ResourceId) -> bool {
    &&& !res.is_external(r)
    &&& exists|p: int| 0 <= p < nodes.len() && (#[trigger] nodes[p]).reads_resource(r)
    &&& forall|p: int| 0 <= p < nodes.len() ==> !(#[trigger] nodes[p]).writes_resource(r)
}

/// Two different passes write `r` and no path of dependencies leads from
/// either to the other.
pub open spec fn ambiguous_writers(nodes: Seq<GraphNode>, edges: Seq<(usize, usize)>, r: ResourceId) -> bool {
    exists|p: int, q: int|
        0 <= p < nodes.len() && 0 <= q < nodes.len() && p != q && (#[trigger] nodes[p]).writes_resource(r)
            && (#[trigger] nodes[q]).writes_resource(r) && !reachable(edges, p as usize, q as usize)
            && !reachable(edges, q as usize, p as usize)
}

/// `e` reports a real validation failure: a resource written by two
/// unordered passes, or a transient read and never written, named as
/// registered.
pub open spec fn validation_error(nodes: Seq<GraphNode>, res: ResourcesView, edges: Seq<(usize, usize)>, e: RenderGraphError) -> bool {
    match e {
        RenderGraphError::AmbiguousProducer { resource, id, .. } => {
            &&& res.contains(id)
            &&& resource@ == res.descriptors[id.index()].name@
            &&& ambiguous_writers(nodes, edges, id)
        },
        RenderGraphError::ResourceNeverWritten { resource, id, .. } => {
            &&& res.contains(id)
            &&& resource@ == res.descriptors[id.index()].name@
            &&& never_written(nodes, res, id)
        },
        _ => false,
    }
}

/// The graph over `nodes` with dependency `edges` passes validation.
pub open spec fn graph_valid(nodes: Seq<GraphNode>, res: ResourcesView, edges: Seq<(usize, usize)>) -> bool {
    forall|r: ResourceId|
        r.index() < res.len() ==> !never_written(nodes, res, r) && !#[trigger] ambiguous_writers(
            nodes,
            edges,
            r,
        )
}

pub fn contains_id(v: &Vec<ResourceId>, r: ResourceId) -> (b: bool)
    ensures
        b == v@.contains(r),
{
    let mut i: usize = 0;
    while i < v.len()
        invariant
            i <= v@.len(),
            forall|j: int| 0 <= j < i ==> v@[j] != r,
        decreases v@.len() - i,
    {
        if v[i] == r {
            assert(v@[i as int] == r);
            return true;
        }
        i = i + 1;
    }
    false
}

fn pass_writes(nd: &GraphNode, r: ResourceId) -> (b: bool)
    ensures
        b == nd.writes_resource(r),
{
    contains_id(&nd.writes, r) || contains_id(&nd.reads_writes, r)
}

fn pass_reads(nd: &GraphNode, r: ResourceId) -> (b: bool)
    ensures
        b == nd.reads_resource(r),
{
    contains_id(&nd.reads, r) || contains_id(&nd.reads_writes, r)
}

/// The passes that write `r`, in registration order.
fn writers_of(nodes: &Vec<GraphNode>, r: ResourceId) -> (w: Vec<usize>)
    ensures
        forall|i: int| 0 <= i < w@.len() ==> (#[trigger] w@[i]) < nodes@.len() && nodes@[w@[i] as int].writes_resource(r),
        forall|i: int, j: int| 0 <= i < j < w@.len() ==> w@[i] < w@[j],
        forall|p: int| 0 <= p < nodes@.len() && (#[trigger] nodes@[p]).writes_resource(r) ==> w@.contains(p as usize),
{
    let mut w: Vec<usize> = Vec::new();
    let mut p: usize = 0;
    while p < nodes.len()
        invariant
            p <= nodes@.len(),
            forall|i: int| 0 <= i < w@.len() ==> (#[trigger] w@[i]) < p && nodes@[w@[i] as int].writes_resource(r),
            forall|i: int, j: int| 0 <= i < j < w@.len() ==> w@[i] < w@[j],
            forall|q: int| 0 <= q < p && (#[trigger] nodes@[q]).writes_resource(r) ==> w@.contains(q as usize),
        decreases nodes@.len() - p,
    {
        if pass_writes(&nodes[p], r) {
            let ghost before = w@;
            w.push(p);
            proof {
                assert forall|q: int| 0 <= q < p + 1 && (#[trigger] nodes@[q]).writes_resource(r) implies w@.contains(q as usize) by {
                    if q < p {
                        let i = choose|i: int| 0 <= i < before.len() && before[i] == q as usize;
                        assert(w@[i] == q as usize);
                    } else {
                        assert(w@[w@.len() - 1] == q as usize);
                    }
                }
            }
        }
        p = p + 1;
    }
    w
}

/// The first pass that reads `r`.
fn first_reader(nodes: &Vec<GraphNode>, r: ResourceId) -> (f: Option<usize>)
    ensures
        f matches Some(p) ==> p < nodes@.len() && nodes@[p as int].reads_resource(r),
        f is None ==> forall|p: int| 0 <= p < nodes@.len() ==> !(#[trigger] nodes@[p]).reads_resource(r),
{
    let mut p: usize = 0;
    while p < nodes.len()
        invariant
            p <= nodes@.len(),
            forall|q: int| 0 <= q < p ==> !(#[trigger] nodes@[q]).reads_resource(r),
        decreases nodes@.len() - p,
    {
        if pass_reads(&nodes[p], r) {
            return Some(p);
        }
        p = p + 1;
    }
    None
}

/// Two positions of `w` whose nodes no path connects, either way round.
fn unordered_pair(g: &DepGraph, w: &Vec<usize>) -> (r: Option<(usize, usize)>)
    requires
        forall|a: int| 0 <= a < w@.len() ==> (#[trigger] w@[a]) < graph_nodes(*g).len(),
        forall|a: int, b: int| 0 <= a < b < w@.len() ==> w@[a] < w@[b],
    ensures
        r matches Some((a, b)) ==> a < b < w@.len() && !reachable(graph_edges(*g), w@[a as int], w@[b as int])
            && !reachable(graph_edges(*g), w@[b as int], w@[a as int]),
        r is None ==> forall|a: int, b: int|
            0 <= a < b < w@.len() ==> reachable(graph_edges(*g), #[trigger] w@[a], #[trigger] w@[b])
                || reachable(graph_edges(*g), w@[b], w@[a]),
{
    let ghost edges = graph_edges(*g);
    let mut i: usize = 0;
    while i < w.len()
        invariant
            i <= w@.len(),
            edges == graph_edges(*g),
            forall|a: int| 0 <= a < w@.len() ==> (#[trigger] w@[a]) < graph_nodes(*g).len(),
            forall|a: int, b: int|
                0 <= a < i && a < b < w@.len() ==> reachable(edges, #[trigger] w@[a], #[trigger] w@[b])
                    || reachable(edges, w@[b], w@[a]),
        decreases w@.len() - i,
    {
        let mut j: usize = i + 1;
        while j < w.len()
            invariant
                i < w@.len(),
                i + 1 <= j <= w@.len(),
                edges == graph_edges(*g),
                forall|a: int| 0 <= a < w@.len() ==> (#[trigger] w@[a]) < graph_nodes(*g).len(),
                forall|a: int, b: int|
                    0 <= a < i && a < b < w@.len() ==> reachable(edges, #[trigger] w@[a], #[trigger] w@[b])
                        || reachable(edges, w@[b], w@[a]),
                forall|b: int| i < b < j ==> reachable(edges, w@[i as int], #[trigger] w@[b])
                    || reachable(edges, w@[b], w@[i as int]),
            decreases w@.len() - j,
        {
            if !(has_path(g, w[i], w[j]) || has_path(g, w[j], w[i])) {
                return Some((i, j));
            }
            j = j + 1;
        }
        i = i + 1;
    }
    None
}

/// Checks each resource for writers that no dependency orders, then for
/// transient resources that are read but never written.
pub fn validate_graph(nodes: &Vec<GraphNode>, res: &RenderGraphResources, g: &DepGraph) -> (r: Result<
    (),
    RenderGraphError,
>)
    requires
        res@.wf(),
        nodes_wf(nodes@, res@.len()),
        graph_nodes(*g).len() == nodes@.len(),
    ensures
        r is Ok <==> graph_valid(nodes@, res@, graph_edges(*g)),
        r matches Err(e) ==> validation_error(nodes@, res@, graph_edges(*g), e),
{
    let nres = res.len();
    let n = nodes.len();
    let ghost edges = graph_edges(*g);
    let mut k: usize = 0;
    while k < nres
        invariant
            k <= nres,
            nres == res@.len(),
            n == nodes@.len(),
            res@.wf(),
            graph_nodes(*g).len() == n,
            edges == graph_edges(*g),
            forall|id: ResourceId| id.index() < k ==> !#[trigger] ambiguous_writers(nodes@, edges, id),
        decreases nres - k,
    {
        let id = ResourceId(k as u32);
        let w = writers_of(nodes, id);
        match unordered_pair(g, &w) {
            Some((a, b)) => {
                proof {
                    let p = w@[a as int] as int;
                    let q = w@[b as int] as int;
                    assert(nodes@[p].writes_resource(id) && nodes@[q].writes_resource(id));
                    assert(ambiguous_writers(nodes@, edges, id));
                }
                let d = res.get_descriptor(id).unwrap();
                return Err(
                    RenderGraphError::AmbiguousProducer {
                        resource: d.name.clone(),
                        id,
                        first: nodes[w[a]].name.clone(),
                        second: nodes[w[b]].name.clone(),
                    },
                );
            },
            None => {},
        }
        proof {
            assert forall|q: ResourceId| q.index() < k + 1 implies !#[trigger] ambiguous_writers(nodes@, edges, q) by {
                if q.index() == k {
                    assert(q == id);
                    if ambiguous_writers(nodes@, edges, q) {
                        let (p, t) = choose|p: int, t: int|
                            0 <= p < nodes@.len() && 0 <= t < nodes@.len() && p != t && (#[trigger] nodes@[p]).writes_resource(q)
                                && (#[trigger] nodes@[t]).writes_resource(q) && !reachable(edges, p as usize, t as usize)
                                && !reachable(edges, t as usize, p as usize);
                        let a = choose|a: int| 0 <= a < w@.len() && w@[a] == p as usize;
                        let b = choose|b: int| 0 <= b < w@.len() && w@[b] == t as usize;
                        if a < b {
                            assert(reachable(edges, w@[a], w@[b]) || reachable(edges, w@[b], w@[a]));
                        } else {
                            assert(a != b);
                            assert(reachable(edges, w@[b], w@[a]) || reachable(edges, w@[a], w@[b]));
                        }
                    }
                }
            }
        }
        k = k + 1;
    }
    let mut k: usize = 0;
    while k < nres
        invariant
            k <= nres,
            nres == res@.len(),
            res@.wf(),
            nodes_wf(nodes@, res@.len()),
            edges == graph_edges(*g),
            forall|id: ResourceId| id.index() < nres ==> !#[trigger] ambiguous_writers(nodes@, edges, id),
            forall|id: ResourceId| id.index() < k ==> !#[trigger] never_written(nodes@, res@, id),
        decreases nres - k,
    {
        let id = ResourceId(k as u32);
        let d = res.get_descriptor(id).unwrap();
        if !d.is_external {
            let w = writers_of(nodes, id);
            if w.len() == 0 {
                match first_reader(nodes, id) {
                    Some(p) => {
                        proof {
                            assert forall|q: int| 0 <= q < nodes@.len() implies !(#[trigger] nodes@[q]).writes_resource(id) by {
                                if nodes@[q].writes_resource(id) {
                                    assert(w@.contains(q as usize));
                                }
                            }
                            assert(never_written(nodes@, res@, id));
                            assert(!graph_valid(nodes@, res@, graph_edges(*g))) by {
                                assert(!ambiguous_writers(nodes@, edges, id));
                            }
                        }
                        return Err(
                            RenderGraphError::ResourceNeverWritten {
                                resource: d.name.clone(),
                                id,
                                pass: nodes[p].name.clone(),
                            },
                        );
                    },
                    None => {},
                }
            } else {
                proof {
                    let p = w@[0] as int;
                    assert(nodes@[p].writes_resource(id));
                }
            }
        }
        proof {
            assert forall|q: ResourceId| q.index() < k + 1 implies !#[trigger] never_written(nodes@, res@, q) by {
                if q.index() == k {
                    assert(q == id);
                }
            }
        }
        k = k + 1;
    }
    Ok(())
}

} // verus!
