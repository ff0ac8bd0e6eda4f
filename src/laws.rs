use vstd::prelude::*;
use vstd::relations::injective_on;
use vstd::set_lib::{lemma_int_range, lemma_len_subset, lemma_map_size, set_int_range};

use crate::aliasing::{has_resident, covers, disjoint_lifetimes, first_use, last_use, lemma_use_bounds, resident_ok};
use crate::deps::{
    dependency_edges, is_dependency, lemma_dependency_edges_contains, lemma_forward_edges_acyclic,
    lemma_last_writer_bounds, GraphNode,
};
use crate::digraph::has_cycle;
use crate::gpu::StoreOp;
use crate::graph::{frame_passes, lists_stale_passes, GraphView};
use crate::resources::{resized, ResourceId, ResourceType, ResourcesView};
use crate::schedule::{lemma_last_read_before, lemma_last_write_before, pass_at, store_op_of};
use crate::validate::{ambiguous_writers, graph_valid, never_written};

verus! {

/// In a compiled graph, every producer runs before each of its consumers.
pub proof fn law_execution_order_is_topological(g: GraphView, i: int, j: int)
    requires
        g.wf(),
        !g.needs_recompile,
        0 <= i < g.order.len(),
        0 <= j < g.order.len(),
        is_dependency(g.nodes, g.order[i] as int, g.order[j] as int),
    ensures
        i < j,
{
    let n = g.nodes.len() as int;
    let w = g.order[i];
    let p = g.order[j];
    lemma_dependency_edges_contains(g.nodes, n);
    let r = choose|r: ResourceId|
        g.nodes[p as int].reads_resource(r) && #[trigger] crate::deps::last_writer_before(g.nodes, p as int, r) == Some(
            w as usize,
        );
    lemma_last_writer_bounds(g.nodes, p as int, r);
    assert(dependency_edges(g.nodes, n).contains((w, p)));
}

/// Dependency edges always lead from an earlier registered pass to a later
/// one, so they never form a cycle and compiling never fails for a cycle.
pub proof fn law_dependencies_are_acyclic(nodes: Seq<GraphNode>)
    requires
        nodes.len() <= usize::MAX,
    ensures
        !has_cycle(dependency_edges(nodes, nodes.len() as int)),
{
    lemma_dependency_edges_contains(nodes, nodes.len() as int);
    assert forall|e: (usize, usize)| #[trigger] dependency_edges(nodes, nodes.len() as int).contains(e) implies e.0 < e.1 by {}
    lemma_forward_edges_acyclic(dependency_edges(nodes, nodes.len() as int));
}

/// Every transient resource with a pool slot is used over a non-empty
/// interval, and its slot serves it: same format, size, sample count and mip
/// levels with a usage that includes its own (textures), or the same usage
/// and at least its size (buffers).
pub proof fn law_alias_slot_covers(g: GraphView, r: ResourceId)
    requires
        g.wf(),
        !g.needs_recompile,
        !g.needs_reallocation,
        r.index() < g.resources.len(),
        g.aliases.unwrap().0[r.index()] is Some,
    ensures
        first_use(g.nodes, g.order, g.culled, r).unwrap() <= last_use(g.nodes, g.order, g.culled, r).unwrap(),
        covers(g.aliases.unwrap().1[g.aliases.unwrap().0[r.index()].unwrap() as int].descriptor, g.resources.kind(r)),
{
    assert(resident_ok(g.nodes, g.resources.kinds(), g.order, g.culled, g.aliases.unwrap().0, g.aliases.unwrap().1, r));
    lemma_use_bounds(g.nodes, g.order, g.culled, g.order.len() as int, r);
}

/// Two resources that share a pool slot are never in use at the same
/// execution index.
pub proof fn law_aliased_lifetimes_disjoint(g: GraphView, a: ResourceId, b: ResourceId)
    requires
        g.wf(),
        !g.needs_recompile,
        !g.needs_reallocation,
        a.index() < g.resources.len(),
        b.index() < g.resources.len(),
        a != b,
        g.aliases.unwrap().0[a.index()] is Some,
        g.aliases.unwrap().0[a.index()] == g.aliases.unwrap().0[b.index()],
    ensures
        disjoint_lifetimes(g.nodes, g.order, g.culled, a, b),
{
    let al = g.aliases.unwrap().0;
    assert(al[a.index()] == al[b.index()]);
}

/// A transient resource written at position `i`, its last write, is stored
/// exactly when a pass after `i` reads it.
pub proof fn law_transient_store_op(g: GraphView, r: ResourceId, i: int)
    requires
        g.wf(),
        !g.needs_recompile,
        r.index() < g.resources.len(),
        !g.resources.is_external(r),
        0 <= i < g.order.len(),
        pass_at(g.nodes, g.order, i).writes_resource(r),
        forall|q: int| i < q < g.order.len() ==> !(#[trigger] pass_at(g.nodes, g.order, q)).writes_resource(r),
    ensures
        (g.store_ops[r.index()] == StoreOp::Store) <==> exists|j: int|
            i < j < g.order.len() && #[trigger] pass_at(g.nodes, g.order, j).reads_resource(r),
{
    let n = g.order.len() as int;
    let k = g.resources.kinds();
    assert(g.store_ops[r.index()] == store_op_of(g.nodes, k, g.order, r));
    lemma_last_write_before(g.nodes, g.order, n, r);
    lemma_last_read_before(g.nodes, g.order, n, r);
    assert(g.resources.descriptors[r.index()].wf());
    let lw = crate::schedule::last_write_before(g.nodes, g.order, n, r);
    assert(lw == Some(i as usize)) by {
        if lw is None {
            assert(!pass_at(g.nodes, g.order, i).writes_resource(r));
        } else {
            let w = lw.unwrap() as int;
            if w < i {
                assert(!pass_at(g.nodes, g.order, i).writes_resource(r));
            }
        }
    }
    if exists|j: int| i < j < n && #[trigger] pass_at(g.nodes, g.order, j).reads_resource(r) {
        let j = choose|j: int| i < j < n && #[trigger] pass_at(g.nodes, g.order, j).reads_resource(r);
        let lr = crate::schedule::last_read_before(g.nodes, g.order, n, r);
        if lr is None {
            assert(!pass_at(g.nodes, g.order, j).reads_resource(r));
        } else if (lr.unwrap() as int) < j {
            assert(!pass_at(g.nodes, g.order, j).reads_resource(r));
        }
    }
}

/// In a frame, the passes that run form a list without repeats: each pass
/// is prepared and executed at most once.
pub proof fn law_each_pass_at_most_once(g: GraphView, enabled: Seq<bool>)
    requires
        g.wf(),
        !g.needs_recompile,
        enabled.len() == g.nodes.len(),
    ensures
        frame_passes(g.order, g.culled, enabled, g.order.len() as int).no_duplicates(),
{
    lemma_frame_passes(g.order, g.culled, enabled, g.order.len() as int);
}

proof fn lemma_frame_passes(order: Seq<usize>, culled: Seq<bool>, enabled: Seq<bool>, k: int)
    requires
        order.no_duplicates(),
        0 <= k <= order.len(),
    ensures
        frame_passes(order, culled, enabled, k).no_duplicates(),
        forall|v: usize| #[trigger] frame_passes(order, culled, enabled, k).contains(v) ==> exists|q: int| 0 <= q < k && order[q] == v,
    decreases k,
{
    if k > 0 {
        lemma_frame_passes(order, culled, enabled, k - 1);
        let prev = frame_passes(order, culled, enabled, k - 1);
        let p = order[k - 1];
        assert forall|v: usize| #[trigger] frame_passes(order, culled, enabled, k).contains(v) implies exists|q: int| 0 <= q < k && order[q] == v by {
            crate::deps::lemma_push_contains(prev, p, v);
            if v == p {
                assert(order[k - 1] == v);
            }
        }
        if !culled[p as int] && enabled[p as int] {
            if prev.contains(p) {
                let q = choose|q: int| 0 <= q < k - 1 && order[q] == p;
                assert(order[q] == order[k - 1]);
            }
            assert forall|a: int, b: int| 0 <= a < b < prev.push(p).len() implies prev.push(p)[a] != prev.push(p)[b] by {
                if b == prev.len() {
                    assert(prev.contains(prev[a]));
                }
            }
        }
    } else {
        assert(frame_passes(order, culled, enabled, k) == Seq::<usize>::empty());
    }
}

/// Compiling twice without changes in between gives the same execution order.
pub proof fn law_recompile_keeps_order(a: GraphView, b: GraphView)
    requires
        a.wf(),
        b.wf(),
        !a.needs_recompile,
        !b.needs_recompile,
        a.nodes == b.nodes,
    ensures
        a.order == b.order,
{
}

/// A graph without passes runs no pass and plans no pool slot.
pub proof fn law_empty_graph(g: GraphView, enabled: Seq<bool>)
    requires
        g.wf(),
        !g.needs_recompile,
        !g.needs_reallocation,
        g.nodes.len() == 0,
    ensures
        frame_passes(g.order, g.culled, enabled, g.order.len() as int).len() == 0,
        g.aliases.unwrap().1.len() == 0,
{
    assert(g.order.len() == 0);
    let al = g.aliases.unwrap().0;
    if g.aliases.unwrap().1.len() > 0 {
        assert(crate::aliasing::has_resident(al, 0));
        let id = choose|id: ResourceId| id.index() < al.len() && #[trigger] al[id.index()] == Some(0usize);
        assert(first_use(g.nodes, g.order, g.culled, id) is None);
    }
}

/// A transient resource that some pass reads and no pass writes fails validation.
pub proof fn law_unwritten_read_rejected(nodes: Seq<GraphNode>, res: ResourcesView, r: ResourceId)
    requires
        r.index() < res.len(),
        never_written(nodes, res, r),
    ensures
        !graph_valid(nodes, res, dependency_edges(nodes, nodes.len() as int)),
{
    let edges = dependency_edges(nodes, nodes.len() as int);
    if graph_valid(nodes, res, edges) {
        assert(!ambiguous_writers(nodes, edges, r));
        assert(!never_written(nodes, res, r));
    }
}

/// Two passes that write one resource with no dependency path between them
/// fail validation.
pub proof fn law_unordered_writers_rejected(nodes: Seq<GraphNode>, res: ResourcesView, r: ResourceId)
    requires
        r.index() < res.len(),
        ambiguous_writers(nodes, dependency_edges(nodes, nodes.len() as int), r),
    ensures
        !graph_valid(nodes, res, dependency_edges(nodes, nodes.len() as int)),
{
}

/// Resizing a transient texture to its current size leaves its kind as it was.
pub proof fn law_resize_to_same_size(t: ResourceType, width: u32, height: u32)
    requires
        t.texture_descriptor() matches Some(d) && d.width == width && d.height == height,
    ensures
        resized(t, width, height) == t,
{
}

/// After `r` is rebound (its version moved past the recorded one), the next
/// frame lists each pass that uses `r` for bind-group invalidation exactly
/// once; that frame also records the new version (see `prepare_frame`), so
/// only a further rebind lists the pass again.
pub proof fn law_rebind_invalidates_once(recorded: Seq<u64>, after: GraphView, inv: Seq<usize>, r: ResourceId, p: usize)
    requires
        lists_stale_passes(recorded, after, inv),
        r.index() < after.resources.len(),
        (p as int) < after.nodes.len(),
        after.nodes[p as int].uses(r),
        after.resources.versions[r.index()] != recorded[r.index()],
    ensures
        inv.contains(p),
        forall|i: int, j: int| 0 <= i < inv.len() && 0 <= j < inv.len() && inv[i] == p && inv[j] == p ==> i == j,
{
    assert forall|i: int, j: int| 0 <= i < inv.len() && 0 <= j < inv.len() && inv[i] == p && inv[j] == p implies i == j by {
        if i < j {
            assert(inv[i] < inv[j]);
        } else if j < i {
            assert(inv[j] < inv[i]);
        }
    }
}

/// Every slot of a plan serves some resource and no resource has two slots,
/// so a plan never holds more slots than the graph has resources; planning
/// again (after a resize, say) cannot pile slots up.
pub proof fn law_pool_count_bounded(g: GraphView)
    requires
        g.wf(),
        !g.needs_recompile,
        !g.needs_reallocation,
        g.aliases.unwrap().1.len() <= usize::MAX,
    ensures
        g.aliases.unwrap().1.len() <= g.resources.len(),
{
    let al = g.aliases.unwrap().0;
    let m = g.aliases.unwrap().1.len() as int;
    let n = g.resources.len();
    let f = |p: int| (choose|id: ResourceId| id.index() < al.len() && #[trigger] al[id.index()] == Some(p as usize)).index();
    let x = set_int_range(0, m);
    let y = x.map(f);
    lemma_int_range(0, m);
    lemma_int_range(0, n);
    assert forall|p: int| x.contains(p) implies 0 <= f(p) < n && al[f(p)] == Some(p as usize) by {
        assert(has_resident(al, p));
    }
    assert(injective_on(f, x)) by {
        assert forall|q1: int, q2: int| x.contains(q1) && x.contains(q2) && #[trigger] f(q1) == #[trigger] f(q2) implies q1 == q2 by {
            assert(al[f(q1)] == Some(q1 as usize));
            assert(al[f(q2)] == Some(q2 as usize));
        }
    }
    lemma_map_size(x, y, f);
    assert(y.subset_of(set_int_range(0, n))) by {
        assert forall|q: int| y.contains(q) implies set_int_range(0, n).contains(q) by {
            let p = choose|p: int| x.contains(p) && f(p) == q;
        }
    }
    lemma_len_subset(y, set_int_range(0, n));
}

/// Removing the pass that was just added gives back the passes as they were,
/// so compiling afterwards yields the same execution order as before (see
/// `law_recompile_keeps_order`).
pub proof fn law_add_then_remove_restores(before: Seq<GraphNode>, after_add: Seq<GraphNode>)
    requires
        after_add.len() == before.len() + 1,
        after_add.take(before.len() as int) == before,
    ensures
        after_add.remove(before.len() as int) == before,
{
    assert(after_add.remove(before.len() as int) =~= before);
}

} // verus!
