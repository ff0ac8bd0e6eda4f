use vstd::prelude::*;

use crate::deps::{nodes_wf, GraphNode};
use crate::gpu::StoreOp;
use crate::resources::{same_class, RenderGraphResources, ResourceId, ResourceType, ResourcesView};

verus! {

/// `order` lists passes of `nodes` by index.
pub open spec fn order_wf(nodes: Seq<GraphNode>, order: Seq<usize>) -> bool {
    &&& order.len() < usize::MAX
    &&& forall|i: int| 0 <= i < order.len() ==> (#[trigger] order[i]) < nodes.len()
}

/// The pass at position `i` of the execution order.
pub open spec fn pass_at(nodes: Seq<GraphNode>, order: Seq<usize>, i: int) -> GraphNode {
    nodes[order[i] as int]
}

/// The last position before `k` whose pass writes `r`.
pub open spec fn last_write_before(nodes: Seq<GraphNode>, order: Seq<usize>, k: int, r: ResourceId) -> Option<usize>
    decreases k,
{
    if k <= 0 {
        None
    } else if pass_at(nodes, order, k - 1).writes_resource(r) {
        Some((k - 1) as usize)
    } else {
        last_write_before(nodes, order, k - 1, r)
    }
}

/// The last position before `k` whose pass reads `r`.
pub open spec fn last_read_before(nodes: Seq<GraphNode>, order: Seq<usize>, k: int, r: ResourceId) -> Option<usize>
    decreases k,
{
    if k <= 0 {
        None
    } else if pass_at(nodes, order, k - 1).reads_resource(r) {
        Some((k - 1) as usize)
    } else {
        last_read_before(nodes, order, k - 1, r)
    }
}

/// Some pass after position `i` reads `r`.
pub open spec fn read_after(nodes: Seq<GraphNode>, order: Seq<usize>, i: int, r: ResourceId) -> bool {
    exists|j: int| i < j < order.len() && #[trigger] pass_at(nodes, order, j).reads_resource(r)
}

/// The store operation the schedule assigns to `r`. A written resource is
/// judged at its last write: it is stored when a later pass reads it, and an
/// external attachment also when it forces a store; external buffers are
/// always stored. A resource nobody writes keeps its default: stored for
/// external buffers and force-stored attachments, discarded otherwise.
pub open spec fn store_op_of(nodes: Seq<GraphNode>, res: ResourcesView, order: Seq<usize>, r: ResourceId) -> StoreOp {
    let lw = last_write_before(nodes, order, order.len() as int, r);
    let lr = last_read_before(nodes, order, order.len() as int, r);
    let read_later = lw matches Some(i) && lr matches Some(j) && j > i;
    match res.kind(r) {
        ResourceType::ExternalColor { force_store, .. } => if force_store || read_later {
            StoreOp::Store
        } else {
            StoreOp::Discard
        },
        ResourceType::ExternalDepth { force_store, .. } => if force_store || read_later {
            StoreOp::Store
        } else {
            StoreOp::Discard
        },
        ResourceType::ExternalBuffer => StoreOp::Store,
        _ => if read_later {
            StoreOp::Store
        } else {
            StoreOp::Discard
        },
    }
}

pub proof fn lemma_last_read_before(nodes: Seq<GraphNode>, order: Seq<usize>, k: int, r: ResourceId)
    requires
        0 <= k <= order.len() < usize::MAX,
    ensures
        last_read_before(nodes, order, k, r) matches Some(j) ==> j < k && pass_at(nodes, order, j as int).reads_resource(r)
            && forall|q: int| j < q < k ==> !(#[trigger] pass_at(nodes, order, q)).reads_resource(r),
        last_read_before(nodes, order, k, r) is None ==> forall|q: int|
            0 <= q < k ==> !(#[trigger] pass_at(nodes, order, q)).reads_resource(r),
    decreases k,
{
    if k > 0 {
        lemma_last_read_before(nodes, order, k - 1, r);
    }
}

pub proof fn lemma_last_write_before(nodes: Seq<GraphNode>, order: Seq<usize>, k: int, r: ResourceId)
    requires
        0 <= k <= order.len() < usize::MAX,
    ensures
        last_write_before(nodes, order, k, r) matches Some(j) ==> j < k && pass_at(nodes, order, j as int).writes_resource(r)
            && forall|q: int| j < q < k ==> !(#[trigger] pass_at(nodes, order, q)).writes_resource(r),
        last_write_before(nodes, order, k, r) is None ==> forall|q: int|
            0 <= q < k ==> !(#[trigger] pass_at(nodes, order, q)).writes_resource(r),
    decreases k,
{
    if k > 0 {
        lemma_last_write_before(nodes, order, k - 1, r);
    }
}

/// Sets `t[id]` to `Some(pos)` for each id in `a` or `b`.
pub(crate) fn note_uses(pos: usize, a: &Vec<ResourceId>, b: &Vec<ResourceId>, t: &mut Vec<Option<usize>>)
    requires
        forall|i: int| 0 <= i < a@.len() ==> (#[trigger] a@[i]).index() < old(t)@.len(),
        forall|i: int| 0 <= i < b@.len() ==> (#[trigger] b@[i]).index() < old(t)@.len(),
    ensures
        final(t)@.len() == old(t)@.len(),
        forall|id: ResourceId|
            id.index() < old(t)@.len() ==> #[trigger] final(t)@[id.index()] == if a@.contains(id) || b@.contains(id) {
                Some(pos)
            } else {
                old(t)@[id.index()]
            },
{
    let mut i: usize = 0;
    while i < a.len()
        invariant
            i <= a@.len(),
            t@.len() == old(t)@.len(),
            forall|j: int| 0 <= j < a@.len() ==> (#[trigger] a@[j]).index() < old(t)@.len(),
            forall|id: ResourceId|
                id.index() < old(t)@.len() ==> #[trigger] t@[id.index()] == if a@.take(i as int).contains(id) {
                    Some(pos)
                } else {
                    old(t)@[id.index()]
                },
        decreases a@.len() - i,
    {
        let r = a[i];
        t.set(r.0 as usize, Some(pos));
        proof {
            assert(a@.take(i + 1) =~= a@.take(i as int).push(r));
            assert forall|id: ResourceId| id.index() < old(t)@.len() implies #[trigger] t@[id.index()]
                == if a@.take(i + 1).contains(id) {
                Some(pos)
            } else {
                old(t)@[id.index()]
            } by {
                crate::deps::lemma_push_contains(a@.take(i as int), r, id);
            }
        }
        i = i + 1;
    }
    assert(a@.take(a@.len() as int) =~= a@);
    let ghost mid = t@;
    let mut i: usize = 0;
    while i < b.len()
        invariant
            i <= b@.len(),
            t@.len() == old(t)@.len(),
            forall|j: int| 0 <= j < b@.len() ==> (#[trigger] b@[j]).index() < old(t)@.len(),
            forall|id: ResourceId|
                id.index() < old(t)@.len() ==> #[trigger] t@[id.index()] == if b@.take(i as int).contains(id) {
                    Some(pos)
                } else {
                    mid[id.index()]
                },
        decreases b@.len() - i,
    {
        let r = b[i];
        t.set(r.0 as usize, Some(pos));
        proof {
            assert(b@.take(i + 1) =~= b@.take(i as int).push(r));
            assert forall|id: ResourceId| id.index() < old(t)@.len() implies #[trigger] t@[id.index()]
                == if b@.take(i + 1).contains(id) {
                Some(pos)
            } else {
                mid[id.index()]
            } by {
                crate::deps::lemma_push_contains(b@.take(i as int), r, id);
            }
        }
        i = i + 1;
    }
    assert(b@.take(b@.len() as int) =~= b@);
}

/// For each resource, the last position of the order that writes it and the
/// last that reads it.
pub fn last_use_positions(nodes: &Vec<GraphNode>, nres: usize, order: &Vec<usize>) -> (r: (
    Vec<Option<usize>>,
    Vec<Option<usize>>,
))
    requires
        nodes_wf(nodes@, nres as int),
        order_wf(nodes@, order@),
    ensures
        r.0@.len() == nres,
        r.1@.len() == nres,
        forall|id: ResourceId|
            id.index() < nres ==> #[trigger] r.0@[id.index()] == last_write_before(
                nodes@,
                order@,
                order@.len() as int,
                id,
            ),
        forall|id: ResourceId|
            id.index() < nres ==> #[trigger] r.1@[id.index()] == last_read_before(
                nodes@,
                order@,
                order@.len() as int,
                id,
            ),
{
    let mut lw: Vec<Option<usize>> = Vec::new();
    let mut lr: Vec<Option<usize>> = Vec::new();
    let mut k: usize = 0;
    while k < nres
        invariant
            k <= nres,
            lw@.len() == k,
            lr@.len() == k,
            forall|j: int| 0 <= j < k ==> lw@[j] is None && lr@[j] is None,
        decreases nres - k,
    {
        lw.push(None);
        lr.push(None);
        k = k + 1;
    }
    let mut i: usize = 0;
    while i < order.len()
        invariant
            i <= order@.len(),
            nodes_wf(nodes@, nres as int),
            order_wf(nodes@, order@),
            lw@.len() == nres,
            lr@.len() == nres,
            forall|id: ResourceId|
                id.index() < nres ==> #[trigger] lw@[id.index()] == last_write_before(
                    nodes@,
                    order@,
                    i as int,
                    id,
                ),
            forall|id: ResourceId|
                id.index() < nres ==> #[trigger] lr@[id.index()] == last_read_before(
                    nodes@,
                    order@,
                    i as int,
                    id,
                ),
        decreases order@.len() - i,
    {
        let node = &nodes[order[i]];
        proof {
            assert(nodes@[order@[i as int] as int].ids_below(nres as int));
        }
        note_uses(i, &node.writes, &node.reads_writes, &mut lw);
        note_uses(i, &node.reads, &node.reads_writes, &mut lr);
        i = i + 1;
    }
    (lw, lr)
}

/// The store operation of every resource, indexed by id.
pub fn compute_store_ops(nodes: &Vec<GraphNode>, res: &RenderGraphResources, order: &Vec<usize>) -> (r: Vec<StoreOp>)
    requires
        res@.wf(),
        nodes_wf(nodes@, res@.len()),
        order_wf(nodes@, order@),
    ensures
        r@.len() == res@.len(),
        forall|id: ResourceId|
            id.index() < res@.len() ==> #[trigger] r@[id.index()] == store_op_of(nodes@, res@, order@, id),
{
    let nres = res.len();
    let (lw, lr) = last_use_positions(nodes, nres, order);
    let mut ops: Vec<StoreOp> = Vec::new();
    let mut k: usize = 0;
    while k < nres
        invariant
            k <= nres,
            nres == res@.len(),
            res@.wf(),
            lw@.len() == nres,
            lr@.len() == nres,
            forall|id: ResourceId|
                id.index() < nres ==> #[trigger] lw@[id.index()] == last_write_before(
                    nodes@,
                    order@,
                    order@.len() as int,
                    id,
                ),
            forall|id: ResourceId|
                id.index() < nres ==> #[trigger] lr@[id.index()] == last_read_before(
                    nodes@,
                    order@,
                    order@.len() as int,
                    id,
                ),
            ops@.len() == k,
            forall|id: ResourceId|
                id.index() < k ==> #[trigger] ops@[id.index()] == store_op_of(nodes@, res@, order@, id),
        decreases nres - k,
    {
        let id = ResourceId(k as u32);
        let read_later = match (lw[k], lr[k]) {
            (Some(i), Some(j)) => j > i,
            _ => false,
        };
        let d = res.get_descriptor(id).unwrap();
        let op = match d.resource_type {
            ResourceType::ExternalColor { force_store, .. } | ResourceType::ExternalDepth {
                force_store,
                ..
            } => if force_store || read_later {
                StoreOp::Store
            } else {
                StoreOp::Discard
            },
            ResourceType::ExternalBuffer => StoreOp::Store,
            _ => if read_later {
                StoreOp::Store
            } else {
                StoreOp::Discard
            },
        };
        ops.push(op);
        proof {
            assert(id.index() == k);
            assert forall|q: ResourceId| q.index() < k + 1 implies #[trigger] ops@[q.index()]
                == store_op_of(nodes@, res@, order@, q) by {
                if q.index() == k {
                    assert(q == id);
                }
            }
        }
        k = k + 1;
    }
    ops
}

/// A pass must run when it has no outputs at all (a side effect such as a
/// read-back) or when it writes a resource that is still needed.
pub open spec fn pass_required(nd: GraphNode, needed: Set<ResourceId>) -> bool {
    ||| (nd.writes@.len() == 0 && nd.reads_writes@.len() == 0)
    ||| exists|r: ResourceId| nd.writes_resource(r) && #[trigger] needed.contains(r)
}

/// The resources needed by the passes at positions `k..` of the order: every
/// external resource, and whatever a required pass there reads.
pub open spec fn needed_from(nodes: Seq<GraphNode>, res: ResourcesView, order: Seq<usize>, k: int) -> Set<ResourceId>
    decreases order.len() - k,
{
    if k >= order.len() {
        Set::new(|r: ResourceId| res.is_external(r))
    } else {
        let s = needed_from(nodes, res, order, k + 1);
        let nd = pass_at(nodes, order, k);
        if pass_required(nd, s) {
            s.union(Set::new(|r: ResourceId| nd.reads_resource(r)))
        } else {
            s
        }
    }
}

/// The pass at position `k` is live: it is not culled.
pub open spec fn live_at(nodes: Seq<GraphNode>, res: ResourcesView, order: Seq<usize>, k: int) -> bool {
    pass_required(pass_at(nodes, order, k), needed_from(nodes, res, order, k + 1))
}

/// Some resource of `rs` is marked in `needed`.
pub(crate) fn any_needed(rs: &Vec<ResourceId>, needed: &Vec<bool>) -> (r: bool)
    requires
        forall|i: int| 0 <= i < rs@.len() ==> (#[trigger] rs@[i]).index() < needed@.len(),
    ensures
        r == exists|j: int| 0 <= j < rs@.len() && needed@[#[trigger] rs@[j].index()],
{
    let mut i: usize = 0;
    while i < rs.len()
        invariant
            i <= rs@.len(),
            forall|j: int| 0 <= j < rs@.len() ==> (#[trigger] rs@[j]).index() < needed@.len(),
            forall|j: int| 0 <= j < i ==> !needed@[#[trigger] rs@[j].index()],
        decreases rs@.len() - i,
    {
        if needed[rs[i].0 as usize] {
            return true;
        }
        i = i + 1;
    }
    false
}

/// Marks every resource of `rs` in `needed`.
fn mark_needed(rs: &Vec<ResourceId>, needed: &mut Vec<bool>)
    requires
        forall|i: int| 0 <= i < rs@.len() ==> (#[trigger] rs@[i]).index() < old(needed)@.len(),
    ensures
        final(needed)@.len() == old(needed)@.len(),
        forall|id: ResourceId|
            id.index() < old(needed)@.len() ==> #[trigger] final(needed)@[id.index()] == (old(
                needed,
            )@[id.index()] || rs@.contains(id)),
{
    let mut i: usize = 0;
    while i < rs.len()
        invariant
            i <= rs@.len(),
            needed@.len() == old(needed)@.len(),
            forall|j: int| 0 <= j < rs@.len() ==> (#[trigger] rs@[j]).index() < old(needed)@.len(),
            forall|id: ResourceId|
                id.index() < old(needed)@.len() ==> #[trigger] needed@[id.index()] == (old(
                    needed,
                )@[id.index()] || rs@.take(i as int).contains(id)),
        decreases rs@.len() - i,
    {
        let r = rs[i];
        needed.set(r.0 as usize, true);
        proof {
            assert(rs@.take(i + 1) =~= rs@.take(i as int).push(r));
            assert forall|id: ResourceId| id.index() < old(needed)@.len() implies #[trigger] needed@[id.index()]
                == (old(needed)@[id.index()] || rs@.take(i + 1).contains(id)) by {
                crate::deps::lemma_push_contains(rs@.take(i as int), r, id);
            }
        }
        i = i + 1;
    }
    assert(rs@.take(rs@.len() as int) =~= rs@);
}

/// Finds the passes whose work nothing needs: walking the order backwards
/// from the external resources, a pass is kept when it writes something
/// still needed (or has no outputs), and what it reads becomes needed.
/// The result is indexed by pass and is `true` for a culled pass.
pub fn compute_dead_passes(nodes: &Vec<GraphNode>, res: &RenderGraphResources, order: &Vec<usize>) -> (culled: Vec<bool>)
    requires
        res@.wf(),
        nodes_wf(nodes@, res@.len()),
        order_wf(nodes@, order@),
        order@.no_duplicates(),
    ensures
        culled@.len() == nodes@.len(),
        forall|k: int|
            0 <= k < order@.len() ==> culled@[#[trigger] order@[k] as int] == !live_at(
                nodes@,
                res@,
                order@,
                k,
            ),
{
    let nres = res.len();
    let mut needed: Vec<bool> = Vec::new();
    let mut k: usize = 0;
    while k < nres
        invariant
            k <= nres,
            nres == res@.len(),
            res@.wf(),
            needed@.len() == k,
            forall|id: ResourceId| id.index() < k ==> #[trigger] needed@[id.index()] == res@.is_external(id),
        decreases nres - k,
    {
        let d = res.get_descriptor(ResourceId(k as u32)).unwrap();
        needed.push(d.is_external);
        proof {
            assert forall|id: ResourceId| id.index() < k + 1 implies #[trigger] needed@[id.index()]
                == res@.is_external(id) by {
                if id.index() == k {
                    assert(id == ResourceId(k as u32));
                }
            }
        }
        k = k + 1;
    }
    let mut culled: Vec<bool> = Vec::new();
    let mut j: usize = 0;
    while j < nodes.len()
        invariant
            j <= nodes@.len(),
            culled@.len() == j,
        decreases nodes@.len() - j,
    {
        culled.push(true);
        j = j + 1;
    }
    let mut k: usize = order.len();
    while k > 0
        invariant
            k <= order@.len(),
            nres == res@.len(),
            res@.wf(),
            nodes_wf(nodes@, nres as int),
            order_wf(nodes@, order@),
            order@.no_duplicates(),
            needed@.len() == nres,
            culled@.len() == nodes@.len(),
            forall|id: ResourceId|
                id.index() < nres ==> #[trigger] needed@[id.index()] == needed_from(
                    nodes@,
                    res@,
                    order@,
                    k as int,
                ).contains(id),
            forall|q: int|
                k <= q < order@.len() ==> culled@[#[trigger] order@[q] as int] == !live_at(
                    nodes@,
                    res@,
                    order@,
                    q,
                ),
        decreases k,
    {
        k = k - 1;
        let node = &nodes[order[k]];
        let ghost nd = nodes@[order@[k as int] as int];
        let ghost s = needed_from(nodes@, res@, order@, k + 1);
        proof {
            assert(nd.ids_below(nres as int));
            assert(pass_at(nodes@, order@, k as int) == nd);
        }
        let required = (node.writes.len() == 0 && node.reads_writes.len() == 0) || any_needed(
            &node.writes,
            &needed,
        ) || any_needed(&node.reads_writes, &needed);
        proof {
            if exists|r: ResourceId| nd.writes_resource(r) && #[trigger] s.contains(r) {
                let r = choose|r: ResourceId| nd.writes_resource(r) && #[trigger] s.contains(r);
                if nd.writes@.contains(r) {
                    let j = choose|j: int| 0 <= j < nd.writes@.len() && nd.writes@[j] == r;
                    assert(needed@[nd.writes@[j].index()]);
                } else {
                    let j = choose|j: int| 0 <= j < nd.reads_writes@.len() && nd.reads_writes@[j] == r;
                    assert(needed@[nd.reads_writes@[j].index()]);
                }
            }
            if exists|j: int| 0 <= j < nd.writes@.len() && needed@[#[trigger] nd.writes@[j].index()] {
                let j = choose|j: int| 0 <= j < nd.writes@.len() && needed@[#[trigger] nd.writes@[j].index()];
                assert(nd.writes_resource(nd.writes@[j]) && s.contains(nd.writes@[j]));
            }
            if exists|j: int| 0 <= j < nd.reads_writes@.len() && needed@[#[trigger] nd.reads_writes@[j].index()] {
                let j = choose|j: int|
                    0 <= j < nd.reads_writes@.len() && needed@[#[trigger] nd.reads_writes@[j].index()];
                assert(nd.writes_resource(nd.reads_writes@[j]) && s.contains(nd.reads_writes@[j]));
            }
            assert(required == pass_required(nd, s));
        }
        if required {
            mark_needed(&node.reads, &mut needed);
            mark_needed(&node.reads_writes, &mut needed);
        }
        culled.set(order[k], !required);
        proof {
            assert forall|id: ResourceId| id.index() < nres implies #[trigger] needed@[id.index()]
                == needed_from(nodes@, res@, order@, k as int).contains(id) by {
            }
            assert forall|q: int| k <= q < order@.len() implies culled@[#[trigger] order@[q] as int]
                == !live_at(nodes@, res@, order@, q) by {
                if q > k {
                    assert(order@[q] != order@[k as int]);
                }
            }
        }
    }
    culled
}

/// Store operations and culling read only the kinds of resources, so a
/// registry that differs only in texture sizes gives the same answers.
pub proof fn lemma_schedule_same_kinds(nodes: Seq<GraphNode>, a: ResourcesView, b: ResourcesView, order: Seq<usize>)
    requires
        a.same_kinds(b),
    ensures
        forall|r: ResourceId| a.contains(r) ==> #[trigger] store_op_of(nodes, a, order, r) == store_op_of(nodes, b, order, r),
        forall|k: int| 0 <= k <= order.len() ==> #[trigger] needed_from(nodes, a, order, k) == needed_from(nodes, b, order, k),
        forall|k: int| 0 <= k < order.len() ==> #[trigger] live_at(nodes, a, order, k) == live_at(nodes, b, order, k),
{
    assert forall|r: ResourceId| a.contains(r) implies #[trigger] store_op_of(nodes, a, order, r) == store_op_of(nodes, b, order, r) by {
        assert(same_class(a.descriptors[r.index()].resource_type, b.descriptors[r.index()].resource_type));
    }
    assert forall|k: int| 0 <= k <= order.len() implies #[trigger] needed_from(nodes, a, order, k) == needed_from(nodes, b, order, k) by {
        lemma_needed_same_kinds(nodes, a, b, order, k);
    }
    assert forall|k: int| 0 <= k < order.len() implies #[trigger] live_at(nodes, a, order, k) == live_at(nodes, b, order, k) by {
        lemma_needed_same_kinds(nodes, a, b, order, k + 1);
    }
}

proof fn lemma_needed_same_kinds(nodes: Seq<GraphNode>, a: ResourcesView, b: ResourcesView, order: Seq<usize>, k: int)
    requires
        a.same_kinds(b),
        0 <= k <= order.len(),
    ensures
        needed_from(nodes, a, order, k) == needed_from(nodes, b, order, k),
    decreases order.len() - k,
{
    if k >= order.len() {
        assert(Set::new(|r: ResourceId| a.is_external(r)) =~= Set::new(|r: ResourceId| b.is_external(r))) by {
            assert forall|r: ResourceId| a.is_external(r) == b.is_external(r) by {
                if a.contains(r) {
                    assert(a.descriptors[r.index()].is_external == b.descriptors[r.index()].is_external);
                }
            }
        }
    } else {
        lemma_needed_same_kinds(nodes, a, b, order, k + 1);
    }
}

/// Store operations and culling read only the descriptors of a registry.
pub proof fn lemma_schedule_kinds(nodes: Seq<GraphNode>, res: ResourcesView, order: Seq<usize>)
    ensures
        forall|r: ResourceId| #[trigger] store_op_of(nodes, res, order, r) == store_op_of(nodes, res.kinds(), order, r),
        forall|k: int| 0 <= k < order.len() ==> #[trigger] live_at(nodes, res, order, k) == live_at(nodes, res.kinds(), order, k),
{
    assert forall|k: int| 0 <= k < order.len() implies #[trigger] live_at(nodes, res, order, k) == live_at(nodes, res.kinds(), order, k) by {
        lemma_needed_kinds(nodes, res, order, k + 1);
    }
}

proof fn lemma_needed_kinds(nodes: Seq<GraphNode>, res: ResourcesView, order: Seq<usize>, k: int)
    requires
        0 <= k <= order.len(),
    ensures
        needed_from(nodes, res, order, k) == needed_from(nodes, res.kinds(), order, k),
    decreases order.len() - k,
{
    if k >= order.len() {
        assert(Set::new(|r: ResourceId| res.is_external(r)) =~= Set::new(|r: ResourceId| res.kinds().is_external(r)));
    } else {
        lemma_needed_kinds(nodes, res, order, k + 1);
    }
}

} // verus!
