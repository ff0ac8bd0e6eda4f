use vstd::prelude::*;

use crate::deps::{nodes_wf, GraphNode};
use crate::gpu::same_format;
use crate::resources::{
    RenderGraphBufferDescriptor, RenderGraphResources, RenderGraphTextureDescriptor, ResourceId,
    ResourceType, ResourcesView,
};
use crate::schedule::{note_uses, order_wf, pass_at};

verus! {

/// The pass at position `k` of the order is live and uses `r`.
pub open spec fn live_use(nodes: Seq<GraphNode>, order: Seq<usize>, culled: Seq<bool>, k: int, r: ResourceId) -> bool {
    !culled[order[k] as int] && pass_at(nodes, order, k).uses(r)
}

/// The first position before `k` where a live pass uses `r`.
pub open spec fn first_use_before(nodes: Seq<GraphNode>, order: Seq<usize>, culled: Seq<bool>, k: int, r: ResourceId) -> Option<usize>
    decreases k,
{
    if k <= 0 {
        None
    } else {
        match first_use_before(nodes, order, culled, k - 1, r) {
            Some(f) => Some(f),
            None => if live_use(nodes, order, culled, k - 1, r) {
                Some((k - 1) as usize)
            } else {
                None
            },
        }
    }
}

/// The last position before `k` where a live pass uses `r`.
pub open spec fn last_use_before(nodes: Seq<GraphNode>, order: Seq<usize>, culled: Seq<bool>, k: int, r: ResourceId) -> Option<usize>
    decreases k,
{
    if k <= 0 {
        None
    } else if live_use(nodes, order, culled, k - 1, r) {
        Some((k - 1) as usize)
    } else {
        last_use_before(nodes, order, culled, k - 1, r)
    }
}

/// First execution index at which a live pass uses `r`.
pub open spec fn first_use(nodes: Seq<GraphNode>, order: Seq<usize>, culled: Seq<bool>, r: ResourceId) -> Option<usize> {
    first_use_before(nodes, order, culled, order.len() as int, r)
}

/// Last execution index at which a live pass uses `r`.
pub open spec fn last_use(nodes: Seq<GraphNode>, order: Seq<usize>, culled: Seq<bool>, r: ResourceId) -> Option<usize> {
    last_use_before(nodes, order, culled, order.len() as int, r)
}

pub proof fn lemma_use_bounds(nodes: Seq<GraphNode>, order: Seq<usize>, culled: Seq<bool>, k: int, r: ResourceId)
    requires
        0 <= k <= order.len() < usize::MAX,
    ensures
        first_use_before(nodes, order, culled, k, r) is Some <==> last_use_before(nodes, order, culled, k, r) is Some,
        first_use_before(nodes, order, culled, k, r) matches Some(f) ==> f < k && live_use(nodes, order, culled, f as int, r)
            && forall|q: int| 0 <= q < f ==> !#[trigger] live_use(nodes, order, culled, q, r),
        last_use_before(nodes, order, culled, k, r) matches Some(l) ==> l < k && live_use(nodes, order, culled, l as int, r)
            && forall|q: int| l < q < k ==> !#[trigger] live_use(nodes, order, culled, q, r),
        first_use_before(nodes, order, culled, k, r) is None ==> forall|q: int|
            0 <= q < k ==> !#[trigger] live_use(nodes, order, culled, q, r),
        first_use_before(nodes, order, culled, k, r) matches Some(f) ==> last_use_before(nodes, order, culled, k, r).unwrap() >= f,
    decreases k,
{
    if k > 0 {
        lemma_use_bounds(nodes, order, culled, k - 1, r);
    }
}

/// The texture-or-buffer description that a pool slot is created from.
#[derive(Clone, Copy, Debug)]
pub enum PoolDescriptor {
    Texture(RenderGraphTextureDescriptor),
    Buffer(RenderGraphBufferDescriptor),
}

/// A reusable slot of the aliasing pool. `materialized` says whether the
/// slot's physical resource exists and still matches `descriptor`.
#[derive(Clone, Copy, Debug)]
pub struct PoolSlot {
    pub descriptor: PoolDescriptor,
    pub lifetime_end: usize,
    pub materialized: bool,
}

/// The aliasing plan: the pool slot of each transient resource (indexed by
/// resource id) and the slots themselves.
pub struct ResourceAliasingInfo {
    pub aliases: Vec<Option<usize>>,
    pub pools: Vec<PoolSlot>,
}

/// `small`'s bits are all set in `big`.
pub open spec fn usage_contains(big: u32, small: u32) -> bool {
    big & small == small
}

/// The slot description a transient resource starts a new slot with.
pub open spec fn pool_descriptor_of(t: ResourceType) -> Option<PoolDescriptor> {
    match t {
        ResourceType::TransientColor { descriptor, .. } => Some(PoolDescriptor::Texture(descriptor)),
        ResourceType::TransientDepth { descriptor, .. } => Some(PoolDescriptor::Texture(descriptor)),
        ResourceType::TransientBuffer { descriptor } => Some(PoolDescriptor::Buffer(descriptor)),
        _ => None,
    }
}

/// A slot may take a resource of kind `t`: textures agree on format, size,
/// sample count and mip levels; buffers on their usage.
pub open spec fn can_alias(pd: PoolDescriptor, t: ResourceType) -> bool {
    match (pd, pool_descriptor_of(t)) {
        (PoolDescriptor::Texture(p), Some(PoolDescriptor::Texture(d))) => {
            &&& p.format == d.format
            &&& p.width == d.width
            &&& p.height == d.height
            &&& p.sample_count == d.sample_count
            &&& p.mip_level_count == d.mip_level_count
        },
        (PoolDescriptor::Buffer(p), Some(PoolDescriptor::Buffer(d))) => p.usage == d.usage,
        _ => false,
    }
}

/// A slot serves a resource of kind `t`: it may take it, and its usage (for
/// textures) or size (for buffers) is at least the resource's.
pub open spec fn covers(pd: PoolDescriptor, t: ResourceType) -> bool {
    &&& can_alias(pd, t)
    &&& match (pd, pool_descriptor_of(t)) {
        (PoolDescriptor::Texture(p), Some(PoolDescriptor::Texture(d))) => usage_contains(p.usage, d.usage),
        (PoolDescriptor::Buffer(p), Some(PoolDescriptor::Buffer(d))) => p.size >= d.size,
        _ => false,
    }
}

/// The slot description after taking a resource of kind `t`: texture usage
/// is widened to the union, a buffer grows to the larger request.
pub open spec fn widened(pd: PoolDescriptor, t: ResourceType) -> PoolDescriptor {
    match (pd, pool_descriptor_of(t)) {
        (PoolDescriptor::Texture(p), Some(PoolDescriptor::Texture(d))) => if usage_contains(p.usage, d.usage) {
            pd
        } else {
            PoolDescriptor::Texture(RenderGraphTextureDescriptor { usage: p.usage | d.usage, ..p })
        },
        (PoolDescriptor::Buffer(p), Some(PoolDescriptor::Buffer(d))) => if d.size > p.size {
            PoolDescriptor::Buffer(d)
        } else {
            pd
        },
        _ => pd,
    }
}

pub proof fn lemma_usage_union(a: u32, b: u32, c: u32)
    ensures
        usage_contains(a | b, b),
        usage_contains(a, c) ==> usage_contains(a | b, c),
{
    assert((a | b) & b == b) by (bit_vector);
    assert(a & c == c ==> (a | b) & c == c) by (bit_vector);
}

/// Widening keeps every resource the slot served covered, and covers `t`.
pub proof fn lemma_widened_covers(pd: PoolDescriptor, t: ResourceType, u: ResourceType)
    requires
        can_alias(pd, t),
        covers(pd, u),
    ensures
        covers(widened(pd, t), t),
        covers(widened(pd, t), u),
{
    match (pd, pool_descriptor_of(t), pool_descriptor_of(u)) {
        (PoolDescriptor::Texture(p), Some(PoolDescriptor::Texture(d)), Some(PoolDescriptor::Texture(e))) => {
            lemma_usage_union(p.usage, d.usage, e.usage);
        },
        _ => {},
    }
}

pub proof fn lemma_new_slot_covers(t: ResourceType)
    requires
        pool_descriptor_of(t) is Some,
    ensures
        covers(pool_descriptor_of(t).unwrap(), t),
{
    match pool_descriptor_of(t) {
        Some(PoolDescriptor::Texture(d)) => {
            assert(d.usage & d.usage == d.usage) by (bit_vector);
        },
        _ => {},
    }
}

/// Sets `t[id]` to `Some(pos)` for each id of `rs` that has no entry yet.
fn note_first(pos: usize, rs: &Vec<ResourceId>, t: &mut Vec<Option<usize>>)
    requires
        forall|i: int| 0 <= i < rs@.len() ==> (#[trigger] rs@[i]).index() < old(t)@.len(),
    ensures
        final(t)@.len() == old(t)@.len(),
        forall|id: ResourceId|
            id.index() < old(t)@.len() ==> #[trigger] final(t)@[id.index()] == if old(t)@[id.index()] is None
                && rs@.contains(id) {
                Some(pos)
            } else {
                old(t)@[id.index()]
            },
{
    let mut i: usize = 0;
    while i < rs.len()
        invariant
            i <= rs@.len(),
            t@.len() == old(t)@.len(),
            forall|j: int| 0 <= j < rs@.len() ==> (#[trigger] rs@[j]).index() < old(t)@.len(),
            forall|id: ResourceId|
                id.index() < old(t)@.len() ==> #[trigger] t@[id.index()] == if old(t)@[id.index()] is None
                    && rs@.take(i as int).contains(id) {
                    Some(pos)
                } else {
                    old(t)@[id.index()]
                },
        decreases rs@.len() - i,
    {
        let r = rs[i];
        if t[r.0 as usize].is_none() {
            t.set(r.0 as usize, Some(pos));
        }
        proof {
            assert(rs@.take(i + 1) =~= rs@.take(i as int).push(r));
            assert forall|id: ResourceId| id.index() < old(t)@.len() implies #[trigger] t@[id.index()]
                == if old(t)@[id.index()] is None && rs@.take(i + 1).contains(id) {
                Some(pos)
            } else {
                old(t)@[id.index()]
            } by {
                crate::deps::lemma_push_contains(rs@.take(i as int), r, id);
            }
        }
        i = i + 1;
    }
    assert(rs@.take(rs@.len() as int) =~= rs@);
}

/// First and last use of every resource by the live passes, indexed by id.
pub fn compute_resource_lifetimes(nodes: &Vec<GraphNode>, nres: usize, order: &Vec<usize>, culled: &Vec<bool>) -> (r: (
    Vec<Option<usize>>,
    Vec<Option<usize>>,
))
    requires
        nodes_wf(nodes@, nres as int),
        order_wf(nodes@, order@),
        culled@.len() == nodes@.len(),
    ensures
        r.0@.len() == nres,
        r.1@.len() == nres,
        forall|id: ResourceId|
            id.index() < nres ==> #[trigger] r.0@[id.index()] == first_use(nodes@, order@, culled@, id),
        forall|id: ResourceId|
            id.index() < nres ==> #[trigger] r.1@[id.index()] == last_use(nodes@, order@, culled@, id),
{
    let mut first: Vec<Option<usize>> = Vec::new();
    let mut last: Vec<Option<usize>> = Vec::new();
    let mut k: usize = 0;
    while k < nres
        invariant
            k <= nres,
            first@.len() == k,
            last@.len() == k,
            forall|j: int| 0 <= j < k ==> first@[j] is None && last@[j] is None,
        decreases nres - k,
    {
        first.push(None);
        last.push(None);
        k = k + 1;
    }
    let mut i: usize = 0;
    while i < order.len()
        invariant
            i <= order@.len(),
            nodes_wf(nodes@, nres as int),
            order_wf(nodes@, order@),
            culled@.len() == nodes@.len(),
            first@.len() == nres,
            last@.len() == nres,
            forall|id: ResourceId|
                id.index() < nres ==> #[trigger] first@[id.index()] == first_use_before(
                    nodes@,
                    order@,
                    culled@,
                    i as int,
                    id,
                ),
            forall|id: ResourceId|
                id.index() < nres ==> #[trigger] last@[id.index()] == last_use_before(
                    nodes@,
                    order@,
                    culled@,
                    i as int,
                    id,
                ),
        decreases order@.len() - i,
    {
        let v = order[i];
        let node = &nodes[v];
        proof {
            assert(nodes@[v as int].ids_below(nres as int));
        }
        if !culled[v] {
            note_first(i, &node.reads, &mut first);
            note_first(i, &node.writes, &mut first);
            note_first(i, &node.reads_writes, &mut first);
            note_uses(i, &node.reads, &node.writes, &mut last);
            note_uses(i, &node.reads_writes, &node.reads_writes, &mut last);
        }
        i = i + 1;
    }
    (first, last)
}

/// The transient resources that live passes use, ordered by first use and
/// then by id.
pub fn lifetime_order(res: &RenderGraphResources, first: &Vec<Option<usize>>, npos: usize) -> (list: Vec<ResourceId>)
    requires
        res@.wf(),
        first@.len() == res@.len(),
        forall|j: int| 0 <= j < first@.len() && (#[trigger] first@[j]) is Some ==> first@[j].unwrap() < npos,
    ensures
        forall|i: int| 0 <= i < list@.len() ==> (#[trigger] list@[i]).index() < res@.len() && !res@.is_external(list@[i])
            && first@[list@[i].index()] is Some,
        forall|id: ResourceId|
            id.index() < res@.len() && !res@.is_external(id) && (#[trigger] first@[id.index()]) is Some
                ==> list@.contains(id),
        forall|i: int, j: int|
            0 <= i < j < list@.len() ==> first@[list@[i].index()].unwrap() <= first@[list@[j].index()].unwrap(),
        forall|i: int, j: int|
            #![trigger list@[i], list@[j]]
            0 <= i < j < list@.len() ==> first@[list@[i].index()].unwrap() < first@[list@[j].index()].unwrap()
                || (first@[list@[i].index()] == first@[list@[j].index()] && list@[i].0 < list@[j].0),
        list@.no_duplicates(),
{
    let nres = res.len();
    let mut list: Vec<ResourceId> = Vec::new();
    let mut k: usize = 0;
    while k < npos
        invariant
            k <= npos,
            nres == res@.len(),
            res@.wf(),
            first@.len() == nres,
            forall|j: int| 0 <= j < first@.len() && (#[trigger] first@[j]) is Some ==> first@[j].unwrap() < npos,
            forall|i: int| 0 <= i < list@.len() ==> (#[trigger] list@[i]).index() < nres && !res@.is_external(list@[i])
                && first@[list@[i].index()] is Some && first@[list@[i].index()].unwrap() < k,
            forall|id: ResourceId|
                id.index() < nres && !res@.is_external(id) && (#[trigger] first@[id.index()]) is Some
                    && first@[id.index()].unwrap() < k ==> list@.contains(id),
            forall|i: int, j: int|
                0 <= i < j < list@.len() ==> first@[list@[i].index()].unwrap() < first@[list@[j].index()].unwrap()
                    || (first@[list@[i].index()] == first@[list@[j].index()] && list@[i].0 < list@[j].0),
        decreases npos - k,
    {
        let mut r: usize = 0;
        let ghost base = list@;
        while r < nres
            invariant
                r <= nres,
                k < npos,
                nres == res@.len(),
                res@.wf(),
                first@.len() == nres,
                base.len() <= list@.len(),
                list@.take(base.len() as int) == base,
                forall|i: int| 0 <= i < base.len() ==> first@[(#[trigger] base[i]).index()].unwrap() < k,
                forall|i: int| 0 <= i < list@.len() ==> (#[trigger] list@[i]).index() < nres && !res@.is_external(list@[i])
                    && first@[list@[i].index()] is Some && first@[list@[i].index()].unwrap() <= k,
                forall|i: int| base.len() <= i < list@.len() ==> first@[(#[trigger] list@[i]).index()] == Some(k)
                    && list@[i].0 < r,
                forall|id: ResourceId|
                    id.index() < nres && !res@.is_external(id) && (#[trigger] first@[id.index()]) is Some
                        && (first@[id.index()].unwrap() < k || (first@[id.index()] == Some(k) && id.0 < r))
                        ==> list@.contains(id),
                forall|i: int, j: int|
                    0 <= i < j < list@.len() ==> first@[list@[i].index()].unwrap() < first@[list@[j].index()].unwrap()
                        || (first@[list@[i].index()] == first@[list@[j].index()] && list@[i].0 < list@[j].0),
            decreases nres - r,
        {
            let id = ResourceId(r as u32);
            let d = res.get_descriptor(id).unwrap();
            if !d.is_external && first[r] == Some(k) {
                let ghost before = list@;
                list.push(id);
                proof {
                    assert(list@.take(base.len() as int) =~= before.take(base.len() as int));
                    assert forall|i: int, j: int| 0 <= i < j < list@.len() implies (first@[list@[i].index()].unwrap()
                        < first@[list@[j].index()].unwrap() || (first@[list@[i].index()] == first@[list@[j].index()]
                        && list@[i].0 < list@[j].0)) by {
                        if j == list@.len() - 1 {
                            assert(list@[j] == id);
                            assert(list@[i] == before[i]);
                            if i < base.len() {
                                assert(before.take(base.len() as int)[i] == before[i]);
                                assert(first@[base[i].index()].unwrap() < k);
                            }
                        } else {
                            assert(list@[i] == before[i] && list@[j] == before[j]);
                        }
                    }
                    assert forall|q: ResourceId|
                        q.index() < nres && !res@.is_external(q) && (#[trigger] first@[q.index()]) is Some
                            && (first@[q.index()].unwrap() < k || (first@[q.index()] == Some(k) && q.0 < r + 1))
                            implies list@.contains(q) by {
                        if q == id {
                            assert(list@[list@.len() - 1] == id);
                        } else {
                            let i = choose|i: int| 0 <= i < before.len() && before[i] == q;
                            assert(list@[i] == q);
                        }
                    }
                }
            } else {
                proof {
                    assert forall|q: ResourceId|
                        q.index() < nres && !res@.is_external(q) && (#[trigger] first@[q.index()]) is Some
                            && (first@[q.index()].unwrap() < k || (first@[q.index()] == Some(k) && q.0 < r + 1))
                            implies list@.contains(q) by {
                        if q.0 == r {
                            assert(q == id);
                        }
                    }
                }
            }
            r = r + 1;
        }
        proof {
            assert forall|i: int| 0 <= i < list@.len() implies (#[trigger] list@[i]).index() < nres && !res@.is_external(list@[i])
                && first@[list@[i].index()] is Some && first@[list@[i].index()].unwrap() < k + 1 by {
            }
        }
        k = k + 1;
    }
    proof {
        assert forall|i: int, j: int| 0 <= i < list@.len() && 0 <= j < list@.len() && i != j implies list@[i] != list@[j] by {
            if i < j {
            } else {
            }
        }
        assert forall|id: ResourceId|
            id.index() < nres && !res@.is_external(id) && (#[trigger] first@[id.index()]) is Some
                implies list@.contains(id) by {
            assert(first@[id.index()].unwrap() < npos);
        }
    }
    list
}

pub proof fn lemma_widened_covers_self(pd: PoolDescriptor, t: ResourceType)
    requires
        can_alias(pd, t),
    ensures
        covers(widened(pd, t), t),
{
    match (pd, pool_descriptor_of(t)) {
        (PoolDescriptor::Texture(p), Some(PoolDescriptor::Texture(d))) => {
            lemma_usage_union(p.usage, d.usage, d.usage);
        },
        _ => {},
    }
}

/// Taking a resource of kind `t` changes the slot's physical resource.
pub open spec fn needs_recreation(pd: PoolDescriptor, t: ResourceType) -> bool {
    match (pd, pool_descriptor_of(t)) {
        (PoolDescriptor::Texture(p), Some(PoolDescriptor::Texture(d))) => !usage_contains(p.usage, d.usage),
        (PoolDescriptor::Buffer(p), Some(PoolDescriptor::Buffer(d))) => d.size > p.size,
        _ => false,
    }
}

/// Slot `p` is free before `first` and may take a resource of kind `t`.
pub open spec fn free_fit(pools: Seq<PoolSlot>, t: ResourceType, first: usize, p: int) -> bool {
    0 <= p < pools.len() && pools[p].lifetime_end < first && can_alias(pools[p].descriptor, t)
}

/// Slot `p` is, of the free fitting slots, the one whose lifetime ended
/// first, the lowest index among equals.
pub open spec fn best_fit(pools: Seq<PoolSlot>, t: ResourceType, first: usize, p: int) -> bool {
    &&& free_fit(pools, t, first, p)
    &&& forall|q: int|
        #[trigger] free_fit(pools, t, first, q) ==> pools[p].lifetime_end < pools[q].lifetime_end || (
        pools[p].lifetime_end == pools[q].lifetime_end && p <= q)
}

/// The slot that placing a resource of kind `t`, first used at `first`,
/// picks among the first `k` slots: the free fitting slot whose lifetime
/// ended first, the lowest index among equals.
pub open spec fn best_slot_below(pools: Seq<PoolSlot>, t: ResourceType, first: usize, k: int) -> Option<usize>
    decreases k,
{
    if k <= 0 {
        None
    } else {
        let b = best_slot_below(pools, t, first, k - 1);
        if free_fit(pools, t, first, k - 1) && (b is None || pools[k - 1].lifetime_end < pools[b.unwrap() as int].lifetime_end) {
            Some((k - 1) as usize)
        } else {
            b
        }
    }
}

/// The plan after placing `id` (kind `t`, used over `[first, last]`): into
/// the best free fitting slot, widened as needed, or else into a new slot.
pub open spec fn placed(
    aliases: Seq<Option<usize>>,
    pools: Seq<PoolSlot>,
    id: ResourceId,
    t: ResourceType,
    first: usize,
    last: usize,
) -> (Seq<Option<usize>>, Seq<PoolSlot>) {
    match best_slot_below(pools, t, first, pools.len() as int) {
        Some(c) => (
            aliases.update(id.index(), Some(c)),
            pools.update(
                c as int,
                PoolSlot {
                    descriptor: widened(pools[c as int].descriptor, t),
                    lifetime_end: last,
                    materialized: pools[c as int].materialized && !needs_recreation(pools[c as int].descriptor, t),
                },
            ),
        ),
        None => (
            aliases.update(id.index(), Some(pools.len() as usize)),
            pools.push(PoolSlot { descriptor: pool_descriptor_of(t).unwrap(), lifetime_end: last, materialized: false }),
        ),
    }
}

/// The plan that placing the first `k` resources of `list` in turn builds,
/// starting from no slots.
pub open spec fn greedy_plan(
    nodes: Seq<GraphNode>,
    res: ResourcesView,
    order: Seq<usize>,
    culled: Seq<bool>,
    list: Seq<ResourceId>,
    k: int,
) -> (Seq<Option<usize>>, Seq<PoolSlot>)
    decreases k,
{
    if k <= 0 {
        (Seq::new(res.len() as nat, |i: int| None), Seq::empty())
    } else {
        let prev = greedy_plan(nodes, res, order, culled, list, k - 1);
        let id = list[k - 1];
        placed(
            prev.0,
            prev.1,
            id,
            res.kind(id),
            first_use(nodes, order, culled, id).unwrap(),
            last_use(nodes, order, culled, id).unwrap(),
        )
    }
}

/// `list` holds each transient resource that live passes use, once, by
/// first use and then by id.
pub open spec fn first_use_order(
    nodes: Seq<GraphNode>,
    res: ResourcesView,
    order: Seq<usize>,
    culled: Seq<bool>,
    list: Seq<ResourceId>,
) -> bool {
    &&& forall|i: int| 0 <= i < list.len() ==> (#[trigger] list[i]).index() < res.len() && !res.is_external(list[i])
        && first_use(nodes, order, culled, list[i]) is Some
    &&& forall|id: ResourceId|
        id.index() < res.len() && !res.is_external(id) && (#[trigger] first_use(nodes, order, culled, id)) is Some
            ==> list.contains(id)
    &&& forall|i: int, j: int|
        #![trigger list[i], list[j]]
        0 <= i < j < list.len() ==> {
            let fi = first_use(nodes, order, culled, list[i]).unwrap();
            let fj = first_use(nodes, order, culled, list[j]).unwrap();
            fi < fj || (fi == fj && list[i].0 < list[j].0)
        }
}

/// The slot `pd` may take a resource of kind `t`.
fn fits(pd: &PoolDescriptor, t: &ResourceType) -> (b: bool)
    ensures
        b == can_alias(*pd, *t),
{
    match (pd, t) {
        (PoolDescriptor::Texture(p), ResourceType::TransientColor { descriptor: d, .. }) => same_format(
            &p.format,
            &d.format,
        ) && p.width == d.width && p.height == d.height && p.sample_count == d.sample_count
            && p.mip_level_count == d.mip_level_count,
        (PoolDescriptor::Texture(p), ResourceType::TransientDepth { descriptor: d, .. }) => same_format(
            &p.format,
            &d.format,
        ) && p.width == d.width && p.height == d.height && p.sample_count == d.sample_count
            && p.mip_level_count == d.mip_level_count,
        (PoolDescriptor::Buffer(p), ResourceType::TransientBuffer { descriptor: d }) => p.usage == d.usage,
        _ => false,
    }
}

/// The slot description after taking a resource of kind `t`, and whether
/// its physical resource must be made anew.
fn widen(pd: PoolDescriptor, t: &ResourceType) -> (r: (PoolDescriptor, bool))
    ensures
        r.0 == widened(pd, *t),
        r.1 == needs_recreation(pd, *t),
{
    match (pd, t) {
        (PoolDescriptor::Texture(p), ResourceType::TransientColor { descriptor: d, .. }) => {
            if p.usage & d.usage == d.usage {
                (pd, false)
            } else {
                (PoolDescriptor::Texture(RenderGraphTextureDescriptor { usage: p.usage | d.usage, ..p }), true)
            }
        },
        (PoolDescriptor::Texture(p), ResourceType::TransientDepth { descriptor: d, .. }) => {
            if p.usage & d.usage == d.usage {
                (pd, false)
            } else {
                (PoolDescriptor::Texture(RenderGraphTextureDescriptor { usage: p.usage | d.usage, ..p }), true)
            }
        },
        (PoolDescriptor::Buffer(p), ResourceType::TransientBuffer { descriptor: d }) => {
            if d.size > p.size {
                (PoolDescriptor::Buffer(*d), true)
            } else {
                (pd, false)
            }
        },
        _ => (pd, false),
    }
}

/// The slot description a transient resource of kind `t` starts a slot with.
fn new_descriptor(t: &ResourceType) -> (r: Option<PoolDescriptor>)
    ensures
        r == pool_descriptor_of(*t),
{
    match t {
        ResourceType::TransientColor { descriptor, .. } => Some(PoolDescriptor::Texture(*descriptor)),
        ResourceType::TransientDepth { descriptor, .. } => Some(PoolDescriptor::Texture(*descriptor)),
        ResourceType::TransientBuffer { descriptor } => Some(PoolDescriptor::Buffer(*descriptor)),
        _ => None,
    }
}

/// Places one transient resource, with lifetime `[first, last]` and kind
/// `t`, into the pool: into the free fitting slot whose lifetime ended first
/// (widening it as needed), or into a new slot when no slot fits.
fn assign_slot(
    aliases: &mut Vec<Option<usize>>,
    pools: &mut Vec<PoolSlot>,
    id: ResourceId,
    t: &ResourceType,
    first: usize,
    last: usize,
) -> (chosen: usize)
    requires
        id.index() < old(aliases)@.len(),
        pool_descriptor_of(*t) is Some,
        first <= last,
    ensures
        final(aliases)@ == old(aliases)@.update(id.index(), Some(chosen)),
        chosen <= old(pools)@.len(),
        chosen < old(pools)@.len() <==> exists|p: int| free_fit(old(pools)@, *t, first, p),
        chosen < old(pools)@.len() ==> best_fit(old(pools)@, *t, first, chosen as int)
            && final(pools)@ == old(pools)@.update(
            chosen as int,
            PoolSlot {
                descriptor: widened(old(pools)@[chosen as int].descriptor, *t),
                lifetime_end: last,
                materialized: old(pools)@[chosen as int].materialized && !needs_recreation(
                    old(pools)@[chosen as int].descriptor,
                    *t,
                ),
            },
        ),
        chosen == old(pools)@.len() ==> final(pools)@ == old(pools)@.push(
            PoolSlot { descriptor: pool_descriptor_of(*t).unwrap(), lifetime_end: last, materialized: false },
        ),
        (final(aliases)@, final(pools)@) == placed(old(aliases)@, old(pools)@, id, *t, first, last),
{
    let mut best: Option<usize> = None;
    let mut p: usize = 0;
    while p < pools.len()
        invariant
            p <= pools@.len(),
            pools@ == old(pools)@,
            best matches Some(b) ==> b < p && free_fit(pools@, *t, first, b as int) && forall|q: int|
                0 <= q < p && #[trigger] free_fit(pools@, *t, first, q) ==> pools@[b as int].lifetime_end
                    < pools@[q].lifetime_end || (pools@[b as int].lifetime_end == pools@[q].lifetime_end && b
                    <= q),
            best is None ==> forall|q: int| 0 <= q < p ==> !#[trigger] free_fit(pools@, *t, first, q),
            best == best_slot_below(pools@, *t, first, p as int),
        decreases pools@.len() - p,
    {
        let slot = pools[p];
        if slot.lifetime_end < first && fits(&slot.descriptor, t) {
            match best {
                Some(b) => {
                    if slot.lifetime_end < pools[b].lifetime_end {
                        best = Some(p);
                    }
                },
                None => {
                    best = Some(p);
                },
            }
        }
        p = p + 1;
    }
    match best {
        Some(b) => {
            let slot = pools[b];
            let (descriptor, recreate) = widen(slot.descriptor, t);
            pools.set(
                b,
                PoolSlot { descriptor, lifetime_end: last, materialized: slot.materialized && !recreate },
            );
            aliases.set(id.0 as usize, Some(b));
            b
        },
        None => {
            let descriptor = new_descriptor(t).unwrap();
            let c = pools.len();
            pools.push(PoolSlot { descriptor, lifetime_end: last, materialized: false });
            aliases.set(id.0 as usize, Some(c));
            c
        },
    }
}

/// `a` and `b` are never in use at the same execution index.
pub open spec fn disjoint_lifetimes(nodes: Seq<GraphNode>, order: Seq<usize>, culled: Seq<bool>, a: ResourceId, b: ResourceId) -> bool {
    ||| last_use(nodes, order, culled, a).unwrap() < first_use(nodes, order, culled, b).unwrap()
    ||| last_use(nodes, order, culled, b).unwrap() < first_use(nodes, order, culled, a).unwrap()
}

/// The slot of `id`, if it has one, exists, serves `id`'s kind, and stays
/// reserved at least until `id`'s last use; only used transients have slots.
pub open spec fn resident_ok(
    nodes: Seq<GraphNode>,
    res: ResourcesView,
    order: Seq<usize>,
    culled: Seq<bool>,
    aliases: Seq<Option<usize>>,
    pools: Seq<PoolSlot>,
    id: ResourceId,
) -> bool {
    aliases[id.index()] matches Some(p) ==> {
        &&& p < pools.len()
        &&& covers(pools[p as int].descriptor, res.kind(id))
        &&& !res.is_external(id)
        &&& first_use(nodes, order, culled, id) is Some
        &&& last_use(nodes, order, culled, id).unwrap() <= pools[p as int].lifetime_end
    }
}

/// An aliasing plan is sound: each resident is served by its slot, two
/// residents of one slot have disjoint lifetimes, and every slot has a
/// resident.
pub open spec fn plan_sound(
    nodes: Seq<GraphNode>,
    res: ResourcesView,
    order: Seq<usize>,
    culled: Seq<bool>,
    aliases: Seq<Option<usize>>,
    pools: Seq<PoolSlot>,
) -> bool {
    &&& aliases.len() == res.len()
    &&& forall|id: ResourceId| id.index() < res.len() ==> #[trigger] resident_ok(nodes, res, order, culled, aliases, pools, id)
    &&& forall|a: ResourceId, b: ResourceId|
        #![trigger aliases[a.index()], aliases[b.index()]]
        a.index() < res.len() && b.index() < res.len() && a != b && aliases[a.index()] is Some
            && aliases[a.index()] == aliases[b.index()] ==> disjoint_lifetimes(nodes, order, culled, a, b)
    &&& forall|p: int| 0 <= p < pools.len() ==> #[trigger] has_resident(aliases, p)
}

/// Some resource is assigned slot `p`.
pub open spec fn has_resident(aliases: Seq<Option<usize>>, p: int) -> bool {
    exists|id: ResourceId| id.index() < aliases.len() && #[trigger] aliases[id.index()] == Some(p as usize)
}

/// Assigns pool slots to the transient resources that live passes use,
/// greedily in order of first use (see `assign_slot`). Every slot of the
/// fresh plan still has to be materialized.
pub fn compute_resource_aliasing(
    nodes: &Vec<GraphNode>,
    res: &RenderGraphResources,
    order: &Vec<usize>,
    culled: &Vec<bool>,
) -> (info: ResourceAliasingInfo)
    requires
        res@.wf(),
        nodes_wf(nodes@, res@.len()),
        order_wf(nodes@, order@),
        culled@.len() == nodes@.len(),
    ensures
        plan_sound(nodes@, res@, order@, culled@, info.aliases@, info.pools@),
        forall|id: ResourceId|
            id.index() < res@.len() ==> ((#[trigger] info.aliases@[id.index()]) is Some <==> !res@.is_external(id)
                && first_use(nodes@, order@, culled@, id) is Some),
        forall|p: int| 0 <= p < info.pools@.len() ==> !(#[trigger] info.pools@[p]).materialized,
        exists|list: Seq<ResourceId>|
            first_use_order(nodes@, res@, order@, culled@, list) && (info.aliases@, info.pools@) == greedy_plan(
                nodes@,
                res@,
                order@,
                culled@,
                list,
                list.len() as int,
            ),
{
    let nres = res.len();
    let (first, last) = compute_resource_lifetimes(nodes, nres, order, culled);
    proof {
        assert forall|j: int| 0 <= j < first@.len() && (#[trigger] first@[j]) is Some implies first@[j].unwrap() < order@.len() by {
            let id = ResourceId(j as u32);
            assert(id.index() == j);
            lemma_use_bounds(nodes@, order@, culled@, order@.len() as int, id);
        }
    }
    let list = lifetime_order(res, &first, order.len());
    let mut aliases: Vec<Option<usize>> = Vec::new();
    let mut k: usize = 0;
    while k < nres
        invariant
            k <= nres,
            aliases@.len() == k,
            forall|j: int| 0 <= j < k ==> aliases@[j] is None,
        decreases nres - k,
    {
        aliases.push(None);
        k = k + 1;
    }
    let mut pools: Vec<PoolSlot> = Vec::new();
    let ghost n = nodes@;
    let ghost o = order@;
    let ghost c = culled@;
    proof {
        assert forall|id: ResourceId| id.index() < res@.len() implies #[trigger] resident_ok(n, res@, o, c, aliases@, pools@, id) by {
            assert(aliases@[id.index()] is None);
        }
        assert(aliases@ =~= greedy_plan(n, res@, o, c, list@, 0).0);
        assert(pools@ =~= greedy_plan(n, res@, o, c, list@, 0).1);
    }
    let mut i: usize = 0;
    while i < list.len()
        invariant
            i <= list@.len(),
            nres == res@.len(),
            res@.wf(),
            n == nodes@,
            o == order@,
            c == culled@,
            order_wf(n, o),
            first@.len() == nres,
            last@.len() == nres,
            forall|id: ResourceId| id.index() < nres ==> #[trigger] first@[id.index()] == first_use(n, o, c, id),
            forall|id: ResourceId| id.index() < nres ==> #[trigger] last@[id.index()] == last_use(n, o, c, id),
            forall|j: int| 0 <= j < list@.len() ==> (#[trigger] list@[j]).index() < nres && !res@.is_external(list@[j])
                && first@[list@[j].index()] is Some,
            list@.no_duplicates(),
            plan_sound(n, res@, o, c, aliases@, pools@),
            forall|id: ResourceId|
                id.index() < nres ==> ((#[trigger] aliases@[id.index()]) is Some <==> list@.take(i as int).contains(id)),
            forall|p: int| 0 <= p < pools@.len() ==> !(#[trigger] pools@[p]).materialized,
            (aliases@, pools@) == greedy_plan(n, res@, o, c, list@, i as int),
        decreases list@.len() - i,
    {
        let id = list[i];
        proof {
            lemma_use_bounds(n, o, c, o.len() as int, id);
        }
        let f = first[id.0 as usize].unwrap();
        let l = last[id.0 as usize].unwrap();
        let t = res.get_descriptor(id).unwrap().resource_type;
        proof {
            lemma_use_bounds(n, o, c, o.len() as int, id);
            assert(res@.descriptors[id.index()].wf());
            if !list@.take(i as int).contains(id) {
            } else {
                let j = choose|j: int| 0 <= j < i && list@.take(i as int)[j] == id;
                assert(list@[j] == list@[i as int]);
            }
            assert(aliases@[id.index()] is None);
        }
        let ghost old_aliases = aliases@;
        let ghost old_pools = pools@;
        let chosen = assign_slot(&mut aliases, &mut pools, id, &t, f, l);
        proof {
            assert(list@.take(i + 1) =~= list@.take(i as int).push(id));
            assert forall|q: ResourceId| q.index() < nres implies ((#[trigger] aliases@[q.index()]) is Some
                <==> list@.take(i + 1).contains(q)) by {
                crate::deps::lemma_push_contains(list@.take(i as int), id, q);
                if q != id {
                    assert(q.index() != id.index());
                }
            }
            assert forall|q: ResourceId| q.index() < nres implies #[trigger] resident_ok(n, res@, o, c, aliases@, pools@, q) by {
                assert(resident_ok(n, res@, o, c, old_aliases, old_pools, q));
                if q == id {
                    if chosen < old_pools.len() {
                        lemma_widened_covers_self(old_pools[chosen as int].descriptor, t);
                    } else {
                        lemma_new_slot_covers(t);
                    }
                } else {
                    assert(q.index() != id.index());
                    assert(aliases@[q.index()] == old_aliases[q.index()]);
                    if old_aliases[q.index()] == Some(chosen) && chosen < old_pools.len() {
                        lemma_widened_covers(old_pools[chosen as int].descriptor, t, res@.kind(q));
                    }
                }
            }
            assert forall|a: ResourceId, b: ResourceId|
                #![trigger aliases@[a.index()], aliases@[b.index()]]
                a.index() < nres && b.index() < nres && a != b && aliases@[a.index()] is Some
                    && aliases@[a.index()] == aliases@[b.index()] implies disjoint_lifetimes(n, o, c, a, b) by {
                assert(a.index() != b.index());
                assert(resident_ok(n, res@, o, c, old_aliases, old_pools, a));
                assert(resident_ok(n, res@, o, c, old_aliases, old_pools, b));
                if a == id {
                    assert(old_aliases[b.index()] == Some(chosen));
                    lemma_use_bounds(n, o, c, o.len() as int, b);
                } else if b == id {
                    assert(old_aliases[a.index()] == Some(chosen));
                    lemma_use_bounds(n, o, c, o.len() as int, a);
                } else {
                    assert(old_aliases[a.index()] == aliases@[a.index()]);
                    assert(old_aliases[b.index()] == aliases@[b.index()]);
                }
            }
            assert forall|p: int| 0 <= p < pools@.len() implies #[trigger] has_resident(aliases@, p) by {
                if p == chosen {
                    assert(aliases@[id.index()] == Some(p as usize));
                } else {
                    assert(has_resident(old_aliases, p));
                    let q = choose|q: ResourceId| q.index() < nres && #[trigger] old_aliases[q.index()] == Some(p as usize);
                    assert(q != id);
                    assert(q.index() != id.index());
                    assert(aliases@[q.index()] == Some(p as usize));
                }
            }
        }
        i = i + 1;
    }
    proof {
        assert(list@.take(list@.len() as int) =~= list@);
        assert(first_use_order(n, res@, o, c, list@)) by {
            assert forall|id: ResourceId|
                id.index() < res@.len() && !res@.is_external(id) && (#[trigger] first_use(n, o, c, id)) is Some
                    implies list@.contains(id) by {
                assert(first@[id.index()] is Some);
            }
            assert forall|a: int, b: int|
                #![trigger list@[a], list@[b]]
                0 <= a < b < list@.len() implies ({
                    let fa = first_use(n, o, c, list@[a]).unwrap();
                    let fb = first_use(n, o, c, list@[b]).unwrap();
                    fa < fb || (fa == fb && list@[a].0 < list@[b].0)
                }) by {
                assert(first@[list@[a].index()] == first_use(n, o, c, list@[a]));
                assert(first@[list@[b].index()] == first_use(n, o, c, list@[b]));
            }
        }
        assert forall|id: ResourceId| id.index() < nres implies ((#[trigger] aliases@[id.index()]) is Some
            <==> !res@.is_external(id) && first_use(n, o, c, id) is Some) by {
            if !res@.is_external(id) && first_use(n, o, c, id) is Some {
                assert(first@[id.index()] is Some);
            }
            if list@.contains(id) {
                let j = choose|j: int| 0 <= j < list@.len() && list@[j] == id;
            }
        }
    }
    ResourceAliasingInfo { aliases, pools }
}

/// Soundness of a plan reads only the descriptors of a registry.
pub proof fn lemma_plan_kinds(
    nodes: Seq<GraphNode>,
    res: ResourcesView,
    order: Seq<usize>,
    culled: Seq<bool>,
    aliases: Seq<Option<usize>>,
    pools: Seq<PoolSlot>,
)
    requires
        plan_sound(nodes, res, order, culled, aliases, pools),
    ensures
        plan_sound(nodes, res.kinds(), order, culled, aliases, pools),
{
    let k = res.kinds();
    assert forall|id: ResourceId| id.index() < k.len() implies #[trigger] resident_ok(nodes, k, order, culled, aliases, pools, id) by {
        assert(resident_ok(nodes, res, order, culled, aliases, pools, id));
    }
}

/// Soundness of a plan does not read whether slots are materialized.
pub proof fn lemma_plan_same_slots(
    nodes: Seq<GraphNode>,
    res: ResourcesView,
    order: Seq<usize>,
    culled: Seq<bool>,
    aliases: Seq<Option<usize>>,
    a: Seq<PoolSlot>,
    b: Seq<PoolSlot>,
)
    requires
        plan_sound(nodes, res, order, culled, aliases, a),
        a.len() == b.len(),
        forall|p: int| 0 <= p < a.len() ==> (#[trigger] a[p]).descriptor == b[p].descriptor && a[p].lifetime_end == b[p].lifetime_end,
    ensures
        plan_sound(nodes, res, order, culled, aliases, b),
{
    assert forall|id: ResourceId| id.index() < res.len() implies #[trigger] resident_ok(nodes, res, order, culled, aliases, b, id) by {
        assert(resident_ok(nodes, res, order, culled, aliases, a, id));
        if aliases[id.index()] is Some {
            let p = aliases[id.index()].unwrap() as int;
            assert(a[p].descriptor == b[p].descriptor);
        }
    }
}

} // verus!
