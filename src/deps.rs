use vstd::prelude::*;

use crate::digraph::{has_cycle, is_walk};
use crate::error::RenderGraphError;
use crate::resources::ResourceId;
use crate::slots::{find_slot, slot_lookup};

verus! {

/// A registered pass: its name, the resources bound to its declared slots,
/// and the slot table it was registered with.
pub struct GraphNode {
    pub name: String,
    pub reads: Vec<ResourceId>,
    pub writes: Vec<ResourceId>,
    pub reads_writes: Vec<ResourceId>,
    pub slot_mappings: Vec<(String, ResourceId)>,
}

impl GraphNode {
    /// The resource bound to `slot` in this pass's slot table.
    pub fn get_slot(&self, slot: &String) -> (r: Result<ResourceId, RenderGraphError>)
        ensures
            r is Ok <==> slot_lookup(self.slot_mappings@, slot@) is Some,
            r matches Ok(id) ==> slot_lookup(self.slot_mappings@, slot@) == Some(id),
            r matches Err(e) ==> (e matches RenderGraphError::SlotNotFound { slot: s, pass } && s@ == slot@
                && pass@ == self.name@),
    {
        match find_slot(&self.slot_mappings, slot) {
            Some(id) => Ok(id),
            None => Err(RenderGraphError::SlotNotFound { slot: slot.clone(), pass: self.name.clone() }),
        }
    }

    /// The pass reads `r`, alone or as a read-write slot.
    pub open spec fn reads_resource(self, r: ResourceId) -> bool {
        self.reads@.contains(r) || self.reads_writes@.contains(r)
    }

    /// The pass writes `r`, alone or as a read-write slot.
    pub open spec fn writes_resource(self, r: ResourceId) -> bool {
        self.writes@.contains(r) || self.reads_writes@.contains(r)
    }

    pub open spec fn uses(self, r: ResourceId) -> bool {
        self.reads_resource(r) || self.writes_resource(r)
    }

    /// Every resource the pass names is below `n`.
    pub open spec fn ids_below(self, n: int) -> bool {
        &&& forall|i: int| 0 <= i < self.reads@.len() ==> (#[trigger] self.reads@[i]).index() < n
        &&& forall|i: int| 0 <= i < self.writes@.len() ==> (#[trigger] self.writes@[i]).index() < n
        &&& forall|i: int|
            0 <= i < self.reads_writes@.len() ==> (#[trigger] self.reads_writes@[i]).index() < n
        &&& forall|i: int|
            0 <= i < self.slot_mappings@.len() ==> (#[trigger] self.slot_mappings@[i]).1.index() < n
    }
}

/// The last pass before position `p` that writes `r`.
pub open spec fn last_writer_before(nodes: Seq<GraphNode>, p: int, r: ResourceId) -> Option<usize>
    decreases p,
{
    if p <= 0 {
        None
    } else if nodes[p - 1].writes_resource(r) {
        Some((p - 1) as usize)
    } else {
        last_writer_before(nodes, p - 1, r)
    }
}

/// Pass `p` consumes something that pass `w` is the latest producer of.
pub open spec fn is_dependency(nodes: Seq<GraphNode>, w: int, p: int) -> bool {
    exists|r: ResourceId|
        nodes[p].reads_resource(r) && #[trigger] last_writer_before(nodes, p, r) == Some(w as usize)
}

/// The edges into `p` from the producers below `k`, by producer.
pub open spec fn edges_into(nodes: Seq<GraphNode>, p: int, k: int) -> Seq<(usize, usize)>
    decreases k,
{
    if k <= 0 {
        Seq::empty()
    } else if is_dependency(nodes, k - 1, p) {
        edges_into(nodes, p, k - 1).push(((k - 1) as usize, p as usize))
    } else {
        edges_into(nodes, p, k - 1)
    }
}

/// The producer-to-consumer edges among the first `p` passes, by consumer
/// and then by producer; each pair appears once.
pub open spec fn dependency_edges(nodes: Seq<GraphNode>, p: int) -> Seq<(usize, usize)>
    decreases p,
{
    if p <= 0 {
        Seq::empty()
    } else {
        dependency_edges(nodes, p - 1) + edges_into(nodes, p - 1, p - 1)
    }
}

pub proof fn lemma_last_writer_bounds(nodes: Seq<GraphNode>, p: int, r: ResourceId)
    requires
        p <= nodes.len() <= usize::MAX,
    ensures
        last_writer_before(nodes, p, r) matches Some(w) ==> w < p && nodes[w as int].writes_resource(r),
        last_writer_before(nodes, p, r) is None ==> forall|q: int|
            0 <= q < p ==> !(#[trigger] nodes[q]).writes_resource(r),
    decreases p,
{
    if p > 0 {
        lemma_last_writer_bounds(nodes, p - 1, r);
    }
}

pub proof fn lemma_push_contains<A>(s: Seq<A>, x: A, e: A)
    ensures
        s.push(x).contains(e) <==> (s.contains(e) || e == x),
{
    if s.push(x).contains(e) {
        let i = choose|i: int| 0 <= i < s.push(x).len() && s.push(x)[i] == e;
        if i < s.len() {
            assert(s[i] == e);
        }
    }
    if s.contains(e) {
        let i = choose|i: int| 0 <= i < s.len() && s[i] == e;
        assert(s.push(x)[i] == e);
    }
    if e == x {
        assert(s.push(x)[s.len() as int] == x);
    }
}

pub proof fn lemma_concat_contains<A>(a: Seq<A>, b: Seq<A>, e: A)
    ensures
        (a + b).contains(e) <==> (a.contains(e) || b.contains(e)),
{
    if (a + b).contains(e) {
        let i = choose|i: int| 0 <= i < (a + b).len() && (a + b)[i] == e;
        if i < a.len() {
            assert(a[i] == e);
        } else {
            assert(b[i - a.len()] == e);
        }
    }
    if a.contains(e) {
        let i = choose|i: int| 0 <= i < a.len() && a[i] == e;
        assert((a + b)[i] == e);
    }
    if b.contains(e) {
        let i = choose|i: int| 0 <= i < b.len() && b[i] == e;
        assert((a + b)[a.len() + i] == e);
    }
}

pub proof fn lemma_edges_into_contains(nodes: Seq<GraphNode>, p: int, k: int)
    requires
        0 <= k <= p < nodes.len() <= usize::MAX,
    ensures
        forall|e: (usize, usize)| #[trigger]
            edges_into(nodes, p, k).contains(e) <==> (e.1 as int == p && (e.0 as int) < k
                && is_dependency(nodes, e.0 as int, p)),
    decreases k,
{
    if k > 0 {
        lemma_edges_into_contains(nodes, p, k - 1);
        let prev = edges_into(nodes, p, k - 1);
        let x = ((k - 1) as usize, p as usize);
        assert forall|e: (usize, usize)| #[trigger]
            edges_into(nodes, p, k).contains(e) <==> (e.1 as int == p && (e.0 as int) < k
                && is_dependency(nodes, e.0 as int, p)) by {
            lemma_push_contains(prev, x, e);
        }
    } else {
        assert forall|e: (usize, usize)| #[trigger]
            edges_into(nodes, p, k).contains(e) <==> (e.1 as int == p && (e.0 as int) < k
                && is_dependency(nodes, e.0 as int, p)) by {
            assert(edges_into(nodes, p, k) == Seq::<(usize, usize)>::empty());
        }
    }
}

/// The edges among the first `p` passes are exactly the dependencies between
/// them, and each points from an earlier pass to a later one.
pub proof fn lemma_dependency_edges_contains(nodes: Seq<GraphNode>, p: int)
    requires
        0 <= p <= nodes.len() <= usize::MAX,
    ensures
        forall|e: (usize, usize)| #[trigger]
            dependency_edges(nodes, p).contains(e) <==> ((e.1 as int) < p && (e.0 as int) < (
            e.1 as int) && is_dependency(nodes, e.0 as int, e.1 as int)),
    decreases p,
{
    if p > 0 {
        lemma_dependency_edges_contains(nodes, p - 1);
        lemma_edges_into_contains(nodes, p - 1, p - 1);
        assert forall|e: (usize, usize)| #[trigger]
            dependency_edges(nodes, p).contains(e) <==> ((e.1 as int) < p && (e.0 as int) < (
            e.1 as int) && is_dependency(nodes, e.0 as int, e.1 as int)) by {
            lemma_concat_contains(dependency_edges(nodes, p - 1), edges_into(nodes, p - 1, p - 1), e);
        }
    } else {
        assert forall|e: (usize, usize)| #[trigger]
            dependency_edges(nodes, p).contains(e) <==> ((e.1 as int) < p && (e.0 as int) < (
            e.1 as int) && is_dependency(nodes, e.0 as int, e.1 as int)) by {
            assert(dependency_edges(nodes, p) == Seq::<(usize, usize)>::empty());
        }
    }
}

/// All passes name resources below `nres`.
pub open spec fn nodes_wf(nodes: Seq<GraphNode>, nres: int) -> bool {
    &&& nodes.len() < usize::MAX
    &&& forall|i: int| 0 <= i < nodes.len() ==> (#[trigger] nodes[i]).ids_below(nres)
}

/// Marks in `is_src` the latest producer, before pass `p`, of each resource in `rs`.
fn mark_producers(
    nodes: &Vec<GraphNode>,
    p: usize,
    rs: &Vec<ResourceId>,
    last_writer: &Vec<Option<usize>>,
    is_src: &mut Vec<bool>,
)
    requires
        p < nodes.len(),
        old(is_src)@.len() == p,
        forall|i: int| 0 <= i < rs@.len() ==> (#[trigger] rs@[i]).index() < last_writer@.len(),
        forall|id: ResourceId|
            id.index() < last_writer@.len() ==> #[trigger] last_writer@[id.index()]
                == last_writer_before(nodes@, p as int, id),
    ensures
        final(is_src)@.len() == p,
        forall|w: int|
            0 <= w < p ==> #[trigger] final(is_src)@[w] == (old(is_src)@[w] || exists|j: int|
                0 <= j < rs@.len() && last_writer_before(nodes@, p as int, rs@[j]) == Some(
                    w as usize,
                )),
{
    let mut i: usize = 0;
    while i < rs.len()
        invariant
            i <= rs@.len(),
            p < nodes.len(),
            is_src@.len() == p,
            forall|k: int| 0 <= k < rs@.len() ==> (#[trigger] rs@[k]).index() < last_writer@.len(),
            forall|id: ResourceId|
                id.index() < last_writer@.len() ==> #[trigger] last_writer@[id.index()]
                    == last_writer_before(nodes@, p as int, id),
            forall|w: int|
                0 <= w < p ==> #[trigger] is_src@[w] == (old(is_src)@[w] || exists|j: int|
                    0 <= j < i && last_writer_before(nodes@, p as int, rs@[j]) == Some(
                        w as usize,
                    )),
        decreases rs@.len() - i,
    {
        let r = rs[i];
        proof {
            lemma_last_writer_bounds(nodes@, p as int, r);
        }
        match last_writer[r.0 as usize] {
            Some(w) => {
                is_src.set(w, true);
            },
            None => {},
        }
        proof {
            assert forall|w: int| 0 <= w < p implies #[trigger] is_src@[w] == (old(is_src)@[w]
                || exists|j: int|
                0 <= j < i + 1 && last_writer_before(nodes@, p as int, rs@[j]) == Some(
                    w as usize,
                )) by {
                if last_writer_before(nodes@, p as int, rs@[i as int]) == Some(w as usize) {
                    assert(0 <= i < i + 1);
                }
                if exists|j: int|
                    0 <= j < i + 1 && last_writer_before(nodes@, p as int, rs@[j]) == Some(
                        w as usize,
                    ) {
                    let j = choose|j: int|
                        0 <= j < i + 1 && last_writer_before(nodes@, p as int, rs@[j]) == Some(
                            w as usize,
                        );
                    if j < i {
                    }
                }
            }
        }
        i = i + 1;
    }
}

/// Records pass `p` as the latest writer of each resource in `rs`.
fn note_writer(p: usize, rs: &Vec<ResourceId>, last_writer: &mut Vec<Option<usize>>)
    requires
        forall|i: int| 0 <= i < rs@.len() ==> (#[trigger] rs@[i]).index() < old(
            last_writer,
        )@.len(),
    ensures
        final(last_writer)@.len() == old(last_writer)@.len(),
        forall|k: int|
            0 <= k < old(last_writer)@.len() ==> #[trigger] final(last_writer)@[k] == if exists|
                j: int,
            |
                0 <= j < rs@.len() && rs@[j].index() == k {
                Some(p)
            } else {
                old(last_writer)@[k]
            },
{
    let mut i: usize = 0;
    while i < rs.len()
        invariant
            i <= rs@.len(),
            last_writer@.len() == old(last_writer)@.len(),
            forall|j: int| 0 <= j < rs@.len() ==> (#[trigger] rs@[j]).index() < old(
                last_writer,
            )@.len(),
            forall|k: int|
                0 <= k < old(last_writer)@.len() ==> #[trigger] last_writer@[k] == if exists|
                    j: int,
                |
                    0 <= j < i && rs@[j].index() == k {
                    Some(p)
                } else {
                    old(last_writer)@[k]
                },
        decreases rs@.len() - i,
    {
        let r = rs[i];
        last_writer.set(r.0 as usize, Some(p));
        proof {
            assert forall|k: int| 0 <= k < old(last_writer)@.len() implies #[trigger] last_writer@[k]
                == if exists|j: int| 0 <= j < i + 1 && rs@[j].index() == k {
                Some(p)
            } else {
                old(last_writer)@[k]
            } by {
                if k == r.index() {
                    assert(0 <= i < i + 1 && rs@[i as int].index() == k);
                } else {
                    if exists|j: int| 0 <= j < i + 1 && rs@[j].index() == k {
                        let j = choose|j: int| 0 <= j < i + 1 && rs@[j].index() == k;
                        assert(j < i);
                    }
                }
            }
        }
        i = i + 1;
    }
}

/// Derives the producer-to-consumer edges: walking the passes in
/// registration order, each read (or read-write) of a resource depends on the
/// latest earlier writer of it.
pub fn build_dependency_edges(nodes: &Vec<GraphNode>, nres: usize) -> (edges: Vec<(usize, usize)>)
    requires
        nodes_wf(nodes@, nres as int),
    ensures
        edges@ == dependency_edges(nodes@, nodes@.len() as int),
{
    let n = nodes.len();
    let mut last_writer: Vec<Option<usize>> = Vec::new();
    let mut k: usize = 0;
    while k < nres
        invariant
            k <= nres,
            last_writer@.len() == k,
            forall|j: int| 0 <= j < k ==> last_writer@[j] is None,
        decreases nres - k,
    {
        last_writer.push(None);
        k = k + 1;
    }
    let mut edges: Vec<(usize, usize)> = Vec::new();
    let mut p: usize = 0;
    while p < n
        invariant
            p <= n,
            n == nodes@.len(),
            nodes_wf(nodes@, nres as int),
            last_writer@.len() == nres,
            forall|id: ResourceId|
                id.index() < nres ==> #[trigger] last_writer@[id.index()] == last_writer_before(
                    nodes@,
                    p as int,
                    id,
                ),
            edges@ == dependency_edges(nodes@, p as int),
        decreases n - p,
    {
        let node = &nodes[p];
        proof {
            assert(nodes@[p as int].ids_below(nres as int));
        }
        let mut is_src: Vec<bool> = Vec::new();
        let mut w: usize = 0;
        while w < p
            invariant
                w <= p,
                is_src@.len() == w,
                forall|j: int| 0 <= j < w ==> !is_src@[j],
            decreases p - w,
        {
            is_src.push(false);
            w = w + 1;
        }
        mark_producers(nodes, p, &node.reads, &last_writer, &mut is_src);
        let ghost after_reads = is_src@;
        mark_producers(nodes, p, &node.reads_writes, &last_writer, &mut is_src);
        proof {
            assert forall|w: int| 0 <= w < p implies #[trigger] is_src@[w] == is_dependency(
                nodes@,
                w,
                p as int,
            ) by {
                let nd = nodes@[p as int];
                if is_src@[w] {
                    if exists|j: int|
                        0 <= j < nd.reads@.len() && last_writer_before(nodes@, p as int, nd.reads@[j])
                            == Some(w as usize) {
                        let j = choose|j: int|
                            0 <= j < nd.reads@.len() && last_writer_before(
                                nodes@,
                                p as int,
                                nd.reads@[j],
                            ) == Some(w as usize);
                        assert(nd.reads@.contains(nd.reads@[j]));
                        assert(nd.reads_resource(nd.reads@[j]));
                    } else {
                        let j = choose|j: int|
                            0 <= j < nd.reads_writes@.len() && last_writer_before(
                                nodes@,
                                p as int,
                                nd.reads_writes@[j],
                            ) == Some(w as usize);
                        assert(nd.reads_writes@.contains(nd.reads_writes@[j]));
                        assert(nd.reads_resource(nd.reads_writes@[j]));
                    }
                }
                if is_dependency(nodes@, w, p as int) {
                    let r = choose|r: ResourceId|
                        nd.reads_resource(r) && #[trigger] last_writer_before(nodes@, p as int, r)
                            == Some(w as usize);
                    if nd.reads@.contains(r) {
                        let j = choose|j: int| 0 <= j < nd.reads@.len() && nd.reads@[j] == r;
                        assert(after_reads[w]);
                    } else {
                        let j = choose|j: int|
                            0 <= j < nd.reads_writes@.len() && nd.reads_writes@[j] == r;
                        assert(last_writer_before(nodes@, p as int, nd.reads_writes@[j]) == Some(
                            w as usize,
                        ));
                    }
                }
            }
        }
        let mut w: usize = 0;
        while w < p
            invariant
                w <= p,
                p < n,
                n == nodes@.len(),
                n < usize::MAX,
                is_src@.len() == p,
                forall|v: int| 0 <= v < p ==> #[trigger] is_src@[v] == is_dependency(nodes@, v, p as int),
                edges@ == dependency_edges(nodes@, p as int) + edges_into(nodes@, p as int, w as int),
            decreases p - w,
        {
            if is_src[w] {
                edges.push((w, p));
            }
            proof {
                assert(edges_into(nodes@, p as int, w + 1) == if is_dependency(nodes@, w as int, p as int) {
                    edges_into(nodes@, p as int, w as int).push((w, p))
                } else {
                    edges_into(nodes@, p as int, w as int)
                });
                assert(edges@ =~= dependency_edges(nodes@, p as int) + edges_into(nodes@, p as int, w + 1));
            }
            w = w + 1;
        }
        proof {
            assert(dependency_edges(nodes@, p + 1) == dependency_edges(nodes@, p as int) + edges_into(
                nodes@,
                p as int,
                p as int,
            ));
        }
        let ghost before = last_writer@;
        note_writer(p, &node.writes, &mut last_writer);
        let ghost mid = last_writer@;
        note_writer(p, &node.reads_writes, &mut last_writer);
        proof {
            assert forall|id: ResourceId| id.index() < nres implies #[trigger] last_writer@[id.index()]
                == last_writer_before(nodes@, p + 1, id) by {
                let nd = nodes@[p as int];
                let k = id.index();
                if nd.writes@.contains(id) {
                    let j = choose|j: int| 0 <= j < nd.writes@.len() && nd.writes@[j] == id;
                    assert(nd.writes@[j].index() == k);
                    assert(mid[k] == Some(p));
                    if exists|j: int| 0 <= j < nd.reads_writes@.len() && nd.reads_writes@[j].index() == k {
                    }
                } else if nd.reads_writes@.contains(id) {
                    let j = choose|j: int| 0 <= j < nd.reads_writes@.len() && nd.reads_writes@[j] == id;
                    assert(nd.reads_writes@[j].index() == k);
                } else {
                    if exists|j: int| 0 <= j < nd.writes@.len() && nd.writes@[j].index() == k {
                        let j = choose|j: int| 0 <= j < nd.writes@.len() && nd.writes@[j].index() == k;
                        assert(nd.writes@[j] == id);
                    }
                    if exists|j: int| 0 <= j < nd.reads_writes@.len() && nd.reads_writes@[j].index() == k {
                        let j = choose|j: int|
                            0 <= j < nd.reads_writes@.len() && nd.reads_writes@[j].index() == k;
                        assert(nd.reads_writes@[j] == id);
                    }
                }
            }
        }
        p = p + 1;
    }
    edges
}

proof fn lemma_walk_rises(edges: Seq<(usize, usize)>, p: Seq<usize>, k: int)
    requires
        is_walk(edges, p),
        1 <= k < p.len(),
        forall|e: (usize, usize)| #[trigger] edges.contains(e) ==> e.0 < e.1,
    ensures
        p[0] < p[k],
    decreases k,
{
    assert(edges.contains((p[k - 1], p[k])));
    if k > 1 {
        lemma_walk_rises(edges, p, k - 1);
    }
}

/// A graph whose edges all lead from a lower index to a higher one has no cycle.
pub proof fn lemma_forward_edges_acyclic(edges: Seq<(usize, usize)>)
    requires
        forall|e: (usize, usize)| #[trigger] edges.contains(e) ==> e.0 < e.1,
    ensures
        !has_cycle(edges),
{
    if has_cycle(edges) {
        let p = choose|p: Seq<usize>| is_walk(edges, p) && p.len() >= 2 && p[0] == p.last();
        lemma_walk_rises(edges, p, p.len() - 1);
    }
}

} // verus!
