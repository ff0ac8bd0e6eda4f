use vstd::prelude::*;

use crate::aliasing::{
    compute_resource_aliasing, first_use, first_use_order, greedy_plan, lemma_plan_kinds, lemma_plan_same_slots, plan_sound, resident_ok, PoolSlot,
    ResourceAliasingInfo,
};
use crate::deps::{
    build_dependency_edges, dependency_edges, lemma_dependency_edges_contains, lemma_forward_edges_acyclic, nodes_wf,
    GraphNode,
};
use crate::digraph::{build_graph, is_topological_order, toposort, toposort_of};
use crate::error::RenderGraphError;
use crate::gpu::StoreOp;
use crate::resources::{
    RenderGraphResources, ResourceDescriptor, ResourceHandle, ResourceId, ResourceType, ResourcesView,
};
use crate::schedule::{
    any_needed, pass_at, compute_dead_passes, compute_store_ops, lemma_schedule_kinds, lemma_schedule_same_kinds, live_at, store_op_of,
};
use crate::slots::{all_mapped, resolve_slots, resolved};
use crate::validate::{graph_valid, validate_graph, validation_error};

verus! {

/// The pool slot that a transient handle views.
pub open spec fn handle_pool(h: Option<ResourceHandle>) -> Option<usize> {
    match h {
        Some(ResourceHandle::TransientTexture { pool, .. }) => Some(pool),
        Some(ResourceHandle::TransientBuffer { pool }) => Some(pool),
        _ => None,
    }
}

/// Abstract state of a render graph.
pub struct GraphView {
    pub nodes: Seq<GraphNode>,
    pub resources: ResourcesView,
    pub edges: Seq<(usize, usize)>,
    pub order: Seq<usize>,
    pub culled: Seq<bool>,
    pub store_ops: Seq<StoreOp>,
    pub aliases: Option<(Seq<Option<usize>>, Seq<PoolSlot>)>,
    pub needs_recompile: bool,
    pub needs_reallocation: bool,
    pub recorded_versions: Seq<u64>,
}

/// The pass indices `0..n`, the nodes of the dependency graph.
pub open spec fn node_indices(n: nat) -> Seq<usize> {
    Seq::new(n, |i: int| i as usize)
}

impl GraphView {
    /// Edges, order, culling and store operations are those the passes and
    /// resources determine.
    pub open spec fn compiled(self) -> bool {
        let n = self.nodes.len();
        let kinds = self.resources.kinds();
        &&& self.edges == dependency_edges(self.nodes, n as int)
        &&& toposort_of(node_indices(n), self.edges) == Some(self.order)
        &&& is_topological_order(n, self.edges, self.order)
        &&& self.culled.len() == n
        &&& forall|k: int|
            0 <= k < self.order.len() ==> self.culled[#[trigger] self.order[k] as int] == !live_at(
                self.nodes,
                kinds,
                self.order,
                k,
            )
        &&& self.store_ops.len() == self.resources.len()
        &&& forall|id: ResourceId|
            id.index() < self.resources.len() ==> #[trigger] self.store_ops[id.index()] == store_op_of(
                self.nodes,
                kinds,
                self.order,
                id,
            )
    }

    /// The aliasing plan is present, sound, and gives a slot to exactly the
    /// transient resources that live passes use.
    pub open spec fn planned(self) -> bool {
        &&& self.aliases is Some
        &&& plan_sound(
            self.nodes,
            self.resources.kinds(),
            self.order,
            self.culled,
            self.aliases.unwrap().0,
            self.aliases.unwrap().1,
        )
        &&& forall|id: ResourceId|
            id.index() < self.resources.len() ==> ((#[trigger] self.aliases.unwrap().0[id.index()]) is Some
                <==> !self.resources.is_external(id) && first_use(self.nodes, self.order, self.culled, id) is Some)
    }

    /// Every transient handle views the slot that the current plan gives its resource.
    pub open spec fn handles_follow_plan(self) -> bool {
        forall|i: int|
            0 <= i < self.resources.len() && (#[trigger] handle_pool(self.resources.handles[i])) is Some ==> {
                &&& self.aliases is Some
                &&& self.aliases.unwrap().0[i] == handle_pool(self.resources.handles[i])
                &&& handle_pool(self.resources.handles[i]).unwrap() < self.aliases.unwrap().1.len()
            }
    }

    /// Nothing is left for a frame to do: the graph is compiled and planned,
    /// every slot exists, every planned transient is bound, external textures
    /// carry the scheduled store operation and every version is recorded.
    pub open spec fn steady(self) -> bool {
        &&& !self.needs_recompile
        &&& !self.needs_reallocation
        &&& self.aliases is Some
        &&& forall|p: int| 0 <= p < self.aliases.unwrap().1.len() ==> (#[trigger] self.aliases.unwrap().1[p]).materialized
        &&& forall|id: ResourceId|
            id.index() < self.resources.len() ==> !#[trigger] crate::graph::newly_bound(self, id)
        &&& forall|i: int|
            0 <= i < self.resources.len() ==> ((#[trigger] self.resources.handles[i]) matches Some(
                ResourceHandle::ExternalTexture { store_op },
            ) ==> store_op == self.store_ops[i])
        &&& self.recorded_versions == self.resources.versions
        &&& forall|id: ResourceId| !#[trigger] crate::graph::unbound_external(self, id)
    }

    /// While compiled, transient texture handles carry the scheduled store operation.
    pub open spec fn transient_ops_current(self) -> bool {
        !self.needs_recompile ==> forall|i: int|
            0 <= i < self.resources.len() ==> ((#[trigger] self.resources.handles[i]) matches Some(
                ResourceHandle::TransientTexture { store_op, .. },
            ) ==> store_op == self.store_ops[i])
    }

    pub open spec fn wf(self) -> bool {
        &&& self.transient_ops_current()
        &&& self.resources.wf()
        &&& nodes_wf(self.nodes, self.resources.len())
        &&& self.recorded_versions.len() == self.resources.len()
        &&& !self.needs_recompile ==> self.compiled()
        &&& !self.needs_recompile && !self.needs_reallocation ==> self.planned()
        &&& self.handles_follow_plan()
    }
}

/// A render graph: resources, passes bound to them, and what compiling
/// derives from both.
pub struct RenderGraph {
    nodes: Vec<GraphNode>,
    resources: RenderGraphResources,
    edges: Vec<(usize, usize)>,
    execution_order: Vec<usize>,
    culled: Vec<bool>,
    store_ops: Vec<StoreOp>,
    aliasing_info: Option<ResourceAliasingInfo>,
    needs_recompile: bool,
    needs_resource_reallocation: bool,
    resource_versions: Vec<u64>,
}

impl View for RenderGraph {
    type V = GraphView;

    closed spec fn view(&self) -> GraphView {
        GraphView {
            nodes: self.nodes@,
            resources: self.resources@,
            edges: self.edges@,
            order: self.execution_order@,
            culled: self.culled@,
            store_ops: self.store_ops@,
            aliases: match self.aliasing_info {
                Some(info) => Some((info.aliases@, info.pools@)),
                None => None,
            },
            needs_recompile: self.needs_recompile,
            needs_reallocation: self.needs_resource_reallocation,
            recorded_versions: self.resource_versions@,
        }
    }
}

impl RenderGraph {
    pub fn new() -> (g: Self)
        ensures
            g@.wf(),
            g@.nodes.len() == 0,
            g@.resources.len() == 0,
            g@.needs_recompile,
            g@.aliases is None,
    {
        RenderGraph {
            nodes: Vec::new(),
            resources: RenderGraphResources::new(),
            edges: Vec::new(),
            execution_order: Vec::new(),
            culled: Vec::new(),
            store_ops: Vec::new(),
            aliasing_info: None,
            needs_recompile: true,
            needs_resource_reallocation: false,
            resource_versions: Vec::new(),
        }
    }

    pub fn resources(&self) -> (r: &RenderGraphResources)
        ensures
            r@ == self@.resources,
    {
        &self.resources
    }

    /// The passes, in registration order.
    pub fn nodes(&self) -> (r: &Vec<GraphNode>)
        ensures
            r@ == self@.nodes,
    {
        &self.nodes
    }

    /// The execution order of the last successful compile, as pass indices.
    pub fn execution_order(&self) -> (r: &Vec<usize>)
        ensures
            r@ == self@.order,
    {
        &self.execution_order
    }

    /// Per pass index, whether the pass is culled.
    pub fn culled_passes(&self) -> (r: &Vec<bool>)
        ensures
            r@ == self@.culled,
    {
        &self.culled
    }

    /// The store operation of every resource, indexed by id.
    pub fn store_ops(&self) -> (r: &Vec<StoreOp>)
        ensures
            r@ == self@.store_ops,
    {
        &self.store_ops
    }

    /// The current aliasing plan.
    pub fn aliasing_info(&self) -> (r: Option<&ResourceAliasingInfo>)
        ensures
            r matches Some(i) ==> self@.aliases == Some((i.aliases@, i.pools@)),
            r is None ==> self@.aliases is None,
    {
        match &self.aliasing_info {
            Some(i) => Some(i),
            None => None,
        }
    }

    /// Whether the next frame compiles first.
    pub fn needs_recompile(&self) -> (r: bool)
        ensures
            r == self@.needs_recompile,
    {
        self.needs_recompile
    }

    fn register(&mut self, name: String, resource_type: ResourceType) -> (r: ResourceId)
        requires
            old(self)@.wf(),
            old(self)@.resources.len() < u32::MAX,
        ensures
            final(self)@.wf(),
            r.index() == old(self)@.resources.len(),
            final(self)@.resources.descriptors == old(self)@.resources.descriptors.push(
                crate::resources::ResourceDescriptor {
                    name,
                    resource_type,
                    is_external: resource_type.is_external_kind(),
                },
            ),
            final(self)@.resources.handles == old(self)@.resources.handles.push(None),
            final(self)@.resources.versions == old(self)@.resources.versions.push(0),
            final(self)@.nodes == old(self)@.nodes,
            final(self)@.needs_recompile,
    {
        let external = match resource_type {
            ResourceType::ExternalColor { .. } | ResourceType::ExternalDepth { .. } | ResourceType::ExternalBuffer => true,
            _ => false,
        };
        let id = if external {
            self.resources.register_external_resource(name, resource_type)
        } else {
            self.resources.register_transient_resource(name, resource_type)
        };
        self.resource_versions.push(0);
        self.needs_recompile = true;
        proof {
            let v = self@;
            assert forall|i: int| 0 <= i < v.nodes.len() implies (#[trigger] v.nodes[i]).ids_below(v.resources.len()) by {
                assert(old(self)@.nodes[i].ids_below(old(self)@.resources.len()));
            }
            assert forall|i: int|
                0 <= i < v.resources.len() && (#[trigger] handle_pool(v.resources.handles[i])) is Some implies {
                    &&& v.aliases is Some
                    &&& v.aliases.unwrap().0[i] == handle_pool(v.resources.handles[i])
                    &&& handle_pool(v.resources.handles[i]).unwrap() < v.aliases.unwrap().1.len()
                } by {
                assert(v.resources.handles[i] == old(self)@.resources.handles[i]);
            }
        }
        id
    }

    /// Registers a resource that the caller binds each frame (an external
    /// colour or depth texture, or buffer).
    pub fn register_external_resource(&mut self, name: String, resource_type: ResourceType) -> (r: ResourceId)
        requires
            old(self)@.wf(),
            old(self)@.resources.len() < u32::MAX,
            resource_type.is_external_kind(),
        ensures
            final(self)@.wf(),
            r.index() == old(self)@.resources.len(),
            final(self)@.resources.descriptors == old(self)@.resources.descriptors.push(
                crate::resources::ResourceDescriptor { name, resource_type, is_external: true },
            ),
            final(self)@.resources.handles == old(self)@.resources.handles.push(None),
            final(self)@.nodes == old(self)@.nodes,
            final(self)@.needs_recompile,
    {
        self.register(name, resource_type)
    }

    /// Registers a resource that the graph allocates from its aliasing pool.
    pub fn register_transient_resource(&mut self, name: String, resource_type: ResourceType) -> (r: ResourceId)
        requires
            old(self)@.wf(),
            old(self)@.resources.len() < u32::MAX,
            !resource_type.is_external_kind(),
        ensures
            final(self)@.wf(),
            r.index() == old(self)@.resources.len(),
            final(self)@.resources.descriptors == old(self)@.resources.descriptors.push(
                crate::resources::ResourceDescriptor { name, resource_type, is_external: false },
            ),
            final(self)@.resources.handles == old(self)@.resources.handles.push(None),
            final(self)@.nodes == old(self)@.nodes,
            final(self)@.needs_recompile,
    {
        self.register(name, resource_type)
    }

    /// Binds the caller's texture view to the external texture `id`.
    pub fn set_external_texture(&mut self, id: ResourceId) -> (r: Result<(), RenderGraphError>)
        requires
            old(self)@.wf(),
        ensures
            final(self)@.wf(),
            r is Ok <==> old(self)@.resources.contains(id) && (old(self)@.resources.kind(id) is ExternalColor || old(
                self,
            )@.resources.kind(id) is ExternalDepth),
            r is Ok ==> final(self)@ == (GraphView {
                resources: old(self)@.resources.rebound(id, ResourceHandle::ExternalTexture { store_op: StoreOp::Store }),
                ..old(self)@
            }),
            r is Err ==> final(self)@ == old(self)@,
    {
        let r = self.resources.set_external_texture(id);
        proof {
            let v = self@;
            assert(v.resources.kinds() == old(self)@.resources.kinds());
            assert forall|i: int|
                0 <= i < v.resources.len() && (#[trigger] handle_pool(v.resources.handles[i])) is Some implies {
                    &&& v.aliases is Some
                    &&& v.aliases.unwrap().0[i] == handle_pool(v.resources.handles[i])
                    &&& handle_pool(v.resources.handles[i]).unwrap() < v.aliases.unwrap().1.len()
                } by {
                assert(i != id.index() || r is Err);
                assert(v.resources.handles[i] == old(self)@.resources.handles[i]);
            }
        }
        r
    }

    /// Binds the caller's buffer to the external buffer `id`.
    pub fn set_external_buffer(&mut self, id: ResourceId) -> (r: Result<(), RenderGraphError>)
        requires
            old(self)@.wf(),
        ensures
            final(self)@.wf(),
            r is Ok <==> old(self)@.resources.contains(id) && old(self)@.resources.kind(id) is ExternalBuffer,
            r is Ok ==> final(self)@ == (GraphView {
                resources: old(self)@.resources.rebound(id, ResourceHandle::ExternalBuffer),
                ..old(self)@
            }),
            r is Err ==> final(self)@ == old(self)@,
    {
        let r = self.resources.set_external_buffer(id);
        proof {
            let v = self@;
            assert(v.resources.kinds() == old(self)@.resources.kinds());
            assert forall|i: int|
                0 <= i < v.resources.len() && (#[trigger] handle_pool(v.resources.handles[i])) is Some implies {
                    &&& v.aliases is Some
                    &&& v.aliases.unwrap().0[i] == handle_pool(v.resources.handles[i])
                    &&& handle_pool(v.resources.handles[i]).unwrap() < v.aliases.unwrap().1.len()
                } by {
                assert(i != id.index() || r is Err);
                assert(v.resources.handles[i] == old(self)@.resources.handles[i]);
            }
        }
        r
    }

    /// Adds a pass named `name` whose declared read, write and read-write
    /// slots are bound to resources through `slot_mappings` (a later entry
    /// for a slot overrides an earlier one). Fails when a declared slot has
    /// no entry, or when an entry names an unregistered resource.
    pub fn add_pass(
        &mut self,
        name: String,
        reads: &Vec<String>,
        writes: &Vec<String>,
        reads_writes: &Vec<String>,
        slot_mappings: Vec<(String, ResourceId)>,
    ) -> (r: Result<usize, RenderGraphError>)
        requires
            old(self)@.wf(),
            old(self)@.nodes.len() < usize::MAX - 1,
        ensures
            final(self)@.wf(),
            r is Ok <==> all_mapped(slot_mappings@, reads@) && all_mapped(slot_mappings@, writes@) && all_mapped(
                slot_mappings@,
                reads_writes@,
            ) && mappings_registered(slot_mappings@, old(self)@.resources.len()),
            !(all_mapped(slot_mappings@, reads@) && all_mapped(slot_mappings@, writes@) && all_mapped(
                slot_mappings@,
                reads_writes@,
            )) ==> r matches Err(RenderGraphError::SlotNotMapped { .. }),
            r matches Err(RenderGraphError::SlotNotMapped { pass, slot }) ==> pass@ == name@ && (slot_unmapped(
                slot_mappings@,
                reads@,
                slot@,
            ) || slot_unmapped(slot_mappings@, writes@, slot@) || slot_unmapped(slot_mappings@, reads_writes@, slot@)),
            r matches Err(RenderGraphError::ResourceNotFound { id, .. }) ==> all_mapped(slot_mappings@, reads@)
                && all_mapped(slot_mappings@, writes@) && all_mapped(slot_mappings@, reads_writes@) && exists|j: int|
                0 <= j < slot_mappings@.len() && (#[trigger] slot_mappings@[j]).1 == id && id.index() >= old(
                    self,
                )@.resources.len(),
            r matches Err(e) ==> e is SlotNotMapped || e is ResourceNotFound,
            r is Err ==> final(self)@ == old(self)@,
            r matches Ok(i) ==> {
                &&& i == old(self)@.nodes.len()
                &&& final(self)@.nodes.len() == i + 1
                &&& final(self)@.nodes.take(i as int) == old(self)@.nodes
                &&& final(self)@.nodes[i as int].name@ == name@
                &&& final(self)@.nodes[i as int].reads@ == resolved(slot_mappings@, reads@)
                &&& final(self)@.nodes[i as int].writes@ == resolved(slot_mappings@, writes@)
                &&& final(self)@.nodes[i as int].reads_writes@ == resolved(slot_mappings@, reads_writes@)
                &&& final(self)@.nodes[i as int].slot_mappings@ == slot_mappings@
                &&& final(self)@.resources == old(self)@.resources
                &&& final(self)@.needs_recompile
            },
    {
        let r_ids = resolve_slots(&slot_mappings, reads, &name)?;
        let w_ids = resolve_slots(&slot_mappings, writes, &name)?;
        let rw_ids = resolve_slots(&slot_mappings, reads_writes, &name)?;
        let nres = self.resources.len();
        let mut k: usize = 0;
        while k < slot_mappings.len()
            invariant
                k <= slot_mappings@.len(),
                self@ == old(self)@,
                old(self)@.wf(),
                nres == old(self)@.resources.len(),
                all_mapped(slot_mappings@, reads@),
                all_mapped(slot_mappings@, writes@),
                all_mapped(slot_mappings@, reads_writes@),
                forall|j: int| 0 <= j < k ==> (#[trigger] slot_mappings@[j]).1.index() < nres,
            decreases slot_mappings@.len() - k,
        {
            let id = slot_mappings[k].1;
            if (id.0 as usize) >= nres {
                proof {
                    assert(!mappings_registered(slot_mappings@, nres as int)) by {
                        assert(slot_mappings@[k as int].1.index() >= nres);
                    }
                }
                return Err(RenderGraphError::ResourceNotFound { resource: slot_mappings[k].0.clone(), id });
            }
            k = k + 1;
        }
        proof {
            lemma_resolved_registered(slot_mappings@, reads@, nres as int);
            lemma_resolved_registered(slot_mappings@, writes@, nres as int);
            lemma_resolved_registered(slot_mappings@, reads_writes@, nres as int);
        }
        let index = self.nodes.len();
        self.nodes.push(
            GraphNode { name, reads: r_ids, writes: w_ids, reads_writes: rw_ids, slot_mappings },
        );
        self.needs_recompile = true;
        proof {
            let v = self@;
            assert(v.nodes.take(index as int) =~= old(self)@.nodes);
            assert forall|i: int| 0 <= i < v.nodes.len() implies (#[trigger] v.nodes[i]).ids_below(v.resources.len()) by {
                if i < index {
                    assert(v.nodes[i] == old(self)@.nodes[i]);
                }
            }
        }
        Ok(index)
    }

    /// Removes the latest pass registered under `name` and returns its
    /// index; the passes after it move down by one. The next frame compiles
    /// again.
    pub fn remove_pass(&mut self, name: &String) -> (r: Option<usize>)
        requires
            old(self)@.wf(),
        ensures
            final(self)@.wf(),
            r matches Some(i) ==> {
                &&& i < old(self)@.nodes.len()
                &&& old(self)@.nodes[i as int].name@ == name@
                &&& forall|j: int| i < j < old(self)@.nodes.len() ==> (#[trigger] old(self)@.nodes[j]).name@ != name@
                &&& final(self)@.nodes == old(self)@.nodes.remove(i as int)
                &&& final(self)@.resources == old(self)@.resources
                &&& final(self)@.needs_recompile
            },
            r is None ==> final(self)@ == old(self)@ && forall|j: int|
                0 <= j < old(self)@.nodes.len() ==> (#[trigger] old(self)@.nodes[j]).name@ != name@,
    {
        let mut i: usize = self.nodes.len();
        while i > 0
            invariant
                i <= self@.nodes.len(),
                self@ == old(self)@,
                old(self)@.wf(),
                forall|j: int| i <= j < self@.nodes.len() ==> (#[trigger] self@.nodes[j]).name@ != name@,
            decreases i,
        {
            if self.nodes[i - 1].name == *name {
                let index = i - 1;
                self.nodes.remove(index);
                self.needs_recompile = true;
                proof {
                    let v = self@;
                    assert forall|k: int| 0 <= k < v.nodes.len() implies (#[trigger] v.nodes[k]).ids_below(v.resources.len()) by {
                        if k < index {
                            assert(v.nodes[k] == old(self)@.nodes[k]);
                        } else {
                            assert(v.nodes[k] == old(self)@.nodes[k + 1]);
                        }
                    }
                }
                return Some(index);
            }
            i = i - 1;
        }
        None
    }

    /// Checks the graph without compiling it: no transient resource is read
    /// without being written, and every two writers of a resource are
    /// ordered by a path of dependencies.
    pub fn validate(&self) -> (r: Result<(), RenderGraphError>)
        requires
            self@.wf(),
        ensures
            r is Ok <==> graph_valid(self@.nodes, self@.resources, dependency_edges(self@.nodes, self@.nodes.len() as int)),
            r matches Err(e) ==> validation_error(
                self@.nodes,
                self@.resources,
                dependency_edges(self@.nodes, self@.nodes.len() as int),
                e,
            ),
    {
        let n = self.nodes.len();
        let edges = build_dependency_edges(&self.nodes, self.resources.len());
        proof {
            lemma_dependency_edges_contains(self.nodes@, n as int);
            assert forall|k: int| 0 <= k < edges@.len() implies (#[trigger] edges@[k]).0 < n && edges@[k].1 < n by {
                assert(edges@.contains(edges@[k]));
            }
        }
        let g = build_graph(n, &edges);
        validate_graph(&self.nodes, &self.resources, &g)
    }

    /// The names of the passes in execution order.
    pub fn execution_order_names(&self) -> (names: Vec<String>)
        requires
            self@.wf(),
            !self@.needs_recompile,
        ensures
            names@.len() == self@.order.len(),
            forall|k: int| 0 <= k < names@.len() ==> (#[trigger] names@[k])@ == self@.nodes[self@.order[k] as int].name@,
    {
        let ghost v = self@;
        let mut names: Vec<String> = Vec::new();
        let mut k: usize = 0;
        while k < self.execution_order.len()
            invariant
                k <= v.order.len(),
                v == self@,
                v.wf(),
                !v.needs_recompile,
                names@.len() == k,
                forall|j: int| 0 <= j < k ==> (#[trigger] names@[j])@ == v.nodes[v.order[j] as int].name@,
            decreases v.order.len() - k,
        {
            let p = self.execution_order[k];
            proof {
                assert(v.order.contains(p)) by {
                    assert(v.order[k as int] == p);
                }
            }
            names.push(self.nodes[p].name.clone());
            k = k + 1;
        }
        names
    }

    /// Derives the dependency edges, validates the graph, orders the passes
    /// with petgraph's topological sort, culls dead passes, infers store
    /// operations and plans transient aliasing. Transient handles are dropped
    /// so that the next frame binds them to the new plan. On failure no
    /// execution order is kept and the next frame compiles again.
    pub fn compile(&mut self) -> (r: Result<(), RenderGraphError>)
        requires
            old(self)@.wf(),
        ensures
            final(self)@.wf(),
            final(self)@.nodes == old(self)@.nodes,
            final(self)@.resources.descriptors == old(self)@.resources.descriptors,
            final(self)@.resources.versions == old(self)@.resources.versions,
            final(self)@.recorded_versions == old(self)@.recorded_versions,
            r is Ok <==> graph_valid(
                old(self)@.nodes,
                old(self)@.resources,
                dependency_edges(old(self)@.nodes, old(self)@.nodes.len() as int),
            ),
            r matches Err(e) ==> validation_error(
                old(self)@.nodes,
                old(self)@.resources,
                dependency_edges(old(self)@.nodes, old(self)@.nodes.len() as int),
                e,
            ),
            r is Err ==> final(self)@.needs_recompile && final(self)@.order.len() == 0
                && final(self)@.resources == old(self)@.resources,
            r is Ok ==> {
                &&& !final(self)@.needs_recompile
                &&& !final(self)@.needs_reallocation
                &&& final(self)@.compiled()
                &&& final(self)@.planned()
                &&& forall|p: int| 0 <= p < final(self)@.aliases.unwrap().1.len() ==> !(#[trigger] final(self)@.aliases.unwrap().1[p]).materialized
                &&& exists|list: Seq<ResourceId>|
                    first_use_order(old(self)@.nodes, old(self)@.resources, final(self)@.order, final(self)@.culled, list)
                        && final(self)@.aliases == Some(
                        greedy_plan(
                            old(self)@.nodes,
                            old(self)@.resources,
                            final(self)@.order,
                            final(self)@.culled,
                            list,
                            list.len() as int,
                        ),
                    )
                &&& forall|i: int| 0 <= i < old(self)@.resources.len() ==> #[trigger] final(self)@.resources.handles[i] == if old(self)@.resources.descriptors[i].is_external {
                    old(self)@.resources.handles[i]
                } else {
                    None
                }
            },
    {
        let n = self.nodes.len();
        let nres = self.resources.len();
        let edges = build_dependency_edges(&self.nodes, nres);
        proof {
            lemma_dependency_edges_contains(self.nodes@, n as int);
            assert forall|k: int| 0 <= k < edges@.len() implies (#[trigger] edges@[k]).0 < n && edges@[k].1 < n by {
                assert(edges@.contains(edges@[k]));
            }
        }
        let g = build_graph(n, &edges);
        match validate_graph(&self.nodes, &self.resources, &g) {
            Err(e) => {
                self.execution_order = Vec::new();
                self.needs_recompile = true;
                return Err(e);
            },
            Ok(()) => {},
        }
        let order = match toposort(&g) {
            Some(o) => o,
            None => {
                proof {
                    assert forall|e: (usize, usize)| #[trigger] edges@.contains(e) implies e.0 < e.1 by {}
                    lemma_forward_edges_acyclic(edges@);
                }
                self.execution_order = Vec::new();
                self.needs_recompile = true;
                return Err(RenderGraphError::CyclicDependency);
            },
        };
        proof {
            assert(node_indices(n as nat) =~= Seq::new(n as nat, |i: int| i as usize));
        }
        let culled = compute_dead_passes(&self.nodes, &self.resources, &order);
        let store_ops = compute_store_ops(&self.nodes, &self.resources, &order);
        let info = compute_resource_aliasing(&self.nodes, &self.resources, &order, &culled);
        proof {
            lemma_schedule_kinds(self.nodes@, self.resources@, order@);
            lemma_plan_kinds(self.nodes@, self.resources@, order@, culled@, info.aliases@, info.pools@);
        }
        self.resources.clear_transient_handles();
        self.edges = edges;
        self.execution_order = order;
        self.culled = culled;
        self.store_ops = store_ops;
        self.aliasing_info = Some(info);
        self.needs_recompile = false;
        self.needs_resource_reallocation = false;
        proof {
            let v = self@;
            assert(v.resources.kinds() == old(self)@.resources.kinds());
            assert forall|i: int|
                0 <= i < v.resources.len() && (#[trigger] handle_pool(v.resources.handles[i])) is Some implies {
                    &&& v.aliases is Some
                    &&& v.aliases.unwrap().0[i] == handle_pool(v.resources.handles[i])
                    &&& handle_pool(v.resources.handles[i]).unwrap() < v.aliases.unwrap().1.len()
                } by {
                assert(old(self)@.resources.descriptors[i].wf());
                if old(self)@.resources.handles[i] is Some {
                    assert(old(self)@.resources.handles[i].unwrap().fits(old(self)@.resources.descriptors[i].resource_type));
                }
            }
            assert forall|i: int| 0 <= i < v.resources.len() implies ((#[trigger] v.resources.handles[i]) matches Some(
                ResourceHandle::TransientTexture { store_op, .. },
            ) ==> store_op == v.store_ops[i]) by {
                assert(old(self)@.resources.descriptors[i].wf());
                if old(self)@.resources.handles[i] is Some {
                    assert(old(self)@.resources.handles[i].unwrap().fits(old(self)@.resources.descriptors[i].resource_type));
                }
            }
        }
        Ok(())
    }

    /// Gives the transient texture `id` a new size. Only its descriptor
    /// changes here; the aliasing plan and every transient handle are
    /// dropped, so the next frame plans and binds transients again.
    pub fn resize_transient_resource(&mut self, id: ResourceId, width: u32, height: u32) -> (r: Result<(), RenderGraphError>)
        requires
            old(self)@.wf(),
        ensures
            final(self)@.wf(),
            r is Ok <==> old(self)@.resources.contains(id) && old(self)@.resources.kind(id).texture_descriptor() is Some,
            r is Err ==> final(self)@ == old(self)@,
            !old(self)@.resources.contains(id) ==> (r matches Err(RenderGraphError::ResourceNotFound { id: e, .. })
                && e == id),
            old(self)@.resources.is_external(id) ==> (r matches Err(RenderGraphError::CannotResizeExternal { resource })
                && resource@ == old(self)@.resources.name(id)),
            old(self)@.resources.contains(id) && old(self)@.resources.kind(id) is TransientBuffer ==> (r matches Err(
                RenderGraphError::CannotResizeBuffer { resource },
            ) && resource@ == old(self)@.resources.name(id)),
            r is Ok ==> {
                &&& final(self)@.resources.descriptors == old(self)@.resources.descriptors.update(
                    id.index(),
                    crate::resources::ResourceDescriptor {
                        name: old(self)@.resources.descriptors[id.index()].name,
                        resource_type: crate::resources::resized(old(self)@.resources.kind(id), width, height),
                        is_external: false,
                    },
                )
                &&& final(self)@.aliases is None
                &&& final(self)@.needs_reallocation
                &&& final(self)@.needs_recompile == old(self)@.needs_recompile
                &&& final(self)@.nodes == old(self)@.nodes
                &&& final(self)@.order == old(self)@.order
                &&& final(self)@.store_ops == old(self)@.store_ops
                &&& final(self)@.culled == old(self)@.culled
                &&& final(self)@.resources.versions == old(self)@.resources.versions
                &&& forall|i: int| 0 <= i < old(self)@.resources.len() ==> #[trigger] final(self)@.resources.handles[i] == if old(self)@.resources.descriptors[i].is_external {
                    old(self)@.resources.handles[i]
                } else {
                    None
                }
            },
    {
        let r = self.resources.update_transient_descriptor(id, width, height);
        if r.is_err() {
            return r;
        }
        let ghost mid = self.resources@;
        self.resources.clear_transient_handles();
        self.aliasing_info = None;
        self.needs_resource_reallocation = true;
        proof {
            let v = self@;
            let o = old(self)@;
            assert(v.resources.kinds().same_kinds(o.resources.kinds()));
            lemma_schedule_same_kinds(v.nodes, v.resources.kinds(), o.resources.kinds(), v.order);
            assert forall|i: int| 0 <= i < v.nodes.len() implies (#[trigger] v.nodes[i]).ids_below(v.resources.len()) by {
                assert(o.nodes[i].ids_below(o.resources.len()));
            }
            assert forall|i: int|
                0 <= i < v.resources.len() && (#[trigger] handle_pool(v.resources.handles[i])) is Some implies {
                    &&& v.aliases is Some
                    &&& v.aliases.unwrap().0[i] == handle_pool(v.resources.handles[i])
                    &&& handle_pool(v.resources.handles[i]).unwrap() < v.aliases.unwrap().1.len()
                } by {
                assert(mid.descriptors[i].wf());
                if mid.handles[i] is Some {
                    assert(mid.handles[i].unwrap().fits(mid.descriptors[i].resource_type));
                }
            }
            if !v.needs_recompile {
                assert forall|k: int| 0 <= k < v.order.len() implies v.culled[#[trigger] v.order[k] as int] == !live_at(v.nodes, v.resources.kinds(), v.order, k) by {
                    assert(o.culled[o.order[k] as int] == !live_at(o.nodes, o.resources.kinds(), o.order, k));
                }
                assert forall|q: ResourceId| q.index() < v.resources.len() implies #[trigger] v.store_ops[q.index()] == store_op_of(v.nodes, v.resources.kinds(), v.order, q) by {
                    assert(o.store_ops[q.index()] == store_op_of(o.nodes, o.resources.kinds(), o.order, q));
                }
            }
        }
        Ok(())
    }

    /// Compiles when the graph changed, or re-plans aliasing after a resize;
    /// a clean graph is left as it is.
    fn ensure_planned(&mut self) -> (r: Result<(), RenderGraphError>)
        requires
            old(self)@.wf(),
        ensures
            final(self)@.wf(),
            final(self)@.nodes == old(self)@.nodes,
            final(self)@.resources.descriptors == old(self)@.resources.descriptors,
            final(self)@.resources.versions == old(self)@.resources.versions,
            final(self)@.recorded_versions == old(self)@.recorded_versions,
            r is Ok ==> !final(self)@.needs_recompile && !final(self)@.needs_reallocation,
            !old(self)@.needs_recompile && !old(self)@.needs_reallocation ==> r is Ok && final(self)@ == old(self)@,
            !old(self)@.needs_recompile ==> r is Ok && final(self)@.order == old(self)@.order
                && final(self)@.culled == old(self)@.culled && final(self)@.store_ops == old(self)@.store_ops,
            r matches Err(e) ==> old(self)@.needs_recompile && validation_error(
                old(self)@.nodes,
                old(self)@.resources,
                dependency_edges(old(self)@.nodes, old(self)@.nodes.len() as int),
                e,
            ),
            old(self)@.needs_recompile ==> (r is Ok <==> graph_valid(
                old(self)@.nodes,
                old(self)@.resources,
                dependency_edges(old(self)@.nodes, old(self)@.nodes.len() as int),
            )),
            r is Err ==> final(self)@.resources == old(self)@.resources,
            r is Ok && (old(self)@.needs_recompile || old(self)@.needs_reallocation) ==> {
                &&& forall|p: int| 0 <= p < final(self)@.aliases.unwrap().1.len() ==> !(#[trigger] final(self)@.aliases.unwrap().1[p]).materialized
                &&& forall|i: int| 0 <= i < old(self)@.resources.len() ==> #[trigger] final(self)@.resources.handles[i] == if old(self)@.resources.descriptors[i].is_external {
                    old(self)@.resources.handles[i]
                } else {
                    None
                }
            },
    {
        if self.needs_recompile {
            return self.compile();
        }
        if self.needs_resource_reallocation {
            let info = compute_resource_aliasing(&self.nodes, &self.resources, &self.execution_order, &self.culled);
            proof {
                lemma_plan_kinds(self.nodes@, self.resources@, self.execution_order@, self.culled@, info.aliases@, info.pools@);
            }
            let ghost before = self.resources@;
            self.resources.clear_transient_handles();
            self.aliasing_info = Some(info);
            self.needs_resource_reallocation = false;
            proof {
                let v = self@;
                assert(v.resources.kinds() == old(self)@.resources.kinds());
                assert forall|i: int|
                    0 <= i < v.resources.len() && (#[trigger] handle_pool(v.resources.handles[i])) is Some implies {
                        &&& v.aliases is Some
                        &&& v.aliases.unwrap().0[i] == handle_pool(v.resources.handles[i])
                        &&& handle_pool(v.resources.handles[i]).unwrap() < v.aliases.unwrap().1.len()
                    } by {
                    assert(before.descriptors[i].wf());
                    if before.handles[i] is Some {
                        assert(before.handles[i].unwrap().fits(before.descriptors[i].resource_type));
                    }
                }
            }
        }
        Ok(())
    }

    /// The first external resource that a live pass uses and the caller has
    /// not bound.
    fn find_unbound_external(&self) -> (r: Option<ResourceId>)
        requires
            self@.wf(),
            !self@.needs_recompile,
        ensures
            r matches Some(id) ==> unbound_external(self@, id),
            r is None ==> forall|id: ResourceId| !#[trigger] unbound_external(self@, id),
    {
        let ghost v = self@;
        proof {
            assert(order_in_range(v));
        }
        let mut k: usize = 0;
        while k < self.execution_order.len()
            invariant
                k <= v.order.len(),
                v == self@,
                self@.wf(),
                !self@.needs_recompile,
                order_in_range(v),
                forall|id: ResourceId, q: int| 0 <= q < k ==> !#[trigger] unbound_at(v, q, id),
            decreases v.order.len() - k,
        {
            let node_index = self.execution_order[k];
            if !self.culled[node_index] {
                let node = &self.nodes[node_index];
                proof {
                    assert(v.nodes[node_index as int].ids_below(v.resources.len()));
                }
                let found = match self.first_unbound(&node.reads) {
                    Some(id) => Some(id),
                    None => match self.first_unbound(&node.writes) {
                        Some(id) => Some(id),
                        None => self.first_unbound(&node.reads_writes),
                    },
                };
                match found {
                    Some(id) => {
                        proof {
                            assert(unbound_at(v, k as int, id));
                        }
                        return Some(id);
                    },
                    None => {},
                }
            }
            proof {
                assert forall|id: ResourceId, q: int| 0 <= q < k + 1 implies !#[trigger] unbound_at(v, q, id) by {
                    if q == k && unbound_at(v, q, id) {
                        let nd = v.nodes[node_index as int];
                        if nd.reads@.contains(id) {
                            let j = choose|j: int| 0 <= j < nd.reads@.len() && nd.reads@[j] == id;
                        } else if nd.writes@.contains(id) {
                            let j = choose|j: int| 0 <= j < nd.writes@.len() && nd.writes@[j] == id;
                        } else {
                            let j = choose|j: int| 0 <= j < nd.reads_writes@.len() && nd.reads_writes@[j] == id;
                        }
                    }
                }
            }
            k = k + 1;
        }
        None
    }

    /// The first resource of `rs` that is external and unbound.
    fn first_unbound(&self, rs: &Vec<ResourceId>) -> (r: Option<ResourceId>)
        requires
            self@.wf(),
        ensures
            r matches Some(id) ==> rs@.contains(id) && self@.resources.is_external(id) && self@.resources.handle(id) is None,
            r is None ==> forall|j: int| 0 <= j < rs@.len() ==> !(self@.resources.is_external(#[trigger] rs@[j])
                && self@.resources.handle(rs@[j]) is None),
    {
        let mut j: usize = 0;
        while j < rs.len()
            invariant
                j <= rs@.len(),
                self@.wf(),
                forall|q: int| 0 <= q < j ==> !(self@.resources.is_external(#[trigger] rs@[q]) && self@.resources.handle(rs@[q]) is None),
            decreases rs@.len() - j,
        {
            let id = rs[j];
            match self.resources.get_descriptor(id) {
                Some(d) => {
                    if d.is_external && self.resources.get_handle(id).is_none() {
                        proof {
                            assert(rs@.contains(rs@[j as int]));
                        }
                        return Some(id);
                    }
                },
                None => {},
            }
            j = j + 1;
        }
        None
    }

    /// Marks every slot of the plan as materialized and returns the slots
    /// that were not, in index order: their physical resources are made now.
    fn materialize_pools(&mut self) -> (created: Vec<usize>)
        requires
            old(self)@.wf(),
            !old(self)@.needs_recompile,
            !old(self)@.needs_reallocation,
        ensures
            final(self)@.wf(),
            final(self)@ == (GraphView { aliases: final(self)@.aliases, ..old(self)@ }),
            final(self)@.aliases.unwrap().0 == old(self)@.aliases.unwrap().0,
            final(self)@.aliases.unwrap().1.len() == old(self)@.aliases.unwrap().1.len(),
            forall|p: int|
                0 <= p < old(self)@.aliases.unwrap().1.len() ==> (#[trigger] final(self)@.aliases.unwrap().1[p])
                    == (PoolSlot { materialized: true, ..old(self)@.aliases.unwrap().1[p] }),
            forall|i: int, j: int| 0 <= i < j < created@.len() ==> created@[i] < created@[j],
            forall|p: usize|
                created@.contains(p) <==> p < old(self)@.aliases.unwrap().1.len()
                    && !old(self)@.aliases.unwrap().1[p as int].materialized,
    {
        let mut info = self.aliasing_info.take().unwrap();
        let ghost pools0 = info.pools@;
        let ghost a0 = info.aliases@;
        proof {
            assert(old(self)@.aliases == Some((a0, pools0)));
        }
        let mut created: Vec<usize> = Vec::new();
        let mut p: usize = 0;
        while p < info.pools.len()
            invariant
                p <= info.pools@.len(),
                info.pools@.len() == pools0.len(),
                info.aliases@ == a0,
                forall|q: int| 0 <= q < p ==> (#[trigger] info.pools@[q]) == (PoolSlot { materialized: true, ..pools0[q] }),
                forall|q: int| p <= q < pools0.len() ==> (#[trigger] info.pools@[q]) == pools0[q],
                forall|a: int, b: int| 0 <= a < b < created@.len() ==> created@[a] < created@[b],
                forall|a: int| 0 <= a < created@.len() ==> (#[trigger] created@[a]) < p,
                forall|q: usize| created@.contains(q) <==> q < p && !pools0[q as int].materialized,
            decreases pools0.len() - p,
        {
            let slot = info.pools[p];
            if !slot.materialized {
                let ghost before = created@;
                created.push(p);
                proof {
                    assert forall|q: usize| created@.contains(q) <==> q < p + 1 && !pools0[q as int].materialized by {
                        crate::deps::lemma_push_contains(before, p, q);
                    }
                }
            } else {
                proof {
                    assert forall|q: usize| created@.contains(q) <==> q < p + 1 && !pools0[q as int].materialized by {
                        if q == p && created@.contains(q) {
                            let a = choose|a: int| 0 <= a < created@.len() && created@[a] == q;
                        }
                    }
                }
            }
            info.pools.set(p, PoolSlot { materialized: true, ..slot });
            p = p + 1;
        }
        proof {
            let v = old(self)@;
            lemma_plan_same_slots(v.nodes, v.resources.kinds(), v.order, v.culled, info.aliases@, pools0, info.pools@);
        }
        self.aliasing_info = Some(info);
        created
    }

    /// Binds every planned transient that has no handle to a view of its
    /// slot, with the scheduled store operation, and returns those ids in
    /// id order. Each such binding moves the resource's version on.
    fn bind_transients(&mut self) -> (bound: Vec<ResourceId>)
        requires
            old(self)@.wf(),
            !old(self)@.needs_recompile,
            !old(self)@.needs_reallocation,
        ensures
            final(self)@.wf(),
            final(self)@ == (GraphView { resources: final(self)@.resources, ..old(self)@ }),
            final(self)@.resources.descriptors == old(self)@.resources.descriptors,
            forall|i: int, j: int| 0 <= i < j < bound@.len() ==> bound@[i].0 < bound@[j].0,
            forall|id: ResourceId|
                #![trigger bound@.contains(id)]
                #![trigger newly_bound(old(self)@, id)]
                bound@.contains(id) <==> id.index() < old(self)@.resources.len() && newly_bound(old(self)@, id),
            forall|id: ResourceId|
                id.index() < old(self)@.resources.len() ==> #[trigger] final(self)@.resources.handles[id.index()] == if newly_bound(old(self)@, id) {
                    Some(transient_handle(old(self)@, id))
                } else {
                    old(self)@.resources.handles[id.index()]
                },
            forall|id: ResourceId|
                id.index() < old(self)@.resources.len() ==> #[trigger] final(self)@.resources.versions[id.index()] == if newly_bound(old(self)@, id) {
                    crate::resources::bumped(old(self)@.resources.versions[id.index()])
                } else {
                    old(self)@.resources.versions[id.index()]
                },
    {
        let ghost v0 = self@;
        let nres = self.resources.len();
        let mut bound: Vec<ResourceId> = Vec::new();
        let mut k: usize = 0;
        while k < nres
            invariant
                k <= nres,
                nres == v0.resources.len(),
                v0.wf(),
                !v0.needs_recompile,
                !v0.needs_reallocation,
                self@.wf(),
                self@ == (GraphView { resources: self@.resources, ..v0 }),
                self@.resources.descriptors == v0.resources.descriptors,
                forall|i: int, j: int| 0 <= i < j < bound@.len() ==> bound@[i].0 < bound@[j].0,
                forall|i: int| 0 <= i < bound@.len() ==> (#[trigger] bound@[i]).0 < k,
                forall|id: ResourceId| bound@.contains(id) <==> id.0 < k && #[trigger] newly_bound(v0, id),
                forall|id: ResourceId|
                    id.index() < nres ==> #[trigger] self@.resources.handles[id.index()] == if id.0 < k && newly_bound(v0, id) {
                        Some(transient_handle(v0, id))
                    } else {
                        v0.resources.handles[id.index()]
                    },
                forall|id: ResourceId|
                    id.index() < nres ==> #[trigger] self@.resources.versions[id.index()] == if id.0 < k && newly_bound(v0, id) {
                        crate::resources::bumped(v0.resources.versions[id.index()])
                    } else {
                        v0.resources.versions[id.index()]
                    },
            decreases nres - k,
        {
            let id = ResourceId(k as u32);
            let slot = match &self.aliasing_info {
                Some(info) => info.aliases[k],
                None => None,
            };
            let d = self.resources.get_descriptor(id).unwrap();
            let kind = d.resource_type;
            let external = d.is_external;
            let unbound = self.resources.get_handle(id).is_none();
            proof {
                assert(v0.resources.handles[id.index()] == self@.resources.handles[id.index()]);
                assert(v0.resources.descriptors[id.index()].wf());
            }
            if unbound && !external && slot.is_some() {
                let pool = slot.unwrap();
                let h = match kind {
                    ResourceType::TransientBuffer { .. } => ResourceHandle::TransientBuffer { pool },
                    _ => ResourceHandle::TransientTexture { pool, store_op: self.store_ops[k] },
                };
                proof {
                    assert(newly_bound(v0, id));
                    assert(h == transient_handle(v0, id));
                    assert(resident_ok(v0.nodes, v0.resources.kinds(), v0.order, v0.culled, v0.aliases.unwrap().0, v0.aliases.unwrap().1, id));
                }
                let ghost before = self@.resources;
                let ghost before_bound = bound@;
                self.resources.bind(id, h);
                bound.push(id);
                proof {
                    let v = self@;
                    assert(v.resources.kinds() == v0.resources.kinds());
                    assert forall|q: ResourceId| bound@.contains(q) <==> q.0 < k + 1 && #[trigger] newly_bound(v0, q) by {
                        crate::deps::lemma_push_contains(before_bound, id, q);
                        if q.0 == k {
                            assert(q == id);
                        }
                    }
                    assert forall|i: int|
                        0 <= i < v.resources.len() && (#[trigger] handle_pool(v.resources.handles[i])) is Some implies {
                            &&& v.aliases is Some
                            &&& v.aliases.unwrap().0[i] == handle_pool(v.resources.handles[i])
                            &&& handle_pool(v.resources.handles[i]).unwrap() < v.aliases.unwrap().1.len()
                        } by {
                        if i != k {
                            assert(v.resources.handles[i] == before.handles[i]);
                        }
                    }
                }
            } else {
                proof {
                    assert(!newly_bound(v0, id));
                    assert forall|q: ResourceId| bound@.contains(q) <==> q.0 < k + 1 && #[trigger] newly_bound(v0, q) by {
                        if q.0 == k {
                            assert(q == id);
                        }
                    }
                }
            }
            k = k + 1;
        }
        bound
    }

    /// Gives every bound external texture the store operation of the schedule.
    fn refresh_external_store_ops(&mut self)
        requires
            old(self)@.wf(),
            !old(self)@.needs_recompile,
        ensures
            final(self)@.wf(),
            final(self)@ == (GraphView { resources: final(self)@.resources, ..old(self)@ }),
            final(self)@.resources.descriptors == old(self)@.resources.descriptors,
            final(self)@.resources.versions == old(self)@.resources.versions,
            forall|id: ResourceId|
                id.index() < old(self)@.resources.len() ==> #[trigger] final(self)@.resources.handles[id.index()] == if old(self)@.resources.handles[id.index()] matches Some(ResourceHandle::ExternalTexture { .. }) {
                    Some(ResourceHandle::ExternalTexture { store_op: old(self)@.store_ops[id.index()] })
                } else {
                    old(self)@.resources.handles[id.index()]
                },
    {
        let ghost v0 = self@;
        let nres = self.resources.len();
        let mut k: usize = 0;
        while k < nres
            invariant
                k <= nres,
                nres == v0.resources.len(),
                v0.wf(),
                !v0.needs_recompile,
                self@.wf(),
                self@ == (GraphView { resources: self@.resources, ..v0 }),
                self@.resources.descriptors == v0.resources.descriptors,
                self@.resources.versions == v0.resources.versions,
                forall|id: ResourceId|
                    id.index() < nres ==> #[trigger] self@.resources.handles[id.index()] == if id.0 < k && v0.resources.handles[id.index()] matches Some(ResourceHandle::ExternalTexture { .. }) {
                        Some(ResourceHandle::ExternalTexture { store_op: v0.store_ops[id.index()] })
                    } else {
                        v0.resources.handles[id.index()]
                    },
            decreases nres - k,
        {
            let id = ResourceId(k as u32);
            proof {
                assert(self@.resources.handles[id.index()] == v0.resources.handles[id.index()]);
            }
            match self.resources.get_handle(id) {
                Some(ResourceHandle::ExternalTexture { .. }) => {
                    let ghost before = self@.resources;
                    self.resources.set_external_store_op(id, self.store_ops[k]);
                    proof {
                        let v = self@;
                        assert(v.resources.kinds() == v0.resources.kinds());
                        assert forall|i: int|
                            0 <= i < v.resources.len() && (#[trigger] handle_pool(v.resources.handles[i])) is Some implies {
                                &&& v.aliases is Some
                                &&& v.aliases.unwrap().0[i] == handle_pool(v.resources.handles[i])
                                &&& handle_pool(v.resources.handles[i]).unwrap() < v.aliases.unwrap().1.len()
                            } by {
                            if i != k {
                                assert(v.resources.handles[i] == before.handles[i]);
                            }
                        }
                    }
                },
                _ => {},
            }
            k = k + 1;
        }
    }

    /// Records the current version of every resource and returns, in index
    /// order, the passes that use a resource whose version changed since
    /// it was last recorded.
    fn collect_invalidations(&mut self) -> (passes: Vec<usize>)
        requires
            old(self)@.wf(),
        ensures
            final(self)@.wf(),
            final(self)@ == (GraphView { recorded_versions: old(self)@.resources.versions, ..old(self)@ }),
            forall|i: int, j: int| 0 <= i < j < passes@.len() ==> passes@[i] < passes@[j],
            forall|v: usize|
                #![trigger passes@.contains(v)]
                #![trigger touches_changed(old(self)@, v as int)]
                passes@.contains(v) <==> v < old(self)@.nodes.len() && touches_changed(old(self)@, v as int),
    {
        let ghost v0 = self@;
        let nres = self.resources.len();
        let mut dirty: Vec<bool> = Vec::new();
        let mut current: Vec<u64> = Vec::new();
        let mut k: usize = 0;
        while k < nres
            invariant
                k <= nres,
                nres == v0.resources.len(),
                self@ == v0,
                v0.wf(),
                dirty@.len() == k,
                current@ == v0.resources.versions.take(k as int),
                forall|id: ResourceId| id.index() < k ==> #[trigger] dirty@[id.index()] == (v0.resources.versions[id.index()]
                    != v0.recorded_versions[id.index()]),
            decreases nres - k,
        {
            let id = ResourceId(k as u32);
            let now = self.resources.get_version(id);
            dirty.push(now != self.resource_versions[k]);
            current.push(now);
            proof {
                assert(current@ =~= v0.resources.versions.take(k + 1));
                assert forall|q: ResourceId| q.index() < k + 1 implies #[trigger] dirty@[q.index()] == (v0.resources.versions[q.index()]
                    != v0.recorded_versions[q.index()]) by {
                    if q.index() == k {
                        assert(q == id);
                    }
                }
            }
            k = k + 1;
        }
        proof {
            assert(current@ =~= v0.resources.versions);
        }
        let mut passes: Vec<usize> = Vec::new();
        let n = self.nodes.len();
        let mut v: usize = 0;
        while v < n
            invariant
                v <= n,
                n == v0.nodes.len(),
                self@ == v0,
                v0.wf(),
                dirty@.len() == nres,
                nres == v0.resources.len(),
                forall|id: ResourceId| id.index() < nres ==> #[trigger] dirty@[id.index()] == (v0.resources.versions[id.index()]
                    != v0.recorded_versions[id.index()]),
                forall|i: int, j: int| 0 <= i < j < passes@.len() ==> passes@[i] < passes@[j],
                forall|a: int| 0 <= a < passes@.len() ==> (#[trigger] passes@[a]) < v,
                forall|q: usize| passes@.contains(q) <==> q < v && #[trigger] touches_changed(v0, q as int),
            decreases n - v,
        {
            let node = &self.nodes[v];
            proof {
                assert(v0.nodes[v as int].ids_below(nres as int));
            }
            let hit = any_needed(&node.reads, &dirty) || any_needed(&node.writes, &dirty) || any_needed(&node.reads_writes, &dirty);
            proof {
                let nd = v0.nodes[v as int];
                if hit {
                    if exists|j: int| 0 <= j < nd.reads@.len() && dirty@[#[trigger] nd.reads@[j].index()] {
                        let j = choose|j: int| 0 <= j < nd.reads@.len() && dirty@[#[trigger] nd.reads@[j].index()];
                        assert(nd.reads@.contains(nd.reads@[j]));
                        assert(nd.uses(nd.reads@[j]));
                    } else if exists|j: int| 0 <= j < nd.writes@.len() && dirty@[#[trigger] nd.writes@[j].index()] {
                        let j = choose|j: int| 0 <= j < nd.writes@.len() && dirty@[#[trigger] nd.writes@[j].index()];
                        assert(nd.writes@.contains(nd.writes@[j]));
                        assert(nd.uses(nd.writes@[j]));
                    } else {
                        let j = choose|j: int| 0 <= j < nd.reads_writes@.len() && dirty@[#[trigger] nd.reads_writes@[j].index()];
                        assert(nd.reads_writes@.contains(nd.reads_writes@[j]));
                        assert(nd.uses(nd.reads_writes@[j]));
                    }
                    assert(touches_changed(v0, v as int));
                }
                if touches_changed(v0, v as int) {
                    let id = choose|id: ResourceId| id.index() < v0.resources.len() && v0.nodes[v as int].uses(id)
                        && v0.resources.versions[id.index()] != v0.recorded_versions[id.index()];
                    if nd.reads@.contains(id) {
                        let j = choose|j: int| 0 <= j < nd.reads@.len() && nd.reads@[j] == id;
                        assert(dirty@[nd.reads@[j].index()]);
                    } else if nd.writes@.contains(id) {
                        let j = choose|j: int| 0 <= j < nd.writes@.len() && nd.writes@[j] == id;
                        assert(dirty@[nd.writes@[j].index()]);
                    } else {
                        let j = choose|j: int| 0 <= j < nd.reads_writes@.len() && nd.reads_writes@[j] == id;
                        assert(dirty@[nd.reads_writes@[j].index()]);
                    }
                }
            }
            if hit {
                let ghost before = passes@;
                passes.push(v);
                proof {
                    assert forall|q: usize| passes@.contains(q) <==> q < v + 1 && #[trigger] touches_changed(v0, q as int) by {
                        crate::deps::lemma_push_contains(before, v, q);
                    }
                }
            } else {
                proof {
                    assert forall|q: usize| passes@.contains(q) <==> q < v + 1 && #[trigger] touches_changed(v0, q as int) by {
                        if q == v && passes@.contains(q) {
                            let a = choose|a: int| 0 <= a < passes@.len() && passes@[a] == q;
                        }
                    }
                }
            }
            v = v + 1;
        }
        self.resource_versions = current;
        proof {
            let w = self@;
            assert(w.recorded_versions == v0.resources.versions);
        }
        passes
    }

    /// The live, enabled passes in execution order.
    fn frame_pass_list(&self, enabled: &Vec<bool>) -> (r: Vec<usize>)
        requires
            self@.wf(),
            !self@.needs_recompile,
            enabled@.len() == self@.nodes.len(),
        ensures
            r@ == frame_passes(self@.order, self@.culled, enabled@, self@.order.len() as int),
    {
        let ghost v = self@;
        let mut out: Vec<usize> = Vec::new();
        let mut k: usize = 0;
        while k < self.execution_order.len()
            invariant
                k <= v.order.len(),
                v == self@,
                v.wf(),
                !v.needs_recompile,
                enabled@.len() == v.nodes.len(),
                out@ == frame_passes(v.order, v.culled, enabled@, k as int),
            decreases v.order.len() - k,
        {
            let p = self.execution_order[k];
            proof {
                assert(v.order.contains(p)) by {
                    assert(v.order[k as int] == p);
                }
                assert(p < v.nodes.len());
            }
            if !self.culled[p] && enabled[p] {
                out.push(p);
            }
            k = k + 1;
        }
        out
    }

    /// Decides the work of one frame. Compiles (or re-plans aliasing) when
    /// needed; fails when a live pass uses an unbound external resource;
    /// then lists the pool slots to create, binds planned transients to their
    /// slots, gives bound external textures the scheduled store operation,
    /// records resource versions and lists the passes whose bind groups are
    /// stale (each once), and lists the live, enabled passes to prepare and
    /// execute, in execution order. `enabled` holds each pass's
    /// `is_enabled` answer, by pass index.
    pub fn prepare_frame(&mut self, enabled: &Vec<bool>) -> (r: Result<FramePlan, RenderGraphError>)
        requires
            old(self)@.wf(),
            enabled@.len() == old(self)@.nodes.len(),
        ensures
            final(self)@.wf(),
            final(self)@.nodes == old(self)@.nodes,
            final(self)@.resources.descriptors == old(self)@.resources.descriptors,
            !old(self)@.needs_recompile ==> final(self)@.order == old(self)@.order && final(self)@.culled == old(self)@.culled
                && final(self)@.store_ops == old(self)@.store_ops,
            r matches Err(e) ==> validation_error(
                old(self)@.nodes,
                old(self)@.resources,
                dependency_edges(old(self)@.nodes, old(self)@.nodes.len() as int),
                e,
            ) || (e matches RenderGraphError::ResourceNotBound { id, resource } && unbound_external(final(self)@, id)
                && resource@ == final(self)@.resources.name(id)),
            r matches Err(e) && (e is AmbiguousProducer || e is ResourceNeverWritten) ==> old(self)@.needs_recompile,
            old(self)@.needs_recompile ==> (r is Ok <==> graph_valid(
                old(self)@.nodes,
                old(self)@.resources,
                dependency_edges(old(self)@.nodes, old(self)@.nodes.len() as int),
            ) && forall|id: ResourceId| !#[trigger] unbound_external(final(self)@, id)),
            !old(self)@.needs_recompile ==> (r is Ok <==> forall|id: ResourceId| !#[trigger] unbound_external(final(self)@, id)),
            r is Err ==> final(self)@.resources.versions == old(self)@.resources.versions
                && final(self)@.recorded_versions == old(self)@.recorded_versions,
            !old(self)@.needs_recompile && !old(self)@.needs_reallocation ==> (r is Ok <==> forall|id: ResourceId| !#[trigger] unbound_external(old(self)@, id)),
            r is Ok ==> final(self)@.steady(),
            r matches Ok(plan) ==> {
                &&& plan.passes@ == frame_passes(final(self)@.order, final(self)@.culled, enabled@, final(self)@.order.len() as int)
                &&& lists_stale_passes(old(self)@.recorded_versions, final(self)@, plan.invalidate@)
                &&& forall|id: ResourceId|
                    id.index() < old(self)@.resources.len() ==> #[trigger] final(self)@.resources.versions[id.index()] == if plan.bound@.contains(id) {
                        crate::resources::bumped(old(self)@.resources.versions[id.index()])
                    } else {
                        old(self)@.resources.versions[id.index()]
                    }
                &&& forall|i: int, j: int| 0 <= i < j < plan.new_pools@.len() ==> plan.new_pools@[i] < plan.new_pools@[j]
                &&& forall|p: usize|
                    plan.new_pools@.contains(p) <==> p < final(self)@.aliases.unwrap().1.len() && (old(self)@.needs_recompile
                        || old(self)@.needs_reallocation || !old(self)@.aliases.unwrap().1[p as int].materialized)
                &&& forall|i: int, j: int| 0 <= i < j < plan.bound@.len() ==> plan.bound@[i].0 < plan.bound@[j].0
                &&& forall|id: ResourceId|
                    #![trigger plan.bound@.contains(id)]
                    plan.bound@.contains(id) <==> id.index() < final(self)@.resources.len() && !final(self)@.resources.is_external(id)
                        && final(self)@.aliases.unwrap().0[id.index()] is Some && (old(self)@.needs_recompile
                        || old(self)@.needs_reallocation || old(self)@.resources.handles[id.index()] is None)
            },
            old(self)@.steady() ==> (r matches Ok(plan) && final(self)@ == old(self)@ && plan.new_pools@.len() == 0
                && plan.bound@.len() == 0 && plan.invalidate@.len() == 0),
    {
        self.ensure_planned()?;
        let ghost v1 = self@;
        match self.find_unbound_external() {
            Some(id) => {
                let resource = match self.resources.get_descriptor(id) {
                    Some(d) => d.name.clone(),
                    None => String::new(),
                };
                return Err(RenderGraphError::ResourceNotBound { resource, id });
            },
            None => {},
        }
        let new_pools = self.materialize_pools();
        let ghost v2 = self@;
        let bound = self.bind_transients();
        let ghost v3 = self@;
        self.refresh_external_store_ops();
        let ghost v4 = self@;
        let invalidate = self.collect_invalidations();
        let passes = self.frame_pass_list(enabled);
        proof {
            let v5 = self@;
            assert forall|v: usize| touches_changed(v4, v as int) == exists|id: ResourceId|
                id.index() < v5.resources.len() && v5.nodes[v as int].uses(id)
                    && #[trigger] v5.resources.versions[id.index()] != old(self)@.recorded_versions[id.index()] by {
            }
            assert forall|id: ResourceId| id.index() < v5.resources.len() implies !#[trigger] newly_bound(v5, id) by {
                assert(v3.resources.handles[id.index()] == if newly_bound(v2, id) {
                    Some(transient_handle(v2, id))
                } else {
                    v2.resources.handles[id.index()]
                });
                assert(v5.resources.handles[id.index()] == v4.resources.handles[id.index()]);
                if v3.resources.handles[id.index()] is Some {
                    assert(v4.resources.handles[id.index()] is Some);
                }
            }
            assert(!v5.needs_recompile && !v5.needs_reallocation && v5.aliases is Some);
            assert forall|p: int| 0 <= p < v5.aliases.unwrap().1.len() implies (#[trigger] v5.aliases.unwrap().1[p]).materialized by {
                assert(v5.aliases == v2.aliases);
            }
            assert forall|i: int|
                0 <= i < v5.resources.len() implies ((#[trigger] v5.resources.handles[i]) matches Some(
                    ResourceHandle::ExternalTexture { store_op },
                ) ==> store_op == v5.store_ops[i]) by {
                let id = ResourceId(i as u32);
                assert(id.index() == i);
                assert(v5.resources.handles[i] == v4.resources.handles[i]);
                assert(v4.store_ops == v3.store_ops);
            }
            assert(v5.recorded_versions == v5.resources.versions);
            assert forall|id: ResourceId| !#[trigger] unbound_external(v5, id) by {
                assert(!unbound_external(v1, id));
                if unbound_external(v5, id) {
                    let q = choose|q: int| #[trigger] unbound_at(v5, q, id);
                    assert(unbound_at(v1, q, id)) by {
                        assert(v2.resources.handles == v1.resources.handles);
                        assert(v3.resources.handles[id.index()] == v2.resources.handles[id.index()]);
                    }
                }
            }
            assert forall|p: usize|
                new_pools@.contains(p) <==> p < v5.aliases.unwrap().1.len() && (old(self)@.needs_recompile
                    || old(self)@.needs_reallocation || !old(self)@.aliases.unwrap().1[p as int].materialized) by {
                if !old(self)@.needs_recompile && !old(self)@.needs_reallocation {
                    assert(v1 == old(self)@);
                }
            }
            assert forall|id: ResourceId|
                #![trigger bound@.contains(id)]
                bound@.contains(id) <==> id.index() < v5.resources.len() && !v5.resources.is_external(id)
                    && v5.aliases.unwrap().0[id.index()] is Some && (old(self)@.needs_recompile
                    || old(self)@.needs_reallocation || old(self)@.resources.handles[id.index()] is None) by {
                if !old(self)@.needs_recompile && !old(self)@.needs_reallocation {
                    assert(v1 == old(self)@);
                }
                if id.index() < v5.resources.len() {
                    assert(v2.resources.handles[id.index()] == v1.resources.handles[id.index()]);
                }
            }
            if old(self)@.steady() {
                assert(v1 == old(self)@);
                assert forall|p: int| 0 <= p < v1.aliases.unwrap().1.len() implies (#[trigger] v1.aliases.unwrap().1[p])
                    == (PoolSlot { materialized: true, ..v1.aliases.unwrap().1[p] }) by {
                }
                assert(v2.aliases.unwrap().1 =~= v1.aliases.unwrap().1);
                assert(new_pools@.len() == 0) by {
                    if new_pools@.len() > 0 {
                        assert(new_pools@.contains(new_pools@[0]));
                    }
                }
                assert(v2 == v1);
                assert(v3.resources.handles =~= v2.resources.handles) by {
                    assert forall|i: int| 0 <= i < v2.resources.len() implies v3.resources.handles[i] == v2.resources.handles[i] by {
                        let id = ResourceId(i as u32);
                        assert(id.index() == i);
                        assert(!newly_bound(v2, id));
                    }
                }
                assert(v3.resources.versions =~= v2.resources.versions) by {
                    assert forall|i: int| 0 <= i < v2.resources.len() implies v3.resources.versions[i] == v2.resources.versions[i] by {
                        let id = ResourceId(i as u32);
                        assert(id.index() == i);
                        assert(!newly_bound(v2, id));
                    }
                }
                assert(bound@.len() == 0) by {
                    if bound@.len() > 0 {
                        assert(bound@.contains(bound@[0]));
                        assert(bound@[0].index() < v2.resources.len());
                        assert(!newly_bound(v2, bound@[0]));
                    }
                }
                assert(v3.resources == v2.resources);
                assert(v4.resources.handles =~= v3.resources.handles) by {
                    assert forall|i: int| 0 <= i < v3.resources.len() implies v4.resources.handles[i] == v3.resources.handles[i] by {
                        let id = ResourceId(i as u32);
                        assert(id.index() == i);
                    }
                }
                assert(v4.resources == v3.resources);
                assert(invalidate@.len() == 0) by {
                    if invalidate@.len() > 0 {
                        assert(invalidate@.contains(invalidate@[0]));
                    }
                }
                assert(self@ == old(self)@);
            }
        }
        Ok(FramePlan { new_pools, bound, invalidate, passes })
    }
    /// The first external resource named `name`.
    fn find_external_named(&self, name: &String) -> (r: Option<ResourceId>)
        requires
            self@.wf(),
        ensures
            r == first_external_named(self@.resources.descriptors, name@, self@.resources.len()),
    {
        let nres = self.resources.len();
        let mut k: usize = 0;
        while k < nres
            invariant
                k <= nres,
                nres == self@.resources.len(),
                self@.wf(),
                first_external_named(self@.resources.descriptors, name@, k as int) is None,
            decreases nres - k,
        {
            let id = ResourceId(k as u32);
            let d = self.resources.get_descriptor(id).unwrap();
            if d.is_external && d.name == *name {
                proof {
                    lemma_first_external_named_stable(self@.resources.descriptors, name@, k as int + 1, nres as int);
                }
                return Some(id);
            }
            k = k + 1;
        }
        None
    }

    /// Binds the values that a parent pass hands this graph, run as a
    /// sub-graph: value `i` goes to the external resource named like input
    /// slot `i` (the first such resource), values and slots paired by
    /// position. A slot whose name no external resource has is skipped. A
    /// texture view must meet an external texture and a buffer an external
    /// buffer, else `SubGraphInputTypeMismatch`. Returns the resource each
    /// value was bound to.
    pub fn bind_sub_graph_inputs(&mut self, input_slots: &Vec<SubGraphInputSlot>, values: &Vec<SlotKind>) -> (r: Result<
        Vec<Option<ResourceId>>,
        RenderGraphError,
    >)
        requires
            old(self)@.wf(),
        ensures
            final(self)@.wf(),
            final(self)@.nodes == old(self)@.nodes,
            final(self)@.resources.descriptors == old(self)@.resources.descriptors,
            r matches Ok(ids) ==> {
                &&& ids@.len() == if input_slots@.len() < values@.len() { input_slots@.len() } else { values@.len() }
                &&& forall|i: int| 0 <= i < ids@.len() ==> (#[trigger] ids@[i]) == first_external_named(
                    old(self)@.resources.descriptors,
                    input_slots@[i].name@,
                    old(self)@.resources.len(),
                )
                &&& forall|i: int| 0 <= i < ids@.len() && (#[trigger] ids@[i]) is Some ==> input_fits(
                    old(self)@.resources.kind(ids@[i].unwrap()),
                    values@[i],
                )
                &&& forall|i: int| 0 <= i < ids@.len() && (#[trigger] ids@[i]) is Some ==> final(self)@.resources.handle(ids@[i].unwrap())
                    == Some(input_handle(values@[i]))
                &&& forall|i: int| 0 <= i < ids@.len() && (#[trigger] ids@[i]) is Some ==> version_moved(
                    old(self)@.resources.version(ids@[i].unwrap()),
                    final(self)@.resources.version(ids@[i].unwrap()),
                )
            },
            forall|k: int| 0 <= k < old(self)@.resources.len() ==> old(self)@.resources.versions[k] <= #[trigger] final(self)@.resources.versions[k],
            r matches Err(e) ==> e is SubGraphInputTypeMismatch,
            r matches Err(RenderGraphError::SubGraphInputTypeMismatch { input, expected, received }) ==> exists|i: int|
                #[trigger] input_mismatch(old(self)@.resources.descriptors, input_slots@, values@, i) && input@ == input_slots@[i].name@
                    && received@ == received_word(values@[i]) && expected@ == expected_word(values@[i]),
            (forall|i: int| !#[trigger] input_mismatch(old(self)@.resources.descriptors, input_slots@, values@, i)) ==> r is Ok,
    {
        let ghost v0 = self@;
        let mut ids: Vec<Option<ResourceId>> = Vec::new();
        let mut i: usize = 0;
        while i < input_slots.len() && i < values.len()
            invariant
                i <= input_slots@.len(),
                i <= values@.len(),
                self@.wf(),
                self@.nodes == v0.nodes,
                self@.resources.descriptors == v0.resources.descriptors,
                ids@.len() == i,
                v0 == old(self)@,
                v0.wf(),
                forall|j: int| 0 <= j < i ==> (#[trigger] ids@[j]) == first_external_named(v0.resources.descriptors, input_slots@[j].name@, v0.resources.len()),
                forall|j: int| 0 <= j < i && (#[trigger] ids@[j]) is Some ==> input_fits(v0.resources.kind(ids@[j].unwrap()), values@[j]),
                forall|j: int| 0 <= j < i && (#[trigger] ids@[j]) is Some ==> self@.resources.handle(ids@[j].unwrap())
                    == Some(input_handle(values@[j])),
                forall|j: int| 0 <= j < i && (#[trigger] ids@[j]) is Some ==> version_moved(
                    v0.resources.version(ids@[j].unwrap()),
                    self@.resources.version(ids@[j].unwrap()),
                ),
                forall|k: int| 0 <= k < v0.resources.len() ==> v0.resources.versions[k] <= #[trigger] self@.resources.versions[k],
            decreases values@.len() - i,
        {
            let slot = &input_slots[i];
            let found = self.find_external_named(&slot.name);
            proof {
                assert(self@.resources.kinds() == v0.resources.kinds());
                lemma_first_external_named_bound(v0.resources.descriptors, slot.name@, v0.resources.len());
            }
            match found {
                Some(id) => {
                    let ghost before = self@.resources;
                    let bound = match values[i] {
                        SlotKind::TextureView => self.set_external_texture(id),
                        SlotKind::Buffer => self.set_external_buffer(id),
                    };
                    if bound.is_err() {
                            let (expected, received) = match values[i] {
                            SlotKind::TextureView => ("buffer".to_owned(), "texture".to_owned()),
                            SlotKind::Buffer => ("texture".to_owned(), "buffer".to_owned()),
                        };
                        proof {
                            assert(input_mismatch(v0.resources.descriptors, input_slots@, values@, i as int));
                        }
                        return Err(RenderGraphError::SubGraphInputTypeMismatch { input: slot.name.clone(), expected, received });
                    }
                    proof {
                        assert(self@.resources.handle(id) == Some(input_handle(values@[i as int])));
                        assert forall|j: int| 0 <= j < i && (#[trigger] ids@[j]) is Some implies self@.resources.handle(ids@[j].unwrap())
                            == Some(input_handle(values@[j])) by {
                            if ids@[j].unwrap() == id {
                                assert(input_fits(v0.resources.kind(id), values@[j]));
                            }
                        }
                        assert forall|k: int| 0 <= k < v0.resources.len() implies v0.resources.versions[k] <= #[trigger] self@.resources.versions[k] by {
                            assert(before.versions[k] <= self@.resources.versions[k]);
                        }
                        assert forall|j: int| 0 <= j < i && (#[trigger] ids@[j]) is Some implies version_moved(
                            v0.resources.version(ids@[j].unwrap()),
                            self@.resources.version(ids@[j].unwrap()),
                        ) by {
                            let q = ids@[j].unwrap();
                            assert(before.version(q) <= self@.resources.version(q));
                        }
                    }
                },
                None => {},
            }
            let ghost before_ids = ids@;
            ids.push(found);
            proof {
                assert forall|j: int| 0 <= j < i + 1 && (#[trigger] ids@[j]) is Some implies version_moved(
                    v0.resources.version(ids@[j].unwrap()),
                    self@.resources.version(ids@[j].unwrap()),
                ) by {
                    if j < i {
                        assert(ids@[j] == before_ids[j]);
                    }
                }
            }
            i = i + 1;
        }
        Ok(ids)
    }
}

/// An input slot of a sub-graph, matched by name against its external resources.
#[derive(Clone)]
pub struct SubGraphInputSlot {
    pub name: String,
}

/// What a parent pass hands a sub-graph input.
#[derive(Clone, Copy, Debug, PartialEq, Eq, Structural)]
pub enum SlotKind {
    TextureView,
    Buffer,
}

/// The handle that a sub-graph input of kind `v` binds.
pub open spec fn input_handle(v: SlotKind) -> ResourceHandle {
    match v {
        SlotKind::TextureView => ResourceHandle::ExternalTexture { store_op: StoreOp::Store },
        SlotKind::Buffer => ResourceHandle::ExternalBuffer,
    }
}

/// A version moved on from `before` to `after`, unless the counter was full.
pub open spec fn version_moved(before: u64, after: u64) -> bool {
    before < after || before == u64::MAX
}

/// The kind word of a value handed to a sub-graph.
pub open spec fn received_word(v: SlotKind) -> Seq<char> {
    match v {
        SlotKind::TextureView => "texture"@,
        SlotKind::Buffer => "buffer"@,
    }
}

/// The kind word of what a mismatched value met instead.
pub open spec fn expected_word(v: SlotKind) -> Seq<char> {
    match v {
        SlotKind::TextureView => "buffer"@,
        SlotKind::Buffer => "texture"@,
    }
}

/// A value of kind `v` may be bound to an external resource of kind `t`.
pub open spec fn input_fits(t: ResourceType, v: SlotKind) -> bool {
    match v {
        SlotKind::TextureView => t is ExternalColor || t is ExternalDepth,
        SlotKind::Buffer => t is ExternalBuffer,
    }
}

/// The value `i` meets an external resource of another kind.
pub open spec fn input_mismatch(descs: Seq<ResourceDescriptor>, slots: Seq<SubGraphInputSlot>, values: Seq<SlotKind>, i: int) -> bool {
    &&& 0 <= i < slots.len()
    &&& i < values.len()
    &&& first_external_named(descs, slots[i].name@, descs.len() as int) matches Some(id)
    &&& !input_fits(descs[id.index()].resource_type, values[i])
}

/// The lowest id below `k` of an external resource named `name`.
pub open spec fn first_external_named(descs: Seq<ResourceDescriptor>, name: Seq<char>, k: int) -> Option<ResourceId>
    decreases k,
{
    if k <= 0 {
        None
    } else {
        match first_external_named(descs, name, k - 1) {
            Some(id) => Some(id),
            None => {
                let d = descs[k - 1];
                if d.is_external && d.name@ == name {
                    Some(ResourceId((k - 1) as u32))
                } else {
                    None
                }
            },
        }
    }
}

pub proof fn lemma_first_external_named_bound(descs: Seq<ResourceDescriptor>, name: Seq<char>, m: int)
    requires
        0 <= m <= descs.len() <= u32::MAX,
    ensures
        first_external_named(descs, name, m) matches Some(id) ==> id.index() < m && descs[id.index()].is_external,
    decreases m,
{
    if m > 0 {
        lemma_first_external_named_bound(descs, name, m - 1);
    }
}

pub proof fn lemma_first_external_named_stable(descs: Seq<ResourceDescriptor>, name: Seq<char>, k: int, m: int)
    requires
        0 <= k <= m,
        first_external_named(descs, name, k) is Some,
    ensures
        first_external_named(descs, name, m) == first_external_named(descs, name, k),
    decreases m - k,
{
    if k < m {
        lemma_first_external_named_stable(descs, name, k, m - 1);
    }
}

/// The work that one frame asks of the caller, decided by `prepare_frame`.
pub struct FramePlan {
    /// Pool slots whose physical resource must be created now, in index order.
    pub new_pools: Vec<usize>,
    /// Transient resources bound this frame to a view of their slot, in id order.
    pub bound: Vec<ResourceId>,
    /// Passes (by index) whose cached bind groups are stale, each once.
    pub invalidate: Vec<usize>,
    /// Passes (by index) to prepare and then execute, in execution order.
    pub passes: Vec<usize>,
}

/// The live passes among the first `k` positions of the order whose
/// `enabled` entry is set, in order.
pub open spec fn frame_passes(order: Seq<usize>, culled: Seq<bool>, enabled: Seq<bool>, k: int) -> Seq<usize>
    decreases k,
{
    if k <= 0 {
        Seq::empty()
    } else {
        let prev = frame_passes(order, culled, enabled, k - 1);
        let p = order[k - 1];
        if !culled[p as int] && enabled[p as int] {
            prev.push(p)
        } else {
            prev
        }
    }
}

/// `inv` lists, in increasing order, exactly the passes of `after` that use
/// a resource whose version differs from the one in `recorded`.
pub open spec fn lists_stale_passes(recorded: Seq<u64>, after: GraphView, inv: Seq<usize>) -> bool {
    &&& forall|i: int, j: int| 0 <= i < j < inv.len() ==> inv[i] < inv[j]
    &&& forall|v: usize|
        inv.contains(v) <==> v < after.nodes.len() && exists|id: ResourceId|
            id.index() < after.resources.len() && after.nodes[v as int].uses(id)
                && #[trigger] after.resources.versions[id.index()] != recorded[id.index()]
}

/// Pass `v` uses a resource whose version differs from the recorded one.
pub open spec fn touches_changed(g: GraphView, v: int) -> bool {
    exists|id: ResourceId|
        id.index() < g.resources.len() && g.nodes[v].uses(id) && #[trigger] g.resources.versions[id.index()]
            != g.recorded_versions[id.index()]
}

/// `id` is a planned transient without a handle; the next frame binds it.
pub open spec fn newly_bound(v: GraphView, id: ResourceId) -> bool {
    &&& v.resources.contains(id)
    &&& !v.resources.is_external(id)
    &&& v.resources.handles[id.index()] is None
    &&& v.aliases matches Some((a, _)) && a[id.index()] is Some
}

/// The handle that binds the planned transient `id` to its slot.
pub open spec fn transient_handle(v: GraphView, id: ResourceId) -> ResourceHandle {
    let pool = v.aliases.unwrap().0[id.index()].unwrap();
    if v.resources.kind(id) is TransientBuffer {
        ResourceHandle::TransientBuffer { pool }
    } else {
        ResourceHandle::TransientTexture { pool, store_op: v.store_ops[id.index()] }
    }
}

/// The execution order names passes of the graph.
pub open spec fn order_in_range(v: GraphView) -> bool {
    &&& v.order.len() < usize::MAX
    &&& forall|k: int| 0 <= k < v.order.len() ==> (#[trigger] v.order[k]) < v.nodes.len()
}

/// The live pass at position `q` uses the external resource `id`, which is unbound.
pub open spec fn unbound_at(v: GraphView, q: int, id: ResourceId) -> bool {
    &&& 0 <= q < v.order.len()
    &&& !v.culled[v.order[q] as int]
    &&& pass_at(v.nodes, v.order, q).uses(id)
    &&& v.resources.is_external(id)
    &&& v.resources.handle(id) is None
}

/// Some live pass uses the external resource `id`, which is unbound.
pub open spec fn unbound_external(v: GraphView, id: ResourceId) -> bool {
    exists|q: int| #[trigger] unbound_at(v, q, id)
}

/// `s` is a slot of `slots` that the table `m` does not bind.
pub open spec fn slot_unmapped(m: Seq<(String, ResourceId)>, slots: Seq<String>, s: Seq<char>) -> bool {
    exists|i: int| 0 <= i < slots.len() && (#[trigger] slots[i])@ == s && crate::slots::slot_lookup(m, s) is None
}

/// Every resource that a slot table names is below `n`.
pub open spec fn mappings_registered(m: Seq<(String, ResourceId)>, n: int) -> bool {
    forall|j: int| 0 <= j < m.len() ==> (#[trigger] m[j]).1.index() < n
}

proof fn lemma_resolved_registered(m: Seq<(String, ResourceId)>, slots: Seq<String>, n: int)
    requires
        mappings_registered(m, n),
        all_mapped(m, slots),
    ensures
        forall|i: int| 0 <= i < slots.len() ==> (#[trigger] resolved(m, slots)[i]).index() < n,
{
    assert forall|i: int| 0 <= i < slots.len() implies (#[trigger] resolved(m, slots)[i]).index() < n by {
        crate::slots::lemma_slot_lookup_in_table(m, slots[i]@);
        assert(slot_lookup_some(m, slots, i));
    }
}

spec fn slot_lookup_some(m: Seq<(String, ResourceId)>, slots: Seq<String>, i: int) -> bool {
    crate::slots::slot_lookup(m, slots[i]@) is Some
}

} // verus!
