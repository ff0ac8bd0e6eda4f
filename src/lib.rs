//! A render graph planner: passes declare the resources they read and write,
//! and the graph derives dependencies, an execution order, dead-pass culling,
//! attachment store operations, lifetime-based aliasing of transient resources
//! and the work of each frame. Recording GPU commands is left to the caller,
//! who follows the frame plan.

mod aliasing;
mod builders;
mod deps;
mod digraph;
mod error;
mod gpu;
mod graph;
mod laws;
mod pass_configs;
mod resources;
mod schedule;
mod slots;
mod validate;

pub use aliasing::{PoolDescriptor, PoolSlot, ResourceAliasingInfo};
pub use builders::{
    BufferBuilder, ColorTextureBuilder, DepthTextureBuilder, ResourceTemplate, BUFFER_USAGE_COPY_DST,
    BUFFER_USAGE_STORAGE, TEXTURE_USAGE_COPY_DST, TEXTURE_USAGE_COPY_SRC, TEXTURE_USAGE_RENDER_ATTACHMENT,
    TEXTURE_USAGE_STORAGE_BINDING, TEXTURE_USAGE_TEXTURE_BINDING,
};
pub use deps::GraphNode;
pub use error::RenderGraphError;
pub use gpu::{LoadOp, StoreOp};
pub use graph::{FramePlan, RenderGraph, SlotKind, SubGraphInputSlot};
pub use laws::{
    law_add_then_remove_restores, law_alias_slot_covers, law_aliased_lifetimes_disjoint, law_dependencies_are_acyclic, law_each_pass_at_most_once,
    law_empty_graph, law_execution_order_is_topological, law_pool_count_bounded, law_rebind_invalidates_once, law_recompile_keeps_order,
    law_resize_to_same_size, law_transient_store_op, law_unordered_writers_rejected, law_unwritten_read_rejected,
};
pub use pass_configs::{
    ColorInvertConfig, ComputeGrayscaleConfig, EdgeDetectionConfig, EguiPass, GaussianBlurConfig, GrayscaleConfig,
    PassType, QueueType,
};
pub use resources::{
    RenderGraphBufferDescriptor, RenderGraphResources, RenderGraphTextureDescriptor, ResourceDescriptor, ResourceHandle,
    ResourceId, ResourceType,
};
