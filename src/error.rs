use vstd::prelude::*;

use crate::resources::ResourceId;

verus! {

/// Every failure the render graph reports; each variant names what it concerns.
#[derive(Debug, PartialEq, Eq)]
pub enum RenderGraphError {
    SlotNotFound { slot: String, pass: String },
    ResourceNotBound { resource: String, id: ResourceId },
    DescriptorNotFound { resource: String, id: ResourceId },
    TypeMismatch { operation: String, actual_type: String, resource: String },
    SlotNotMapped { pass: String, slot: String },
    CannotResizeExternal { resource: String },
    CannotResizeBuffer { resource: String },
    CannotResizeNonTransient { resource: String },
    CyclicDependency,
    SubGraphNotFound { sub_graph: String },
    SubGraphInputTypeMismatch { input: String, expected: String, received: String },
    ResourceNotFound { resource: String, id: ResourceId },
    /// A transient resource is read by `pass` but no pass ever writes it.
    ResourceNeverWritten { resource: String, id: ResourceId, pass: String },
    /// Two passes write the same resource and neither depends on the other.
    AmbiguousProducer { resource: String, id: ResourceId, first: String, second: String },
}

} // verus!
