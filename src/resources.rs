use vstd::prelude::*;

use crate::error::RenderGraphError;
use crate::gpu::{LoadOp, StoreOp};

verus! {

/// A dense identifier handed out at registration; never reused within a graph.
#[derive(Clone, Copy, Debug, PartialEq, Eq, Hash, Structural)]
pub struct ResourceId(pub u32);

impl ResourceId {
    pub fn new(id: u32) -> (r: Self)
        ensures
            r.0 == id,
    {
        ResourceId(id)
    }

    pub open spec fn index(self) -> int {
        self.0 as int
    }
}

/// Texture parameters of a transient texture. `usage` holds the bits of a
/// `wgpu::TextureUsages` mask.
#[derive(Clone, Copy, Debug)]
pub struct RenderGraphTextureDescriptor {
    pub format: wgpu::TextureFormat,
    pub width: u32,
    pub height: u32,
    pub usage: u32,
    pub sample_count: u32,
    pub mip_level_count: u32,
    pub dimension: wgpu::TextureDimension,
    pub depth_or_array_layers: u32,
}

/// Buffer parameters of a transient buffer. `usage` holds the bits of a
/// `wgpu::BufferUsages` mask.
#[derive(Clone, Copy, Debug)]
pub struct RenderGraphBufferDescriptor {
    pub size: u64,
    pub usage: u32,
    pub mapped_at_creation: bool,
}

/// The kind of a resource. A depth clear value is held as the bit pattern of
/// its `f32`.
#[derive(Clone, Copy, Debug)]
pub enum ResourceType {
    ExternalColor { clear_color: Option<wgpu::Color>, force_store: bool },
    TransientColor { descriptor: RenderGraphTextureDescriptor, clear_color: Option<wgpu::Color> },
    ExternalDepth { clear_depth: Option<u32>, force_store: bool },
    TransientDepth { descriptor: RenderGraphTextureDescriptor, clear_depth: Option<u32> },
    ExternalBuffer,
    TransientBuffer { descriptor: RenderGraphBufferDescriptor },
}

impl ResourceType {
    pub open spec fn is_external_kind(self) -> bool {
        ||| self is ExternalColor
        ||| self is ExternalDepth
        ||| self is ExternalBuffer
    }

    pub open spec fn is_color(self) -> bool {
        self is ExternalColor || self is TransientColor
    }

    pub open spec fn is_depth(self) -> bool {
        self is ExternalDepth || self is TransientDepth
    }

    pub open spec fn is_texture(self) -> bool {
        self.is_color() || self.is_depth()
    }

    pub open spec fn is_buffer(self) -> bool {
        self is ExternalBuffer || self is TransientBuffer
    }

    /// The texture descriptor of a transient texture.
    pub open spec fn texture_descriptor(self) -> Option<RenderGraphTextureDescriptor> {
        match self {
            ResourceType::TransientColor { descriptor, .. } => Some(descriptor),
            ResourceType::TransientDepth { descriptor, .. } => Some(descriptor),
            _ => None,
        }
    }

    /// The load operation of a colour attachment: clear when a clear colour is set.
    pub open spec fn color_load(self) -> LoadOp<wgpu::Color> {
        match self {
            ResourceType::ExternalColor { clear_color, .. } => match clear_color {
                Some(c) => LoadOp::Clear(c),
                None => LoadOp::Load,
            },
            ResourceType::TransientColor { clear_color, .. } => match clear_color {
                Some(c) => LoadOp::Clear(c),
                None => LoadOp::Load,
            },
            _ => LoadOp::Load,
        }
    }

    /// The load operation of a depth attachment: clear when a clear depth is set.
    pub open spec fn depth_load(self) -> LoadOp<u32> {
        match self {
            ResourceType::ExternalDepth { clear_depth, .. } => match clear_depth {
                Some(d) => LoadOp::Clear(d),
                None => LoadOp::Load,
            },
            ResourceType::TransientDepth { clear_depth, .. } => match clear_depth {
                Some(d) => LoadOp::Clear(d),
                None => LoadOp::Load,
            },
            _ => LoadOp::Load,
        }
    }
}

#[derive(Debug)]
pub struct ResourceDescriptor {
    pub name: String,
    pub resource_type: ResourceType,
    pub is_external: bool,
}

impl ResourceDescriptor {
    pub open spec fn wf(self) -> bool {
        self.is_external == self.resource_type.is_external_kind()
    }
}

/// The binding of a resource for the current frame. Transient handles name
/// the pool slot whose physical resource they view.
#[derive(Clone, Copy, Debug, PartialEq, Eq, Structural)]
pub enum ResourceHandle {
    ExternalTexture { store_op: StoreOp },
    TransientTexture { pool: usize, store_op: StoreOp },
    ExternalBuffer,
    TransientBuffer { pool: usize },
}

impl ResourceHandle {
    pub open spec fn spec_store_op(self) -> Option<StoreOp> {
        match self {
            ResourceHandle::ExternalTexture { store_op } => Some(store_op),
            ResourceHandle::TransientTexture { store_op, .. } => Some(store_op),
            _ => None,
        }
    }

    /// The store operation of a texture handle; buffers have none.
    pub fn store_op(&self) -> (r: Option<StoreOp>)
        ensures
            r == self.spec_store_op(),
    {
        match self {
            ResourceHandle::ExternalTexture { store_op } => Some(*store_op),
            ResourceHandle::TransientTexture { store_op, .. } => Some(*store_op),
            _ => None,
        }
    }

    /// Whether this handle may bind a resource of kind `t`.
    pub open spec fn fits(self, t: ResourceType) -> bool {
        match self {
            ResourceHandle::ExternalTexture { .. } => t is ExternalColor || t is ExternalDepth,
            ResourceHandle::TransientTexture { .. } => t is TransientColor || t is TransientDepth,
            ResourceHandle::ExternalBuffer => t is ExternalBuffer,
            ResourceHandle::TransientBuffer { .. } => t is TransientBuffer,
        }
    }
}

/// `a` and `b` are the same kind of resource with the same store policy;
/// they may differ in size.
pub open spec fn same_class(a: ResourceType, b: ResourceType) -> bool {
    match (a, b) {
        (ResourceType::ExternalColor { force_store: f, .. }, ResourceType::ExternalColor {
            force_store: g,
            ..
        }) => f == g,
        (ResourceType::ExternalDepth { force_store: f, .. }, ResourceType::ExternalDepth {
            force_store: g,
            ..
        }) => f == g,
        (ResourceType::ExternalBuffer, ResourceType::ExternalBuffer) => true,
        (ResourceType::TransientColor { .. }, ResourceType::TransientColor { .. }) => true,
        (ResourceType::TransientDepth { .. }, ResourceType::TransientDepth { .. }) => true,
        (ResourceType::TransientBuffer { .. }, ResourceType::TransientBuffer { .. }) => true,
        _ => false,
    }
}

/// The next version after `v`; it stays put once the counter is full.
pub open spec fn bumped(v: u64) -> u64 {
    if v < u64::MAX {
        (v + 1) as u64
    } else {
        v
    }
}

/// Abstract contents of a registry, indexed by resource id.
pub struct ResourcesView {
    pub descriptors: Seq<ResourceDescriptor>,
    pub handles: Seq<Option<ResourceHandle>>,
    pub versions: Seq<u64>,
}

impl ResourcesView {
    pub open spec fn len(self) -> int {
        self.descriptors.len() as int
    }

    pub open spec fn contains(self, id: ResourceId) -> bool {
        id.index() < self.descriptors.len()
    }

    pub open spec fn wf(self) -> bool {
        &&& self.handles.len() == self.descriptors.len()
        &&& self.versions.len() == self.descriptors.len()
        &&& self.descriptors.len() <= u32::MAX
        &&& forall|i: int| 0 <= i < self.descriptors.len() ==> #[trigger] self.descriptors[i].wf()
        &&& forall|i: int|
            0 <= i < self.descriptors.len() && (#[trigger] self.handles[i]) is Some
                ==> self.handles[i].unwrap().fits(self.descriptors[i].resource_type)
    }

    pub open spec fn kind(self, id: ResourceId) -> ResourceType {
        self.descriptors[id.index()].resource_type
    }

    pub open spec fn is_external(self, id: ResourceId) -> bool {
        self.contains(id) && self.descriptors[id.index()].is_external
    }

    /// The name of `id`; empty for an id that was never registered.
    pub open spec fn name(self, id: ResourceId) -> Seq<char> {
        if self.contains(id) {
            self.descriptors[id.index()].name@
        } else {
            Seq::empty()
        }
    }

    pub open spec fn handle(self, id: ResourceId) -> Option<ResourceHandle> {
        if self.contains(id) {
            self.handles[id.index()]
        } else {
            None
        }
    }

    pub open spec fn version(self, id: ResourceId) -> u64 {
        if self.contains(id) {
            self.versions[id.index()]
        } else {
            0
        }
    }

    /// The descriptors alone, without this frame's handles and versions.
    pub open spec fn kinds(self) -> ResourcesView {
        ResourcesView { descriptors: self.descriptors, handles: Seq::empty(), versions: Seq::empty() }
    }

    /// Both registries hold the same resources, up to texture sizes.
    pub open spec fn same_kinds(self, other: ResourcesView) -> bool {
        &&& self.descriptors.len() == other.descriptors.len()
        &&& forall|i: int|
            0 <= i < self.descriptors.len() ==> same_class(
                (#[trigger] self.descriptors[i]).resource_type,
                other.descriptors[i].resource_type,
            ) && self.descriptors[i].is_external == other.descriptors[i].is_external
    }

    /// The same resources with a new handle for `id`, whose version moves on.
    pub open spec fn rebound(self, id: ResourceId, h: ResourceHandle) -> ResourcesView {
        ResourcesView {
            descriptors: self.descriptors,
            handles: self.handles.update(id.index(), Some(h)),
            versions: self.versions.update(id.index(), bumped(self.versions[id.index()])),
        }
    }
}

/// Descriptors, per-frame handles and binding versions of every resource of a graph.
pub struct RenderGraphResources {
    descriptors: Vec<ResourceDescriptor>,
    handles: Vec<Option<ResourceHandle>>,
    versions: Vec<u64>,
}

impl View for RenderGraphResources {
    type V = ResourcesView;

    closed spec fn view(&self) -> ResourcesView {
        ResourcesView {
            descriptors: self.descriptors@,
            handles: self.handles@,
            versions: self.versions@,
        }
    }
}

impl RenderGraphResources {
    pub fn new() -> (r: Self)
        ensures
            r@.wf(),
            r@.len() == 0,
    {
        RenderGraphResources { descriptors: Vec::new(), handles: Vec::new(), versions: Vec::new() }
    }

    pub fn len(&self) -> (r: usize)
        requires
            self@.wf(),
        ensures
            r == self@.len(),
    {
        self.descriptors.len()
    }

    /// The binding version of `id`; zero for an id that was never registered.
    pub fn get_version(&self, id: ResourceId) -> (r: u64)
        requires
            self@.wf(),
        ensures
            r == self@.version(id),
    {
        if (id.0 as usize) < self.versions.len() {
            self.versions[id.0 as usize]
        } else {
            0
        }
    }

    fn register(&mut self, name: String, resource_type: ResourceType, is_external: bool) -> (r:
        ResourceId)
        requires
            old(self)@.wf(),
            old(self)@.len() < u32::MAX,
            is_external == resource_type.is_external_kind(),
        ensures
            final(self)@.wf(),
            r.index() == old(self)@.len(),
            final(self)@.descriptors == old(self)@.descriptors.push(
                ResourceDescriptor { name, resource_type, is_external },
            ),
            final(self)@.handles == old(self)@.handles.push(None),
            final(self)@.versions == old(self)@.versions.push(0),
    {
        let id = ResourceId(self.descriptors.len() as u32);
        self.descriptors.push(ResourceDescriptor { name, resource_type, is_external });
        self.handles.push(None);
        self.versions.push(0);
        proof {
            let v = self@;
            assert forall|i: int| 0 <= i < v.descriptors.len() implies #[trigger] v.descriptors[i].wf() by {
                if i < old(self)@.len() {
                    assert(v.descriptors[i] == old(self)@.descriptors[i]);
                }
            }
            assert forall|i: int|
                0 <= i < v.descriptors.len() && (#[trigger] v.handles[i]) is Some implies v.handles[i].unwrap().fits(
                v.descriptors[i].resource_type) by {
                assert(i < old(self)@.len());
                assert(v.descriptors[i] == old(self)@.descriptors[i]);
            }
        }
        id
    }

    /// Registers a resource that the caller binds each frame.
    pub fn register_external_resource(&mut self, name: String, resource_type: ResourceType) -> (r:
        ResourceId)
        requires
            old(self)@.wf(),
            old(self)@.len() < u32::MAX,
            resource_type.is_external_kind(),
        ensures
            final(self)@.wf(),
            r.index() == old(self)@.len(),
            final(self)@.descriptors == old(self)@.descriptors.push(
                ResourceDescriptor { name, resource_type, is_external: true },
            ),
            final(self)@.handles == old(self)@.handles.push(None),
            final(self)@.versions == old(self)@.versions.push(0),
    {
        self.register(name, resource_type, true)
    }

    /// Registers a resource that the graph allocates from its aliasing pool.
    pub fn register_transient_resource(&mut self, name: String, resource_type: ResourceType) -> (r:
        ResourceId)
        requires
            old(self)@.wf(),
            old(self)@.len() < u32::MAX,
            !resource_type.is_external_kind(),
        ensures
            final(self)@.wf(),
            r.index() == old(self)@.len(),
            final(self)@.descriptors == old(self)@.descriptors.push(
                ResourceDescriptor { name, resource_type, is_external: false },
            ),
            final(self)@.handles == old(self)@.handles.push(None),
            final(self)@.versions == old(self)@.versions.push(0),
    {
        self.register(name, resource_type, false)
    }

    pub fn get_handle(&self, id: ResourceId) -> (r: Option<ResourceHandle>)
        requires
            self@.wf(),
        ensures
            r == self@.handle(id),
    {
        if (id.0 as usize) < self.handles.len() {
            self.handles[id.0 as usize]
        } else {
            None
        }
    }

    pub fn get_descriptor(&self, id: ResourceId) -> (r: Option<&ResourceDescriptor>)
        requires
            self@.wf(),
        ensures
            self@.contains(id) ==> r == Some(&self@.descriptors[id.index()]),
            !self@.contains(id) ==> r is None,
    {
        if (id.0 as usize) < self.descriptors.len() {
            Some(&self.descriptors[id.0 as usize])
        } else {
            None
        }
    }

    /// The name of `id`, or an empty name for an id that was never registered.
    fn name_of(&self, id: ResourceId) -> (r: String)
        requires
            self@.wf(),
        ensures
            r@ == self@.name(id),
    {
        if (id.0 as usize) < self.descriptors.len() {
            self.descriptors[id.0 as usize].name.clone()
        } else {
            String::new()
        }
    }

    /// Sets `id`'s handle and moves its version on.
    pub(crate) fn bind(&mut self, id: ResourceId, h: ResourceHandle)
        requires
            old(self)@.wf(),
            old(self)@.contains(id),
            h.fits(old(self)@.kind(id)),
        ensures
            final(self)@ == old(self)@.rebound(id, h),
            final(self)@.wf(),
    {
        let i = id.0 as usize;
        self.handles.set(i, Some(h));
        let v = self.versions[i];
        let nv = if v < u64::MAX {
            v + 1
        } else {
            v
        };
        self.versions.set(i, nv);
        proof {
            assert(self@.descriptors == old(self)@.descriptors);
            assert(self@ == old(self)@.rebound(id, h));
        }
    }

    /// The load and store operations of the colour attachment `id`.
    pub fn get_color_attachment(&self, id: ResourceId) -> (r: Result<
        (LoadOp<wgpu::Color>, StoreOp),
        RenderGraphError,
    >)
        requires
            self@.wf(),
        ensures
            self@.handle(id) is None ==> (r matches Err(RenderGraphError::ResourceNotBound {
                id: e,
                resource,
            }) && e == id && resource@ == self@.name(id)),
            self@.handle(id) is Some && !self@.kind(id).is_color() ==> (r matches Err(
                RenderGraphError::TypeMismatch { operation, actual_type, resource },
            ) && operation@ == "get_color_attachment"@ && actual_type@ == kind_word(self@.kind(id)) && resource@ == self@.name(id)),
            self@.handle(id) is Some && self@.kind(id).is_color() ==> r == Ok::<
                (LoadOp<wgpu::Color>, StoreOp),
                RenderGraphError,
            >((self@.kind(id).color_load(), self@.handle(id).unwrap().spec_store_op().unwrap())),
    {
        let h = match self.get_handle(id) {
            Some(h) => h,
            None => {
                return Err(RenderGraphError::ResourceNotBound { resource: self.name_of(id), id });
            },
        };
        let d = &self.descriptors[id.0 as usize];
        match (d.resource_type, h) {
            (ResourceType::ExternalColor { clear_color, .. }, ResourceHandle::ExternalTexture {
                store_op,
            }) => Ok((load_of(clear_color), store_op)),
            (ResourceType::TransientColor { clear_color, .. }, ResourceHandle::TransientTexture {
                store_op,
                ..
            }) => Ok((load_of(clear_color), store_op)),
            _ => Err(
                RenderGraphError::TypeMismatch {
                    operation: "get_color_attachment".to_owned(),
                    actual_type: kind_name(&d.resource_type),
                    resource: d.name.clone(),
                },
            ),
        }
    }

    /// The load and store operations of the depth attachment `id`.
    pub fn get_depth_attachment(&self, id: ResourceId) -> (r: Result<
        (LoadOp<u32>, StoreOp),
        RenderGraphError,
    >)
        requires
            self@.wf(),
        ensures
            self@.handle(id) is None ==> (r matches Err(RenderGraphError::ResourceNotBound {
                id: e,
                resource,
            }) && e == id && resource@ == self@.name(id)),
            self@.handle(id) is Some && !self@.kind(id).is_depth() ==> (r matches Err(
                RenderGraphError::TypeMismatch { operation, actual_type, resource },
            ) && operation@ == "get_depth_attachment"@ && actual_type@ == kind_word(self@.kind(id)) && resource@ == self@.name(id)),
            self@.handle(id) is Some && self@.kind(id).is_depth() ==> r == Ok::<
                (LoadOp<u32>, StoreOp),
                RenderGraphError,
            >((self@.kind(id).depth_load(), self@.handle(id).unwrap().spec_store_op().unwrap())),
    {
        let h = match self.get_handle(id) {
            Some(h) => h,
            None => {
                return Err(RenderGraphError::ResourceNotBound { resource: self.name_of(id), id });
            },
        };
        let d = &self.descriptors[id.0 as usize];
        match (d.resource_type, h) {
            (ResourceType::ExternalDepth { clear_depth, .. }, ResourceHandle::ExternalTexture {
                store_op,
            }) => Ok((load_of(clear_depth), store_op)),
            (ResourceType::TransientDepth { clear_depth, .. }, ResourceHandle::TransientTexture {
                store_op,
                ..
            }) => Ok((load_of(clear_depth), store_op)),
            _ => Err(
                RenderGraphError::TypeMismatch {
                    operation: "get_depth_attachment".to_owned(),
                    actual_type: kind_name(&d.resource_type),
                    resource: d.name.clone(),
                },
            ),
        }
    }

    /// The handle through which a pass samples the texture `id`.
    pub fn get_texture_handle(&self, id: ResourceId) -> (r: Result<ResourceHandle, RenderGraphError>)
        requires
            self@.wf(),
        ensures
            self@.handle(id) is None ==> (r matches Err(RenderGraphError::ResourceNotBound {
                id: e,
                resource,
            }) && e == id && resource@ == self@.name(id)),
            self@.handle(id) is Some && !self@.kind(id).is_texture() ==> (r matches Err(
                RenderGraphError::TypeMismatch { operation, actual_type, resource },
            ) && operation@ == "get_texture_view"@ && actual_type@ == kind_word(self@.kind(id)) && resource@ == self@.name(id)),
            self@.handle(id) is Some && self@.kind(id).is_texture() ==> r == Ok::<
                ResourceHandle,
                RenderGraphError,
            >(self@.handle(id).unwrap()),
    {
        match self.get_handle(id) {
            Some(h) => {
                let d = &self.descriptors[id.0 as usize];
                match h {
                    ResourceHandle::ExternalTexture { .. } | ResourceHandle::TransientTexture {
                        ..
                    } => Ok(h),
                    _ => Err(
                        RenderGraphError::TypeMismatch {
                            operation: "get_texture_view".to_owned(),
                            actual_type: kind_name(&d.resource_type),
                            resource: d.name.clone(),
                        },
                    ),
                }
            },
            None => Err(RenderGraphError::ResourceNotBound { resource: self.name_of(id), id }),
        }
    }

    /// The handle through which a pass uses the buffer `id`.
    pub fn get_buffer_handle(&self, id: ResourceId) -> (r: Result<ResourceHandle, RenderGraphError>)
        requires
            self@.wf(),
        ensures
            self@.handle(id) is None ==> (r matches Err(RenderGraphError::ResourceNotBound {
                id: e,
                resource,
            }) && e == id && resource@ == self@.name(id)),
            self@.handle(id) is Some && !self@.kind(id).is_buffer() ==> (r matches Err(
                RenderGraphError::TypeMismatch { operation, actual_type, resource },
            ) && operation@ == "get_buffer"@ && actual_type@ == kind_word(self@.kind(id)) && resource@ == self@.name(id)),
            self@.handle(id) is Some && self@.kind(id).is_buffer() ==> r == Ok::<
                ResourceHandle,
                RenderGraphError,
            >(self@.handle(id).unwrap()),
    {
        match self.get_handle(id) {
            Some(h) => {
                let d = &self.descriptors[id.0 as usize];
                match h {
                    ResourceHandle::ExternalBuffer | ResourceHandle::TransientBuffer { .. } => Ok(
                        h,
                    ),
                    _ => Err(
                        RenderGraphError::TypeMismatch {
                            operation: "get_buffer".to_owned(),
                            actual_type: kind_name(&d.resource_type),
                            resource: d.name.clone(),
                        },
                    ),
                }
            },
            None => Err(RenderGraphError::ResourceNotBound { resource: self.name_of(id), id }),
        }
    }

    /// Width and height of the transient texture `id`. The size of an external
    /// texture is the caller's own and is not known here.
    pub fn get_texture_size(&self, id: ResourceId) -> (r: Result<(u32, u32), RenderGraphError>)
        requires
            self@.wf(),
        ensures
            !self@.contains(id) ==> (r matches Err(RenderGraphError::DescriptorNotFound { id: e, .. }) && e == id),
            self@.contains(id) && self@.kind(id).texture_descriptor() is Some ==> r == Ok::<
                (u32, u32),
                RenderGraphError,
            >(
                (
                    self@.kind(id).texture_descriptor().unwrap().width,
                    self@.kind(id).texture_descriptor().unwrap().height,
                ),
            ),
            self@.contains(id) && self@.kind(id).is_external_kind() && self@.handle(id) is None
                ==> (r matches Err(RenderGraphError::ResourceNotBound { id: e, resource }) && e == id
                && resource@ == self@.name(id)),
            self@.contains(id) && self@.kind(id).texture_descriptor() is None && !(
            self@.kind(id).is_external_kind() && self@.handle(id) is None) ==> (r matches Err(
                RenderGraphError::TypeMismatch { operation, actual_type, resource },
            ) && operation@ == "get_texture_size"@ && resource@ == self@.name(id) && actual_type@ == if self@.kind(
                id,
            ).is_texture() {
                "external_texture"@
            } else {
                "buffer"@
            }),
    {
        if (id.0 as usize) >= self.descriptors.len() {
            return Err(RenderGraphError::DescriptorNotFound { resource: String::new(), id });
        }
        let d = &self.descriptors[id.0 as usize];
        match d.resource_type {
            ResourceType::TransientColor { descriptor, .. } => Ok(
                (descriptor.width, descriptor.height),
            ),
            ResourceType::TransientDepth { descriptor, .. } => Ok(
                (descriptor.width, descriptor.height),
            ),
            ResourceType::ExternalColor { .. } | ResourceType::ExternalDepth { .. } => {
                if self.handles[id.0 as usize].is_none() {
                    Err(RenderGraphError::ResourceNotBound { resource: d.name.clone(), id })
                } else {
                    Err(
                        RenderGraphError::TypeMismatch {
                            operation: "get_texture_size".to_owned(),
                            actual_type: "external_texture".to_owned(),
                            resource: d.name.clone(),
                        },
                    )
                }
            },
            ResourceType::ExternalBuffer => {
                if self.handles[id.0 as usize].is_none() {
                    Err(RenderGraphError::ResourceNotBound { resource: d.name.clone(), id })
                } else {
                    Err(
                        RenderGraphError::TypeMismatch {
                            operation: "get_texture_size".to_owned(),
                            actual_type: "buffer".to_owned(),
                            resource: d.name.clone(),
                        },
                    )
                }
            },
            ResourceType::TransientBuffer { .. } => Err(
                RenderGraphError::TypeMismatch {
                    operation: "get_texture_size".to_owned(),
                    actual_type: "buffer".to_owned(),
                    resource: d.name.clone(),
                },
            ),
        }
    }

    /// Gives the transient texture `id` a new width and height. Nothing is
    /// allocated here.
    pub fn update_transient_descriptor(&mut self, id: ResourceId, width: u32, height: u32) -> (r:
        Result<(), RenderGraphError>)
        requires
            old(self)@.wf(),
        ensures
            final(self)@.wf(),
            final(self)@.handles == old(self)@.handles,
            final(self)@.versions == old(self)@.versions,
            final(self)@.len() == old(self)@.len(),
            !old(self)@.contains(id) ==> (r matches Err(RenderGraphError::ResourceNotFound { id: e, .. }) && e == id),
            old(self)@.is_external(id) ==> (r matches Err(
                RenderGraphError::CannotResizeExternal { resource },
            ) && resource@ == old(self)@.name(id)),
            old(self)@.contains(id) && old(self)@.kind(id) is TransientBuffer ==> (r matches Err(
                RenderGraphError::CannotResizeBuffer { resource },
            ) && resource@ == old(self)@.name(id)),
            r is Err ==> final(self)@ == old(self)@,
            final(self)@.same_kinds(old(self)@),
            r is Ok <==> old(self)@.contains(id) && old(self)@.kind(id).texture_descriptor() is Some,
            r is Ok ==> final(self)@.descriptors == old(self)@.descriptors.update(
                id.index(),
                ResourceDescriptor {
                    name: old(self)@.descriptors[id.index()].name,
                    resource_type: resized(old(self)@.kind(id), width, height),
                    is_external: false,
                },
            ),
    {
        if (id.0 as usize) >= self.descriptors.len() {
            return Err(RenderGraphError::ResourceNotFound { resource: String::new(), id });
        }
        let i = id.0 as usize;
        proof {
            assert(self@.descriptors[i as int].wf());
        }
        if self.descriptors[i].is_external {
            return Err(
                RenderGraphError::CannotResizeExternal { resource: self.descriptors[i].name.clone() },
            );
        }
        let name = self.descriptors[i].name.clone();
        let updated = match self.descriptors[i].resource_type {
            ResourceType::TransientColor { descriptor, clear_color } => ResourceType::TransientColor {
                descriptor: RenderGraphTextureDescriptor { width, height, ..descriptor },
                clear_color,
            },
            ResourceType::TransientDepth { descriptor, clear_depth } => ResourceType::TransientDepth {
                descriptor: RenderGraphTextureDescriptor { width, height, ..descriptor },
                clear_depth,
            },
            ResourceType::TransientBuffer { .. } => {
                return Err(RenderGraphError::CannotResizeBuffer { resource: name });
            },
            _ => {
                return Err(RenderGraphError::CannotResizeNonTransient { resource: name });
            },
        };
        self.descriptors.set(i, ResourceDescriptor { name, resource_type: updated, is_external: false });
        proof {
            let v = self@;
            assert forall|k: int| 0 <= k < v.descriptors.len() implies #[trigger] v.descriptors[k].wf() by {
                if k != i {
                    assert(v.descriptors[k] == old(self)@.descriptors[k]);
                }
            }
            assert forall|k: int|
                0 <= k < v.descriptors.len() && (#[trigger] v.handles[k]) is Some implies v.handles[k].unwrap().fits(
                v.descriptors[k].resource_type) by {
                assert(old(self)@.handles[k] == v.handles[k]);
                if k != i {
                    assert(v.descriptors[k] == old(self)@.descriptors[k]);
                }
            }
        }
        Ok(())
    }

    /// Binds the caller's texture view to the external texture `id`, with the
    /// `Store` operation until the schedule says otherwise.
    pub fn set_external_texture(&mut self, id: ResourceId) -> (r: Result<(), RenderGraphError>)
        requires
            old(self)@.wf(),
        ensures
            final(self)@.wf(),
            r is Ok <==> old(self)@.contains(id) && (old(self)@.kind(id) is ExternalColor || old(
                self,
            )@.kind(id) is ExternalDepth),
            !old(self)@.contains(id) ==> r matches Err(RenderGraphError::ResourceNotFound { .. }),
            old(self)@.contains(id) && r is Err ==> r matches Err(
                RenderGraphError::TypeMismatch { .. },
            ),
            r is Ok ==> final(self)@ == old(self)@.rebound(
                id,
                ResourceHandle::ExternalTexture { store_op: StoreOp::Store },
            ),
            r is Err ==> final(self)@ == old(self)@,
    {
        if (id.0 as usize) >= self.descriptors.len() {
            return Err(RenderGraphError::ResourceNotFound { resource: String::new(), id });
        }
        let d = &self.descriptors[id.0 as usize];
        match d.resource_type {
            ResourceType::ExternalColor { .. } | ResourceType::ExternalDepth { .. } => {
                self.bind(id, ResourceHandle::ExternalTexture { store_op: StoreOp::Store });
                Ok(())
            },
            _ => Err(
                RenderGraphError::TypeMismatch {
                    operation: "set_external_texture".to_owned(),
                    actual_type: kind_name(&d.resource_type),
                    resource: d.name.clone(),
                },
            ),
        }
    }

    /// Binds the caller's buffer to the external buffer `id`.
    pub fn set_external_buffer(&mut self, id: ResourceId) -> (r: Result<(), RenderGraphError>)
        requires
            old(self)@.wf(),
        ensures
            final(self)@.wf(),
            r is Ok <==> old(self)@.contains(id) && old(self)@.kind(id) is ExternalBuffer,
            !old(self)@.contains(id) ==> r matches Err(RenderGraphError::ResourceNotFound { .. }),
            old(self)@.contains(id) && r is Err ==> r matches Err(
                RenderGraphError::TypeMismatch { .. },
            ),
            r is Ok ==> final(self)@ == old(self)@.rebound(id, ResourceHandle::ExternalBuffer),
            r is Err ==> final(self)@ == old(self)@,
    {
        if (id.0 as usize) >= self.descriptors.len() {
            return Err(RenderGraphError::ResourceNotFound { resource: String::new(), id });
        }
        let d = &self.descriptors[id.0 as usize];
        match d.resource_type {
            ResourceType::ExternalBuffer => {
                self.bind(id, ResourceHandle::ExternalBuffer);
                Ok(())
            },
            _ => Err(
                RenderGraphError::TypeMismatch {
                    operation: "set_external_buffer".to_owned(),
                    actual_type: kind_name(&d.resource_type),
                    resource: d.name.clone(),
                },
            ),
        }
    }

    /// Drops every transient handle; external handles stay.
    pub fn clear_transient_handles(&mut self)
        requires
            old(self)@.wf(),
        ensures
            final(self)@.wf(),
            final(self)@.descriptors == old(self)@.descriptors,
            final(self)@.versions == old(self)@.versions,
            forall|i: int|
                0 <= i < old(self)@.len() ==> #[trigger] final(self)@.handles[i] == if old(
                    self,
                )@.descriptors[i].is_external {
                    old(self)@.handles[i]
                } else {
                    None
                },
    {
        let n = self.handles.len();
        let mut i: usize = 0;
        while i < n
            invariant
                n == self.handles.len(),
                n == old(self)@.len(),
                old(self)@.wf(),
                self.descriptors@ == old(self)@.descriptors,
                self.versions@ == old(self)@.versions,
                forall|k: int|
                    0 <= k < n ==> #[trigger] self.handles@[k] == if k < i && !old(
                        self,
                    )@.descriptors[k].is_external {
                        None
                    } else {
                        old(self)@.handles[k]
                    },
            decreases n - i,
        {
            if !self.descriptors[i].is_external {
                self.handles.set(i, None);
            }
            i = i + 1;
        }
        proof {
            let v = self@;
            assert forall|k: int|
                0 <= k < v.descriptors.len() && (#[trigger] v.handles[k]) is Some implies v.handles[k].unwrap().fits(
                v.descriptors[k].resource_type) by {
                assert(v.handles[k] == old(self)@.handles[k]);
            }
        }
    }

    /// Sets the store operation of the bound external texture `id`; its
    /// version stays, since the bound view is the same.
    pub(crate) fn set_external_store_op(&mut self, id: ResourceId, store_op: StoreOp)
        requires
            old(self)@.wf(),
            old(self)@.handle(id) matches Some(ResourceHandle::ExternalTexture { .. }),
        ensures
            final(self)@.wf(),
            final(self)@ == (ResourcesView {
                handles: old(self)@.handles.update(id.index(), Some(ResourceHandle::ExternalTexture { store_op })),
                ..old(self)@
            }),
    {
        self.handles.set(id.0 as usize, Some(ResourceHandle::ExternalTexture { store_op }));
        proof {
            let v = self@;
            assert forall|i: int|
                0 <= i < v.descriptors.len() && (#[trigger] v.handles[i]) is Some implies v.handles[i].unwrap().fits(
                v.descriptors[i].resource_type) by {
                assert(old(self)@.handles[i] is Some);
            }
        }
    }
}

/// The load operation for an optional clear value.
fn load_of<V: Copy>(clear: Option<V>) -> (r: LoadOp<V>)
    ensures
        r == (match clear {
            Some(v) => LoadOp::Clear(v),
            None => LoadOp::Load,
        }),
{
    match clear {
        Some(v) => LoadOp::Clear(v),
        None => LoadOp::Load,
    }
}

/// The word that error messages use for a resource kind.
pub open spec fn kind_word(t: ResourceType) -> Seq<char> {
    if t.is_color() {
        "color"@
    } else if t.is_depth() {
        "depth"@
    } else {
        "buffer"@
    }
}

fn kind_name(t: &ResourceType) -> (r: String)
    ensures
        r@ == kind_word(*t),
{
    match t {
        ResourceType::ExternalColor { .. } | ResourceType::TransientColor { .. } => "color".to_owned(),
        ResourceType::ExternalDepth { .. } | ResourceType::TransientDepth { .. } => "depth".to_owned(),
        _ => "buffer".to_owned(),
    }
}

/// A transient texture kind with a new width and height.
pub open spec fn resized(t: ResourceType, width: u32, height: u32) -> ResourceType {
    match t {
        ResourceType::TransientColor { descriptor, clear_color } => ResourceType::TransientColor {
            descriptor: RenderGraphTextureDescriptor { width, height, ..descriptor },
            clear_color,
        },
        ResourceType::TransientDepth { descriptor, clear_depth } => ResourceType::TransientDepth {
            descriptor: RenderGraphTextureDescriptor { width, height, ..descriptor },
            clear_depth,
        },
        _ => t,
    }
}

} // verus!
