use vstd::prelude::*;

use crate::graph::RenderGraph;
use crate::resources::{
    RenderGraphBufferDescriptor, RenderGraphTextureDescriptor, ResourceDescriptor, ResourceId, ResourceType,
};

verus! {

/// `wgpu::TextureUsages::COPY_SRC`, as bits.
pub const TEXTURE_USAGE_COPY_SRC: u32 = 1;
/// `wgpu::TextureUsages::COPY_DST`, as bits.
pub const TEXTURE_USAGE_COPY_DST: u32 = 2;
/// `wgpu::TextureUsages::TEXTURE_BINDING`, as bits.
pub const TEXTURE_USAGE_TEXTURE_BINDING: u32 = 4;
/// `wgpu::TextureUsages::STORAGE_BINDING`, as bits.
pub const TEXTURE_USAGE_STORAGE_BINDING: u32 = 8;
/// `wgpu::TextureUsages::RENDER_ATTACHMENT`, as bits.
pub const TEXTURE_USAGE_RENDER_ATTACHMENT: u32 = 16;
/// `wgpu::BufferUsages::COPY_DST`, as bits.
pub const BUFFER_USAGE_COPY_DST: u32 = 8;
/// `wgpu::BufferUsages::STORAGE`, as bits.
pub const BUFFER_USAGE_STORAGE: u32 = 128;

/// Relies on `wgpu::TextureFormat::Rgba8UnormSrgb`, the default colour format.
#[verifier::external_body]
fn rgba8_unorm_srgb() -> wgpu::TextureFormat {
    wgpu::TextureFormat::Rgba8UnormSrgb
}

/// Relies on `wgpu::TextureFormat::Depth32Float`, the default depth format.
#[verifier::external_body]
fn depth32_float() -> wgpu::TextureFormat {
    wgpu::TextureFormat::Depth32Float
}

/// Relies on `wgpu::TextureDimension::D2`.
#[verifier::external_body]
fn dimension_2d() -> wgpu::TextureDimension {
    wgpu::TextureDimension::D2
}

/// Relies on `wgpu::TextureDimension::D3`.
#[verifier::external_body]
fn dimension_3d() -> wgpu::TextureDimension {
    wgpu::TextureDimension::D3
}

/// A 1x1 single-sampled 2D texture of `format` that can be rendered to and sampled.
fn default_texture(format: wgpu::TextureFormat) -> (d: RenderGraphTextureDescriptor)
    ensures
        d.format == format,
        d.width == 1 && d.height == 1,
        d.usage == TEXTURE_USAGE_RENDER_ATTACHMENT | TEXTURE_USAGE_TEXTURE_BINDING,
        d.sample_count == 1 && d.mip_level_count == 1 && d.depth_or_array_layers == 1,
{
    RenderGraphTextureDescriptor {
        format,
        width: 1,
        height: 1,
        usage: TEXTURE_USAGE_RENDER_ATTACHMENT | TEXTURE_USAGE_TEXTURE_BINDING,
        sample_count: 1,
        mip_level_count: 1,
        dimension: dimension_2d(),
        depth_or_array_layers: 1,
    }
}

/// Declares a colour texture; `external` or `transient` registers it.
pub struct ColorTextureBuilder {
    pub name: String,
    pub descriptor: RenderGraphTextureDescriptor,
    pub clear_color: Option<wgpu::Color>,
    pub force_store: bool,
}

impl ColorTextureBuilder {
    pub fn format(self, format: wgpu::TextureFormat) -> (r: Self)
        ensures
            r == (ColorTextureBuilder { descriptor: RenderGraphTextureDescriptor { format, ..self.descriptor }, ..self }),
    {
        ColorTextureBuilder { descriptor: RenderGraphTextureDescriptor { format, ..self.descriptor }, ..self }
    }

    pub fn size(self, width: u32, height: u32) -> (r: Self)
        ensures
            r == (ColorTextureBuilder { descriptor: RenderGraphTextureDescriptor { width, height, ..self.descriptor }, ..self }),
    {
        ColorTextureBuilder { descriptor: RenderGraphTextureDescriptor { width, height, ..self.descriptor }, ..self }
    }

    /// Sets the usage, as the bits of a `wgpu::TextureUsages` mask.
    pub fn usage(self, usage: u32) -> (r: Self)
        ensures
            r == (ColorTextureBuilder { descriptor: RenderGraphTextureDescriptor { usage, ..self.descriptor }, ..self }),
    {
        ColorTextureBuilder { descriptor: RenderGraphTextureDescriptor { usage, ..self.descriptor }, ..self }
    }

    pub fn sample_count(self, count: u32) -> (r: Self)
        ensures
            r == (ColorTextureBuilder { descriptor: RenderGraphTextureDescriptor { sample_count: count, ..self.descriptor }, ..self }),
    {
        ColorTextureBuilder { descriptor: RenderGraphTextureDescriptor { sample_count: count, ..self.descriptor }, ..self }
    }

    pub fn mip_levels(self, levels: u32) -> (r: Self)
        ensures
            r == (ColorTextureBuilder { descriptor: RenderGraphTextureDescriptor { mip_level_count: levels, ..self.descriptor }, ..self }),
    {
        ColorTextureBuilder { descriptor: RenderGraphTextureDescriptor { mip_level_count: levels, ..self.descriptor }, ..self }
    }

    pub fn clear_color(self, color: wgpu::Color) -> (r: Self)
        ensures
            r == (ColorTextureBuilder { clear_color: Some(color), ..self }),
    {
        ColorTextureBuilder { clear_color: Some(color), ..self }
    }

    /// An external texture built this way is stored only when a later pass reads it.
    pub fn no_store(self) -> (r: Self)
        ensures
            r == (ColorTextureBuilder { force_store: false, ..self }),
    {
        ColorTextureBuilder { force_store: false, ..self }
    }

    pub fn external(self, graph: &mut RenderGraph) -> (id: ResourceId)
        requires
            old(graph)@.wf(),
            old(graph)@.resources.len() < u32::MAX,
        ensures
            final(graph)@.wf(),
            id.index() == old(graph)@.resources.len(),
            final(graph)@.resources.descriptors == old(graph)@.resources.descriptors.push(
                ResourceDescriptor {
                    name: self.name,
                    resource_type: ResourceType::ExternalColor { clear_color: self.clear_color, force_store: self.force_store },
                    is_external: true,
                },
            ),
            final(graph)@.nodes == old(graph)@.nodes,
    {
        graph.register_external_resource(
            self.name,
            ResourceType::ExternalColor { clear_color: self.clear_color, force_store: self.force_store },
        )
    }

    pub fn transient(self, graph: &mut RenderGraph) -> (id: ResourceId)
        requires
            old(graph)@.wf(),
            old(graph)@.resources.len() < u32::MAX,
        ensures
            final(graph)@.wf(),
            id.index() == old(graph)@.resources.len(),
            final(graph)@.resources.descriptors == old(graph)@.resources.descriptors.push(
                ResourceDescriptor {
                    name: self.name,
                    resource_type: ResourceType::TransientColor { descriptor: self.descriptor, clear_color: self.clear_color },
                    is_external: false,
                },
            ),
            final(graph)@.nodes == old(graph)@.nodes,
    {
        graph.register_transient_resource(
            self.name,
            ResourceType::TransientColor { descriptor: self.descriptor, clear_color: self.clear_color },
        )
    }
}

/// Declares a depth texture; `external` or `transient` registers it. The
/// clear depth is held as the bits of its `f32`.
pub struct DepthTextureBuilder {
    pub name: String,
    pub descriptor: RenderGraphTextureDescriptor,
    pub clear_depth: Option<u32>,
    pub force_store: bool,
}

impl DepthTextureBuilder {
    pub fn format(self, format: wgpu::TextureFormat) -> (r: Self)
        ensures
            r == (DepthTextureBuilder { descriptor: RenderGraphTextureDescriptor { format, ..self.descriptor }, ..self }),
    {
        DepthTextureBuilder { descriptor: RenderGraphTextureDescriptor { format, ..self.descriptor }, ..self }
    }

    pub fn size(self, width: u32, height: u32) -> (r: Self)
        ensures
            r == (DepthTextureBuilder { descriptor: RenderGraphTextureDescriptor { width, height, ..self.descriptor }, ..self }),
    {
        DepthTextureBuilder { descriptor: RenderGraphTextureDescriptor { width, height, ..self.descriptor }, ..self }
    }

    /// Sets the usage, as the bits of a `wgpu::TextureUsages` mask.
    pub fn usage(self, usage: u32) -> (r: Self)
        ensures
            r == (DepthTextureBuilder { descriptor: RenderGraphTextureDescriptor { usage, ..self.descriptor }, ..self }),
    {
        DepthTextureBuilder { descriptor: RenderGraphTextureDescriptor { usage, ..self.descriptor }, ..self }
    }

    pub fn sample_count(self, count: u32) -> (r: Self)
        ensures
            r == (DepthTextureBuilder { descriptor: RenderGraphTextureDescriptor { sample_count: count, ..self.descriptor }, ..self }),
    {
        DepthTextureBuilder { descriptor: RenderGraphTextureDescriptor { sample_count: count, ..self.descriptor }, ..self }
    }

    pub fn mip_levels(self, levels: u32) -> (r: Self)
        ensures
            r == (DepthTextureBuilder { descriptor: RenderGraphTextureDescriptor { mip_level_count: levels, ..self.descriptor }, ..self }),
    {
        DepthTextureBuilder { descriptor: RenderGraphTextureDescriptor { mip_level_count: levels, ..self.descriptor }, ..self }
    }

    /// Clears to the depth whose `f32` bit pattern is `depth_bits`.
    pub fn clear_depth(self, depth_bits: u32) -> (r: Self)
        ensures
            r == (DepthTextureBuilder { clear_depth: Some(depth_bits), ..self }),
    {
        DepthTextureBuilder { clear_depth: Some(depth_bits), ..self }
    }

    pub fn no_store(self) -> (r: Self)
        ensures
            r == (DepthTextureBuilder { force_store: false, ..self }),
    {
        DepthTextureBuilder { force_store: false, ..self }
    }

    pub fn external(self, graph: &mut RenderGraph) -> (id: ResourceId)
        requires
            old(graph)@.wf(),
            old(graph)@.resources.len() < u32::MAX,
        ensures
            final(graph)@.wf(),
            id.index() == old(graph)@.resources.len(),
            final(graph)@.resources.descriptors == old(graph)@.resources.descriptors.push(
                ResourceDescriptor {
                    name: self.name,
                    resource_type: ResourceType::ExternalDepth { clear_depth: self.clear_depth, force_store: self.force_store },
                    is_external: true,
                },
            ),
            final(graph)@.nodes == old(graph)@.nodes,
    {
        graph.register_external_resource(
            self.name,
            ResourceType::ExternalDepth { clear_depth: self.clear_depth, force_store: self.force_store },
        )
    }

    pub fn transient(self, graph: &mut RenderGraph) -> (id: ResourceId)
        requires
            old(graph)@.wf(),
            old(graph)@.resources.len() < u32::MAX,
        ensures
            final(graph)@.wf(),
            id.index() == old(graph)@.resources.len(),
            final(graph)@.resources.descriptors == old(graph)@.resources.descriptors.push(
                ResourceDescriptor {
                    name: self.name,
                    resource_type: ResourceType::TransientDepth { descriptor: self.descriptor, clear_depth: self.clear_depth },
                    is_external: false,
                },
            ),
            final(graph)@.nodes == old(graph)@.nodes,
    {
        graph.register_transient_resource(
            self.name,
            ResourceType::TransientDepth { descriptor: self.descriptor, clear_depth: self.clear_depth },
        )
    }
}

/// Declares a buffer; `external` or `transient` registers it.
pub struct BufferBuilder {
    pub name: String,
    pub descriptor: RenderGraphBufferDescriptor,
}

impl BufferBuilder {
    pub fn size(self, size: u64) -> (r: Self)
        ensures
            r == (BufferBuilder { descriptor: RenderGraphBufferDescriptor { size, ..self.descriptor }, ..self }),
    {
        BufferBuilder { descriptor: RenderGraphBufferDescriptor { size, ..self.descriptor }, ..self }
    }

    /// Sets the usage, as the bits of a `wgpu::BufferUsages` mask.
    pub fn usage(self, usage: u32) -> (r: Self)
        ensures
            r == (BufferBuilder { descriptor: RenderGraphBufferDescriptor { usage, ..self.descriptor }, ..self }),
    {
        BufferBuilder { descriptor: RenderGraphBufferDescriptor { usage, ..self.descriptor }, ..self }
    }

    pub fn mapped_at_creation(self, mapped: bool) -> (r: Self)
        ensures
            r == (BufferBuilder { descriptor: RenderGraphBufferDescriptor { mapped_at_creation: mapped, ..self.descriptor }, ..self }),
    {
        BufferBuilder { descriptor: RenderGraphBufferDescriptor { mapped_at_creation: mapped, ..self.descriptor }, ..self }
    }

    pub fn external(self, graph: &mut RenderGraph) -> (id: ResourceId)
        requires
            old(graph)@.wf(),
            old(graph)@.resources.len() < u32::MAX,
        ensures
            final(graph)@.wf(),
            id.index() == old(graph)@.resources.len(),
            final(graph)@.resources.descriptors == old(graph)@.resources.descriptors.push(
                ResourceDescriptor { name: self.name, resource_type: ResourceType::ExternalBuffer, is_external: true },
            ),
            final(graph)@.nodes == old(graph)@.nodes,
    {
        graph.register_external_resource(self.name, ResourceType::ExternalBuffer)
    }

    pub fn transient(self, graph: &mut RenderGraph) -> (id: ResourceId)
        requires
            old(graph)@.wf(),
            old(graph)@.resources.len() < u32::MAX,
        ensures
            final(graph)@.wf(),
            id.index() == old(graph)@.resources.len(),
            final(graph)@.resources.descriptors == old(graph)@.resources.descriptors.push(
                ResourceDescriptor {
                    name: self.name,
                    resource_type: ResourceType::TransientBuffer { descriptor: self.descriptor },
                    is_external: false,
                },
            ),
            final(graph)@.nodes == old(graph)@.nodes,
    {
        graph.register_transient_resource(self.name, ResourceType::TransientBuffer { descriptor: self.descriptor })
    }
}

/// Shared parameters for a family of colour textures.
#[derive(Clone, Copy)]
pub struct ResourceTemplate {
    pub descriptor: RenderGraphTextureDescriptor,
}

impl ResourceTemplate {
    /// A single-sampled 2D template that can be rendered to and sampled.
    pub fn new(format: wgpu::TextureFormat, width: u32, height: u32) -> (t: Self)
        ensures
            t.descriptor.format == format,
            t.descriptor.width == width && t.descriptor.height == height,
            t.descriptor.usage == TEXTURE_USAGE_RENDER_ATTACHMENT | TEXTURE_USAGE_TEXTURE_BINDING,
            t.descriptor.sample_count == 1 && t.descriptor.mip_level_count == 1,
            t.descriptor.depth_or_array_layers == 1,
    {
        ResourceTemplate { descriptor: RenderGraphTextureDescriptor { width, height, ..default_texture(format) } }
    }

    pub fn usage(self, usage: u32) -> (r: Self)
        ensures
            r.descriptor == (RenderGraphTextureDescriptor { usage, ..self.descriptor }),
    {
        ResourceTemplate { descriptor: RenderGraphTextureDescriptor { usage, ..self.descriptor } }
    }

    pub fn sample_count(self, count: u32) -> (r: Self)
        ensures
            r.descriptor == (RenderGraphTextureDescriptor { sample_count: count, ..self.descriptor }),
    {
        ResourceTemplate { descriptor: RenderGraphTextureDescriptor { sample_count: count, ..self.descriptor } }
    }

    pub fn mip_levels(self, levels: u32) -> (r: Self)
        ensures
            r.descriptor == (RenderGraphTextureDescriptor { mip_level_count: levels, ..self.descriptor }),
    {
        ResourceTemplate { descriptor: RenderGraphTextureDescriptor { mip_level_count: levels, ..self.descriptor } }
    }

    /// Six 2D layers.
    pub fn cube_map(self) -> (r: Self)
        ensures
            r.descriptor.depth_or_array_layers == 6,
            r.descriptor.format == self.descriptor.format,
            r.descriptor.width == self.descriptor.width && r.descriptor.height == self.descriptor.height,
            r.descriptor.usage == self.descriptor.usage,
    {
        ResourceTemplate {
            descriptor: RenderGraphTextureDescriptor { dimension: dimension_2d(), depth_or_array_layers: 6, ..self.descriptor },
        }
    }

    pub fn array_layers(self, layers: u32) -> (r: Self)
        ensures
            r.descriptor == (RenderGraphTextureDescriptor { depth_or_array_layers: layers, ..self.descriptor }),
    {
        ResourceTemplate { descriptor: RenderGraphTextureDescriptor { depth_or_array_layers: layers, ..self.descriptor } }
    }

    /// A 3D texture `depth` slices deep.
    pub fn dimension_3d(self, depth: u32) -> (r: Self)
        ensures
            r.descriptor.depth_or_array_layers == depth,
            r.descriptor.format == self.descriptor.format,
            r.descriptor.width == self.descriptor.width && r.descriptor.height == self.descriptor.height,
            r.descriptor.usage == self.descriptor.usage,
    {
        ResourceTemplate {
            descriptor: RenderGraphTextureDescriptor { dimension: dimension_3d(), depth_or_array_layers: depth, ..self.descriptor },
        }
    }
}

impl RenderGraph {
    /// Starts declaring a colour texture: 1x1 RGBA8 sRGB, render target and
    /// sampled, stored when external.
    pub fn add_color_texture(&self, name: &str) -> (b: ColorTextureBuilder)
        ensures
            b.name@ == name@,
            b.descriptor.width == 1 && b.descriptor.height == 1,
            b.descriptor.usage == TEXTURE_USAGE_RENDER_ATTACHMENT | TEXTURE_USAGE_TEXTURE_BINDING,
            b.descriptor.sample_count == 1 && b.descriptor.mip_level_count == 1,
            b.clear_color is None,
            b.force_store,
    {
        ColorTextureBuilder {
            name: name.to_owned(),
            descriptor: default_texture(rgba8_unorm_srgb()),
            clear_color: None,
            force_store: true,
        }
    }

    /// Starts declaring a depth texture: 1x1 32-bit float depth, render
    /// target and sampled, stored when external.
    pub fn add_depth_texture(&self, name: &str) -> (b: DepthTextureBuilder)
        ensures
            b.name@ == name@,
            b.descriptor.width == 1 && b.descriptor.height == 1,
            b.descriptor.usage == TEXTURE_USAGE_RENDER_ATTACHMENT | TEXTURE_USAGE_TEXTURE_BINDING,
            b.descriptor.sample_count == 1 && b.descriptor.mip_level_count == 1,
            b.clear_depth is None,
            b.force_store,
    {
        DepthTextureBuilder {
            name: name.to_owned(),
            descriptor: default_texture(depth32_float()),
            clear_depth: None,
            force_store: true,
        }
    }

    /// Starts declaring a buffer: 256 bytes of storage that can be copied into.
    pub fn add_buffer(&self, name: &str) -> (b: BufferBuilder)
        ensures
            b.name@ == name@,
            b.descriptor.size == 256,
            b.descriptor.usage == BUFFER_USAGE_STORAGE | BUFFER_USAGE_COPY_DST,
            !b.descriptor.mapped_at_creation,
    {
        BufferBuilder {
            name: name.to_owned(),
            descriptor: RenderGraphBufferDescriptor {
                size: 256,
                usage: BUFFER_USAGE_STORAGE | BUFFER_USAGE_COPY_DST,
                mapped_at_creation: false,
            },
        }
    }

    /// Registers a transient colour texture with the template's parameters.
    pub fn transient_color_from_template(&mut self, name: &str, template: &ResourceTemplate) -> (id: ResourceId)
        requires
            old(self)@.wf(),
            old(self)@.resources.len() < u32::MAX,
        ensures
            final(self)@.wf(),
            id.index() == old(self)@.resources.len(),
            final(self)@.resources.descriptors.len() == old(self)@.resources.descriptors.len() + 1,
            final(self)@.resources.descriptors.last().name@ == name@,
            final(self)@.resources.descriptors.last().resource_type == (ResourceType::TransientColor {
                descriptor: template.descriptor,
                clear_color: None,
            }),
    {
        self.register_transient_resource(
            name.to_owned(),
            ResourceType::TransientColor { descriptor: template.descriptor, clear_color: None },
        )
    }

    /// Registers a transient colour texture with the template's parameters,
    /// cleared to `clear_color`.
    pub fn transient_color_from_template_with_clear(
        &mut self,
        name: &str,
        template: &ResourceTemplate,
        clear_color: wgpu::Color,
    ) -> (id: ResourceId)
        requires
            old(self)@.wf(),
            old(self)@.resources.len() < u32::MAX,
        ensures
            final(self)@.wf(),
            id.index() == old(self)@.resources.len(),
            final(self)@.resources.descriptors.len() == old(self)@.resources.descriptors.len() + 1,
            final(self)@.resources.descriptors.last().name@ == name@,
            final(self)@.resources.descriptors.last().resource_type == (ResourceType::TransientColor {
                descriptor: template.descriptor,
                clear_color: Some(clear_color),
            }),
    {
        self.register_transient_resource(
            name.to_owned(),
            ResourceType::TransientColor { descriptor: template.descriptor, clear_color: Some(clear_color) },
        )
    }

    /// Registers an external colour texture that is always stored; the
    /// caller's view decides its size.
    pub fn external_color_from_template(&mut self, name: &str, template: &ResourceTemplate) -> (id: ResourceId)
        requires
            old(self)@.wf(),
            old(self)@.resources.len() < u32::MAX,
        ensures
            final(self)@.wf(),
            id.index() == old(self)@.resources.len(),
            final(self)@.resources.descriptors.len() == old(self)@.resources.descriptors.len() + 1,
            final(self)@.resources.descriptors.last().name@ == name@,
            final(self)@.resources.descriptors.last().resource_type == (ResourceType::ExternalColor {
                clear_color: None,
                force_store: true,
            }),
    {
        self.register_external_resource(name.to_owned(), ResourceType::ExternalColor { clear_color: None, force_store: true })
    }
}

} // verus!
