use wgpu_render_graph::{
    ColorInvertConfig, ComputeGrayscaleConfig, EdgeDetectionConfig, EguiPass, GaussianBlurConfig, GrayscaleConfig,
    PassType, QueueType, ResourceId, ResourceTemplate,
};

#[test]
fn resource_id_new_keeps_value() {
    assert_eq!(ResourceId::new(42), ResourceId(42));
    assert_ne!(ResourceId::new(1), ResourceId::new(2));
}

#[test]
fn configs_start_disabled() {
    assert!(!GaussianBlurConfig::default().enabled);
    assert!(!GrayscaleConfig::default().enabled);
    assert!(!ColorInvertConfig::default().enabled);
    assert!(!EdgeDetectionConfig::default().enabled);
    assert!(!ComputeGrayscaleConfig::default().enabled);
}

#[test]
fn egui_pass_and_kinds() {
    let _pass = EguiPass::new();
    assert_ne!(PassType::Render, PassType::Compute);
    assert_ne!(QueueType::Graphics, QueueType::Compute);
}

#[test]
fn template_shapes() {
    let t = ResourceTemplate::new(wgpu::TextureFormat::Rgba8Unorm, 128, 64);
    assert_eq!((t.descriptor.width, t.descriptor.height), (128, 64));
    assert_eq!(t.cube_map().descriptor.depth_or_array_layers, 6);
    assert_eq!(t.dimension_3d(4).descriptor.depth_or_array_layers, 4);
    assert_eq!(t.array_layers(3).descriptor.depth_or_array_layers, 3);
    assert_eq!(t.sample_count(4).descriptor.sample_count, 4);
    assert_eq!(t.mip_levels(5).descriptor.mip_level_count, 5);
}

#[test]
fn builder_defaults() {
    let g = wgpu_render_graph::RenderGraph::new();
    let c = g.add_color_texture("c");
    assert_eq!(c.descriptor.format, wgpu::TextureFormat::Rgba8UnormSrgb);
    assert_eq!(c.descriptor.dimension, wgpu::TextureDimension::D2);
    assert!(c.force_store);
    let d = g.add_depth_texture("d");
    assert_eq!(d.descriptor.format, wgpu::TextureFormat::Depth32Float);
    let b = g.add_buffer("b");
    assert_eq!(b.descriptor.size, 256);
    let t = ResourceTemplate::new(wgpu::TextureFormat::Rgba8Unorm, 8, 8);
    assert_eq!(t.dimension_3d(2).descriptor.dimension, wgpu::TextureDimension::D3);
    assert_eq!(t.dimension_3d(2).cube_map().descriptor.dimension, wgpu::TextureDimension::D2);
}
