use wgpu_render_graph::{
    FramePlan, LoadOp, PoolDescriptor, RenderGraph, RenderGraphError, ResourceHandle, ResourceId, ResourceType,
    SlotKind, StoreOp, SubGraphInputSlot, BUFFER_USAGE_COPY_DST, BUFFER_USAGE_STORAGE, TEXTURE_USAGE_RENDER_ATTACHMENT,
    TEXTURE_USAGE_STORAGE_BINDING, TEXTURE_USAGE_TEXTURE_BINDING,
};

fn s(v: &str) -> String {
    v.to_string()
}

fn slots(names: &[&str]) -> Vec<String> {
    names.iter().map(|n| n.to_string()).collect()
}

/// Adds a pass whose read slot `inN` and write slot `outN` are bound to the given resources.
fn pass(g: &mut RenderGraph, name: &str, reads: &[ResourceId], writes: &[ResourceId]) -> usize {
    let mut mappings = Vec::new();
    let mut r = Vec::new();
    let mut w = Vec::new();
    for (i, id) in reads.iter().enumerate() {
        let slot = format!("in{}", i);
        r.push(slot.clone());
        mappings.push((slot, *id));
    }
    for (i, id) in writes.iter().enumerate() {
        let slot = format!("out{}", i);
        w.push(slot.clone());
        mappings.push((slot, *id));
    }
    g.add_pass(s(name), &r, &w, &vec![], mappings).unwrap()
}

fn transient(g: &mut RenderGraph, name: &str) -> ResourceId {
    let b = g.add_color_texture(name).size(640, 480);
    b.transient(g)
}

fn surface(g: &mut RenderGraph) -> ResourceId {
    let b = g.add_color_texture("surface");
    b.external(g)
}

fn frame(g: &mut RenderGraph) -> FramePlan {
    let n = g.nodes().len();
    g.prepare_frame(&vec![true; n]).unwrap()
}

fn alias_of(g: &RenderGraph, id: ResourceId) -> Option<usize> {
    g.aliasing_info().unwrap().aliases[id.0 as usize]
}

fn pool_count(g: &RenderGraph) -> usize {
    g.aliasing_info().unwrap().pools.len()
}

fn linear_chain() -> (RenderGraph, ResourceId, ResourceId, ResourceId) {
    let mut g = RenderGraph::new();
    let surface = surface(&mut g);
    let a = transient(&mut g, "a");
    let b = transient(&mut g, "b");
    pass(&mut g, "Scene", &[], &[a]);
    pass(&mut g, "Tonemap", &[a], &[b]);
    pass(&mut g, "Blit", &[b], &[surface]);
    (g, surface, a, b)
}

#[test]
fn linear_post_chain() {
    let (mut g, surface, a, b) = linear_chain();
    g.compile().unwrap();
    assert_eq!(g.execution_order(), &vec![0, 1, 2]);
    assert_ne!(alias_of(&g, a), None);
    assert_ne!(alias_of(&g, b), None);
    assert_ne!(alias_of(&g, a), alias_of(&g, b));
    assert_eq!(g.store_ops()[a.0 as usize], StoreOp::Store);
    assert_eq!(g.store_ops()[b.0 as usize], StoreOp::Store);
    assert_eq!(g.store_ops()[surface.0 as usize], StoreOp::Store);
}

#[test]
fn disjoint_lifetimes_alias() {
    let mut g = RenderGraph::new();
    let surface = surface(&mut g);
    let a = transient(&mut g, "a");
    let a2 = transient(&mut g, "a2");
    let b = transient(&mut g, "b");
    pass(&mut g, "Scene", &[], &[a]);
    pass(&mut g, "Copy", &[a], &[a2]);
    pass(&mut g, "Tonemap", &[a2], &[b]);
    pass(&mut g, "Blit", &[b], &[surface]);
    g.compile().unwrap();
    assert_eq!(g.execution_order(), &vec![0, 1, 2, 3]);
    assert_eq!(pool_count(&g), 2);
    assert_eq!(alias_of(&g, a), alias_of(&g, b));
    assert_ne!(alias_of(&g, a), alias_of(&g, a2));
}

#[test]
fn dead_pass_culling() {
    let (mut g, surface, _a, _b) = linear_chain();
    let z = transient(&mut g, "z");
    let dangle = pass(&mut g, "Dangle", &[], &[z]);
    g.set_external_texture(surface).unwrap();
    g.compile().unwrap();
    assert!(g.culled_passes()[dangle]);
    assert_eq!(alias_of(&g, z), None);
    assert_eq!(pool_count(&g), 2);
    let plan = frame(&mut g);
    assert_eq!(plan.passes, vec![0, 1, 2]);
    assert!(!plan.bound.contains(&z));
}

#[test]
fn usage_widening() {
    let mut g = RenderGraph::new();
    let surface = surface(&mut g);
    let x = g.add_color_texture("x").size(64, 64).usage(TEXTURE_USAGE_RENDER_ATTACHMENT | TEXTURE_USAGE_TEXTURE_BINDING).transient(&mut g);
    let c = g.add_color_texture("c").size(32, 32).transient(&mut g);
    let y = g.add_color_texture("y").size(64, 64).usage(TEXTURE_USAGE_RENDER_ATTACHMENT | TEXTURE_USAGE_STORAGE_BINDING).transient(&mut g);
    pass(&mut g, "Draw", &[], &[x]);
    pass(&mut g, "Shrink", &[x], &[c]);
    pass(&mut g, "Expand", &[c], &[y]);
    pass(&mut g, "Present", &[y], &[surface]);
    g.set_external_texture(surface).unwrap();
    g.compile().unwrap();
    assert_eq!(pool_count(&g), 2);
    let slot = alias_of(&g, x).unwrap();
    assert_eq!(alias_of(&g, y), Some(slot));
    let union = TEXTURE_USAGE_RENDER_ATTACHMENT | TEXTURE_USAGE_TEXTURE_BINDING | TEXTURE_USAGE_STORAGE_BINDING;
    match g.aliasing_info().unwrap().pools[slot].descriptor {
        PoolDescriptor::Texture(d) => assert_eq!(d.usage, union),
        PoolDescriptor::Buffer(_) => panic!("texture slot expected"),
    }
    let plan = frame(&mut g);
    assert!(plan.new_pools.contains(&slot));
}

#[test]
fn external_rebind_triggers_invalidation() {
    let (mut g, surface, _a, _b) = linear_chain();
    g.set_external_texture(surface).unwrap();
    frame(&mut g);
    g.set_external_texture(surface).unwrap();
    let plan = frame(&mut g);
    assert_eq!(plan.invalidate.iter().filter(|p| **p == 2).count(), 1);
    assert_eq!(plan.invalidate, vec![2]);
}

#[test]
fn two_passes_reading_each_others_output_compile_in_registration_order() {
    let mut g = RenderGraph::new();
    let x = transient(&mut g, "x");
    let y = transient(&mut g, "y");
    pass(&mut g, "A", &[y], &[x]);
    pass(&mut g, "B", &[x], &[y]);
    assert!(g.compile().is_ok());
    assert_eq!(g.execution_order(), &vec![0, 1]);
}

#[test]
fn empty_graph_runs_nothing() {
    let mut g = RenderGraph::new();
    let plan = frame(&mut g);
    assert!(plan.passes.is_empty());
    assert!(plan.new_pools.is_empty());
    assert!(plan.bound.is_empty());
    assert_eq!(pool_count(&g), 0);
}

#[test]
fn read_never_written_fails() {
    let mut g = RenderGraph::new();
    let surface = surface(&mut g);
    let t = transient(&mut g, "t");
    pass(&mut g, "Blit", &[t], &[surface]);
    match g.compile() {
        Err(RenderGraphError::ResourceNeverWritten { id, pass, resource }) => {
            assert_eq!(id, t);
            assert_eq!(pass, "Blit");
            assert_eq!(resource, "t");
        }
        _ => panic!("expected ResourceNeverWritten"),
    }
    assert!(g.needs_recompile());
    assert!(g.execution_order().is_empty());
}

#[test]
fn unordered_writers_fail() {
    let mut g = RenderGraph::new();
    let surface = surface(&mut g);
    let t = transient(&mut g, "t");
    pass(&mut g, "W1", &[], &[t]);
    pass(&mut g, "W2", &[], &[t]);
    pass(&mut g, "Blit", &[t], &[surface]);
    match g.compile() {
        Err(RenderGraphError::AmbiguousProducer { id, first, second, .. }) => {
            assert_eq!(id, t);
            assert_eq!((first.as_str(), second.as_str()), ("W1", "W2"));
        }
        _ => panic!("expected AmbiguousProducer"),
    }
}

#[test]
fn writers_ordered_by_a_path_are_accepted() {
    let mut g = RenderGraph::new();
    let surface = surface(&mut g);
    let t = transient(&mut g, "t");
    let u = transient(&mut g, "u");
    pass(&mut g, "W1", &[], &[t]);
    pass(&mut g, "R", &[t], &[u]);
    pass(&mut g, "W2", &[u], &[t]);
    pass(&mut g, "Blit", &[t], &[surface]);
    assert!(g.compile().is_ok());
    assert_eq!(g.execution_order(), &vec![0, 1, 2, 3]);
}

#[test]
fn resize_to_same_size_keeps_plan() {
    let (mut g, surface, a, _b) = linear_chain();
    g.set_external_texture(surface).unwrap();
    frame(&mut g);
    let pools_before = pool_count(&g);
    g.resize_transient_resource(a, 640, 480).unwrap();
    assert!(g.aliasing_info().is_none());
    match g.resources().get_descriptor(a).unwrap().resource_type {
        ResourceType::TransientColor { descriptor, .. } => assert_eq!((descriptor.width, descriptor.height), (640, 480)),
        _ => panic!("colour texture expected"),
    }
    let plan = frame(&mut g);
    assert_eq!(pool_count(&g), pools_before);
    assert_eq!(plan.new_pools.len(), pools_before);
    assert_eq!(g.execution_order(), &vec![0, 1, 2]);
}

#[test]
fn resize_changes_size_and_aliasing() {
    let mut g = RenderGraph::new();
    let surface = surface(&mut g);
    let a = transient(&mut g, "a");
    let a2 = transient(&mut g, "a2");
    let b = transient(&mut g, "b");
    pass(&mut g, "Scene", &[], &[a]);
    pass(&mut g, "Copy", &[a], &[a2]);
    pass(&mut g, "Tonemap", &[a2], &[b]);
    pass(&mut g, "Blit", &[b], &[surface]);
    g.set_external_texture(surface).unwrap();
    frame(&mut g);
    assert_eq!(g.resources().get_texture_size(b), Ok((640, 480)));
    g.resize_transient_resource(b, 320, 240).unwrap();
    assert_eq!(g.resources().get_texture_size(b), Ok((320, 240)));
    frame(&mut g);
    assert_eq!(pool_count(&g), 3);
}

#[test]
fn repeated_frame_is_idempotent() {
    let (mut g, surface, _a, _b) = linear_chain();
    g.set_external_texture(surface).unwrap();
    let first = frame(&mut g);
    let ops = g.store_ops().clone();
    let second = frame(&mut g);
    assert_eq!(first.passes, second.passes);
    assert_eq!(&ops, g.store_ops());
    assert!(second.new_pools.is_empty());
    assert!(second.bound.is_empty());
    assert!(second.invalidate.is_empty());
    assert_eq!(first.new_pools, vec![0, 1]);
    assert_eq!(first.invalidate, vec![0, 1, 2]);
}

#[test]
fn rebind_invalidates_only_users() {
    let (mut g, surface, _a, _b) = linear_chain();
    g.set_external_texture(surface).unwrap();
    frame(&mut g);
    let v = g.resources().get_version(surface);
    g.set_external_texture(surface).unwrap();
    assert_eq!(g.resources().get_version(surface), v + 1);
    let plan = frame(&mut g);
    assert_eq!(plan.invalidate, vec![2]);
    let plan = frame(&mut g);
    assert!(plan.invalidate.is_empty());
}

#[test]
fn recompile_keeps_order() {
    let (mut g, _surface, _a, _b) = linear_chain();
    g.compile().unwrap();
    let first = g.execution_order().clone();
    g.compile().unwrap();
    assert_eq!(&first, g.execution_order());
}

#[test]
fn order_respects_diamond_dependencies() {
    let mut g = RenderGraph::new();
    let surface = surface(&mut g);
    let a = transient(&mut g, "a");
    let l = transient(&mut g, "l");
    let r = transient(&mut g, "r");
    pass(&mut g, "Top", &[], &[a]);
    pass(&mut g, "Left", &[a], &[l]);
    pass(&mut g, "Right", &[a], &[r]);
    pass(&mut g, "Bottom", &[l, r], &[surface]);
    g.compile().unwrap();
    let order = g.execution_order().clone();
    let pos = |p: usize| order.iter().position(|q| *q == p).unwrap();
    assert_eq!(order.len(), 4);
    assert!(pos(0) < pos(1) && pos(0) < pos(2));
    assert!(pos(1) < pos(3) && pos(2) < pos(3));
}

#[test]
fn unread_transient_write_is_discarded() {
    let mut g = RenderGraph::new();
    let surface = surface(&mut g);
    let scratch = transient(&mut g, "scratch");
    pass(&mut g, "Scene", &[], &[scratch, surface]);
    g.compile().unwrap();
    assert_eq!(g.store_ops()[scratch.0 as usize], StoreOp::Discard);
    assert_eq!(g.store_ops()[surface.0 as usize], StoreOp::Store);
}

#[test]
fn external_no_store_is_discarded_when_unread() {
    let mut g = RenderGraph::new();
    let depth = g.add_depth_texture("depth").no_store().external(&mut g);
    let color = surface(&mut g);
    pass(&mut g, "Scene", &[], &[color, depth]);
    g.compile().unwrap();
    assert_eq!(g.store_ops()[depth.0 as usize], StoreOp::Discard);
    g.set_external_texture(depth).unwrap();
    g.set_external_texture(color).unwrap();
    frame(&mut g);
    assert_eq!(g.resources().get_depth_attachment(depth), Ok((LoadOp::Load, StoreOp::Discard)));
}

#[test]
fn side_effect_pass_is_kept() {
    let mut g = RenderGraph::new();
    let surface = surface(&mut g);
    let a = transient(&mut g, "a");
    pass(&mut g, "Scene", &[], &[a, surface]);
    let readback = pass(&mut g, "Readback", &[a], &[]);
    g.compile().unwrap();
    assert!(!g.culled_passes()[readback]);
    assert_eq!(g.store_ops()[a.0 as usize], StoreOp::Store);
}

#[test]
fn disabled_pass_is_skipped() {
    let (mut g, surface, _a, _b) = linear_chain();
    g.set_external_texture(surface).unwrap();
    let plan = g.prepare_frame(&vec![true, false, true]).unwrap();
    assert_eq!(plan.passes, vec![0, 2]);
}

#[test]
fn transient_handles_name_their_slot() {
    let (mut g, surface, a, b) = linear_chain();
    g.set_external_texture(surface).unwrap();
    let plan = frame(&mut g);
    assert_eq!(plan.bound, vec![a, b]);
    let slot = alias_of(&g, a).unwrap();
    assert_eq!(
        g.resources().get_handle(a),
        Some(ResourceHandle::TransientTexture { pool: slot, store_op: StoreOp::Store })
    );
    assert_eq!(g.resources().get_version(a), 1);
}

#[test]
fn different_formats_do_not_share_a_slot() {
    let mut g = RenderGraph::new();
    let surface = surface(&mut g);
    let a = transient(&mut g, "a");
    let c = transient(&mut g, "c");
    let b = g.add_color_texture("b").size(640, 480).format(wgpu::TextureFormat::Rgba16Float).transient(&mut g);
    pass(&mut g, "Scene", &[], &[a]);
    pass(&mut g, "Copy", &[a], &[c]);
    pass(&mut g, "Tonemap", &[c], &[b]);
    pass(&mut g, "Blit", &[b], &[surface]);
    g.compile().unwrap();
    assert_eq!(pool_count(&g), 3);
    assert_ne!(alias_of(&g, a), alias_of(&g, b));
}

#[test]
fn buffers_share_a_grown_slot() {
    let mut g = RenderGraph::new();
    let surface = surface(&mut g);
    let small = g.add_buffer("small").size(64).transient(&mut g);
    let mid = transient(&mut g, "mid");
    let big = g.add_buffer("big").size(1024).transient(&mut g);
    pass(&mut g, "Fill", &[], &[small]);
    pass(&mut g, "Use", &[small], &[mid]);
    pass(&mut g, "Fill2", &[mid], &[big]);
    pass(&mut g, "Blit", &[big], &[surface]);
    g.compile().unwrap();
    let slot = alias_of(&g, small).unwrap();
    assert_eq!(alias_of(&g, big), Some(slot));
    match g.aliasing_info().unwrap().pools[slot].descriptor {
        PoolDescriptor::Buffer(d) => {
            assert_eq!(d.size, 1024);
            assert_eq!(d.usage, BUFFER_USAGE_STORAGE | BUFFER_USAGE_COPY_DST);
        }
        PoolDescriptor::Texture(_) => panic!("buffer slot expected"),
    }
}

#[test]
fn slot_not_mapped_is_reported() {
    let mut g = RenderGraph::new();
    let a = transient(&mut g, "a");
    let r = g.add_pass(s("Scene"), &vec![], &slots(&["color"]), &vec![], vec![(s("other"), a)]);
    match r {
        Err(RenderGraphError::SlotNotMapped { pass, slot }) => {
            assert_eq!(pass, "Scene");
            assert_eq!(slot, "color");
        }
        _ => panic!("expected SlotNotMapped"),
    }
    assert!(g.nodes().is_empty());
}

#[test]
fn unregistered_resource_is_reported() {
    let mut g = RenderGraph::new();
    let r = g.add_pass(s("Scene"), &vec![], &slots(&["color"]), &vec![], vec![(s("color"), ResourceId::new(7))]);
    assert!(matches!(r, Err(RenderGraphError::ResourceNotFound { id: ResourceId(7), .. })));
}

#[test]
fn later_mapping_overrides_earlier() {
    let mut g = RenderGraph::new();
    let a = transient(&mut g, "a");
    let b = transient(&mut g, "b");
    let i = g.add_pass(s("Scene"), &vec![], &slots(&["color"]), &vec![], vec![(s("color"), a), (s("color"), b)]).unwrap();
    assert_eq!(g.nodes()[i].writes, vec![b]);
    assert_eq!(g.nodes()[i].get_slot(&s("color")), Ok(b));
    match g.nodes()[i].get_slot(&s("depth")) {
        Err(RenderGraphError::SlotNotFound { slot, pass }) => {
            assert_eq!(slot, "depth");
            assert_eq!(pass, "Scene");
        }
        _ => panic!("expected SlotNotFound"),
    }
}

#[test]
fn unbound_external_is_reported() {
    let (mut g, surface, _a, _b) = linear_chain();
    let r = g.prepare_frame(&vec![true, true, true]);
    assert!(matches!(r, Err(RenderGraphError::ResourceNotBound { id, .. }) if id == surface));
}

#[test]
fn attachment_type_mismatch_is_reported() {
    let mut g = RenderGraph::new();
    let depth = g.add_depth_texture("depth").external(&mut g);
    g.set_external_texture(depth).unwrap();
    match g.resources().get_color_attachment(depth) {
        Err(RenderGraphError::TypeMismatch { operation, actual_type, resource }) => {
            assert_eq!(operation, "get_color_attachment");
            assert_eq!(actual_type, "depth");
            assert_eq!(resource, "depth");
        }
        _ => panic!("expected TypeMismatch"),
    }
    let buf = g.add_buffer("buf").external(&mut g);
    assert!(matches!(g.set_external_texture(buf), Err(RenderGraphError::TypeMismatch { .. })));
    assert!(matches!(g.resources().get_color_attachment(buf), Err(RenderGraphError::ResourceNotBound { .. })));
}

#[test]
fn color_attachment_clears_when_asked() {
    let mut g = RenderGraph::new();
    let color = wgpu::Color { r: 0.5, g: 0.25, b: 0.0, a: 1.0 };
    let target = g.add_color_texture("target").clear_color(color).external(&mut g);
    g.set_external_texture(target).unwrap();
    assert_eq!(g.resources().get_color_attachment(target), Ok((LoadOp::Clear(color), StoreOp::Store)));
}

#[test]
fn resize_errors() {
    let mut g = RenderGraph::new();
    let ext = surface(&mut g);
    let buf = g.add_buffer("buf").transient(&mut g);
    assert!(matches!(g.resize_transient_resource(ext, 4, 4), Err(RenderGraphError::CannotResizeExternal { .. })));
    assert!(matches!(g.resize_transient_resource(buf, 4, 4), Err(RenderGraphError::CannotResizeBuffer { .. })));
    assert!(matches!(
        g.resize_transient_resource(ResourceId::new(9), 4, 4),
        Err(RenderGraphError::ResourceNotFound { .. })
    ));
}

#[test]
fn texture_size_errors() {
    let mut g = RenderGraph::new();
    let buf = g.add_buffer("buf").transient(&mut g);
    assert!(matches!(g.resources().get_texture_size(buf), Err(RenderGraphError::TypeMismatch { .. })));
    assert!(matches!(
        g.resources().get_texture_size(ResourceId::new(3)),
        Err(RenderGraphError::DescriptorNotFound { .. })
    ));
}

#[test]
fn sub_graph_inputs_bind_by_name() {
    let mut sub = RenderGraph::new();
    let input = sub.add_color_texture("input").external(&mut sub);
    let data = sub.add_buffer("data").external(&mut sub);
    let inputs = vec![SubGraphInputSlot { name: s("input") }, SubGraphInputSlot { name: s("missing") }];
    let ids = sub.bind_sub_graph_inputs(&inputs, &vec![SlotKind::TextureView, SlotKind::Buffer]).unwrap();
    assert_eq!(ids, vec![Some(input), None]);
    assert!(sub.resources().get_handle(input).is_some());
    let wrong = vec![SubGraphInputSlot { name: s("data") }];
    match sub.bind_sub_graph_inputs(&wrong, &vec![SlotKind::TextureView]) {
        Err(RenderGraphError::SubGraphInputTypeMismatch { input, expected, received }) => {
            assert_eq!(input, "data");
            assert_eq!(expected, "buffer");
            assert_eq!(received, "texture");
        }
        _ => panic!("expected SubGraphInputTypeMismatch"),
    }
    assert!(sub.resources().get_handle(data).is_none());
}

#[test]
fn usage_bits_match_wgpu() {
    assert_eq!(wgpu::TextureUsages::RENDER_ATTACHMENT.bits(), TEXTURE_USAGE_RENDER_ATTACHMENT);
    assert_eq!(wgpu::TextureUsages::TEXTURE_BINDING.bits(), TEXTURE_USAGE_TEXTURE_BINDING);
    assert_eq!(wgpu::TextureUsages::STORAGE_BINDING.bits(), TEXTURE_USAGE_STORAGE_BINDING);
    assert_eq!(wgpu::TextureUsages::COPY_SRC.bits(), wgpu_render_graph::TEXTURE_USAGE_COPY_SRC);
    assert_eq!(wgpu::TextureUsages::COPY_DST.bits(), wgpu_render_graph::TEXTURE_USAGE_COPY_DST);
    assert_eq!(wgpu::BufferUsages::STORAGE.bits(), BUFFER_USAGE_STORAGE);
    assert_eq!(wgpu::BufferUsages::COPY_DST.bits(), BUFFER_USAGE_COPY_DST);
}

#[test]
fn add_then_remove_keeps_order() {
    let (mut g, _surface, _a, _b) = linear_chain();
    g.compile().unwrap();
    let before = g.execution_order().clone();
    let z = transient(&mut g, "z");
    pass(&mut g, "Extra", &[], &[z]);
    assert_eq!(g.remove_pass(&s("Extra")), Some(3));
    assert_eq!(g.remove_pass(&s("Missing")), None);
    g.compile().unwrap();
    assert_eq!(&before, g.execution_order());
    assert_eq!(g.execution_order_names(), vec![s("Scene"), s("Tonemap"), s("Blit")]);
}

#[test]
fn validate_without_compiling() {
    let (g, _surface, _a, _b) = linear_chain();
    assert_eq!(g.validate(), Ok(()));
    assert!(g.needs_recompile());
}

#[test]
fn resize_errors_name_the_resource() {
    let mut g = RenderGraph::new();
    let ext = surface(&mut g);
    let buf = g.add_buffer("buf").transient(&mut g);
    assert_eq!(
        g.resize_transient_resource(ext, 4, 4),
        Err(RenderGraphError::CannotResizeExternal { resource: s("surface") })
    );
    assert_eq!(g.resize_transient_resource(buf, 4, 4), Err(RenderGraphError::CannotResizeBuffer { resource: s("buf") }));
    assert!(matches!(
        g.resize_transient_resource(ResourceId::new(9), 4, 4),
        Err(RenderGraphError::ResourceNotFound { id: ResourceId(9), .. })
    ));
}

#[test]
fn accessor_errors_carry_their_fields() {
    let mut g = RenderGraph::new();
    let target = surface(&mut g);
    let buf = g.add_buffer("buf").external(&mut g);
    g.set_external_texture(target).unwrap();
    g.set_external_buffer(buf).unwrap();
    assert_eq!(
        g.resources().get_buffer_handle(target),
        Err(RenderGraphError::TypeMismatch { operation: s("get_buffer"), actual_type: s("color"), resource: s("surface") })
    );
    assert_eq!(
        g.resources().get_texture_size(buf),
        Err(RenderGraphError::TypeMismatch { operation: s("get_texture_size"), actual_type: s("buffer"), resource: s("buf") })
    );
    assert_eq!(
        g.resources().get_texture_size(target),
        Err(RenderGraphError::TypeMismatch {
            operation: s("get_texture_size"),
            actual_type: s("external_texture"),
            resource: s("surface")
        })
    );
}

#[test]
fn sub_graph_rebind_moves_version() {
    let mut sub = RenderGraph::new();
    let input = sub.add_color_texture("input").external(&mut sub);
    let inputs = vec![SubGraphInputSlot { name: s("input") }];
    sub.bind_sub_graph_inputs(&inputs, &vec![SlotKind::TextureView]).unwrap();
    let v = sub.resources().get_version(input);
    sub.bind_sub_graph_inputs(&inputs, &vec![SlotKind::TextureView]).unwrap();
    assert_eq!(sub.resources().get_version(input), v + 1);
    assert_eq!(sub.resources().get_handle(input), Some(ResourceHandle::ExternalTexture { store_op: StoreOp::Store }));
}

#[test]
fn failed_frame_keeps_versions_and_fails_again() {
    let (mut g, surface, _a, _b) = linear_chain();
    let first = g.prepare_frame(&vec![true, true, true]);
    let second = g.prepare_frame(&vec![true, true, true]);
    assert_eq!(first.err(), second.err());
    assert_eq!(g.resources().get_version(surface), 0);
}
