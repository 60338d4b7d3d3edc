use ui_instances::device::ModelDevice;
use ui_instances::encode::{collect_rects, count_records};
use ui_instances::provider::{SyncError, UiResourceProvider, UI_INSTANCES};
use ui_instances::registry::RenderResources;
use ui_instances::scene::{NodeData, Scene};
use ui_instances::walk::visit_order;
use ui_instances::wire::serialize_rects;

fn node(px: f32, py: f32, sx: f32, sy: f32, cr: f32, cg: f32, cb: f32, ca: f32) -> NodeData {
    NodeData {
        position_x: px.to_bits(),
        position_y: py.to_bits(),
        size_x: sx.to_bits(),
        size_y: sy.to_bits(),
        color_r: cr.to_bits(),
        color_g: cg.to_bits(),
        color_b: cb.to_bits(),
        color_a: ca.to_bits(),
    }
}

fn plain_node(tag: f32) -> NodeData {
    node(tag, tag + 0.5, 10.0, 20.0, 0.1, 0.2, 0.3, 1.0)
}

/// The depth ramp the renderer integration feeds a pass: starting at 0.9999
/// and stepping down by 0.0001 per emitted record.
fn depth_ramp(count: usize) -> Vec<u32> {
    let mut depths: Vec<u32> = Vec::new();
    let mut z: f32 = 0.9999;
    for _ in 0..count {
        depths.push(z.to_bits());
        z -= 0.0001;
    }
    depths
}

/// The example tree: root A with children [B, C], B with child [D].
/// Slot order A=0, B=1, C=2, D=3 gives the visitation order A, B, D, C.
fn example_tree() -> Scene {
    let mut scene = Scene::new();
    let a = scene.push_slot(Some(plain_node(1.0)), None);
    let b = scene.push_slot(Some(plain_node(2.0)), Some(a));
    let _c = scene.push_slot(Some(plain_node(3.0)), Some(a));
    let _d = scene.push_slot(Some(plain_node(4.0)), Some(b));
    scene
}

#[test]
fn walker_visits_depth_first() {
    let scene = example_tree();
    let order = visit_order(&scene);
    assert_eq!(order, vec![0, 1, 3, 2]);
}

#[test]
fn example_tree_depths_and_fields() {
    let scene = example_tree();
    let count = count_records(&scene);
    assert_eq!(count, 4);
    let depths = depth_ramp(count);
    let rects = collect_rects(&scene, &depths);
    assert_eq!(rects.len(), 4);

    // Visitation order A, B, D, C.
    let tags = [1.0f32, 2.0, 4.0, 3.0];
    let expected = [0.9999f32, 0.9998, 0.9997, 0.9996];
    for t in 0..4 {
        assert_eq!(rects[t].position_x, tags[t].to_bits());
        assert_eq!(rects[t].position_y, (tags[t] + 0.5).to_bits());
        assert_eq!(rects[t].size_x, 10.0f32.to_bits());
        assert_eq!(rects[t].size_y, 20.0f32.to_bits());
        assert_eq!(rects[t].color_r, 0.1f32.to_bits());
        assert_eq!(rects[t].color_g, 0.2f32.to_bits());
        assert_eq!(rects[t].color_b, 0.3f32.to_bits());
        assert_eq!(rects[t].color_a, 1.0f32.to_bits());
        assert_eq!(rects[t].z_index, depths[t]);
        let z = f32::from_bits(rects[t].z_index);
        assert!((z - expected[t]).abs() < 1e-6);
    }
}

#[test]
fn depths_strictly_decreasing_by_step() {
    let scene = example_tree();
    let count = count_records(&scene);
    let depths = depth_ramp(count);
    let rects = collect_rects(&scene, &depths);
    for t in 0..rects.len() - 1 {
        let here = f32::from_bits(rects[t].z_index);
        let next = f32::from_bits(rects[t + 1].z_index);
        assert!(here > next);
        assert!((here - next - 0.0001).abs() < 1e-6);
    }
}

#[test]
fn full_scene_emits_one_record_per_node() {
    let mut scene = Scene::new();
    let r1 = scene.push_slot(Some(plain_node(1.0)), None);
    let c1 = scene.push_slot(Some(plain_node(2.0)), Some(r1));
    let _c2 = scene.push_slot(Some(plain_node(3.0)), Some(c1));
    let _r2 = scene.push_slot(Some(plain_node(4.0)), None);
    let _c3 = scene.push_slot(Some(plain_node(5.0)), Some(r1));
    assert_eq!(count_records(&scene), 5);
    let depths = depth_ramp(5);
    assert_eq!(collect_rects(&scene, &depths).len(), 5);
}

#[test]
fn missing_node_is_skipped_but_subtree_still_visited() {
    let mut scene = Scene::new();
    let a = scene.push_slot(Some(plain_node(1.0)), None);
    // B lost its drawable state between discovery and visit.
    let b = scene.push_slot(None, Some(a));
    let _d = scene.push_slot(Some(plain_node(4.0)), Some(b));
    let order = visit_order(&scene);
    assert_eq!(order, vec![0, 1, 2]);
    assert_eq!(count_records(&scene), 2);
    let depths = depth_ramp(2);
    let rects = collect_rects(&scene, &depths);
    assert_eq!(rects.len(), 2);
    assert_eq!(rects[0].position_x, 1.0f32.to_bits());
    assert_eq!(rects[1].position_x, 4.0f32.to_bits());
}

#[test]
fn pass_publishes_serialized_records() {
    let scene = example_tree();
    let mut provider = UiResourceProvider::new();
    provider.initialize(7);
    let mut device = ModelDevice::new();
    let mut resources = RenderResources::new();
    let depths = depth_ramp(count_records(&scene));
    let result = provider.update(&mut device, &mut resources, &scene, &depths);
    let handle = result.expect("pass should succeed").expect("pass is non-empty");
    assert_eq!(provider.instance_buffer, Some(handle));
    assert_eq!(resources.get_named_resource(&UI_INSTANCES.to_string()), Some(handle));
    let rects = collect_rects(&scene, &depths);
    let bytes = serialize_rects(&rects);
    assert_eq!(bytes.len(), 36 * 4);
    assert_eq!(device.read_buffer(handle), Some(bytes));
}

#[test]
fn empty_pass_leaves_everything_untouched() {
    let scene = example_tree();
    let mut provider = UiResourceProvider::new();
    provider.initialize(7);
    let mut device = ModelDevice::new();
    let mut resources = RenderResources::new();
    let depths = depth_ramp(count_records(&scene));
    let first = provider.update(&mut device, &mut resources, &scene, &depths);
    let handle = first.expect("pass should succeed").expect("pass is non-empty");

    // A world with zero root-bearing nodes: nothing to draw, nothing happens.
    let empty = Scene::new();
    assert_eq!(count_records(&empty), 0);
    let no_depths: Vec<u32> = Vec::new();
    let second = provider.update(&mut device, &mut resources, &empty, &no_depths);
    assert_eq!(second, Ok(None));
    assert_eq!(provider.instance_buffer, Some(handle));
    assert!(device.is_live(handle));
    assert_eq!(device.allocation_count(), 1);
    assert_eq!(device.disposal_count(), 0);
    assert_eq!(resources.get_named_resource(&UI_INSTANCES.to_string()), Some(handle));
}

#[test]
fn second_pass_replaces_with_fresh_handle() {
    let scene = example_tree();
    let mut provider = UiResourceProvider::new();
    provider.initialize(7);
    let mut device = ModelDevice::new();
    let mut resources = RenderResources::new();
    let depths = depth_ramp(count_records(&scene));
    let h1 = provider.update(&mut device, &mut resources, &scene, &depths).unwrap().unwrap();
    let h2 = provider.update(&mut device, &mut resources, &scene, &depths).unwrap().unwrap();
    assert_ne!(h1, h2);
    assert!(!device.is_live(h1));
    assert!(device.is_live(h2));
    assert_eq!(device.allocation_count(), 2);
    assert_eq!(device.disposal_count(), 1);
    assert_eq!(resources.get_named_resource(&UI_INSTANCES.to_string()), Some(h2));
}

#[test]
fn identical_state_still_reallocates() {
    // No diffing: re-running with the same scene-graph state allocates anew
    // every time, and disposals stay exactly one behind allocations.
    let scene = example_tree();
    let mut provider = UiResourceProvider::new();
    provider.initialize(7);
    let mut device = ModelDevice::new();
    let mut resources = RenderResources::new();
    let depths = depth_ramp(count_records(&scene));
    for _ in 0..3 {
        provider.update(&mut device, &mut resources, &scene, &depths).unwrap().unwrap();
    }
    assert_eq!(device.allocation_count(), 3);
    assert_eq!(device.disposal_count(), 2);
    assert_eq!(device.disposal_count(), device.allocation_count() - 1);
}

#[test]
fn allocation_failure_keeps_previous_buffer_published() {
    // A successful three-node pass, then a five-node pass whose allocation
    // fails: the three-node buffer stays live, tracked and resolvable.
    let mut small = Scene::new();
    let r = small.push_slot(Some(plain_node(1.0)), None);
    let _ = small.push_slot(Some(plain_node(2.0)), Some(r));
    let _ = small.push_slot(Some(plain_node(3.0)), Some(r));
    let mut provider = UiResourceProvider::new();
    provider.initialize(7);
    let mut device = ModelDevice::new();
    let mut resources = RenderResources::new();
    let small_depths = depth_ramp(count_records(&small));
    let h1 = provider.update(&mut device, &mut resources, &small, &small_depths).unwrap().unwrap();
    let published = serialize_rects(&collect_rects(&small, &small_depths));

    let mut big = Scene::new();
    let r2 = big.push_slot(Some(plain_node(1.0)), None);
    for t in 0..4 {
        let _ = big.push_slot(Some(plain_node(2.0 + t as f32)), Some(r2));
    }
    let big_depths = depth_ramp(count_records(&big));
    device.set_fail_next(true);
    let failed = provider.update(&mut device, &mut resources, &big, &big_depths);
    assert_eq!(failed, Err(SyncError::AllocationFailure));
    assert_eq!(provider.instance_buffer, Some(h1));
    assert!(device.is_live(h1));
    assert_eq!(device.read_buffer(h1), Some(published));
    assert_eq!(resources.get_named_resource(&UI_INSTANCES.to_string()), Some(h1));
    assert_eq!(device.allocation_count(), 1);
    assert_eq!(device.disposal_count(), 0);
}

#[test]
fn synchronize_with_no_records_is_a_no_op() {
    let mut provider = UiResourceProvider::new();
    provider.initialize(7);
    let mut device = ModelDevice::new();
    let mut resources = RenderResources::new();
    let no_rects = Vec::new();
    let outcome = provider.synchronize(&mut device, &mut resources, &no_rects);
    assert_eq!(outcome, Ok(None));
    assert_eq!(provider.instance_buffer, None);
    assert_eq!(device.allocation_count(), 0);
    assert_eq!(resources.get_named_resource(&UI_INSTANCES.to_string()), None);
}

#[test]
fn synchronize_allocates_and_publishes() {
    let scene = example_tree();
    let depths = depth_ramp(count_records(&scene));
    let rects = collect_rects(&scene, &depths);
    let mut provider = UiResourceProvider::new();
    provider.initialize(7);
    let mut device = ModelDevice::new();
    let mut resources = RenderResources::new();
    let handle = provider.synchronize(&mut device, &mut resources, &rects).unwrap().unwrap();
    assert!(device.is_live(handle));
    assert_eq!(device.read_buffer(handle), Some(serialize_rects(&rects)));
    assert_eq!(resources.get_named_resource(&UI_INSTANCES.to_string()), Some(handle));
}

#[test]
fn update_requires_seeded_quad_checked_by_caller() {
    // The renderer integration must seed the quad handle before any pass;
    // a freshly built provider reports no handle yet.
    let provider = UiResourceProvider::new();
    assert_eq!(provider.quad, None);
    assert_eq!(provider.instance_buffer, None);
}
