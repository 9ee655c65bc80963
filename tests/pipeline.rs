use render_engine::cache::{BindError, BindingCache, TextureSlot};
use render_engine::cull::{dist_sq, get_max_scale, intersects, scaled_radius, Frustum, Plane, Scale3, Vec3};
use render_engine::device::{BufferBit, ClearOption, Color, DeviceOp, LightSlot};
use render_engine::engine::{Engine, EngineStats};
use render_engine::gather::gather_render_commands;
use render_engine::queue::{DepthTest, DeviceState, DrawCommand, MaterialState, RenderQueue, RenderQueueList};
use render_engine::scene::{
    default_light, Assets, Camera, ComponentKind, DirectionalLight, Light, Material, ObjectRef, PointLight, Rect,
    ResourceStatus, Rgb, Scene, SceneObject, Slot, Surface,
};
use render_engine::submit::FrameError;

const ONE: u32 = 65536;

fn unit_scale() -> Scale3 {
    Scale3 { x: ONE, y: ONE, z: ONE }
}

fn at(x: i32, y: i32, z: i32) -> Vec3 {
    Vec3 { x, y, z }
}

fn no_states() -> MaterialState {
    MaterialState { depth_write: None, depth_test: None }
}

fn material(queue: RenderQueue, program: u64, textures: Vec<u64>) -> Material {
    Material { queue, program, textures, states: no_states() }
}

/// A frustum whose only plane keeps the half-space z <= 0.
fn half_space_frustum() -> Frustum {
    Frustum { planes: vec![Plane { a: 0, b: 0, c: -1, d: 0, norm: 1 }] }
}

fn camera() -> Camera {
    Camera { eye: at(0, 0, 0), frustum: half_space_frustum(), render_target: None, rect: None }
}

fn mesh_object(active: bool, pos: Vec3, surfaces: Vec<Surface>) -> SceneObject {
    SceneObject { active, translation: pos, scale: unit_scale(), mesh: Some(surfaces), light: None, camera: false }
}

fn light_object(light: Light) -> SceneObject {
    SceneObject { active: true, translation: at(0, 0, 0), scale: unit_scale(), mesh: None, light: Some(light), camera: false }
}

fn surface(buffer: u64, material: usize, radius: Option<u32>) -> Surface {
    Surface { buffer, material, bounding_radius: radius }
}

/// Builds a scene holding the objects and an engine that draws all of them.
fn world(objects: Vec<SceneObject>) -> (Scene, Engine) {
    let mut engine = Engine::new((800, 600));
    let mut slots = Vec::new();
    for (i, o) in objects.into_iter().enumerate() {
        slots.push(Slot { generation: 1, object: Some(o) });
        engine.new_game_object(ObjectRef { index: i, generation: 1 });
    }
    (Scene { slots }, engine)
}

fn assets(materials: Vec<Material>) -> Assets {
    Assets { materials, not_ready: vec![], failed: vec![] }
}

fn no_clear() -> ClearOption {
    ClearOption { color: None, clear_color: false, clear_depth: false, clear_stencil: false }
}

fn draws(ops: &[DeviceOp]) -> Vec<u64> {
    ops.iter()
        .filter_map(|op| match op {
            DeviceOp::Draw(b) => Some(*b),
            _ => None,
        })
        .collect()
}

fn cmd(distance: u128, queue: RenderQueue, buffer: u64) -> DrawCommand {
    DrawCommand {
        object: ObjectRef { index: 0, generation: 1 },
        surface: surface(buffer, 0, None),
        queue,
        cam_distance: distance,
    }
}

#[test]
fn queues_are_submitted_in_fixed_order() {
    let mats = vec![
        material(RenderQueue::UI, 1, vec![]),
        material(RenderQueue::Transparent, 2, vec![]),
        material(RenderQueue::Skybox, 3, vec![]),
        material(RenderQueue::Opaque, 4, vec![]),
    ];
    let (scene, mut engine) = world(vec![
        mesh_object(true, at(0, 0, -10), vec![surface(10, 0, None)]),
        mesh_object(true, at(0, 0, -10), vec![surface(20, 1, None)]),
        mesh_object(true, at(0, 0, -10), vec![surface(30, 2, None)]),
        mesh_object(true, at(0, 0, -10), vec![surface(40, 3, None)]),
    ]);
    let a = assets(mats);
    let frame = engine.render_pass(&scene, &a, &camera(), no_clear());
    assert_eq!(frame.result, Ok(()));
    assert_eq!(draws(&frame.ops), vec![40, 30, 20, 10]);
}

#[test]
fn opaque_near_first_transparent_far_first() {
    let mats = vec![material(RenderQueue::Opaque, 1, vec![]), material(RenderQueue::Transparent, 2, vec![])];
    let (scene, mut engine) = world(vec![
        mesh_object(true, at(0, 0, -30), vec![surface(1, 0, None), surface(11, 1, None)]),
        mesh_object(true, at(0, 0, -10), vec![surface(2, 0, None), surface(12, 1, None)]),
        mesh_object(true, at(0, 0, -20), vec![surface(3, 0, None), surface(13, 1, None)]),
    ]);
    let a = assets(mats);
    let frame = engine.render_pass(&scene, &a, &camera(), no_clear());
    assert_eq!(draws(&frame.ops), vec![2, 3, 1, 11, 13, 12]);
    let od: Vec<u128> = frame.queues.opaque.commands.iter().map(|c| c.cam_distance).collect();
    assert_eq!(od, vec![100, 400, 900]);
    let td: Vec<u128> = frame.queues.transparent.commands.iter().map(|c| c.cam_distance).collect();
    assert_eq!(td, vec![900, 400, 100]);
}

#[test]
fn culled_surface_is_not_drawn() {
    let mats = vec![
        material(RenderQueue::Opaque, 1, vec![]),
        material(RenderQueue::Skybox, 2, vec![]),
        material(RenderQueue::UI, 3, vec![]),
    ];
    // The object sits at z = 100 with a radius of 5: wholly outside z <= 0.
    let (scene, mut engine) = world(vec![mesh_object(
        true,
        at(0, 0, 100),
        vec![surface(1, 0, Some(5)), surface(2, 1, Some(5)), surface(3, 2, Some(5)), surface(4, 0, None)],
    )]);
    let a = assets(mats);
    let frame = engine.render_pass(&scene, &a, &camera(), no_clear());
    assert_eq!(draws(&frame.ops), vec![4, 2, 3]);
    assert_eq!(frame.queues.opaque.commands.len(), 1);
    assert_eq!(frame.queues.opaque.commands[0].surface.buffer, 4);
}

#[test]
fn sphere_touching_the_plane_is_kept() {
    let a = assets(vec![material(RenderQueue::Opaque, 1, vec![])]);
    let (scene, mut engine) = world(vec![
        mesh_object(true, at(0, 0, 5), vec![surface(1, 0, Some(5))]),
        mesh_object(true, at(0, 0, 6), vec![surface(2, 0, Some(5))]),
    ]);
    let frame = engine.render_pass(&scene, &a, &camera(), no_clear());
    assert_eq!(draws(&frame.ops), vec![1]);
}

#[test]
fn radius_is_scaled_by_largest_axis() {
    let a = assets(vec![material(RenderQueue::Opaque, 1, vec![])]);
    let mut obj = mesh_object(true, at(0, 0, 9), vec![surface(1, 0, Some(5))]);
    obj.scale = Scale3 { x: ONE / 2, y: 2 * ONE, z: ONE };
    let (scene, mut engine) = world(vec![obj]);
    let frame = engine.render_pass(&scene, &a, &camera(), no_clear());
    assert_eq!(draws(&frame.ops), vec![1]);
}

#[test]
fn same_program_switches_once() {
    let mut cache = BindingCache::new();
    let mut ops = Vec::new();
    assert_eq!(cache.ensure_program(7, ResourceStatus::Ready, &mut ops), Ok(()));
    assert_eq!(cache.ensure_program(7, ResourceStatus::Ready, &mut ops), Ok(()));
    assert_eq!(cache.switch_prog, 1);
    assert_eq!(ops, vec![DeviceOp::BindProgram(7)]);
}

#[test]
fn distinct_programs_switch_twice() {
    let mut cache = BindingCache::new();
    let mut ops = Vec::new();
    assert_eq!(cache.ensure_program(7, ResourceStatus::Ready, &mut ops), Ok(()));
    assert_eq!(cache.ensure_program(8, ResourceStatus::Ready, &mut ops), Ok(()));
    assert_eq!(cache.switch_prog, 2);
    assert_eq!(ops, vec![DeviceOp::BindProgram(7), DeviceOp::BindProgram(8)]);
}

#[test]
fn program_not_ready_or_failed() {
    let mut cache = BindingCache::new();
    let mut ops = Vec::new();
    assert_eq!(cache.ensure_program(7, ResourceStatus::NotReady, &mut ops), Err(BindError::NotReady));
    assert_eq!(cache.ensure_program(7, ResourceStatus::Failed, &mut ops), Err(BindError::Failed(7)));
    assert_eq!(cache.program, None);
    assert_eq!(cache.switch_prog, 0);
    assert!(ops.is_empty());
}

#[test]
fn buffer_bound_once() {
    let mut cache = BindingCache::new();
    let mut ops = Vec::new();
    assert_eq!(cache.ensure_buffer(3, 7, ResourceStatus::Ready, &mut ops), Ok(()));
    assert_eq!(cache.ensure_buffer(3, 7, ResourceStatus::Ready, &mut ops), Ok(()));
    assert_eq!(cache.switch_mesh, 1);
    assert_eq!(ops, vec![DeviceOp::BindBuffer { buffer: 3, program: 7 }]);
}

#[test]
fn same_texture_keeps_its_unit() {
    let mut cache = BindingCache::new();
    let mut ops = Vec::new();
    assert_eq!(cache.ensure_texture_unit(100, ResourceStatus::Ready, &mut ops), Ok(0));
    assert_eq!(cache.ensure_texture_unit(200, ResourceStatus::Ready, &mut ops), Ok(1));
    assert_eq!(cache.ensure_texture_unit(200, ResourceStatus::Ready, &mut ops), Ok(1));
    assert_eq!(cache.switch_tex, 2);
    assert_eq!(
        ops,
        vec![DeviceOp::BindTexture { texture: 100, unit: 0 }, DeviceOp::BindTexture { texture: 200, unit: 1 }]
    );
}

#[test]
fn ninth_texture_evicts_the_first() {
    let mut cache = BindingCache::new();
    let mut ops = Vec::new();
    for t in 0..8u64 {
        assert_eq!(cache.ensure_texture_unit(100 + t, ResourceStatus::Ready, &mut ops), Ok(t as u32));
    }
    assert_eq!(cache.ensure_texture_unit(108, ResourceStatus::Ready, &mut ops), Ok(0));
    assert_eq!(cache.slots.len(), 8);
    assert_eq!(cache.slots[0], TextureSlot { unit: 1, texture: Some(101) });
    assert_eq!(cache.slots[7], TextureSlot { unit: 0, texture: Some(108) });
    assert_eq!(ops.last(), Some(&DeviceOp::BindTexture { texture: 108, unit: 0 }));
    // The evicted texture no longer holds a unit: asking again binds it anew,
    // in the unit of the now oldest slot.
    assert_eq!(cache.ensure_texture_unit(100, ResourceStatus::Ready, &mut ops), Ok(1));
    assert_eq!(cache.switch_tex, 10);
}

#[test]
fn freed_texture_unit_is_reused_first() {
    let mut cache = BindingCache::new();
    let mut ops = Vec::new();
    for t in 0..8u64 {
        cache.ensure_texture_unit(100 + t, ResourceStatus::Ready, &mut ops).unwrap();
    }
    cache.forget_texture(104);
    assert_eq!(cache.slots[4], TextureSlot { unit: 4, texture: None });
    assert_eq!(cache.ensure_texture_unit(200, ResourceStatus::Ready, &mut ops), Ok(4));
    assert_eq!(cache.slots[7], TextureSlot { unit: 4, texture: Some(200) });
    assert_eq!(cache.slots[0], TextureSlot { unit: 0, texture: Some(100) });
}

#[test]
fn texture_not_ready_takes_no_unit() {
    let mut cache = BindingCache::new();
    let mut ops = Vec::new();
    assert_eq!(cache.ensure_texture_unit(5, ResourceStatus::NotReady, &mut ops), Err(BindError::NotReady));
    assert_eq!(cache.ensure_texture_unit(5, ResourceStatus::Failed, &mut ops), Err(BindError::Failed(5)));
    assert!(cache.slots.is_empty());
    assert!(ops.is_empty());
}

#[test]
fn one_opaque_object_end_to_end() {
    let a = assets(vec![material(RenderQueue::Opaque, 9, vec![])]);
    let (scene, mut engine) = world(vec![mesh_object(true, at(0, 0, -10), vec![surface(5, 0, Some(2))])]);
    let frame = engine.render_pass(&scene, &a, &camera(), no_clear());
    assert_eq!(frame.result, Ok(()));
    assert_eq!(frame.queues.opaque.commands.len(), 1);
    assert_eq!(frame.queues.transparent.commands.len(), 0);
    let obj = ObjectRef { index: 0, generation: 1 };
    let expected = vec![
        DeviceOp::Viewport(Rect { x: 0, y: 0, w: 800, h: 600 }),
        DeviceOp::CommitState(DeviceState { depth_write: true, depth_test: DepthTest::Less }),
        DeviceOp::BindProgram(9),
        DeviceOp::UploadLight { program: 9, slot: LightSlot::Directional, light: default_light() },
        DeviceOp::BindBuffer { buffer: 5, program: 9 },
        DeviceOp::UploadCamera { program: 9, object: obj },
        DeviceOp::CommitProgram(9),
        DeviceOp::Draw(5),
        DeviceOp::UnbindBuffer(5),
    ];
    assert_eq!(frame.ops, expected);
    assert_eq!(
        engine.stats,
        EngineStats {
            surfaces_count: 1,
            opaque_count: 1,
            transparent_count: 0,
            switch_prog: 1,
            switch_tex: 0,
            switch_mesh: 1
        }
    );
}

#[test]
fn inactive_object_draws_nothing() {
    let a = assets(vec![material(RenderQueue::Opaque, 9, vec![])]);
    let (scene, mut engine) = world(vec![mesh_object(false, at(0, 0, -10), vec![surface(5, 0, Some(2))])]);
    let frame = engine.render_pass(&scene, &a, &camera(), no_clear());
    assert!(draws(&frame.ops).is_empty());
    assert_eq!(engine.stats.surfaces_count, 0);
}

#[test]
fn inactive_object_adds_no_commands() {
    let a = assets(vec![material(RenderQueue::Opaque, 9, vec![])]);
    let obj = mesh_object(false, at(0, 0, -10), vec![surface(5, 0, None)]);
    let mut q = RenderQueueList::new();
    gather_render_commands(&obj, ObjectRef { index: 0, generation: 1 }, at(0, 0, 0), &half_space_frustum(), &a, &mut q);
    assert_eq!(q.surface_count(), 0);
}

#[test]
fn sorting_twice_keeps_the_order() {
    let mut q = RenderQueueList::new();
    for (d, b) in [(5u128, 1u64), (1, 2), (5, 3), (3, 4)] {
        q.push(cmd(d, RenderQueue::Opaque, b));
        q.push(cmd(d, RenderQueue::Transparent, b + 10));
    }
    q.sort();
    let first_o = q.opaque.commands.clone();
    let first_t = q.transparent.commands.clone();
    q.sort();
    assert_eq!(q.opaque.commands, first_o);
    assert_eq!(q.transparent.commands, first_t);
    let od: Vec<u128> = first_o.iter().map(|c| c.cam_distance).collect();
    assert_eq!(od, vec![1, 3, 5, 5]);
    let td: Vec<u128> = first_t.iter().map(|c| c.cam_distance).collect();
    assert_eq!(td, vec![5, 5, 3, 1]);
}

#[test]
fn skybox_and_ui_keep_gather_order() {
    let mut q = RenderQueueList::new();
    q.push(cmd(9, RenderQueue::Skybox, 1));
    q.push(cmd(1, RenderQueue::Skybox, 2));
    q.push(cmd(1, RenderQueue::UI, 3));
    q.push(cmd(9, RenderQueue::UI, 4));
    q.sort();
    let sb: Vec<u64> = q.skybox.commands.iter().map(|c| c.surface.buffer).collect();
    let ui: Vec<u64> = q.ui.commands.iter().map(|c| c.surface.buffer).collect();
    assert_eq!(sb, vec![1, 2]);
    assert_eq!(ui, vec![3, 4]);
    assert_eq!(q.surface_count(), 4);
}

#[test]
fn queue_default_states() {
    let q = RenderQueueList::new();
    assert_eq!(q.opaque.states, no_states());
    assert_eq!(q.skybox.states, MaterialState { depth_write: Some(false), depth_test: Some(DepthTest::LessEqual) });
    assert_eq!(q.transparent.states, MaterialState { depth_write: Some(false), depth_test: None });
    assert_eq!(q.ui.states, no_states());
}

#[test]
fn skybox_draw_commits_relaxed_depth() {
    let mut m = material(RenderQueue::Skybox, 1, vec![]);
    m.states = MaterialState { depth_write: Some(true), depth_test: None };
    let (scene, mut engine) = world(vec![mesh_object(true, at(0, 0, 50), vec![surface(1, 0, Some(1))])]);
    let frame = engine.render_pass(&scene, &assets(vec![m]), &camera(), no_clear());
    assert_eq!(
        frame.ops[1],
        DeviceOp::CommitState(DeviceState { depth_write: true, depth_test: DepthTest::LessEqual })
    );
}

#[test]
fn same_material_skips_binding() {
    let a = assets(vec![material(RenderQueue::Opaque, 9, vec![70, 71])]);
    let (scene, mut engine) = world(vec![mesh_object(
        true,
        at(0, 0, -10),
        vec![surface(5, 0, None), surface(6, 0, None)],
    )]);
    let frame = engine.render_pass(&scene, &a, &camera(), no_clear());
    let binds = frame.ops.iter().filter(|op| matches!(op, DeviceOp::BindProgram(_))).count();
    let textures = frame.ops.iter().filter(|op| matches!(op, DeviceOp::BindTexture { .. })).count();
    let lights = frame.ops.iter().filter(|op| matches!(op, DeviceOp::UploadLight { .. })).count();
    assert_eq!((binds, textures, lights), (1, 2, 1));
    assert_eq!(draws(&frame.ops), vec![5, 6]);
    assert_eq!(engine.stats.switch_tex, 2);
    assert_eq!(engine.stats.switch_mesh, 2);
}

#[test]
fn lights_bound_again_only_for_a_new_program() {
    let a = assets(vec![
        material(RenderQueue::Opaque, 1, vec![]),
        material(RenderQueue::Opaque, 1, vec![]),
        material(RenderQueue::Opaque, 2, vec![]),
    ]);
    let (scene, mut engine) = world(vec![
        mesh_object(true, at(0, 0, -1), vec![surface(5, 0, None)]),
        mesh_object(true, at(0, 0, -2), vec![surface(6, 1, None)]),
        mesh_object(true, at(0, 0, -3), vec![surface(7, 2, None)]),
    ]);
    let frame = engine.render_pass(&scene, &a, &camera(), no_clear());
    let lit: Vec<u64> = frame
        .ops
        .iter()
        .filter_map(|op| match op {
            DeviceOp::UploadLight { program, .. } => Some(*program),
            _ => None,
        })
        .collect();
    assert_eq!(lit, vec![1, 2]);
    assert_eq!(engine.stats.switch_prog, 2);
}

#[test]
fn not_ready_resources_skip_the_draw() {
    let mut a = assets(vec![material(RenderQueue::Opaque, 1, vec![]), material(RenderQueue::Opaque, 2, vec![])]);
    a.not_ready = vec![2, 6];
    let (scene, mut engine) = world(vec![
        mesh_object(true, at(0, 0, -1), vec![surface(5, 0, None)]),
        mesh_object(true, at(0, 0, -2), vec![surface(6, 0, None)]),
        mesh_object(true, at(0, 0, -3), vec![surface(7, 1, None)]),
        mesh_object(true, at(0, 0, -4), vec![surface(8, 0, None)]),
    ]);
    let frame = engine.render_pass(&scene, &a, &camera(), no_clear());
    assert_eq!(frame.result, Ok(()));
    assert_eq!(draws(&frame.ops), vec![5, 8]);
    assert_eq!(engine.stats.surfaces_count, 4);
}

#[test]
fn failed_resource_ends_the_frame() {
    let mut a = assets(vec![material(RenderQueue::Opaque, 1, vec![])]);
    a.failed = vec![6];
    let (scene, mut engine) = world(vec![
        mesh_object(true, at(0, 0, -1), vec![surface(5, 0, None)]),
        mesh_object(true, at(0, 0, -2), vec![surface(6, 0, None)]),
        mesh_object(true, at(0, 0, -3), vec![surface(7, 0, None)]),
    ]);
    let cam = Camera { render_target: Some(44), ..camera() };
    let frame = engine.render_pass(&scene, &a, &cam, no_clear());
    assert_eq!(frame.result, Err(FrameError::ResourceFailed(6)));
    assert_eq!(draws(&frame.ops), vec![5]);
    assert_eq!(frame.ops.first(), Some(&DeviceOp::BindFramebuffer(44)));
    assert!(!frame.ops.contains(&DeviceOp::UnbindFramebuffer(44)));
    assert_eq!(engine.stats, EngineStats::default());
}

#[test]
fn render_target_and_viewport() {
    let a = assets(vec![]);
    let (scene, mut engine) = world(vec![]);
    let rect = Rect { x: 10, y: 20, w: 30, h: 40 };
    let cam = Camera { render_target: Some(3), rect: Some(rect), ..camera() };
    let frame = engine.render_pass(&scene, &a, &cam, ClearOption::default());
    let expected = vec![
        DeviceOp::BindFramebuffer(3),
        DeviceOp::Viewport(rect),
        DeviceOp::ClearColor(Color { r: 300, g: 300, b: 300, a: 1000 }),
        DeviceOp::Clear(BufferBit::Color),
        DeviceOp::Clear(BufferBit::Depth),
        DeviceOp::UnbindFramebuffer(3),
    ];
    assert_eq!(frame.ops, expected);
}

#[test]
fn render_without_camera_only_clears() {
    let a = assets(vec![]);
    let (scene, mut engine) = world(vec![]);
    let opt = ClearOption { color: None, clear_color: false, clear_depth: true, clear_stencil: true };
    let frame = engine.render(&scene, &a, None, opt);
    assert_eq!(frame.ops, vec![DeviceOp::Clear(BufferBit::Depth), DeviceOp::Clear(BufferBit::Stencil)]);
    assert_eq!(frame.result, Ok(()));
}

#[test]
fn point_lights_first_four_in_scene_order() {
    let dir = DirectionalLight { direction: at(1, 0, 0), color: Rgb { r: 1, g: 2, b: 3 }, intensity: 5 };
    let mut objects = vec![];
    for i in 0..6 {
        objects.push(light_object(Light::Point(PointLight {
            position: at(i, 0, 0),
            color: Rgb { r: 0, g: 0, b: 0 },
            range: 1,
        })));
    }
    objects.insert(2, light_object(Light::Directional(dir)));
    let (scene, engine) = world(objects);
    let lights = engine.prepare_lights(&scene);
    assert_eq!(lights.main, Light::Directional(dir));
    let xs: Vec<i32> = lights
        .points
        .iter()
        .map(|l| match l {
            Light::Point(p) => p.position.x,
            _ => -1,
        })
        .collect();
    assert_eq!(xs, vec![0, 1, 2, 3]);
    assert_eq!(engine.find_main_light(&scene), Some(Light::Directional(dir)));
    assert_eq!(engine.find_all_lights(&scene).len(), 7);
}

#[test]
fn default_light_without_directional() {
    let (scene, engine) = world(vec![]);
    assert_eq!(engine.find_main_light(&scene), None);
    assert_eq!(engine.prepare_lights(&scene).main, default_light());
    assert!(engine.prepare_lights(&scene).points.is_empty());
}

#[test]
fn dead_objects_are_skipped_and_pruned() {
    let a = assets(vec![material(RenderQueue::Opaque, 1, vec![])]);
    let (mut scene, mut engine) = world(vec![
        mesh_object(true, at(0, 0, -1), vec![surface(5, 0, None)]),
        mesh_object(true, at(0, 0, -2), vec![surface(6, 0, None)]),
    ]);
    scene.slots[0].object = None;
    let frame = engine.render_pass(&scene, &a, &camera(), no_clear());
    assert_eq!(draws(&frame.ops), vec![6]);
    engine.end(&scene);
    assert_eq!(engine.objects, vec![ObjectRef { index: 1, generation: 1 }]);
}

#[test]
fn stale_generation_does_not_resolve() {
    let (mut scene, engine) = world(vec![light_object(Light::Point(PointLight {
        position: at(0, 0, 0),
        color: Rgb { r: 0, g: 0, b: 0 },
        range: 1,
    }))]);
    scene.slots[0].generation = 2;
    assert!(!scene.is_live(ObjectRef { index: 0, generation: 1 }));
    assert!(engine.find_all_lights(&scene).is_empty());
}

#[test]
fn main_camera_is_found_and_cached() {
    let mut cam_obj = light_object(Light::Directional(DirectionalLight {
        direction: at(0, 0, 1),
        color: Rgb { r: 0, g: 0, b: 0 },
        intensity: 0,
    }));
    cam_obj.light = None;
    cam_obj.camera = true;
    let other = mesh_object(true, at(0, 0, 0), vec![]);
    let (mut scene, mut engine) = world(vec![other, cam_obj]);
    let r = ObjectRef { index: 1, generation: 1 };
    assert_eq!(engine.find_component(&scene, ComponentKind::Camera), Some(r));
    assert_eq!(engine.find_component(&scene, ComponentKind::Mesh), Some(ObjectRef { index: 0, generation: 1 }));
    assert_eq!(engine.find_component(&scene, ComponentKind::Light), None);
    assert_eq!(engine.main_camera(&scene), Some(r));
    assert_eq!(engine.current_camera, Some(r));
    engine.end(&scene);
    assert_eq!(engine.current_camera, Some(r));
    scene.slots[1].object.as_mut().unwrap().camera = false;
    engine.end(&scene);
    assert_eq!(engine.current_camera, None);
    assert_eq!(engine.main_camera(&scene), None);
}

#[test]
fn override_material_replaces_every_surface_material() {
    let a = assets(vec![
        material(RenderQueue::Opaque, 1, vec![]),
        material(RenderQueue::Transparent, 2, vec![]),
        material(RenderQueue::Opaque, 99, vec![]),
    ]);
    let (scene, mut engine) = world(vec![mesh_object(
        true,
        at(0, 0, -1),
        vec![surface(5, 0, None), surface(6, 1, None)],
    )]);
    let frame = engine.render_pass_with_material(&scene, &a, &camera(), Some(2), no_clear());
    let progs: Vec<u64> = frame
        .ops
        .iter()
        .filter_map(|op| match op {
            DeviceOp::BindProgram(p) => Some(*p),
            _ => None,
        })
        .collect();
    assert_eq!(progs, vec![99]);
    assert_eq!(draws(&frame.ops), vec![5, 6]);
    assert_eq!(frame.queues.transparent.commands.len(), 1);
}

#[test]
fn resize_changes_viewport() {
    let (scene, mut engine) = world(vec![]);
    engine.resize((1024, 768));
    assert_eq!(engine.screen_size(), (1024, 768));
    let frame = engine.render_pass(&scene, &assets(vec![]), &camera(), no_clear());
    assert_eq!(frame.ops, vec![DeviceOp::Viewport(Rect { x: 0, y: 0, w: 1024, h: 768 })]);
}

#[test]
fn culling_math() {
    let f = half_space_frustum();
    assert!(intersects(&f, at(0, 0, 3), 3));
    assert!(!intersects(&f, at(0, 0, 4), 3));
    assert!(intersects(&Frustum { planes: vec![] }, at(0, 0, 1000), 0));
    assert_eq!(get_max_scale(&Scale3 { x: 3, y: 9, z: 4 }), 9);
    assert_eq!(scaled_radius(10, ONE), 10);
    assert_eq!(scaled_radius(10, ONE / 2), 5);
    assert_eq!(scaled_radius(3, ONE / 2), 2);
    assert_eq!(scaled_radius(0, 7), 0);
    assert_eq!(dist_sq(at(1, 2, 3), at(4, 6, 3)), 25);
    assert_eq!(dist_sq(at(i32::MIN, 0, 0), at(i32::MAX, 0, 0)), (u32::MAX as u128) * (u32::MAX as u128));
}

#[test]
fn resource_status_lookup() {
    let mut a = assets(vec![]);
    a.not_ready = vec![1, 2];
    a.failed = vec![2, 3];
    assert_eq!(a.status(1), ResourceStatus::NotReady);
    assert_eq!(a.status(2), ResourceStatus::Failed);
    assert_eq!(a.status(3), ResourceStatus::Failed);
    assert_eq!(a.status(4), ResourceStatus::Ready);
}

#[test]
fn stats_start_at_zero() {
    let engine = Engine::new((1, 1));
    assert_eq!(engine.stats, EngineStats::default());
    assert_eq!(engine.stats.surfaces_count, 0);
    assert!(engine.objects.is_empty());
}
