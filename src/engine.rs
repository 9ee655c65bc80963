//! The frame orchestrator: the renderer's view of the scene, light
//! selection, and the sequence of one render pass.
use vstd::prelude::*;
use crate::cache::{BindError, BindingCache, CacheModel, Step};
use crate::cull::Plane;
use crate::device::{clear_ops, BufferBit, ClearOption, DeviceOp};
use crate::gather::{
    buckets_extended, gather_render_commands, gathered, gathered_ok, lemma_gathered_ok, object_commands,
    object_materials_known,
    queue_part, queue_pred, scene_materials_known,
};
use crate::queue::{queue_defaults, sorted_by_distance, DrawCommand, RenderQueue, RenderQueueList};
use crate::scene::{default_light, Assets, Camera, ComponentKind, Light, ObjectRef, Rect, Scene};
use crate::submit::{
    commands_step, lemma_commands_concat, material_of, materials_known, render_commands, then_commands, FrameError,
    FrameLights, LightsModel,
};

verus! {

/// Counts of the last frame: surfaces gathered, per bucket, and switches of
/// program, texture and geometry buffer.
#[derive(Clone, Copy, Debug, PartialEq, Eq, Structural)]
pub struct EngineStats {
    pub surfaces_count: usize,
    pub opaque_count: usize,
    pub transparent_count: usize,
    pub switch_prog: u64,
    pub switch_tex: u64,
    pub switch_mesh: u64,
}

pub open spec fn zero_stats() -> EngineStats {
    EngineStats {
        surfaces_count: 0,
        opaque_count: 0,
        transparent_count: 0,
        switch_prog: 0,
        switch_tex: 0,
        switch_mesh: 0,
    }
}

impl Default for EngineStats {
    fn default() -> (r: EngineStats)
        ensures
            r == zero_stats(),
    {
        EngineStats {
            surfaces_count: 0,
            opaque_count: 0,
            transparent_count: 0,
            switch_prog: 0,
            switch_tex: 0,
            switch_mesh: 0,
        }
    }
}

/// The renderer: references to the scene objects it draws, the screen
/// size, the cached main camera, the last frame's counts, and the light used
/// when the scene has no directional light.
pub struct Engine {
    pub objects: Vec<ObjectRef>,
    pub screen_size: (u32, u32),
    pub current_camera: Option<ObjectRef>,
    pub stats: EngineStats,
    pub default_light: Light,
}

pub open spec fn directional_pred() -> spec_fn(Light) -> bool {
    |l: Light| l is Directional
}

pub open spec fn point_pred() -> spec_fn(Light) -> bool {
    |l: Light| l is Point
}

/// Lights of the live objects among `objs`, in order.
pub open spec fn live_lights(scene: &Scene, objs: Seq<ObjectRef>) -> Seq<Light>
    decreases objs.len(),
{
    if objs.len() == 0 {
        Seq::empty()
    } else {
        let prev = live_lights(scene, objs.drop_last());
        let r = objs.last();
        if scene.resolves(r) && scene.object(r).light is Some {
            prev.push(scene.object(r).light.unwrap())
        } else {
            prev
        }
    }
}

/// The first directional light, if any.
pub open spec fn first_directional(ls: Seq<Light>) -> Option<Light> {
    let d = ls.filter(directional_pred());
    if d.len() > 0 {
        Some(d[0])
    } else {
        None
    }
}

/// The first four point lights, or all of them if fewer.
pub open spec fn first_points(ls: Seq<Light>) -> Seq<Light> {
    let p = ls.filter(point_pred());
    if p.len() <= 4 {
        p
    } else {
        p.take(4)
    }
}

/// The first live object among `objs` that has a component of `kind`.
pub open spec fn is_first_with(scene: &Scene, objs: Seq<ObjectRef>, kind: ComponentKind, i: int) -> bool {
    &&& 0 <= i < objs.len()
    &&& scene.resolves(objs[i]) && scene.object(objs[i]).has_spec(kind)
    &&& forall|k: int|
        0 <= k < i ==> !(scene.resolves(#[trigger] objs[k]) && scene.object(objs[k]).has_spec(kind))
}

impl Engine {
    /// An engine with no objects for a screen of the given size.
    pub fn new(size: (u32, u32)) -> (r: Engine)
        ensures
            r.objects@.len() == 0,
            r.screen_size == size,
            r.current_camera is None,
            r.stats == zero_stats(),
            r.default_light == crate::scene::default_light_spec(),
    {
        Engine {
            objects: Vec::new(),
            screen_size: size,
            current_camera: None,
            stats: EngineStats::default(),
            default_light: default_light(),
        }
    }

    /// Starts drawing a scene object.
    pub fn new_game_object(&mut self, r: ObjectRef)
        ensures
            final(self).objects@ == old(self).objects@.push(r),
            final(self).screen_size == old(self).screen_size,
            final(self).current_camera == old(self).current_camera,
            final(self).stats == old(self).stats,
            final(self).default_light == old(self).default_light,
    {
        self.objects.push(r);
    }

    pub fn resize(&mut self, size: (u32, u32))
        ensures
            final(self).screen_size == size,
            final(self).objects == old(self).objects,
            final(self).current_camera == old(self).current_camera,
            final(self).stats == old(self).stats,
            final(self).default_light == old(self).default_light,
    {
        self.screen_size = size;
    }

    /// Appends the clear step: set the clear colour if one is given, then
    /// clear each target that is asked for.
    pub fn clear(&self, option: &ClearOption, ops: &mut Vec<DeviceOp>)
        ensures
            final(ops)@ == old(ops)@ + clear_ops(*option),
    {
        if let Some(col) = option.color {
            ops.push(DeviceOp::ClearColor(col));
        }
        if option.clear_color {
            ops.push(DeviceOp::Clear(BufferBit::Color));
        }
        if option.clear_depth {
            ops.push(DeviceOp::Clear(BufferBit::Depth));
        }
        if option.clear_stencil {
            ops.push(DeviceOp::Clear(BufferBit::Stencil));
        }
        assert(ops@ =~= old(ops)@ + clear_ops(*option));
    }

    pub fn screen_size(&self) -> (r: (u32, u32))
        ensures
            r == self.screen_size,
    {
        self.screen_size
    }

    /// The first live object, in the order the engine holds them, that has a
    /// component of `kind`.
    pub fn find_component(&self, scene: &Scene, kind: ComponentKind) -> (r: Option<ObjectRef>)
        ensures
            match r {
                Some(o) => exists|i: int| is_first_with(scene, self.objects@, kind, i) && self.objects@[i] == o,
                None => forall|i: int|
                    0 <= i < self.objects@.len() ==> !(scene.resolves(#[trigger] self.objects@[i])
                        && scene.object(self.objects@[i]).has_spec(kind)),
            },
    {
        let mut i: usize = 0;
        while i < self.objects.len()
            invariant
                i <= self.objects.len(),
                forall|k: int|
                    0 <= k < i ==> !(scene.resolves(#[trigger] self.objects@[k]) && scene.object(
                        self.objects@[k],
                    ).has_spec(kind)),
            decreases self.objects.len() - i,
        {
            let r = self.objects[i];
            if scene.is_live(r) {
                let found = match &scene.slots[r.index].object {
                    Some(o) => o.has(kind),
                    None => false,
                };
                if found {
                    assert(is_first_with(scene, self.objects@, kind, i as int));
                    return Some(r);
                }
            }
            i += 1;
        }
        None
    }

    /// Lights of all live objects, in order.
    pub fn find_all_lights(&self, scene: &Scene) -> (r: Vec<Light>)
        ensures
            r@ == live_lights(scene, self.objects@),
    {
        let mut out: Vec<Light> = Vec::new();
        let mut i: usize = 0;
        while i < self.objects.len()
            invariant
                i <= self.objects.len(),
                out@ == live_lights(scene, self.objects@.take(i as int)),
            decreases self.objects.len() - i,
        {
            assert(self.objects@.take(i + 1).drop_last() =~= self.objects@.take(i as int));
            let r = self.objects[i];
            if scene.is_live(r) {
                match &scene.slots[r.index].object {
                    Some(o) => {
                        if let Some(l) = o.light {
                            out.push(l);
                        }
                    },
                    None => {},
                }
            }
            i += 1;
        }
        assert(self.objects@.take(self.objects.len() as int) =~= self.objects@);
        out
    }

    /// The first directional light of the live objects, if any.
    pub fn find_main_light(&self, scene: &Scene) -> (r: Option<Light>)
        ensures
            r == first_directional(live_lights(scene, self.objects@)),
    {
        let all = self.find_all_lights(scene);
        let mut i: usize = 0;
        while i < all.len()
            invariant
                i <= all.len(),
                all@ == live_lights(scene, self.objects@),
                all@.take(i as int).filter(directional_pred()).len() == 0,
            decreases all.len() - i,
        {
            proof {
                assert(all@.take(i + 1) =~= all@.take(i as int).push(all@[i as int]));
                crate::gather::lemma_filter_push(all@.take(i as int), all@[i as int], directional_pred());
            }
            if let Light::Directional(_) = all[i] {
                proof {
                    let rest = all@.skip(i + 1);
                    assert(all@ =~= all@.take(i + 1) + rest);
                    Seq::filter_distributes_over_add(all@.take(i + 1), rest, directional_pred());
                    let head = all@.take(i + 1).filter(directional_pred());
                    assert(head =~= seq![all@[i as int]]);
                    assert(all@.filter(directional_pred()) == head + rest.filter(directional_pred()));
                    assert(all@.filter(directional_pred()).len() > 0);
                    assert(all@.filter(directional_pred())[0] == all@[i as int]);
                    assert(first_directional(all@) == Some(all@[i as int]));
                }
                assert(first_directional(live_lights(scene, self.objects@)) == Some(all@[i as int]));
                return Some(all[i]);
            }
            i += 1;
        }
        assert(all@.take(all.len() as int) =~= all@);
        None
    }

    /// The lights of a frame: the main directional light, or the engine's
    /// default light when there is none, and the first four point lights.
    pub fn prepare_lights(&self, scene: &Scene) -> (r: FrameLights)
        ensures
            r.main == match first_directional(live_lights(scene, self.objects@)) {
                Some(l) => l,
                None => self.default_light,
            },
            r.points@ == first_points(live_lights(scene, self.objects@)),
    {
        let main = match self.find_main_light(scene) {
            Some(l) => l,
            None => self.default_light,
        };
        let all = self.find_all_lights(scene);
        let mut points: Vec<Light> = Vec::new();
        let mut i: usize = 0;
        while i < all.len()
            invariant
                i <= all.len(),
                points@ == first_points(all@.take(i as int)),
            decreases all.len() - i,
        {
            proof {
                assert(all@.take(i + 1) =~= all@.take(i as int).push(all@[i as int]));
                crate::gather::lemma_filter_push(all@.take(i as int), all@[i as int], point_pred());
            }
            if let Light::Point(_) = all[i] {
                if points.len() < 4 {
                    points.push(all[i]);
                } else {
                    proof {
                        let p = all@.take(i as int).filter(point_pred());
                        assert(p.push(all@[i as int]).take(4) =~= p.take(4));
                    }
                }
            }
            i += 1;
        }
        assert(all@.take(all.len() as int) =~= all@);
        FrameLights { main, points }
    }

    /// Whether every surface of every live object names a known material,
    /// as a render pass requires.
    pub fn materials_known(&self, scene: &Scene, a: &Assets) -> (r: bool)
        ensures
            r == scene_materials_known(scene, self.objects@, a),
    {
        let mut i: usize = 0;
        while i < self.objects.len()
            invariant
                i <= self.objects.len(),
                scene_materials_known(scene, self.objects@.take(i as int), a),
            decreases self.objects.len() - i,
        {
            let r = self.objects[i];
            if scene.is_live(r) {
                if let Some(obj) = &scene.slots[r.index].object {
                    if let Some(surfaces) = &obj.mesh {
                        let mut j: usize = 0;
                        while j < surfaces.len()
                            invariant
                                j <= surfaces.len(),
                                obj.mesh == Some(*surfaces),
                                scene.slots@[r.index as int].object == Some(*obj),
                                scene.resolves(r),
                                i < self.objects@.len(),
                                self.objects@[i as int] == r,
                                forall|k: int| 0 <= k < j ==> (#[trigger] surfaces@[k]).material < a.materials@.len(),
                            decreases surfaces.len() - j,
                        {
                            if surfaces[j].material >= a.materials.len() {
                                assert(!object_materials_known(*obj, a));
                                assert(scene.object(self.objects@[i as int]) == *obj);
                                assert(scene.resolves(self.objects@[i as int]));
                                return false;
                            }
                            j += 1;
                        }
                    }
                }
            }
            proof {
                let t = self.objects@.take(i + 1);
                assert forall|k: int| 0 <= k < t.len() && scene.resolves(#[trigger] t[k]) implies object_materials_known(
                    scene.object(t[k]),
                    a,
                ) by {
                    if k < i {
                        assert(t[k] == self.objects@.take(i as int)[k]);
                    }
                }
            }
            i += 1;
        }
        assert(self.objects@.take(self.objects.len() as int) =~= self.objects@);
        true
    }

    /// The lights of a frame, as `prepare_lights` chooses them.
    pub open spec fn frame_lights(&self, scene: &Scene) -> LightsModel {
        LightsModel {
            main: match first_directional(live_lights(scene, self.objects@)) {
                Some(l) => l,
                None => self.default_light,
            },
            points: first_points(live_lights(scene, self.objects@)),
        }
    }

    /// The commands a pass with `camera` gathers from the scene.
    pub open spec fn pass_commands(&self, scene: &Scene, a: &Assets, camera: &Camera) -> Seq<DrawCommand> {
        gathered(scene, self.objects@, a, camera.eye, camera.frustum.planes@)
    }

    /// Gathers the commands of every live object into fresh buckets.
    pub fn gather_queues(&self, scene: &Scene, a: &Assets, camera: &Camera) -> (r: RenderQueueList)
        requires
            scene_materials_known(scene, self.objects@, a),
        ensures
            r.wf(),
            forall|k: RenderQueue| #[trigger] r.bucket(k) == queue_part(self.pass_commands(scene, a, camera), k),
    {
        let mut render_q = RenderQueueList::new();
        let ghost empty = render_q;
        let mut i: usize = 0;
        while i < self.objects.len()
            invariant
                i <= self.objects.len(),
                render_q.wf(),
                scene_materials_known(scene, self.objects@, a),
                forall|k: RenderQueue| #[trigger] empty.bucket(k) == Seq::<DrawCommand>::empty(),
                buckets_extended(
                    &empty,
                    &render_q,
                    gathered(scene, self.objects@.take(i as int), a, camera.eye, camera.frustum.planes@),
                ),
            decreases self.objects.len() - i,
        {
            let ghost g0 = gathered(scene, self.objects@.take(i as int), a, camera.eye, camera.frustum.planes@);
            assert(self.objects@.take(i + 1).drop_last() =~= self.objects@.take(i as int));
            let r = self.objects[i];
            if scene.is_live(r) {
                match &scene.slots[r.index].object {
                    Some(obj) => {
                        assert(self.objects@[i as int] == r);
                        gather_render_commands(obj, r, camera.eye, &camera.frustum, a, &mut render_q);
                        proof {
                            let oc = object_commands(r, *obj, a, camera.eye, camera.frustum.planes@);
                            assert forall|k: RenderQueue| #[trigger] render_q.bucket(k) == empty.bucket(k) + queue_part(g0 + oc, k) by {
                                Seq::filter_distributes_over_add(g0, oc, queue_pred(k));
                                assert(empty.bucket(k) + queue_part(g0, k) + queue_part(oc, k)
                                    =~= empty.bucket(k) + (queue_part(g0, k) + queue_part(oc, k)));
                            }
                        }
                    },
                    None => {},
                }
            }
            i += 1;
        }
        assert(self.objects@.take(self.objects.len() as int) =~= self.objects@);
        proof {
            assert forall|k: RenderQueue| #[trigger] render_q.bucket(k) == queue_part(self.pass_commands(scene, a, camera), k) by {
                assert(empty.bucket(k) + queue_part(self.pass_commands(scene, a, camera), k)
                    =~= queue_part(self.pass_commands(scene, a, camera), k));
            }
        }
        render_q
    }
}

/// The buckets of a pass over the gathered commands `g`: each holds the
/// commands of its queue; the opaque bucket nearest first, the transparent
/// bucket farthest first, the others in the order of gathering.
pub open spec fn pass_queues(q: &RenderQueueList, g: Seq<DrawCommand>) -> bool {
    &&& q.wf()
    &&& q.opaque.commands@.to_multiset() == queue_part(g, RenderQueue::Opaque).to_multiset()
    &&& sorted_by_distance(q.opaque.commands@, false)
    &&& q.skybox.commands@ == queue_part(g, RenderQueue::Skybox)
    &&& q.transparent.commands@.to_multiset() == queue_part(g, RenderQueue::Transparent).to_multiset()
    &&& sorted_by_distance(q.transparent.commands@, true)
    &&& q.ui.commands@ == queue_part(g, RenderQueue::UI)
}

pub open spec fn empty_cache() -> CacheModel {
    CacheModel {
        program: None,
        buffer: None,
        material: None,
        light_program: None,
        slots: Seq::empty(),
        switch_prog: 0,
        switch_tex: 0,
        switch_mesh: 0,
    }
}

pub open spec fn target_ops(camera: &Camera) -> Seq<DeviceOp> {
    match camera.render_target {
        Some(t) => seq![DeviceOp::BindFramebuffer(t)],
        None => Seq::empty(),
    }
}

pub open spec fn untarget_ops(camera: &Camera) -> Seq<DeviceOp> {
    match camera.render_target {
        Some(t) => seq![DeviceOp::UnbindFramebuffer(t)],
        None => Seq::empty(),
    }
}

/// The camera's viewport, or the whole screen.
pub open spec fn viewport_of(camera: &Camera, size: (u32, u32)) -> Rect {
    match camera.rect {
        Some(r) => r,
        None => Rect { x: 0, y: 0, w: size.0, h: size.1 },
    }
}

pub open spec fn frame_result(r: Result<(), BindError>) -> Result<(), FrameError> {
    match r {
        Err(BindError::Failed(id)) => Err(FrameError::ResourceFailed(id)),
        _ => Ok(()),
    }
}

/// The operations of a pass before its first draw.
pub open spec fn setup_ops(camera: &Camera, size: (u32, u32), clear_option: ClearOption) -> Seq<DeviceOp> {
    target_ops(camera) + seq![DeviceOp::Viewport(viewport_of(camera, size))] + clear_ops(clear_option)
}

/// A render pass: the device operations, in order, and the sorted buckets
/// they were drawn from.  `result` is an error when a resource failed; the
/// operations then end at the draw that found it.
pub struct Frame {
    pub ops: Vec<DeviceOp>,
    pub queues: RenderQueueList,
    pub result: Result<(), FrameError>,
}

/// A bucket drawn from the gathered commands names only known materials.
proof fn lemma_bucket_materials(
    scene: &Scene,
    a: &Assets,
    planes: Seq<Plane>,
    g: Seq<DrawCommand>,
    b: Seq<DrawCommand>,
    k: RenderQueue,
    over: Option<usize>,
)
    requires
        forall|i: int| 0 <= i < g.len() ==> gathered_ok(scene, a, planes, #[trigger] g[i]),
        b.to_multiset() == queue_part(g, k).to_multiset(),
        over is Some ==> over.unwrap() < a.materials@.len(),
    ensures
        materials_known(b, over, a),
{
    broadcast use vstd::seq_lib::group_to_multiset_ensures;
    assert forall|i: int| 0 <= i < b.len() implies material_of(#[trigger] b[i], over) < a.materials@.len() by {
        assert(b.to_multiset().count(b[i]) > 0);
        assert(queue_part(g, k).contains(b[i]));
        g.lemma_filter_contains_rev(queue_pred(k), b[i]);
        let j = choose|j: int| 0 <= j < g.len() && g[j] == b[i];
        assert(gathered_ok(scene, a, planes, g[j]));
    }
}

/// The commands of the whole list, bucket after bucket.
pub open spec fn submit_spec(q: &RenderQueueList, c: CacheModel, over: Option<usize>, a: &Assets, lights: LightsModel) -> Step {
    commands_step(c, q.submission_order(), over, a, lights)
}

/// Submits the buckets in their fixed order: opaque, skybox, transparent,
/// UI.  A failed resource stops the submission.
fn render_queues(
    cache: &mut BindingCache,
    queues: &RenderQueueList,
    over: Option<usize>,
    a: &Assets,
    lights: &FrameLights,
    ops: &mut Vec<DeviceOp>,
) -> (r: Result<(), BindError>)
    requires
        old(cache).wf(),
        queues.wf(),
        materials_known(queues.opaque.commands@, over, a),
        materials_known(queues.skybox.commands@, over, a),
        materials_known(queues.transparent.commands@, over, a),
        materials_known(queues.ui.commands@, over, a),
    ensures
        final(cache).wf(),
        final(cache)@ == submit_spec(queues, old(cache)@, over, a, lights@).cache,
        final(ops)@ == old(ops)@ + submit_spec(queues, old(cache)@, over, a, lights@).ops,
        r == submit_spec(queues, old(cache)@, over, a, lights@).result,
{
    let ghost c0 = cache@;
    let ghost o = queues.opaque.commands@;
    let ghost sk = queues.skybox.commands@;
    let ghost t = queues.transparent.commands@;
    let ghost u = queues.ui.commands@;
    let ghost l = lights@;
    proof {
        lemma_commands_concat(c0, o, sk, over, a, l);
        lemma_commands_concat(c0, o + sk, t, over, a, l);
        lemma_commands_concat(c0, o + sk + t, u, over, a, l);
        assert(forall|i: int| 0 <= i < o.len() ==> queue_defaults((#[trigger] o[i]).queue) == queues.opaque.states);
        assert(forall|i: int| 0 <= i < sk.len() ==> queue_defaults((#[trigger] sk[i]).queue) == queues.skybox.states);
        assert(forall|i: int| 0 <= i < t.len() ==> queue_defaults((#[trigger] t[i]).queue) == queues.transparent.states);
        assert(forall|i: int| 0 <= i < u.len() ==> queue_defaults((#[trigger] u[i]).queue) == queues.ui.states);
    }
    let ghost s1 = commands_step(c0, o, over, a, l);
    let ghost s2 = then_commands(s1, sk, over, a, l);
    let ghost s3 = then_commands(s2, t, over, a, l);
    let ghost s4 = then_commands(s3, u, over, a, l);
    assert(s4 == submit_spec(queues, c0, over, a, l));
    let ghost base = ops@;
    let r = render_commands(cache, &queues.opaque, over, a, lights, ops);
    if r.is_err() {
        return r;
    }
    let r = render_commands(cache, &queues.skybox, over, a, lights, ops);
    assert(ops@ =~= base + s2.ops);
    if r.is_err() {
        return r;
    }
    let r = render_commands(cache, &queues.transparent, over, a, lights, ops);
    assert(ops@ =~= base + s3.ops);
    if r.is_err() {
        return r;
    }
    let r = render_commands(cache, &queues.ui, over, a, lights, ops);
    assert(ops@ =~= base + s4.ops);
    r
}

/// The counts of a pass that drew from `q` and left the cache `c`.
pub open spec fn stats_of(q: &RenderQueueList, c: CacheModel) -> EngineStats {
    EngineStats {
        surfaces_count: if q.total_spec() <= usize::MAX {
            q.total_spec() as usize
        } else {
            usize::MAX
        },
        opaque_count: q.opaque.commands@.len() as usize,
        transparent_count: q.transparent.commands@.len() as usize,
        switch_prog: c.switch_prog,
        switch_tex: c.switch_tex,
        switch_mesh: c.switch_mesh,
    }
}

impl Engine {
    /// What the render pass submits, given the buckets it drew from.
    pub open spec fn pass_step(&self, scene: &Scene, a: &Assets, q: &RenderQueueList, over: Option<usize>) -> Step {
        submit_spec(q, empty_cache(), over, a, self.frame_lights(scene))
    }

    /// One render pass with `camera`: bind its target, set the viewport,
    /// clear, choose the lights, gather and sort the draw commands, and
    /// submit them bucket by bucket.  With `material`, every command draws
    /// with that material instead of its surface's own.  On success the
    /// pass's counts become the engine's stats.
    pub fn render_pass_with_material(
        &mut self,
        scene: &Scene,
        a: &Assets,
        camera: &Camera,
        material: Option<usize>,
        clear_option: ClearOption,
    ) -> (f: Frame)
        requires
            scene_materials_known(scene, old(self).objects@, a),
            material is Some ==> material.unwrap() < a.materials@.len(),
        ensures
            pass_queues(&f.queues, old(self).pass_commands(scene, a, camera)),
            f.result == frame_result(old(self).pass_step(scene, a, &f.queues, material).result),
            f.ops@ == setup_ops(camera, old(self).screen_size, clear_option) + old(self).pass_step(
                scene,
                a,
                &f.queues,
                material,
            ).ops + if f.result is Ok {
                untarget_ops(camera)
            } else {
                Seq::empty()
            },
            f.result is Ok ==> final(self).stats == stats_of(
                &f.queues,
                old(self).pass_step(scene, a, &f.queues, material).cache,
            ),
            f.result is Err ==> final(self).stats == old(self).stats,
            final(self).objects == old(self).objects,
            final(self).screen_size == old(self).screen_size,
            final(self).current_camera == old(self).current_camera,
            final(self).default_light == old(self).default_light,
    {
        let mut ops: Vec<DeviceOp> = Vec::new();
        if let Some(t) = camera.render_target {
            ops.push(DeviceOp::BindFramebuffer(t));
        }
        let viewport = match camera.rect {
            Some(r) => r,
            None => Rect { x: 0, y: 0, w: self.screen_size.0, h: self.screen_size.1 },
        };
        ops.push(DeviceOp::Viewport(viewport));
        self.clear(&clear_option, &mut ops);
        assert(ops@ =~= setup_ops(camera, self.screen_size, clear_option));
        let lights = self.prepare_lights(scene);
        let mut queues = self.gather_queues(scene, a, camera);
        let ghost gq = queues;
        queues.sort();
        proof {
            let g = self.pass_commands(scene, a, camera);
            assert(gq.bucket(RenderQueue::Opaque) == queue_part(g, RenderQueue::Opaque));
            assert(gq.bucket(RenderQueue::Skybox) == queue_part(g, RenderQueue::Skybox));
            assert(gq.bucket(RenderQueue::Transparent) == queue_part(g, RenderQueue::Transparent));
            assert(gq.bucket(RenderQueue::UI) == queue_part(g, RenderQueue::UI));
            let planes = camera.frustum.planes@;
            lemma_gathered_ok(scene, self.objects@, a, camera.eye, planes);
            lemma_bucket_materials(scene, a, planes, g, queues.opaque.commands@, RenderQueue::Opaque, material);
            lemma_bucket_materials(scene, a, planes, g, queues.skybox.commands@, RenderQueue::Skybox, material);
            lemma_bucket_materials(
                scene,
                a,
                planes,
                g,
                queues.transparent.commands@,
                RenderQueue::Transparent,
                material,
            );
            lemma_bucket_materials(scene, a, planes, g, queues.ui.commands@, RenderQueue::UI, material);
        }
        let mut cache = BindingCache::new();
        assert(cache@ == empty_cache());
        let r = render_queues(&mut cache, &queues, material, a, &lights, &mut ops);
        match r {
            Err(BindError::Failed(id)) => {
                return Frame { ops, queues, result: Err(FrameError::ResourceFailed(id)) };
            },
            _ => {},
        }
        if let Some(t) = camera.render_target {
            ops.push(DeviceOp::UnbindFramebuffer(t));
        }
        assert(ops@ =~= setup_ops(camera, self.screen_size, clear_option) + self.pass_step(
            scene,
            a,
            &queues,
            material,
        ).ops + untarget_ops(camera));
        self.stats = EngineStats {
            surfaces_count: queues.surface_count(),
            opaque_count: queues.opaque.commands.len(),
            transparent_count: queues.transparent.commands.len(),
            switch_prog: cache.switch_prog,
            switch_tex: cache.switch_tex,
            switch_mesh: cache.switch_mesh,
        };
        Frame { ops, queues, result: Ok(()) }
    }

    /// A render pass in which every surface draws with its own material.
    pub fn render_pass(&mut self, scene: &Scene, a: &Assets, camera: &Camera, clear_option: ClearOption) -> (f: Frame)
        requires
            scene_materials_known(scene, old(self).objects@, a),
        ensures
            pass_queues(&f.queues, old(self).pass_commands(scene, a, camera)),
            f.result == frame_result(old(self).pass_step(scene, a, &f.queues, None).result),
            f.ops@ == setup_ops(camera, old(self).screen_size, clear_option) + old(self).pass_step(
                scene,
                a,
                &f.queues,
                None,
            ).ops + if f.result is Ok {
                untarget_ops(camera)
            } else {
                Seq::empty()
            },
            f.result is Ok ==> final(self).stats == stats_of(
                &f.queues,
                old(self).pass_step(scene, a, &f.queues, None).cache,
            ),
            f.result is Err ==> final(self).stats == old(self).stats,
            final(self).objects == old(self).objects,
            final(self).screen_size == old(self).screen_size,
            final(self).current_camera == old(self).current_camera,
            final(self).default_light == old(self).default_light,
    {
        self.render_pass_with_material(scene, a, camera, None, clear_option)
    }

    /// The main camera: the cached one, or else the first live object with a
    /// camera, which is then cached.
    pub fn main_camera(&mut self, scene: &Scene) -> (r: Option<ObjectRef>)
        ensures
            old(self).current_camera is Some ==> r == old(self).current_camera,
            old(self).current_camera is None ==> match r {
                Some(o) => exists|i: int|
                    is_first_with(scene, old(self).objects@, ComponentKind::Camera, i) && old(self).objects@[i] == o,
                None => forall|i: int|
                    0 <= i < old(self).objects@.len() ==> !(scene.resolves(#[trigger] old(self).objects@[i])
                        && scene.object(old(self).objects@[i]).has_spec(ComponentKind::Camera)),
            },
            final(self).current_camera == r,
            final(self).objects == old(self).objects,
            final(self).screen_size == old(self).screen_size,
            final(self).stats == old(self).stats,
            final(self).default_light == old(self).default_light,
    {
        if self.current_camera.is_none() {
            self.current_camera = self.find_component(scene, ComponentKind::Camera);
        }
        self.current_camera
    }

    /// Renders with the given main camera, or only clears the screen when
    /// there is none.
    pub fn render(&mut self, scene: &Scene, a: &Assets, camera: Option<&Camera>, clear_option: ClearOption) -> (f: Frame)
        requires
            scene_materials_known(scene, old(self).objects@, a),
        ensures
            camera is None ==> f.ops@ == clear_ops(clear_option) && f.result is Ok && f.queues.wf()
                && f.queues.total_spec() == 0 && final(self).stats == old(self).stats,
            camera is Some ==> {
                let c = camera.unwrap();
                &&& pass_queues(&f.queues, old(self).pass_commands(scene, a, c))
                &&& f.result == frame_result(old(self).pass_step(scene, a, &f.queues, None).result)
                &&& f.ops@ == setup_ops(c, old(self).screen_size, clear_option) + old(self).pass_step(
                    scene,
                    a,
                    &f.queues,
                    None,
                ).ops + if f.result is Ok {
                    untarget_ops(c)
                } else {
                    Seq::empty()
                }
                &&& f.result is Ok ==> final(self).stats == stats_of(
                    &f.queues,
                    old(self).pass_step(scene, a, &f.queues, None).cache,
                )
                &&& f.result is Err ==> final(self).stats == old(self).stats
            },
            final(self).objects == old(self).objects,
            final(self).screen_size == old(self).screen_size,
            final(self).current_camera == old(self).current_camera,
            final(self).default_light == old(self).default_light,
    {
        match camera {
            Some(c) => self.render_pass(scene, a, c, clear_option),
            None => {
                let mut ops: Vec<DeviceOp> = Vec::new();
                self.clear(&clear_option, &mut ops);
                assert(ops@ =~= clear_ops(clear_option));
                let queues = RenderQueueList::new();
                assert(queues.bucket(RenderQueue::Opaque) == Seq::<DrawCommand>::empty());
                assert(queues.bucket(RenderQueue::Skybox) == Seq::<DrawCommand>::empty());
                assert(queues.bucket(RenderQueue::Transparent) == Seq::<DrawCommand>::empty());
                assert(queues.bucket(RenderQueue::UI) == Seq::<DrawCommand>::empty());
                assert(queues.submission_order() =~= Seq::<DrawCommand>::empty());
                Frame { ops, queues, result: Ok(()) }
            },
        }
    }

    /// End of frame: forget objects that no longer exist, and the cached
    /// main camera once its object is gone or has no camera any more.
    pub fn end(&mut self, scene: &Scene)
        ensures
            final(self).objects@ == old(self).objects@.filter(|r: ObjectRef| scene.resolves(r)),
            final(self).current_camera == match old(self).current_camera {
                Some(c) => if scene.resolves(c) && scene.object(c).camera {
                    Some(c)
                } else {
                    None
                },
                None => None,
            },
            final(self).screen_size == old(self).screen_size,
            final(self).stats == old(self).stats,
            final(self).default_light == old(self).default_light,
    {
        let mut kept: Vec<ObjectRef> = Vec::new();
        let mut i: usize = 0;
        while i < self.objects.len()
            invariant
                i <= self.objects.len(),
                kept@ == self.objects@.take(i as int).filter(|r: ObjectRef| scene.resolves(r)),
            decreases self.objects.len() - i,
        {
            proof {
                assert(self.objects@.take(i + 1) =~= self.objects@.take(i as int).push(self.objects@[i as int]));
                crate::gather::lemma_filter_push(
                    self.objects@.take(i as int),
                    self.objects@[i as int],
                    |r: ObjectRef| scene.resolves(r),
                );
            }
            let r = self.objects[i];
            if scene.is_live(r) {
                kept.push(r);
            }
            i += 1;
        }
        assert(self.objects@.take(self.objects.len() as int) =~= self.objects@);
        self.objects = kept;
        if let Some(c) = self.current_camera {
            let keep = scene.is_live(c) && match &scene.slots[c.index].object {
                Some(o) => o.camera,
                None => false,
            };
            if !keep {
                self.current_camera = None;
            }
        }
    }
}

} // verus!
