//! Gathering: which surfaces of which scene objects become draw commands,
//! and in which bucket they land.
use vstd::prelude::*;
use crate::cull::{
    dist_sq, dist_sq_spec, get_max_scale, intersects, max_scale_spec, scaled_radius, scaled_radius_spec,
    sphere_culled, Frustum, Plane, Vec3,
};
use crate::queue::{DrawCommand, RenderQueue, RenderQueueList};
use crate::scene::{Assets, ObjectRef, Scene, SceneObject, Surface};

verus! {

/// The commands of the queue `k`, in order.
pub open spec fn queue_pred(k: RenderQueue) -> spec_fn(DrawCommand) -> bool {
    |c: DrawCommand| c.queue == k
}

pub open spec fn queue_part(s: Seq<DrawCommand>, k: RenderQueue) -> Seq<DrawCommand> {
    s.filter(queue_pred(k))
}

/// Filtering a sequence with one more element.
pub proof fn lemma_filter_push<A>(s: Seq<A>, x: A, p: spec_fn(A) -> bool)
    ensures
        s.push(x).filter(p) == if p(x) {
            s.filter(p).push(x)
        } else {
            s.filter(p)
        },
{
    reveal(Seq::filter);
    assert(s.push(x).drop_last() =~= s);
}

/// The world-space bounding sphere of a surface: centred on the object's
/// origin, its local radius scaled by the object's largest axis scale.
pub open spec fn world_radius(obj: SceneObject, radius: u32) -> int {
    scaled_radius_spec(radius, max_scale_spec(obj.scale))
}

/// Skybox and UI surfaces and surfaces without bounds are always drawn;
/// others only when their bounding sphere is not outside the frustum.
pub open spec fn visible(obj: SceneObject, surf: Surface, a: &Assets, planes: Seq<Plane>) -> bool {
    let q = a.materials@[surf.material as int].queue;
    match surf.bounding_radius {
        None => true,
        Some(r) => q == RenderQueue::Skybox || q == RenderQueue::UI || !sphere_culled(
            planes,
            obj.translation,
            world_radius(obj, r),
        ),
    }
}

pub open spec fn command_for(r: ObjectRef, obj: SceneObject, surf: Surface, a: &Assets, eye: Vec3) -> DrawCommand {
    DrawCommand {
        object: r,
        surface: surf,
        queue: a.materials@[surf.material as int].queue,
        cam_distance: dist_sq_spec(eye, obj.translation) as u128,
    }
}

/// Commands of the visible surfaces among `surfs`, in order.
pub open spec fn surface_commands(
    r: ObjectRef,
    obj: SceneObject,
    surfs: Seq<Surface>,
    a: &Assets,
    eye: Vec3,
    planes: Seq<Plane>,
) -> Seq<DrawCommand>
    decreases surfs.len(),
{
    if surfs.len() == 0 {
        Seq::empty()
    } else {
        let prev = surface_commands(r, obj, surfs.drop_last(), a, eye, planes);
        if visible(obj, surfs.last(), a, planes) {
            prev.push(command_for(r, obj, surfs.last(), a, eye))
        } else {
            prev
        }
    }
}

/// Commands of one object: none when it is inactive or has no mesh.
pub open spec fn object_commands(r: ObjectRef, obj: SceneObject, a: &Assets, eye: Vec3, planes: Seq<Plane>) -> Seq<DrawCommand> {
    if obj.active && obj.mesh is Some {
        surface_commands(r, obj, obj.mesh.unwrap()@, a, eye, planes)
    } else {
        Seq::empty()
    }
}

/// Commands of all live objects among `objs`, in order; references that no
/// longer resolve are passed over.
pub open spec fn gathered(scene: &Scene, objs: Seq<ObjectRef>, a: &Assets, eye: Vec3, planes: Seq<Plane>) -> Seq<DrawCommand>
    decreases objs.len(),
{
    if objs.len() == 0 {
        Seq::empty()
    } else {
        let prev = gathered(scene, objs.drop_last(), a, eye, planes);
        let r = objs.last();
        if scene.resolves(r) {
            prev + object_commands(r, scene.object(r), a, eye, planes)
        } else {
            prev
        }
    }
}

/// Every surface of the object names a known material.
pub open spec fn object_materials_known(obj: SceneObject, a: &Assets) -> bool {
    obj.mesh is Some ==> forall|i: int|
        0 <= i < obj.mesh.unwrap()@.len() ==> (#[trigger] obj.mesh.unwrap()@[i]).material < a.materials@.len()
}

/// Every live object among `objs` draws with known materials.
pub open spec fn scene_materials_known(scene: &Scene, objs: Seq<ObjectRef>, a: &Assets) -> bool {
    forall|i: int|
        0 <= i < objs.len() && scene.resolves(#[trigger] objs[i]) ==> object_materials_known(scene.object(objs[i]), a)
}

/// Every bucket has gained the part of `added` that belongs to it.
pub open spec fn buckets_extended(before: &RenderQueueList, after: &RenderQueueList, added: Seq<DrawCommand>) -> bool {
    forall|k: RenderQueue| #[trigger] after.bucket(k) == before.bucket(k) + queue_part(added, k)
}

/// Appends the commands of one scene object to the buckets: nothing when
/// the object is inactive or has no mesh; otherwise one command per visible
/// surface, in the bucket of its material's queue.
pub fn gather_render_commands(
    object: &SceneObject,
    r: ObjectRef,
    cam_pos: Vec3,
    frustum: &Frustum,
    a: &Assets,
    render_q: &mut RenderQueueList,
)
    requires
        old(render_q).wf(),
        object_materials_known(*object, a),
    ensures
        final(render_q).wf(),
        buckets_extended(old(render_q), final(render_q), object_commands(r, *object, a, cam_pos, frustum.planes@)),
        !object.active ==> forall|k: RenderQueue| #[trigger] final(render_q).bucket(k) == old(render_q).bucket(k),
{
    if !object.active {
        assert forall|k: RenderQueue| #[trigger] render_q.bucket(k) == old(render_q).bucket(k) + queue_part(Seq::empty(), k) by {
            reveal(Seq::filter);
            assert(render_q.bucket(k) =~= old(render_q).bucket(k) + Seq::<DrawCommand>::empty());
        }
        return;
    }
    match &object.mesh {
        None => {
            assert forall|k: RenderQueue| #[trigger] render_q.bucket(k) == old(render_q).bucket(k) + queue_part(Seq::empty(), k) by {
                reveal(Seq::filter);
                assert(render_q.bucket(k) =~= old(render_q).bucket(k) + Seq::<DrawCommand>::empty());
            }
        },
        Some(surfaces) => {
            let scale = get_max_scale(&object.scale);
            let cam_dist = dist_sq(cam_pos, object.translation);
            let mut i: usize = 0;
            while i < surfaces.len()
                invariant
                    i <= surfaces.len(),
                    object.mesh == Some(*surfaces),
                    object_materials_known(*object, a),
                    scale == max_scale_spec(object.scale),
                    cam_dist == dist_sq_spec(cam_pos, object.translation),
                    render_q.wf(),
                    buckets_extended(
                        old(render_q),
                        render_q,
                        surface_commands(r, *object, surfaces@.take(i as int), a, cam_pos, frustum.planes@),
                    ),
                decreases surfaces.len() - i,
            {
                let surface = surfaces[i];
                assert(surfaces@.take(i + 1).drop_last() =~= surfaces@.take(i as int));
                assert(surface.material < a.materials@.len());
                let queue = a.materials[surface.material].queue;
                let shown = match surface.bounding_radius {
                    None => true,
                    Some(radius) => match queue {
                        RenderQueue::Skybox | RenderQueue::UI => true,
                        _ => intersects(frustum, object.translation, scaled_radius(radius, scale)),
                    },
                };
                let ghost prev = surface_commands(r, *object, surfaces@.take(i as int), a, cam_pos, frustum.planes@);
                if shown {
                    let cmd = DrawCommand { object: r, surface, queue, cam_distance: cam_dist };
                    render_q.push(cmd);
                    proof {
                        assert forall|k: RenderQueue| #[trigger] render_q.bucket(k) == old(render_q).bucket(k) + queue_part(prev.push(cmd), k) by {
                            lemma_filter_push(prev, cmd, queue_pred(k));
                            if k == cmd.queue {
                                assert(render_q.bucket(k) =~= old(render_q).bucket(k) + queue_part(prev.push(cmd), k));
                            }
                        }
                    }
                }
                i += 1;
            }
            assert(surfaces@.take(surfaces.len() as int) =~= surfaces@);
        },
    }
}

/// What holds of each gathered command: its object is live, its material
/// is known and gives its queue, and its surface passed the visibility test.
pub open spec fn gathered_ok(scene: &Scene, a: &Assets, planes: Seq<Plane>, c: DrawCommand) -> bool {
    &&& scene.resolves(c.object)
    &&& c.surface.material < a.materials@.len()
    &&& c.queue == a.materials@[c.surface.material as int].queue
    &&& visible(scene.object(c.object), c.surface, a, planes)
}

proof fn lemma_surface_commands_ok(
    r: ObjectRef,
    obj: SceneObject,
    surfs: Seq<Surface>,
    a: &Assets,
    eye: Vec3,
    planes: Seq<Plane>,
)
    requires
        forall|i: int| 0 <= i < surfs.len() ==> (#[trigger] surfs[i]).material < a.materials@.len(),
    ensures
        forall|i: int|
            0 <= i < surface_commands(r, obj, surfs, a, eye, planes).len() ==> {
                let c = #[trigger] surface_commands(r, obj, surfs, a, eye, planes)[i];
                &&& c.object == r
                &&& c.surface.material < a.materials@.len()
                &&& c.queue == a.materials@[c.surface.material as int].queue
                &&& visible(obj, c.surface, a, planes)
            },
    decreases surfs.len(),
{
    if surfs.len() > 0 {
        lemma_surface_commands_ok(r, obj, surfs.drop_last(), a, eye, planes);
        assert(surfs.last() == surfs[surfs.len() - 1]);
    }
}

/// Every gathered command satisfies `gathered_ok`.
pub proof fn lemma_gathered_ok(scene: &Scene, objs: Seq<ObjectRef>, a: &Assets, eye: Vec3, planes: Seq<Plane>)
    requires
        scene_materials_known(scene, objs, a),
    ensures
        forall|i: int|
            0 <= i < gathered(scene, objs, a, eye, planes).len() ==> gathered_ok(
                scene,
                a,
                planes,
                #[trigger] gathered(scene, objs, a, eye, planes)[i],
            ),
    decreases objs.len(),
{
    if objs.len() > 0 {
        let prefix = objs.drop_last();
        assert forall|i: int| 0 <= i < prefix.len() && scene.resolves(#[trigger] prefix[i]) implies object_materials_known(
            scene.object(prefix[i]),
            a,
        ) by {
            assert(prefix[i] == objs[i]);
        }
        lemma_gathered_ok(scene, prefix, a, eye, planes);
        let r = objs.last();
        let g0 = gathered(scene, prefix, a, eye, planes);
        if scene.resolves(r) {
            let obj = scene.object(r);
            assert(objs[objs.len() - 1] == r);
            assert(object_materials_known(obj, a));
            if obj.active && obj.mesh is Some {
                lemma_surface_commands_ok(r, obj, obj.mesh.unwrap()@, a, eye, planes);
            }
            let oc = object_commands(r, obj, a, eye, planes);
            assert(gathered(scene, objs, a, eye, planes) == g0 + oc);
            assert forall|i: int| 0 <= i < (g0 + oc).len() implies gathered_ok(scene, a, planes, #[trigger] (g0 + oc)[i]) by {
                if i >= g0.len() {
                    assert((g0 + oc)[i] == oc[i - g0.len()]);
                } else {
                    assert((g0 + oc)[i] == g0[i]);
                }
            }
        } else {
            assert(gathered(scene, objs, a, eye, planes) == g0);
        }
    }
}

/// A surface whose world bounding sphere lies entirely outside the frustum
/// never becomes a draw command, unless it renders in the skybox or UI queue
/// or has no bounding sphere.
pub proof fn lemma_culled_never_drawn(
    scene: &Scene,
    objs: Seq<ObjectRef>,
    a: &Assets,
    eye: Vec3,
    planes: Seq<Plane>,
    i: int,
)
    requires
        scene_materials_known(scene, objs, a),
        0 <= i < gathered(scene, objs, a, eye, planes).len(),
    ensures
        ({
            let c = gathered(scene, objs, a, eye, planes)[i];
            let q = a.materials@[c.surface.material as int].queue;
            let obj = scene.object(c.object);
            c.surface.bounding_radius is Some && q != RenderQueue::Skybox && q != RenderQueue::UI
                ==> !sphere_culled(planes, obj.translation, world_radius(obj, c.surface.bounding_radius.unwrap()))
        }),
{
    lemma_gathered_ok(scene, objs, a, eye, planes);
    assert(gathered_ok(scene, a, planes, gathered(scene, objs, a, eye, planes)[i]));
}

} // verus!
