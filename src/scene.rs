//! The scene as the renderer sees it: an arena of objects addressed by
//! generational handles, their components, and the materials they draw with.
use vstd::prelude::*;
use crate::cull::{Frustum, Scale3, Vec3};
use crate::queue::{MaterialState, RenderQueue};

verus! {

/// Colour channels in thousandths: 1000 is full intensity.
#[derive(Clone, Copy, Debug, PartialEq, Eq, Structural)]
pub struct Rgb {
    pub r: u16,
    pub g: u16,
    pub b: u16,
}

#[derive(Clone, Copy, Debug, PartialEq, Eq, Structural)]
pub struct DirectionalLight {
    pub direction: Vec3,
    pub color: Rgb,
    pub intensity: u32,
}

#[derive(Clone, Copy, Debug, PartialEq, Eq, Structural)]
pub struct PointLight {
    pub position: Vec3,
    pub color: Rgb,
    pub range: u32,
}

#[derive(Clone, Copy, Debug, PartialEq, Eq, Structural)]
pub enum Light {
    Directional(DirectionalLight),
    Point(PointLight),
}

/// The light used when the scene has no directional light: white, pointing
/// down and away from the viewer at an angle.
pub open spec fn default_light_spec() -> Light {
    Light::Directional(
        DirectionalLight {
            direction: Vec3 { x: 0, y: -1024i32, z: -1024i32 },
            color: Rgb { r: 1000, g: 1000, b: 1000 },
            intensity: 1000,
        },
    )
}

pub fn default_light() -> (r: Light)
    ensures
        r == default_light_spec(),
{
    Light::Directional(
        DirectionalLight {
            direction: Vec3 { x: 0, y: -1024, z: -1024 },
            color: Rgb { r: 1000, g: 1000, b: 1000 },
            intensity: 1000,
        },
    )
}

/// A drawable piece of a mesh: a geometry buffer drawn with one material.
/// `material` indexes `Assets::materials`; `bounding_radius` is the radius of
/// the bounding sphere around the object's origin, in local units.
#[derive(Clone, Copy, Debug, PartialEq, Eq, Structural)]
pub struct Surface {
    pub buffer: u64,
    pub material: usize,
    pub bounding_radius: Option<u32>,
}

/// A material: the queue it renders in, its shader program, the textures it
/// binds (in binding order) and its overrides of the device state.
pub struct Material {
    pub queue: RenderQueue,
    pub program: u64,
    pub textures: Vec<u64>,
    pub states: MaterialState,
}

/// How far a GPU resource has come in loading.
#[derive(Clone, Copy, Debug, PartialEq, Eq, Structural)]
pub enum ResourceStatus {
    Ready,
    NotReady,
    Failed,
}

/// The materials of the frame and the load state of its resources.  A
/// resource that appears in neither list is ready.
pub struct Assets {
    pub materials: Vec<Material>,
    pub not_ready: Vec<u64>,
    pub failed: Vec<u64>,
}

impl Assets {
    pub open spec fn status_spec(&self, id: u64) -> ResourceStatus {
        if self.failed@.contains(id) {
            ResourceStatus::Failed
        } else if self.not_ready@.contains(id) {
            ResourceStatus::NotReady
        } else {
            ResourceStatus::Ready
        }
    }

    pub fn status(&self, id: u64) -> (r: ResourceStatus)
        ensures
            r == self.status_spec(id),
    {
        if contains_id(&self.failed, id) {
            ResourceStatus::Failed
        } else if contains_id(&self.not_ready, id) {
            ResourceStatus::NotReady
        } else {
            ResourceStatus::Ready
        }
    }
}

fn contains_id(v: &Vec<u64>, id: u64) -> (r: bool)
    ensures
        r == v@.contains(id),
{
    let mut i: usize = 0;
    while i < v.len()
        invariant
            i <= v.len(),
            forall|k: int| 0 <= k < i ==> v@[k] != id,
        decreases v.len() - i,
    {
        if v[i] == id {
            return true;
        }
        i += 1;
    }
    false
}

/// A scene object: activity flag, world placement and components.
pub struct SceneObject {
    pub active: bool,
    pub translation: Vec3,
    pub scale: Scale3,
    pub mesh: Option<Vec<Surface>>,
    pub light: Option<Light>,
    pub camera: bool,
}

/// A slot of the scene arena.  `object` is `None` once the object is freed;
/// `generation` changes whenever the slot is reused.
pub struct Slot {
    pub generation: u64,
    pub object: Option<SceneObject>,
}

pub struct Scene {
    pub slots: Vec<Slot>,
}

/// A non-owning reference to a scene object.
#[derive(Clone, Copy, Debug, PartialEq, Eq, Structural)]
pub struct ObjectRef {
    pub index: usize,
    pub generation: u64,
}

/// Which component a lookup asks for.
#[derive(Clone, Copy, Debug, PartialEq, Eq, Structural)]
pub enum ComponentKind {
    Mesh,
    Light,
    Camera,
}

impl SceneObject {
    pub open spec fn has_spec(&self, kind: ComponentKind) -> bool {
        match kind {
            ComponentKind::Mesh => self.mesh.is_some(),
            ComponentKind::Light => self.light.is_some(),
            ComponentKind::Camera => self.camera,
        }
    }

    pub fn has(&self, kind: ComponentKind) -> (r: bool)
        ensures
            r == self.has_spec(kind),
    {
        match kind {
            ComponentKind::Mesh => self.mesh.is_some(),
            ComponentKind::Light => self.light.is_some(),
            ComponentKind::Camera => self.camera,
        }
    }
}

impl Scene {
    /// The reference still names a live object.
    pub open spec fn resolves(&self, r: ObjectRef) -> bool {
        &&& r.index < self.slots@.len()
        &&& self.slots@[r.index as int].generation == r.generation
        &&& self.slots@[r.index as int].object.is_some()
    }

    pub open spec fn object(&self, r: ObjectRef) -> SceneObject {
        self.slots@[r.index as int].object.unwrap()
    }

    pub fn is_live(&self, r: ObjectRef) -> (b: bool)
        ensures
            b == self.resolves(r),
    {
        r.index < self.slots.len() && self.slots[r.index].generation == r.generation
            && self.slots[r.index].object.is_some()
    }
}

/// The camera of a pass: its eye position, its frustum, an optional render
/// target and an optional viewport rectangle.
pub struct Camera {
    pub eye: Vec3,
    pub frustum: Frustum,
    pub render_target: Option<u64>,
    pub rect: Option<Rect>,
}

/// A viewport rectangle: origin and size in pixels.
#[derive(Clone, Copy, Debug, PartialEq, Eq, Structural)]
pub struct Rect {
    pub x: u32,
    pub y: u32,
    pub w: u32,
    pub h: u32,
}

} // verus!
