//! The per-frame rendering pipeline of a 3D engine, planned rather than
//! executed: a pass walks the scene, culls surfaces against the camera
//! frustum, sorts draw commands into the opaque, skybox, transparent and UI
//! queues, and lists the device operations that draw them, leaving out
//! redundant binds through a binding cache.
//!
//! Coordinates are fixed-point integers, resources are named by integer
//! handles, and scene objects by generational references, so that every
//! step can be stated exactly and proved.
use vstd::prelude::*;

pub mod cache;
pub mod cull;
pub mod device;
pub mod engine;
pub mod gather;
pub mod queue;
pub mod scene;
pub mod submit;

verus! {

} // verus!
