//! Sphere-against-frustum culling on fixed-point coordinates.
use vstd::prelude::*;

verus! {

/// Fixed-point denominator of a scale factor: a scale of `SCALE_ONE` is 1.0.
pub const SCALE_ONE: u64 = 65536;

/// A point or offset in world space, in fixed-point length units.
#[derive(Clone, Copy, Debug, PartialEq, Eq, Structural)]
pub struct Vec3 {
    pub x: i32,
    pub y: i32,
    pub z: i32,
}

/// Per-axis scale of an object, each a fixed-point ratio over `SCALE_ONE`.
#[derive(Clone, Copy, Debug, PartialEq, Eq, Structural)]
pub struct Scale3 {
    pub x: u32,
    pub y: u32,
    pub z: u32,
}

/// A frustum plane `a*x + b*y + c*z + d = 0`.  `norm` is the length of the
/// normal `(a, b, c)`, so that the signed distance of a point is
/// `(a*x + b*y + c*z + d) / norm`; points with a negative distance lie outside.
#[derive(Clone, Copy, Debug, PartialEq, Eq, Structural)]
pub struct Plane {
    pub a: i32,
    pub b: i32,
    pub c: i32,
    pub d: i64,
    pub norm: u32,
}

/// The planes that bound a camera's visible volume.
pub struct Frustum {
    pub planes: Vec<Plane>,
}

/// `norm` times the signed distance from the plane to `p`.
pub open spec fn plane_eval(pl: Plane, p: Vec3) -> int {
    pl.a * p.x + pl.b * p.y + pl.c * p.z + pl.d
}

/// A sphere lies entirely on the outer side of the plane.
pub open spec fn sphere_outside_plane(pl: Plane, center: Vec3, radius: int) -> bool {
    plane_eval(pl, center) < -(radius * pl.norm)
}

/// Some plane of the frustum has the whole sphere outside it.
pub open spec fn sphere_culled(planes: Seq<Plane>, center: Vec3, radius: int) -> bool {
    exists|i: int| 0 <= i < planes.len() && #[trigger] sphere_outside_plane(planes[i], center, radius)
}

/// A product of two factors bounded by `m` in magnitude is bounded by `m * m`.
proof fn lemma_mul_within(a: int, b: int, m: int) by (nonlinear_arith)
    requires
        -m <= a <= m,
        -m <= b <= m,
    ensures
        -(m * m) <= a * b <= m * m,
{
}

/// A product of two non-negative factors is bounded by the product of their bounds.
proof fn lemma_mul_upto(a: int, b: int, ma: int, mb: int) by (nonlinear_arith)
    requires
        0 <= a <= ma,
        0 <= b <= mb,
    ensures
        0 <= a * b <= ma * mb,
{
}

/// Sphere-against-frustum test: false exactly when the sphere lies entirely
/// outside one of the planes.  Conservative: a sphere near a corner may pass
/// although it misses the volume.
pub fn intersects(frustum: &Frustum, center: Vec3, radius: u64) -> (r: bool)
    ensures
        r == !sphere_culled(frustum.planes@, center, radius as int),
{
    let mut i: usize = 0;
    while i < frustum.planes.len()
        invariant
            i <= frustum.planes.len(),
            forall|k: int| 0 <= k < i ==> !#[trigger] sphere_outside_plane(frustum.planes@[k], center, radius as int),
        decreases frustum.planes.len() - i,
    {
        let pl = frustum.planes[i];
        proof {
            lemma_mul_within(pl.a as int, center.x as int, 0x8000_0000);
            lemma_mul_within(pl.b as int, center.y as int, 0x8000_0000);
            lemma_mul_within(pl.c as int, center.z as int, 0x8000_0000);
            lemma_mul_upto(radius as int, pl.norm as int, 0x1_0000_0000_0000_0000, 0x1_0000_0000);
        }
        let dot: i128 = (pl.a as i128) * (center.x as i128) + (pl.b as i128) * (center.y as i128)
            + (pl.c as i128) * (center.z as i128) + (pl.d as i128);
        let reach: i128 = (radius as i128) * (pl.norm as i128);
        if dot < -reach {
            assert(sphere_outside_plane(frustum.planes@[i as int], center, radius as int));
            return false;
        }
        i += 1;
    }
    true
}

/// Largest of the three scale factors.
pub open spec fn max_scale_spec(s: Scale3) -> u32 {
    if s.x >= s.y && s.x >= s.z {
        s.x
    } else if s.y >= s.z {
        s.y
    } else {
        s.z
    }
}

/// The largest per-axis scale: a uniform upper bound on how far the object
/// stretches its local space.
pub fn get_max_scale(s: &Scale3) -> (r: u32)
    ensures
        r == max_scale_spec(*s),
        r >= s.x && r >= s.y && r >= s.z,
        r == s.x || r == s.y || r == s.z,
{
    if s.x >= s.y && s.x >= s.z {
        s.x
    } else if s.y >= s.z {
        s.y
    } else {
        s.z
    }
}

/// A local radius scaled by a fixed-point factor, rounded up so that the
/// scaled sphere never shrinks below the true one.
pub open spec fn scaled_radius_spec(radius: u32, scale: u32) -> int {
    (radius * scale + SCALE_ONE - 1) / (SCALE_ONE as int)
}

pub fn scaled_radius(radius: u32, scale: u32) -> (r: u64)
    ensures
        r == scaled_radius_spec(radius, scale),
        r * SCALE_ONE >= radius * scale,
{
    proof {
        lemma_mul_within(radius as int, scale as int, 0xffff_ffff);
    }
    let prod: u64 = (radius as u64) * (scale as u64);
    let r = (prod + (SCALE_ONE - 1)) / SCALE_ONE;
    assert(r * SCALE_ONE >= radius * scale) by (nonlinear_arith)
        requires r == (prod + 65535) / 65536, prod == radius * scale, prod >= 0;
    r
}

/// Squared distance between two points.
pub open spec fn dist_sq_spec(a: Vec3, b: Vec3) -> int {
    (a.x - b.x) * (a.x - b.x) + (a.y - b.y) * (a.y - b.y) + (a.z - b.z) * (a.z - b.z)
}

pub fn dist_sq(a: Vec3, b: Vec3) -> (r: u128)
    ensures
        r == dist_sq_spec(a, b),
{
    let dx: i64 = (a.x as i64) - (b.x as i64);
    let dy: i64 = (a.y as i64) - (b.y as i64);
    let dz: i64 = (a.z as i64) - (b.z as i64);
    assert(0 <= dx * dx <= 0x4_0000_0000_0000_0000) by (nonlinear_arith)
        requires -0x1_0000_0000 <= dx <= 0x1_0000_0000;
    assert(0 <= dy * dy <= 0x4_0000_0000_0000_0000) by (nonlinear_arith)
        requires -0x1_0000_0000 <= dy <= 0x1_0000_0000;
    assert(0 <= dz * dz <= 0x4_0000_0000_0000_0000) by (nonlinear_arith)
        requires -0x1_0000_0000 <= dz <= 0x1_0000_0000;
    let ux: u128 = (dx as i128 * dx as i128) as u128;
    let uy: u128 = (dy as i128 * dy as i128) as u128;
    let uz: u128 = (dz as i128 * dz as i128) as u128;
    ux + uy + uz
}

} // verus!
