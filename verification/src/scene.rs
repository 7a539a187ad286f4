//! The scene model: materials, intersectable primitives (sphere, plane),
//! rays, lights and the world/render configuration.
//!
//! `Object::hit` answers whether a ray meets the primitive within a parametric
//! range; its result is pinned exactly by the spec functions `s_sphere_hit`
//! and `s_plane_hit`, which state the quadratic (sphere) and linear (plane)
//! intersection arithmetic over fixed-point scalars.

use vstd::prelude::*;

use crate::fixed::{fadd, fsub, fneg, fmul, fdiv, fsqrt, fx_add, fx_sub, fx_neg, fx_mul, fx_div,
fx_sqrt, SCALE};
use crate::vec3::{Vec3, s_sub, s_dot, s_len, s_normalize};

verus! {

/// Fixed-point representation of 4.0, the constant of the quadratic
/// discriminant b*b - 4*a*c.
pub const FOUR_FIXED: i64 = 4 * SCALE;

/// Surface description: base color, specular exponent, and the fraction of
/// radiance mirrored rather than locally shaded.
#[derive(Clone, Copy, PartialEq, Eq, Structural, Debug)]
pub struct Material {
    /// Base surface color, each channel a fixed-point value in [0, 1].
    pub color: Vec3,
    /// Specular exponent: larger values sharpen the highlight (an exponent
    /// of 0 makes the term constant, since x^0 == 1).
    pub specular: u32,
    /// Reflectivity in [0, SCALE]: the fraction of radiance mirrored.
    pub refl: i64,
}

impl Material {
    /// The documented range invariant: reflectivity is a fraction.
    pub open spec fn wf(self) -> bool {
        0 <= self.refl <= SCALE
    }
}

/// Result of a ray/primitive intersection test: a miss, or a hit at ray
/// parameter t within the queried range.
#[derive(Clone, Copy, PartialEq, Eq, Structural, Debug)]
pub enum HitType {
    Miss,
    Hit(i64),
}

/// A half-line from an origin along a direction. The direction need not be
/// normalized; t along the ray is scaled by its magnitude.
#[derive(Clone, Copy, PartialEq, Eq, Structural, Debug)]
pub struct Ray {
    pub o: Vec3,
    pub d: Vec3,
}

/// An intersectable scene primitive with its material.
#[derive(Clone, Copy, PartialEq, Eq, Structural, Debug)]
pub enum Object {
    Sphere { center: Vec3, radius: i64, material: Material },
    Plane { point: Vec3, normal: Vec3, material: Material },
}

/// How a light radiates: uniformly, along a fixed direction, or from a point.
#[derive(Clone, Copy, PartialEq, Eq, Structural, Debug)]
pub enum LightType {
    Ambient,
    /// The stored vector points from the surface toward the light.
    Directional(Vec3),
    Point(Vec3),
}

/// A light source with its color.
#[derive(Clone, Copy, PartialEq, Eq, Structural, Debug)]
pub struct Light {
    pub kind: LightType,
    pub color: Vec3,
}

/// World parameters: camera position, background color, fog depth bounds.
#[derive(Clone, Copy, Debug)]
pub struct World {
    pub cam_pos: Vec3,
    pub background: Vec3,
    /// (near, far) depth bounds; the invariant is fog.1 > fog.0.
    pub fog: (i64, i64),
}

impl World {
    /// The documented invariant on the fog depth bounds.
    pub open spec fn wf(self) -> bool {
        self.fog.1 > self.fog.0
    }
}

/// Render options: reflection budget and worker count.
#[derive(Clone, Copy, PartialEq, Eq, Structural, Debug)]
pub struct RenderOpts {
    pub max_reflections: u32,
    pub threads: usize,
}

/// Everything the render loop needs besides the scene contents.
#[derive(Clone, Copy, Debug)]
pub struct Config {
    pub world: World,
    pub render: RenderOpts,
}

/// Ray/sphere intersection: the nearest root of the quadratic
/// (2*k1)*t^2 + ... within [lim.0, lim.1], computed over saturating
/// fixed-point arithmetic. A degenerate direction (squared length truncating
/// to zero) is a miss.
#[verifier::opaque]
pub open spec fn s_sphere_hit(r: Ray, center: Vec3, radius: int, lim: (int, int)) -> HitType {
    let oc = s_sub(r.o, center);
    let k1 = s_dot(r.d, r.d);
    let k2 = fadd(s_dot(oc, r.d), s_dot(oc, r.d));
    let k3 = fsub(s_dot(oc, oc), fmul(radius, radius));
    let a2 = fadd(k1, k1);
    if a2 == 0 {
        HitType::Miss
    } else {
        let disc = fsub(fmul(k2, k2), fmul(fmul(FOUR_FIXED as int, k1), k3));
        if disc < 0 {
            HitType::Miss
        } else {
            let sq = fsqrt(disc);
            let t1 = fdiv(fsub(fneg(k2), sq), a2);
            let t2 = fdiv(fadd(fneg(k2), sq), a2);
            if lim.0 <= t1 && t1 <= lim.1 {
                HitType::Hit(t1 as i64)
            } else if lim.0 <= t2 && t2 <= lim.1 {
                HitType::Hit(t2 as i64)
            } else {
                HitType::Miss
            }
        }
    }
}

/// Ray/plane intersection: t = dot(point - o, normal) / dot(d, normal),
/// a miss when the ray is parallel to the plane or t falls out of range.
#[verifier::opaque]
pub open spec fn s_plane_hit(r: Ray, point: Vec3, normal: Vec3, lim: (int, int)) -> HitType {
    let denom = s_dot(r.d, normal);
    if denom == 0 {
        HitType::Miss
    } else {
        let t = fdiv(s_dot(s_sub(point, r.o), normal), denom);
        if lim.0 <= t && t <= lim.1 {
            HitType::Hit(t as i64)
        } else {
            HitType::Miss
        }
    }
}

/// Intersection of a ray with any primitive.
pub open spec fn s_object_hit(obj: Object, r: Ray, lim: (int, int)) -> HitType {
    match obj {
        Object::Sphere { center, radius, material } => s_sphere_hit(r, center, radius as int, lim),
        Object::Plane { point, normal, material } => s_plane_hit(r, point, normal, lim),
    }
}

/// Material of a primitive at a surface point (constant for both primitives,
/// but defined per-point to allow future texturing).
pub open spec fn s_object_material(obj: Object) -> Material {
    match obj {
        Object::Sphere { center, radius, material } => material,
        Object::Plane { point, normal, material } => material,
    }
}

/// Outward surface normal at a point: for a sphere the normalized radius
/// vector at that point, for a plane its stored normal.
pub open spec fn s_object_normal(obj: Object, p: Vec3) -> Vec3 {
    match obj {
        Object::Sphere { center, radius, material } => s_normalize(s_sub(p, center)),
        Object::Plane { point, normal, material } => normal,
    }
}

impl Object {
    /// The scene-construction invariants: a positive radius, a normal of
    /// positive length, and a material whose reflectivity is a fraction.
    pub open spec fn wf(self) -> bool {
        match self {
            Object::Sphere { center, radius, material } => radius > 0 && material.wf(),
            Object::Plane { point, normal, material } => s_len(normal) > 0 && material.wf(),
        }
    }

    /// Does the ray hit this primitive within [lim.0, lim.1]?
    pub fn hit(&self, r: &Ray, lim: (i64, i64)) -> (res: HitType)
        ensures
            res == s_object_hit(*self, *r, (lim.0 as int, lim.1 as int)),
    {
        proof {
            reveal(s_sphere_hit);
            reveal(s_plane_hit);
        }
        match self {
            Object::Sphere { center, radius, material } => {
                let oc: Vec3 = r.o.minus(*center);
                let k1: i64 = r.d.dot(r.d);
                let dd: i64 = oc.dot(r.d);
                let k2: i64 = fx_add(dd, dd);
                let k3: i64 = fx_sub(oc.dot(oc), fx_mul(*radius, *radius));
                let a2: i64 = fx_add(k1, k1);
                if a2 == 0 {
                    HitType::Miss
                } else {
                    let disc: i64 = fx_sub(fx_mul(k2, k2), fx_mul(fx_mul(FOUR_FIXED, k1), k3));
                    if disc < 0 {
                        HitType::Miss
                    } else {
                        let sq: i64 = fx_sqrt(disc);
                        let t1: i64 = fx_div(fx_sub(fx_neg(k2), sq), a2);
                        let t2: i64 = fx_div(fx_add(fx_neg(k2), sq), a2);
                        if lim.0 <= t1 && t1 <= lim.1 {
                            HitType::Hit(t1)
                        } else if lim.0 <= t2 && t2 <= lim.1 {
                            HitType::Hit(t2)
                        } else {
                            HitType::Miss
                        }
                    }
                }
            },
            Object::Plane { point, normal, material } => {
                let denom: i64 = r.d.dot(*normal);
                if denom == 0 {
                    HitType::Miss
                } else {
                    let t: i64 = fx_div(point.minus(r.o).dot(*normal), denom);
                    if lim.0 <= t && t <= lim.1 {
                        HitType::Hit(t)
                    } else {
                        HitType::Miss
                    }
                }
            },
        }
    }

    /// Material at a surface point.
    pub fn material(&self, p: &Vec3) -> (m: Material)
        ensures
            m == s_object_material(*self),
    {
        match self {
            Object::Sphere { center, radius, material } => *material,
            Object::Plane { point, normal, material } => *material,
        }
    }

    /// Outward unit surface normal at a point.
    pub fn normal(&self, p: &Vec3) -> (n: Vec3)
        ensures
            n == s_object_normal(*self, *p),
    {
        match self {
            Object::Sphere { center, radius, material } => p.minus(*center).normalize(),
            Object::Plane { point, normal, material } => *normal,
        }
    }
}

/// A ray parallel to a plane (its direction orthogonal to the plane's
/// normal) never reports a hit, whatever the range queried.
pub proof fn lemma_parallel_ray_misses_plane(r: Ray, point: Vec3, normal: Vec3, lim: (int, int))
    requires
        s_dot(r.d, normal) == 0,
    ensures
        s_plane_hit(r, point, normal, lim) == HitType::Miss,
{
    reveal(s_plane_hit);
}

} // verus!
