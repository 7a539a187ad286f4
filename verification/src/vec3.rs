//! 3-component vectors over fixed-point scalars, with the operations the
//! renderer needs: addition, scaling, component-wise product, dot product,
//! length, normalization, clamping and mirror reflection.
//!
//! Each executable operation returns exactly the value of its spec-level
//! counterpart (`s_add`, `s_dot`, ...), so every contract downstream can be
//! stated as an equation over these spec functions.

use vstd::prelude::*;

use crate::fixed::{
    fadd,
    fsub,
    fneg,
    fmul,
    fdiv,
    fsqrt,
    fx_add,
    fx_sub,
    fx_neg,
    fx_mul,
    fx_div,
    fx_sqrt,
};

verus! {

/// A vector of three fixed-point coordinates.
#[derive(Clone, Copy, PartialEq, Eq, Structural, Debug)]
pub struct Vec3 {
    pub x: i64,
    pub y: i64,
    pub z: i64,
}

/// The zero vector.
pub open spec fn s_zero() -> Vec3 {
    Vec3 { x: 0, y: 0, z: 0 }
}

/// Component-wise saturating sum.
pub open spec fn s_add(a: Vec3, b: Vec3) -> Vec3 {
    Vec3 {
        x: fadd(a.x as int, b.x as int) as i64,
        y: fadd(a.y as int, b.y as int) as i64,
        z: fadd(a.z as int, b.z as int) as i64,
    }
}

/// Component-wise saturating difference.
pub open spec fn s_sub(a: Vec3, b: Vec3) -> Vec3 {
    Vec3 {
        x: fsub(a.x as int, b.x as int) as i64,
        y: fsub(a.y as int, b.y as int) as i64,
        z: fsub(a.z as int, b.z as int) as i64,
    }
}

/// Component-wise negation.
pub open spec fn s_neg(a: Vec3) -> Vec3 {
    Vec3 { x: fneg(a.x as int) as i64, y: fneg(a.y as int) as i64, z: fneg(a.z as int) as i64 }
}

/// Scaling by a fixed-point scalar.
pub open spec fn s_scale(a: Vec3, k: int) -> Vec3 {
    Vec3 {
        x: fmul(a.x as int, k) as i64,
        y: fmul(a.y as int, k) as i64,
        z: fmul(a.z as int, k) as i64,
    }
}

/// Component-wise (Hadamard) product, used to filter light through a color.
pub open spec fn s_mul_comp(a: Vec3, b: Vec3) -> Vec3 {
    Vec3 {
        x: fmul(a.x as int, b.x as int) as i64,
        y: fmul(a.y as int, b.y as int) as i64,
        z: fmul(a.z as int, b.z as int) as i64,
    }
}

/// Dot product.
pub open spec fn s_dot(a: Vec3, b: Vec3) -> int {
    fadd(
        fadd(fmul(a.x as int, b.x as int), fmul(a.y as int, b.y as int)),
        fmul(a.z as int, b.z as int),
    )
}

/// Euclidean length (0 if the squared length truncates to a negative value,
/// which cannot happen but keeps the function total).
pub open spec fn s_len(a: Vec3) -> int {
    fsqrt(s_dot(a, a))
}

/// Unit vector in the direction of `a`; the zero vector when the length
/// truncates to zero (degenerate input, guarded rather than divided by).
pub open spec fn s_normalize(a: Vec3) -> Vec3 {
    let l = s_len(a);
    if l <= 0 {
        s_zero()
    } else {
        Vec3 {
            x: fdiv(a.x as int, l) as i64,
            y: fdiv(a.y as int, l) as i64,
            z: fdiv(a.z as int, l) as i64,
        }
    }
}

/// One component clamped to [lo, hi].
pub open spec fn s_clamp1(c: int, lo: int, hi: int) -> int {
    if c < lo {
        lo
    } else if c > hi {
        hi
    } else {
        c
    }
}

/// Component-wise clamp to [lo, hi].
pub open spec fn s_clamp(a: Vec3, lo: int, hi: int) -> Vec3 {
    Vec3 {
        x: s_clamp1(a.x as int, lo, hi) as i64,
        y: s_clamp1(a.y as int, lo, hi) as i64,
        z: s_clamp1(a.z as int, lo, hi) as i64,
    }
}

/// Mirror reflection of `d` about the axis `n`: d - 2*dot(d, n)*n.
pub open spec fn s_reflect(d: Vec3, n: Vec3) -> Vec3 {
    s_sub(d, s_scale(n, fadd(s_dot(d, n), s_dot(d, n))))
}

impl Vec3 {
    /// The zero vector.
    pub fn zero() -> (r: Vec3)
        ensures
            r == s_zero(),
    {
        Vec3 { x: 0, y: 0, z: 0 }
    }

    /// Component-wise saturating sum.
    pub fn plus(self, o: Vec3) -> (r: Vec3)
        ensures
            r == s_add(self, o),
    {
        Vec3 { x: fx_add(self.x, o.x), y: fx_add(self.y, o.y), z: fx_add(self.z, o.z) }
    }

    /// Component-wise saturating difference.
    pub fn minus(self, o: Vec3) -> (r: Vec3)
        ensures
            r == s_sub(self, o),
    {
        Vec3 { x: fx_sub(self.x, o.x), y: fx_sub(self.y, o.y), z: fx_sub(self.z, o.z) }
    }

    /// Component-wise negation.
    pub fn negate(self) -> (r: Vec3)
        ensures
            r == s_neg(self),
    {
        Vec3 { x: fx_neg(self.x), y: fx_neg(self.y), z: fx_neg(self.z) }
    }

    /// Scaling by a fixed-point scalar.
    pub fn scale(self, k: i64) -> (r: Vec3)
        ensures
            r == s_scale(self, k as int),
    {
        Vec3 { x: fx_mul(self.x, k), y: fx_mul(self.y, k), z: fx_mul(self.z, k) }
    }

    /// Component-wise product.
    pub fn mul_comp(self, o: Vec3) -> (r: Vec3)
        ensures
            r == s_mul_comp(self, o),
    {
        Vec3 { x: fx_mul(self.x, o.x), y: fx_mul(self.y, o.y), z: fx_mul(self.z, o.z) }
    }

    /// Dot product.
    pub fn dot(self, o: Vec3) -> (r: i64)
        ensures
            r as int == s_dot(self, o),
    {
        fx_add(fx_add(fx_mul(self.x, o.x), fx_mul(self.y, o.y)), fx_mul(self.z, o.z))
    }

    /// Euclidean length.
    pub fn length(self) -> (r: i64)
        ensures
            r as int == s_len(self),
    {
        fx_sqrt(self.dot(self))
    }

    /// Unit vector in the direction of `self`; the zero vector for degenerate
    /// input whose length truncates to zero.
    pub fn normalize(self) -> (r: Vec3)
        ensures
            r == s_normalize(self),
    {
        let l: i64 = self.length();
        if l <= 0 {
            Vec3::zero()
        } else {
            Vec3 { x: fx_div(self.x, l), y: fx_div(self.y, l), z: fx_div(self.z, l) }
        }
    }

    /// Component-wise clamp to [lo, hi].
    pub fn clamp(self, lo: i64, hi: i64) -> (r: Vec3)
        ensures
            r == s_clamp(self, lo as int, hi as int),
    {
        Vec3 {
            x: clamp1(self.x, lo, hi),
            y: clamp1(self.y, lo, hi),
            z: clamp1(self.z, lo, hi),
        }
    }

    /// Mirror reflection of `self` about the axis `n`.
    pub fn reflect(self, n: Vec3) -> (r: Vec3)
        ensures
            r == s_reflect(self, n),
    {
        let d: i64 = self.dot(n);
        self.minus(n.scale(fx_add(d, d)))
    }
}

/// One scalar clamped to [lo, hi].
fn clamp1(c: i64, lo: i64, hi: i64) -> (r: i64)
    ensures
        r as int == s_clamp1(c as int, lo as int, hi as int),
{
    if c < lo {
        lo
    } else if c > hi {
        hi
    } else {
        c
    }
}

} // verus!
