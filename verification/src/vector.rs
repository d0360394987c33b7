//! Two-, three- and four-component vectors over the fixed-point scalar.

use vstd::prelude::*;

verus! {

use crate::scalar::fix_abs;
use crate::scalar::fix_div;
use crate::scalar::fix_mul;
use crate::scalar::fix_sqrt;
use crate::scalar::lemma_fix_div_bound;
use crate::scalar::lemma_fix_mul_bound;
use crate::scalar::spec_fix_div;
use crate::scalar::spec_fix_mul;
use crate::scalar::spec_fix_sqrt;

/// The largest component magnitude the vector operations accept; keeps every
/// intermediate product inside `i64`.
pub const VEC_LIMIT: i64 = 0x7fff_ffff;

#[derive(Clone, Copy, Debug, PartialEq, Eq, Structural)]
pub struct Vec2 {
    pub x: i64,
    pub y: i64,
}

#[derive(Clone, Copy, Debug, PartialEq, Eq, Structural)]
pub struct Vec3 {
    pub x: i64,
    pub y: i64,
    pub z: i64,
}

#[derive(Clone, Copy, Debug, PartialEq, Eq, Structural)]
pub struct Vec4 {
    pub x: i64,
    pub y: i64,
    pub z: i64,
    pub w: i64,
}

/// All components of a three-vector are bounded in magnitude by `b`.
pub open spec fn v3_in(v: Vec3, b: int) -> bool {
    fix_abs(v.x as int) <= b && fix_abs(v.y as int) <= b && fix_abs(v.z as int) <= b
}

/// All components of a two-vector are bounded in magnitude by `b`.
pub open spec fn v2_in(v: Vec2, b: int) -> bool {
    fix_abs(v.x as int) <= b && fix_abs(v.y as int) <= b
}

/// Componentwise difference, as a spec-level value.
pub open spec fn spec_sub3(a: Vec3, b: Vec3) -> Vec3 {
    Vec3 { x: (a.x - b.x) as i64, y: (a.y - b.y) as i64, z: (a.z - b.z) as i64 }
}

/// Fixed-point dot product of two three-vectors.
pub open spec fn spec_dot3(a: Vec3, b: Vec3) -> int {
    spec_fix_mul(a.x as int, b.x as int) + spec_fix_mul(a.y as int, b.y as int) + spec_fix_mul(
        a.z as int,
        b.z as int,
    )
}

/// Fixed-point cross product of two three-vectors, componentwise.
pub open spec fn spec_cross(a: Vec3, b: Vec3) -> Vec3 {
    Vec3 {
        x: (spec_fix_mul(a.y as int, b.z as int) - spec_fix_mul(a.z as int, b.y as int)) as i64,
        y: (spec_fix_mul(a.z as int, b.x as int) - spec_fix_mul(a.x as int, b.z as int)) as i64,
        z: (spec_fix_mul(a.x as int, b.y as int) - spec_fix_mul(a.y as int, b.x as int)) as i64,
    }
}

impl Vec2 {
    pub fn new(x: i64, y: i64) -> (r: Vec2)
        ensures
            r == (Vec2 { x, y }),
    {
        Vec2 { x, y }
    }
}

impl Vec3 {
    pub fn new(x: i64, y: i64, z: i64) -> (r: Vec3)
        ensures
            r == (Vec3 { x, y, z }),
    {
        Vec3 { x, y, z }
    }

    /// Componentwise sum.
    pub fn add(&self, rhs: &Vec3) -> (r: Vec3)
        requires
            v3_in(*self, 0x3fff_ffff_ffff_ffff),
            v3_in(*rhs, 0x3fff_ffff_ffff_ffff),
        ensures
            r.x as int == self.x + rhs.x,
            r.y as int == self.y + rhs.y,
            r.z as int == self.z + rhs.z,
    {
        Vec3 { x: self.x + rhs.x, y: self.y + rhs.y, z: self.z + rhs.z }
    }

    /// Componentwise difference.
    pub fn sub(&self, rhs: &Vec3) -> (r: Vec3)
        requires
            v3_in(*self, 0x3fff_ffff_ffff_ffff),
            v3_in(*rhs, 0x3fff_ffff_ffff_ffff),
        ensures
            r.x as int == self.x - rhs.x,
            r.y as int == self.y - rhs.y,
            r.z as int == self.z - rhs.z,
    {
        Vec3 { x: self.x - rhs.x, y: self.y - rhs.y, z: self.z - rhs.z }
    }

    /// Componentwise negation.
    pub fn neg(&self) -> (r: Vec3)
        requires
            v3_in(*self, 0x7fff_ffff_ffff_ffff),
        ensures
            r.x as int == -(self.x as int),
            r.y as int == -(self.y as int),
            r.z as int == -(self.z as int),
    {
        Vec3 { x: -self.x, y: -self.y, z: -self.z }
    }

    /// Fixed-point multiplication by a scalar.
    pub fn scale(&self, s: i64) -> (r: Vec3)
        requires
            v3_in(*self, VEC_LIMIT as int),
            fix_abs(s as int) <= VEC_LIMIT as int,
        ensures
            r.x as int == spec_fix_mul(self.x as int, s as int),
            r.y as int == spec_fix_mul(self.y as int, s as int),
            r.z as int == spec_fix_mul(self.z as int, s as int),
            v3_in(r, 0x7fff_ffff_fffe as int),
    {
        proof {
            lemma_fix_mul_bound(self.x as int, s as int, VEC_LIMIT as int, VEC_LIMIT as int);
            lemma_fix_mul_bound(self.y as int, s as int, VEC_LIMIT as int, VEC_LIMIT as int);
            lemma_fix_mul_bound(self.z as int, s as int, VEC_LIMIT as int, VEC_LIMIT as int);
        }
        Vec3 { x: fix_mul(self.x, s), y: fix_mul(self.y, s), z: fix_mul(self.z, s) }
    }

    /// Fixed-point dot product.
    pub fn dot(&self, rhs: &Vec3) -> (r: i64)
        requires
            v3_in(*self, VEC_LIMIT as int),
            v3_in(*rhs, VEC_LIMIT as int),
        ensures
            r as int == spec_dot3(*self, *rhs),
            fix_abs(r as int) <= 0x3_0000_0000_0000,
    {
        proof {
            lemma_fix_mul_bound(self.x as int, rhs.x as int, VEC_LIMIT as int, VEC_LIMIT as int);
            lemma_fix_mul_bound(self.y as int, rhs.y as int, VEC_LIMIT as int, VEC_LIMIT as int);
            lemma_fix_mul_bound(self.z as int, rhs.z as int, VEC_LIMIT as int, VEC_LIMIT as int);
        }
        fix_mul(self.x, rhs.x) + fix_mul(self.y, rhs.y) + fix_mul(self.z, rhs.z)
    }

    /// Fixed-point cross product.
    pub fn cross(&self, rhs: &Vec3) -> (r: Vec3)
        requires
            v3_in(*self, VEC_LIMIT as int),
            v3_in(*rhs, VEC_LIMIT as int),
        ensures
            r == spec_cross(*self, *rhs),
            v3_in(r, 0xffff_ffff_fffc as int),
    {
        proof {
            lemma_fix_mul_bound(self.x as int, rhs.x as int, VEC_LIMIT as int, VEC_LIMIT as int);
            lemma_fix_mul_bound(self.x as int, rhs.y as int, VEC_LIMIT as int, VEC_LIMIT as int);
            lemma_fix_mul_bound(self.x as int, rhs.z as int, VEC_LIMIT as int, VEC_LIMIT as int);
            lemma_fix_mul_bound(self.y as int, rhs.x as int, VEC_LIMIT as int, VEC_LIMIT as int);
            lemma_fix_mul_bound(self.y as int, rhs.y as int, VEC_LIMIT as int, VEC_LIMIT as int);
            lemma_fix_mul_bound(self.y as int, rhs.z as int, VEC_LIMIT as int, VEC_LIMIT as int);
            lemma_fix_mul_bound(self.z as int, rhs.x as int, VEC_LIMIT as int, VEC_LIMIT as int);
            lemma_fix_mul_bound(self.z as int, rhs.y as int, VEC_LIMIT as int, VEC_LIMIT as int);
            lemma_fix_mul_bound(self.z as int, rhs.z as int, VEC_LIMIT as int, VEC_LIMIT as int);
        }
        Vec3 {
            x: fix_mul(self.y, rhs.z) - fix_mul(self.z, rhs.y),
            y: fix_mul(self.z, rhs.x) - fix_mul(self.x, rhs.z),
            z: fix_mul(self.x, rhs.y) - fix_mul(self.y, rhs.x),
        }
    }

    /// Fixed-point squared length; never negative.
    pub fn length2(&self) -> (r: i64)
        requires
            v3_in(*self, VEC_LIMIT as int),
        ensures
            r as int == spec_dot3(*self, *self),
            r >= 0,
    {
        self.dot(self)
    }

    /// Fixed-point length: the square root of the squared length.
    pub fn length(&self) -> (r: i64)
        requires
            v3_in(*self, VEC_LIMIT as int),
        ensures
            r as int == spec_fix_sqrt(spec_dot3(*self, *self)),
            r >= 0,
            (r as int) * (r as int) <= spec_dot3(*self, *self) * 65536,
            ((r as int) + 1) * ((r as int) + 1) > spec_dot3(*self, *self) * 65536,
    {
        fix_sqrt(self.length2())
    }

    /// The same direction with fixed-point length one (up to truncation).
    /// The vector must not be infinitesimally short.
    pub fn normalized(&self) -> (r: Vec3)
        requires
            v3_in(*self, VEC_LIMIT as int),
            spec_dot3(*self, *self) >= 1,
        ensures
            r.x as int == spec_fix_div(self.x as int, spec_fix_sqrt(spec_dot3(*self, *self))),
            r.y as int == spec_fix_div(self.y as int, spec_fix_sqrt(spec_dot3(*self, *self))),
            r.z as int == spec_fix_div(self.z as int, spec_fix_sqrt(spec_dot3(*self, *self))),
    {
        let len = self.length();
        proof {
            assert(len >= 1) by (nonlinear_arith)
                requires
                    len >= 0,
                    (len as int) * (len as int) <= spec_dot3(*self, *self) * 65536,
                    ((len as int) + 1) * ((len as int) + 1) > spec_dot3(*self, *self) * 65536,
                    spec_dot3(*self, *self) >= 1,
            ;
            lemma_fix_div_bound(self.x as int, len as int);
            lemma_fix_div_bound(self.y as int, len as int);
            lemma_fix_div_bound(self.z as int, len as int);
        }
        Vec3 { x: fix_div(self.x, len), y: fix_div(self.y, len), z: fix_div(self.z, len) }
    }

    /// Normalize in place.
    pub fn normalize(&mut self)
        requires
            v3_in(*old(self), VEC_LIMIT as int),
            spec_dot3(*old(self), *old(self)) >= 1,
        ensures
            *final(self) == old(self).normalized_spec(),
    {
        let n = (*self).normalized();
        *self = n;
    }

    /// What `normalized` returns, as a spec-level value.
    pub open spec fn normalized_spec(self) -> Vec3 {
        let len = spec_fix_sqrt(spec_dot3(self, self));
        Vec3 {
            x: spec_fix_div(self.x as int, len) as i64,
            y: spec_fix_div(self.y as int, len) as i64,
            z: spec_fix_div(self.z as int, len) as i64,
        }
    }
}

impl Vec4 {
    pub fn new(x: i64, y: i64, z: i64, w: i64) -> (r: Vec4)
        ensures
            r == (Vec4 { x, y, z, w }),
    {
        Vec4 { x, y, z, w }
    }
}

} // verus!
