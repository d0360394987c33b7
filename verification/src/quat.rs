//! Quaternions over the fixed-point scalar, used for rotations.

use vstd::prelude::*;

verus! {

use crate::scalar::fix_abs;
use crate::scalar::fix_cos;
use crate::scalar::fix_div;
use crate::scalar::fix_mul;
use crate::scalar::fix_sin;
use crate::scalar::fix_sqrt;
use crate::scalar::lemma_fix_div_bound;
use crate::scalar::lemma_fix_mul_bound;
use crate::scalar::spec_fix_cos;
use crate::scalar::spec_fix_div;
use crate::scalar::spec_fix_mul;
use crate::scalar::spec_fix_sin;
use crate::scalar::spec_fix_sqrt;
use crate::vector::spec_dot3;
use crate::vector::v3_in;
use crate::vector::Vec3;
use crate::vector::VEC_LIMIT;

/// A quaternion: a scalar part and a vector part.
#[derive(Clone, Copy, Debug, PartialEq, Eq, Structural)]
pub struct Quat {
    pub s: i64,
    pub v: Vec3,
}

/// The scalar part and every vector component are bounded in magnitude by `b`.
pub open spec fn q_in(q: Quat, b: int) -> bool {
    fix_abs(q.s as int) <= b && v3_in(q.v, b)
}

/// The fixed-point squared norm: `s*s + v.v`.
pub open spec fn spec_qnorm2(q: Quat) -> int {
    spec_fix_mul(q.s as int, q.s as int) + spec_dot3(q.v, q.v)
}

/// The fixed-point Hamilton product.
pub open spec fn spec_qmul(a: Quat, b: Quat) -> Quat {
    Quat {
        s: (spec_fix_mul(a.s as int, b.s as int) - spec_dot3(a.v, b.v)) as i64,
        v: Vec3 {
            x: (spec_fix_mul(a.s as int, b.v.x as int) + spec_fix_mul(b.s as int, a.v.x as int)
                + spec_fix_mul(a.v.y as int, b.v.z as int) - spec_fix_mul(
                a.v.z as int,
                b.v.y as int,
            )) as i64,
            y: (spec_fix_mul(a.s as int, b.v.y as int) + spec_fix_mul(b.s as int, a.v.y as int)
                + spec_fix_mul(a.v.z as int, b.v.x as int) - spec_fix_mul(
                a.v.x as int,
                b.v.z as int,
            )) as i64,
            z: (spec_fix_mul(a.s as int, b.v.z as int) + spec_fix_mul(b.s as int, a.v.z as int)
                + spec_fix_mul(a.v.x as int, b.v.y as int) - spec_fix_mul(
                a.v.y as int,
                b.v.x as int,
            )) as i64,
        },
    }
}

/// The fixed-point inverse: the conjugate divided by the squared norm.
pub open spec fn spec_qinv(q: Quat) -> Quat {
    let n2 = spec_qnorm2(q);
    Quat {
        s: spec_fix_div(q.s as int, n2) as i64,
        v: Vec3 {
            x: spec_fix_div(q.v.x as int, -n2) as i64,
            y: spec_fix_div(q.v.y as int, -n2) as i64,
            z: spec_fix_div(q.v.z as int, -n2) as i64,
        },
    }
}

impl Quat {
    pub fn new(s: i64, v: Vec3) -> (r: Quat)
        ensures
            r == (Quat { s, v }),
    {
        Quat { s, v }
    }

    /// The quaternion with no vector part.
    pub fn from_scalar(s: i64) -> (r: Quat)
        ensures
            r.s == s,
            r.v == (Vec3 { x: 0i64, y: 0i64, z: 0i64 }),
    {
        Quat { s, v: Vec3 { x: 0, y: 0, z: 0 } }
    }

    /// The quaternion with no scalar part.
    pub fn pure(v: Vec3) -> (r: Quat)
        ensures
            r.s == 0,
            r.v == v,
    {
        Quat { s: 0, v }
    }

    /// The rotation by a fixed-point angle about an axis: the cosine of the
    /// half angle, and the unit axis scaled by its sine.
    pub fn rotation(angle: i64, axis: Vec3) -> (r: Quat)
        requires
            fix_abs(spec_fix_mul(angle as int, 32768)) <= 8 * 65536,
            -0x7fff_ffff_ffff_ffff <= spec_fix_mul(angle as int, 32768) <= 0x7fff_ffff_ffff_ffff,
            v3_in(axis, VEC_LIMIT as int),
            spec_dot3(axis, axis) >= 1,
            v3_in(axis.normalized_spec(), VEC_LIMIT as int),
        ensures
            r.s as int == spec_fix_cos(spec_fix_mul(angle as int, 32768)),
            ({
                let half = spec_fix_mul(angle as int, 32768);
                let unit = axis.normalized_spec();
                r.v.x as int == spec_fix_mul(unit.x as int, spec_fix_sin(half)) && r.v.y as int
                    == spec_fix_mul(unit.y as int, spec_fix_sin(half)) && r.v.z as int
                    == spec_fix_mul(unit.z as int, spec_fix_sin(half))
            }),
    {
        let half = fix_mul(angle, 32768);
        let s = fix_sin(half);
        let c = fix_cos(half);
        let unit = axis.normalized();
        Quat { s: c, v: unit.scale(s) }
    }

    /// The conjugate: the vector part negated.
    pub fn conjugate(self) -> (r: Quat)
        requires
            v3_in(self.v, 0x7fff_ffff_ffff_ffff),
        ensures
            r.s == self.s,
            r.v.x as int == -(self.v.x as int),
            r.v.y as int == -(self.v.y as int),
            r.v.z as int == -(self.v.z as int),
    {
        Quat { s: self.s, v: self.v.neg() }
    }

    /// The fixed-point squared norm; never negative.
    pub fn norm2(self) -> (r: i64)
        requires
            q_in(self, VEC_LIMIT as int),
        ensures
            r as int == spec_qnorm2(self),
            r >= 0,
            fix_abs(r as int) <= 0x4_0000_0000_0000,
    {
        proof {
            lemma_fix_mul_bound(self.s as int, self.s as int, VEC_LIMIT as int, VEC_LIMIT as int);
        }
        fix_mul(self.s, self.s) + self.v.dot(&self.v)
    }

    /// The fixed-point norm: the square root of the squared norm.
    pub fn norm(self) -> (r: i64)
        requires
            q_in(self, VEC_LIMIT as int),
        ensures
            r as int == spec_fix_sqrt(spec_qnorm2(self)),
            r >= 0,
    {
        fix_sqrt(self.norm2())
    }

    /// The same rotation with fixed-point norm one (up to truncation). The
    /// quaternion must not be infinitesimally short.
    pub fn normalized(self) -> (r: Quat)
        requires
            q_in(self, VEC_LIMIT as int),
            spec_qnorm2(self) >= 1,
        ensures
            ({
                let len = spec_fix_sqrt(spec_qnorm2(self));
                r.s as int == spec_fix_div(self.s as int, len) && r.v.x as int == spec_fix_div(
                    self.v.x as int,
                    len,
                ) && r.v.y as int == spec_fix_div(self.v.y as int, len) && r.v.z as int
                    == spec_fix_div(self.v.z as int, len)
            }),
    {
        let len = fix_sqrt(self.norm2());
        proof {
            assert(len >= 1) by (nonlinear_arith)
                requires
                    len >= 0,
                    (len as int) * (len as int) <= spec_qnorm2(self) * 65536,
                    ((len as int) + 1) * ((len as int) + 1) > spec_qnorm2(self) * 65536,
                    spec_qnorm2(self) >= 1,
            ;
            lemma_fix_div_bound(self.s as int, len as int);
            lemma_fix_div_bound(self.v.x as int, len as int);
            lemma_fix_div_bound(self.v.y as int, len as int);
            lemma_fix_div_bound(self.v.z as int, len as int);
        }
        Quat {
            s: fix_div(self.s, len),
            v: Vec3 {
                x: fix_div(self.v.x, len),
                y: fix_div(self.v.y, len),
                z: fix_div(self.v.z, len),
            },
        }
    }

    /// The fixed-point inverse: the conjugate divided by the squared norm.
    /// The quaternion must not be infinitesimally short.
    pub fn inversed(self) -> (r: Quat)
        requires
            q_in(self, VEC_LIMIT as int),
            spec_qnorm2(self) >= 1,
        ensures
            r == spec_qinv(self),
    {
        let n2 = self.norm2();
        proof {
            lemma_fix_div_bound(self.s as int, n2 as int);
            lemma_fix_div_bound(self.v.x as int, -(n2 as int));
            lemma_fix_div_bound(self.v.y as int, -(n2 as int));
            lemma_fix_div_bound(self.v.z as int, -(n2 as int));
        }
        Quat {
            s: fix_div(self.s, n2),
            v: Vec3 {
                x: fix_div(self.v.x, -n2),
                y: fix_div(self.v.y, -n2),
                z: fix_div(self.v.z, -n2),
            },
        }
    }

    /// The fixed-point Hamilton product.
    pub fn mul(self, rhs: Quat) -> (r: Quat)
        requires
            q_in(self, VEC_LIMIT as int),
            q_in(rhs, VEC_LIMIT as int),
        ensures
            r == spec_qmul(self, rhs),
            q_in(r, 0x10_0000_0000_0000),
    {
        proof {
            lemma_fix_mul_bound(self.s as int, rhs.s as int, VEC_LIMIT as int, VEC_LIMIT as int);
            lemma_fix_mul_bound(self.s as int, rhs.v.x as int, VEC_LIMIT as int, VEC_LIMIT as int);
            lemma_fix_mul_bound(self.s as int, rhs.v.y as int, VEC_LIMIT as int, VEC_LIMIT as int);
            lemma_fix_mul_bound(self.s as int, rhs.v.z as int, VEC_LIMIT as int, VEC_LIMIT as int);
            lemma_fix_mul_bound(rhs.s as int, self.v.x as int, VEC_LIMIT as int, VEC_LIMIT as int);
            lemma_fix_mul_bound(rhs.s as int, self.v.y as int, VEC_LIMIT as int, VEC_LIMIT as int);
            lemma_fix_mul_bound(rhs.s as int, self.v.z as int, VEC_LIMIT as int, VEC_LIMIT as int);
            lemma_fix_mul_bound(self.v.x as int, rhs.v.y as int, VEC_LIMIT as int, VEC_LIMIT as int);
            lemma_fix_mul_bound(self.v.x as int, rhs.v.z as int, VEC_LIMIT as int, VEC_LIMIT as int);
            lemma_fix_mul_bound(self.v.y as int, rhs.v.x as int, VEC_LIMIT as int, VEC_LIMIT as int);
            lemma_fix_mul_bound(self.v.y as int, rhs.v.z as int, VEC_LIMIT as int, VEC_LIMIT as int);
            lemma_fix_mul_bound(self.v.z as int, rhs.v.x as int, VEC_LIMIT as int, VEC_LIMIT as int);
            lemma_fix_mul_bound(self.v.z as int, rhs.v.y as int, VEC_LIMIT as int, VEC_LIMIT as int);
        }
        let s = fix_mul(self.s, rhs.s) - self.v.dot(&rhs.v);
        let vx = fix_mul(self.s, rhs.v.x) + fix_mul(rhs.s, self.v.x) + fix_mul(
            self.v.y,
            rhs.v.z,
        ) - fix_mul(self.v.z, rhs.v.y);
        let vy = fix_mul(self.s, rhs.v.y) + fix_mul(rhs.s, self.v.y) + fix_mul(
            self.v.z,
            rhs.v.x,
        ) - fix_mul(self.v.x, rhs.v.z);
        let vz = fix_mul(self.s, rhs.v.z) + fix_mul(rhs.s, self.v.z) + fix_mul(
            self.v.x,
            rhs.v.y,
        ) - fix_mul(self.v.y, rhs.v.x);
        Quat { s, v: Vec3 { x: vx, y: vy, z: vz } }
    }

    /// Conjugation of a vector by this quaternion: the vector part of
    /// `self * pure(v) * self.inversed()`, the rotated vector when `self`
    /// is a unit rotation quaternion.
    pub fn rotate_vector(self, v: Vec3) -> (r: Vec3)
        requires
            q_in(self, VEC_LIMIT as int),
            v3_in(v, VEC_LIMIT as int),
            spec_qnorm2(self) >= 1,
            q_in(spec_qmul(self, Quat { s: 0i64, v }), VEC_LIMIT as int),
            q_in(spec_qinv(self), VEC_LIMIT as int),
        ensures
            r == spec_qmul(spec_qmul(self, Quat { s: 0i64, v }), spec_qinv(self)).v,
    {
        let p = self.mul(Quat::pure(v));
        let inv = self.inversed();
        let w = p.mul(inv);
        w.v
    }
}

} // verus!
