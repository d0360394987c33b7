//! 4x4 matrices over the fixed-point scalar: products, determinants,
//! inverses, and the standard transform and projection constructors.

use vstd::prelude::*;

verus! {

use crate::scalar::fix_abs;
use crate::scalar::fix_cos;
use crate::scalar::fix_div;
use crate::scalar::fix_div_checked;
use crate::scalar::fix_mul;
use crate::scalar::fix_sin;
use crate::scalar::lemma_fix_div_bound;
use crate::scalar::lemma_fix_mul_bound;
use crate::scalar::spec_fix_cos;
use crate::scalar::spec_fix_div;
use crate::scalar::spec_fix_mul;
use crate::scalar::spec_fix_sin;
use crate::vector::spec_cross;
use crate::vector::spec_dot3;
use crate::vector::spec_sub3;
use crate::vector::v3_in;
use crate::vector::Vec3;

/// The largest entry magnitude the product and transform operations accept.
pub const MAT_LIMIT: i64 = 0x7fff_ffff;

/// The largest entry magnitude the determinant and inverse accept; triple
/// fixed products of such entries stay inside `i64`.
pub const DET_LIMIT: i64 = 0x400_0000;

/// The largest plane coordinate the projection constructors accept.
pub const PROJ_LIMIT: i64 = 0x3fff_ffff;

/// A 4x4 matrix of fixed-point scalars, row major.
#[derive(Clone, Copy, Debug, PartialEq, Eq)]
pub struct Mat4x4 {
    pub data: [[i64; 4]; 4],
}

/// Matrix entry at row `i`, column `j`, as a mathematical integer.
pub open spec fn me(m: Mat4x4, i: int, j: int) -> int {
    m.data[i][j] as int
}

/// Every entry of the matrix is bounded in magnitude by `b`.
pub open spec fn m_in(m: Mat4x4, b: int) -> bool {
    forall|i: int, j: int| 0 <= i < 4 && 0 <= j < 4 ==> fix_abs(#[trigger] me(m, i, j)) <= b
}

/// Fixed-point dot product of two rows of four.
pub open spec fn spec_dot4(
    a0: int,
    a1: int,
    a2: int,
    a3: int,
    b0: int,
    b1: int,
    b2: int,
    b3: int,
) -> int {
    spec_fix_mul(a0, b0) + spec_fix_mul(a1, b1) + spec_fix_mul(a2, b2) + spec_fix_mul(a3, b3)
}

/// Entry `(i, j)` of the fixed-point matrix product.
pub open spec fn spec_mul_entry(a: Mat4x4, b: Mat4x4, i: int, j: int) -> int {
    spec_dot4(
        me(a, i, 0),
        me(a, i, 1),
        me(a, i, 2),
        me(a, i, 3),
        me(b, 0, j),
        me(b, 1, j),
        me(b, 2, j),
        me(b, 3, j),
    )
}

/// Spells the entrywise bound of `m_in` out for each of the sixteen entries.
proof fn lemma_entries_bounded(m: Mat4x4, b: int)
    requires
        m_in(m, b),
    ensures
        fix_abs(m.data[0][0] as int) <= b && fix_abs(m.data[0][1] as int) <= b && fix_abs(
            m.data[0][2] as int,
        ) <= b && fix_abs(m.data[0][3] as int) <= b,
        fix_abs(m.data[1][0] as int) <= b && fix_abs(m.data[1][1] as int) <= b && fix_abs(
            m.data[1][2] as int,
        ) <= b && fix_abs(m.data[1][3] as int) <= b,
        fix_abs(m.data[2][0] as int) <= b && fix_abs(m.data[2][1] as int) <= b && fix_abs(
            m.data[2][2] as int,
        ) <= b && fix_abs(m.data[2][3] as int) <= b,
        fix_abs(m.data[3][0] as int) <= b && fix_abs(m.data[3][1] as int) <= b && fix_abs(
            m.data[3][2] as int,
        ) <= b && fix_abs(m.data[3][3] as int) <= b,
{
    assert forall|i: int, j: int| 0 <= i < 4 && 0 <= j < 4 implies fix_abs(
        m.data[i][j] as int,
    ) <= b by {
        assert(fix_abs(me(m, i, j)) <= b);
    }
}

fn dot4(a0: i64, a1: i64, a2: i64, a3: i64, b0: i64, b1: i64, b2: i64, b3: i64) -> (r: i64)
    requires
        fix_abs(a0 as int) <= MAT_LIMIT as int,
        fix_abs(a1 as int) <= MAT_LIMIT as int,
        fix_abs(a2 as int) <= MAT_LIMIT as int,
        fix_abs(a3 as int) <= MAT_LIMIT as int,
        fix_abs(b0 as int) <= MAT_LIMIT as int,
        fix_abs(b1 as int) <= MAT_LIMIT as int,
        fix_abs(b2 as int) <= MAT_LIMIT as int,
        fix_abs(b3 as int) <= MAT_LIMIT as int,
    ensures
        r as int == spec_dot4(
            a0 as int,
            a1 as int,
            a2 as int,
            a3 as int,
            b0 as int,
            b1 as int,
            b2 as int,
            b3 as int,
        ),
{
    proof {
        lemma_fix_mul_bound(a0 as int, b0 as int, MAT_LIMIT as int, MAT_LIMIT as int);
        lemma_fix_mul_bound(a1 as int, b1 as int, MAT_LIMIT as int, MAT_LIMIT as int);
        lemma_fix_mul_bound(a2 as int, b2 as int, MAT_LIMIT as int, MAT_LIMIT as int);
        lemma_fix_mul_bound(a3 as int, b3 as int, MAT_LIMIT as int, MAT_LIMIT as int);
    }
    fix_mul(a0, b0) + fix_mul(a1, b1) + fix_mul(a2, b2) + fix_mul(a3, b3)
}

/// The fixed-point determinant of a 3x3 block `[[p,q,r],[s,t,u],[v,w,x]]`,
/// with each triple product truncated as `spec_fix_mul` is.
pub open spec fn spec_det3(
    p: int,
    q: int,
    r: int,
    s: int,
    t: int,
    u: int,
    v: int,
    w: int,
    x: int,
) -> int {
    spec_fix_mul(spec_fix_mul(p, t), x) + spec_fix_mul(spec_fix_mul(q, u), v) + spec_fix_mul(
        spec_fix_mul(r, s),
        w,
    ) - spec_fix_mul(spec_fix_mul(p, u), w) - spec_fix_mul(spec_fix_mul(q, s), x) - spec_fix_mul(
        spec_fix_mul(r, t),
        v,
    )
}

fn det3(p: i64, q: i64, r: i64, s: i64, t: i64, u: i64, v: i64, w: i64, x: i64) -> (res: i64)
    requires
        fix_abs(p as int) <= DET_LIMIT as int,
        fix_abs(q as int) <= DET_LIMIT as int,
        fix_abs(r as int) <= DET_LIMIT as int,
        fix_abs(s as int) <= DET_LIMIT as int,
        fix_abs(t as int) <= DET_LIMIT as int,
        fix_abs(u as int) <= DET_LIMIT as int,
        fix_abs(v as int) <= DET_LIMIT as int,
        fix_abs(w as int) <= DET_LIMIT as int,
        fix_abs(x as int) <= DET_LIMIT as int,
    ensures
        res as int == spec_det3(
            p as int,
            q as int,
            r as int,
            s as int,
            t as int,
            u as int,
            v as int,
            w as int,
            x as int,
        ),
        fix_abs(res as int) <= 0x2_0000_0000_0000,
{
    proof {
        lemma_fix_mul_bound(p as int, t as int, DET_LIMIT as int, DET_LIMIT as int);
        lemma_fix_mul_bound(spec_fix_mul(p as int, t as int), x as int, 0x10_0000_0000, DET_LIMIT as int);
        lemma_fix_mul_bound(q as int, u as int, DET_LIMIT as int, DET_LIMIT as int);
        lemma_fix_mul_bound(spec_fix_mul(q as int, u as int), v as int, 0x10_0000_0000, DET_LIMIT as int);
        lemma_fix_mul_bound(r as int, s as int, DET_LIMIT as int, DET_LIMIT as int);
        lemma_fix_mul_bound(spec_fix_mul(r as int, s as int), w as int, 0x10_0000_0000, DET_LIMIT as int);
        lemma_fix_mul_bound(p as int, u as int, DET_LIMIT as int, DET_LIMIT as int);
        lemma_fix_mul_bound(spec_fix_mul(p as int, u as int), w as int, 0x10_0000_0000, DET_LIMIT as int);
        lemma_fix_mul_bound(q as int, s as int, DET_LIMIT as int, DET_LIMIT as int);
        lemma_fix_mul_bound(spec_fix_mul(q as int, s as int), x as int, 0x10_0000_0000, DET_LIMIT as int);
        lemma_fix_mul_bound(r as int, t as int, DET_LIMIT as int, DET_LIMIT as int);
        lemma_fix_mul_bound(spec_fix_mul(r as int, t as int), v as int, 0x10_0000_0000, DET_LIMIT as int);
    }
    fix_mul(fix_mul(p, t), x) + fix_mul(fix_mul(q, u), v) + fix_mul(fix_mul(r, s), w) - fix_mul(
        fix_mul(p, u),
        w,
    ) - fix_mul(fix_mul(q, s), x) - fix_mul(fix_mul(r, t), v)
}

/// The 3x3 minor at `(r, c)`: the `spec_det3` of the block left after
/// deleting row `r` and column `c`.
pub open spec fn spec_minor(m: Mat4x4, r: int, c: int) -> int {
    let r0: int = if r == 0 { 1int } else { 0 };
    let r1: int = if r <= 1 { 2int } else { 1 };
    let r2: int = if r == 3 { 2int } else { 3 };
    let c0: int = if c == 0 { 1int } else { 0 };
    let c1: int = if c <= 1 { 2int } else { 1 };
    let c2: int = if c == 3 { 2int } else { 3 };
    spec_det3(
        me(m, r0, c0), me(m, r0, c1), me(m, r0, c2),
        me(m, r1, c0), me(m, r1, c1), me(m, r1, c2),
        me(m, r2, c0), me(m, r2, c1), me(m, r2, c2),
    )
}

/// The fixed-point determinant: the Laplace expansion along the first
/// row, each product and the minors in fixed arithmetic.
pub open spec fn spec_det(m: Mat4x4) -> int {
    spec_fix_mul(me(m, 0, 0), spec_minor(m, 0, 0)) - spec_fix_mul(me(m, 0, 1), spec_minor(m, 0, 1))
        + spec_fix_mul(me(m, 0, 2), spec_minor(m, 0, 2)) - spec_fix_mul(
        me(m, 0, 3),
        spec_minor(m, 0, 3),
    )
}

/// Entry `(r, c)` of the fixed-point inverse: the adjugate transpose —
/// the cofactor of `(c, r)`, that is the minor there with the
/// checkerboard sign, divided by the determinant.
pub open spec fn spec_inv_entry(m: Mat4x4, r: int, c: int) -> int {
    let q = spec_fix_div(spec_minor(m, c, r), spec_det(m));
    if (r + c) % 2 == 0 {
        q
    } else {
        -q
    }
}

impl Mat4x4 {
    /// A matrix from its rows.
    pub fn new(data: [[i64; 4]; 4]) -> (r: Mat4x4)
        ensures
            r.data == data,
    {
        Mat4x4 { data }
    }

    /// The identity matrix.
    pub fn identity() -> (r: Mat4x4)
        ensures
            r == spec_identity(),
            forall|i: int, j: int|
                0 <= i < 4 && 0 <= j < 4 ==> #[trigger] me(r, i, j) == if i == j {
                    65536int
                } else {
                    0int
                },
    {
        Mat4x4 {
            data: [
                [65536, 0, 0, 0],
                [0, 65536, 0, 0],
                [0, 0, 65536, 0],
                [0, 0, 0, 65536],
            ],
        }
    }

    /// The scaling matrix with diagonal `s`.
    pub fn scale(s: Vec3) -> (r: Mat4x4)
        ensures
            me(r, 0, 0) == s.x && me(r, 1, 1) == s.y && me(r, 2, 2) == s.z,
            me(r, 3, 3) == 65536,
            forall|i: int, j: int|
                0 <= i < 4 && 0 <= j < 4 && i != j ==> #[trigger] me(r, i, j) == 0,
    {
        Mat4x4 {
            data: [
                [s.x, 0, 0, 0],
                [0, s.y, 0, 0],
                [0, 0, s.z, 0],
                [0, 0, 0, 65536],
            ],
        }
    }

    /// The translation matrix moving the origin to `t` (row-vector form:
    /// the translation sits in the last row).
    pub fn translate(t: Vec3) -> (r: Mat4x4)
        ensures
            me(r, 3, 0) == t.x && me(r, 3, 1) == t.y && me(r, 3, 2) == t.z,
            forall|i: int, j: int|
                0 <= i < 3 && 0 <= j < 4 ==> #[trigger] me(r, i, j) == if i == j {
                    65536int
                } else {
                    0int
                },
            me(r, 3, 3) == 65536,
    {
        Mat4x4 {
            data: [
                [65536, 0, 0, 0],
                [0, 65536, 0, 0],
                [0, 0, 65536, 0],
                [t.x, t.y, t.z, 65536],
            ],
        }
    }

    /// Fixed-point matrix product `self * rhs`.
    pub fn mul(&self, rhs: &Mat4x4) -> (r: Mat4x4)
        requires
            m_in(*self, MAT_LIMIT as int),
            m_in(*rhs, MAT_LIMIT as int),
        ensures
            forall|i: int, j: int|
                0 <= i < 4 && 0 <= j < 4 ==> #[trigger] me(r, i, j) == spec_mul_entry(
                    *self,
                    *rhs,
                    i,
                    j,
                ),
    {
        proof {
            lemma_entries_bounded(*self, MAT_LIMIT as int);
            lemma_entries_bounded(*rhs, MAT_LIMIT as int);
        }
        let a = &self.data;
        let b = &rhs.data;
        let r = Mat4x4 {
            data: [
                [
                    dot4(a[0][0], a[0][1], a[0][2], a[0][3], b[0][0], b[1][0], b[2][0], b[3][0]),
                    dot4(a[0][0], a[0][1], a[0][2], a[0][3], b[0][1], b[1][1], b[2][1], b[3][1]),
                    dot4(a[0][0], a[0][1], a[0][2], a[0][3], b[0][2], b[1][2], b[2][2], b[3][2]),
                    dot4(a[0][0], a[0][1], a[0][2], a[0][3], b[0][3], b[1][3], b[2][3], b[3][3]),
                ],
                [
                    dot4(a[1][0], a[1][1], a[1][2], a[1][3], b[0][0], b[1][0], b[2][0], b[3][0]),
                    dot4(a[1][0], a[1][1], a[1][2], a[1][3], b[0][1], b[1][1], b[2][1], b[3][1]),
                    dot4(a[1][0], a[1][1], a[1][2], a[1][3], b[0][2], b[1][2], b[2][2], b[3][2]),
                    dot4(a[1][0], a[1][1], a[1][2], a[1][3], b[0][3], b[1][3], b[2][3], b[3][3]),
                ],
                [
                    dot4(a[2][0], a[2][1], a[2][2], a[2][3], b[0][0], b[1][0], b[2][0], b[3][0]),
                    dot4(a[2][0], a[2][1], a[2][2], a[2][3], b[0][1], b[1][1], b[2][1], b[3][1]),
                    dot4(a[2][0], a[2][1], a[2][2], a[2][3], b[0][2], b[1][2], b[2][2], b[3][2]),
                    dot4(a[2][0], a[2][1], a[2][2], a[2][3], b[0][3], b[1][3], b[2][3], b[3][3]),
                ],
                [
                    dot4(a[3][0], a[3][1], a[3][2], a[3][3], b[0][0], b[1][0], b[2][0], b[3][0]),
                    dot4(a[3][0], a[3][1], a[3][2], a[3][3], b[0][1], b[1][1], b[2][1], b[3][1]),
                    dot4(a[3][0], a[3][1], a[3][2], a[3][3], b[0][2], b[1][2], b[2][2], b[3][2]),
                    dot4(a[3][0], a[3][1], a[3][2], a[3][3], b[0][3], b[1][3], b[2][3], b[3][3]),
                ],
            ],
        };
        r
    }

    /// The fixed-point determinant: the Laplace expansion along the first
    /// row.
    pub fn determinant(&self) -> (r: i64)
        requires
            m_in(*self, DET_LIMIT as int),
        ensures
            r as int == spec_det(*self),
    {
        proof {
            lemma_entries_bounded(*self, DET_LIMIT as int);
        }
        let d = &self.data;
        let m00 = det3(
            d[1][1], d[1][2], d[1][3],
            d[2][1], d[2][2], d[2][3],
            d[3][1], d[3][2], d[3][3],
        );
        let m01 = det3(
            d[1][0], d[1][2], d[1][3],
            d[2][0], d[2][2], d[2][3],
            d[3][0], d[3][2], d[3][3],
        );
        let m02 = det3(
            d[1][0], d[1][1], d[1][3],
            d[2][0], d[2][1], d[2][3],
            d[3][0], d[3][1], d[3][3],
        );
        let m03 = det3(
            d[1][0], d[1][1], d[1][2],
            d[2][0], d[2][1], d[2][2],
            d[3][0], d[3][1], d[3][2],
        );
        proof {
            lemma_fix_mul_bound(me(*self, 0, 0), m00 as int, DET_LIMIT as int, 0x2_0000_0000_0000);
            lemma_fix_mul_bound(me(*self, 0, 1), m01 as int, DET_LIMIT as int, 0x2_0000_0000_0000);
            lemma_fix_mul_bound(me(*self, 0, 2), m02 as int, DET_LIMIT as int, 0x2_0000_0000_0000);
            lemma_fix_mul_bound(me(*self, 0, 3), m03 as int, DET_LIMIT as int, 0x2_0000_0000_0000);
        }
        fix_mul(d[0][0], m00) - fix_mul(d[0][1], m01) + fix_mul(d[0][2], m02) - fix_mul(
            d[0][3],
            m03,
        )
    }

    /// The fixed-point inverse: the adjugate transpose over the
    /// determinant, entry by entry. The caller must know that the
    /// determinant is nonzero and that each resulting entry fits the
    /// scalar type.
    pub fn inversed(&self) -> (res: Mat4x4)
        requires
            m_in(*self, DET_LIMIT as int),
            spec_det(*self) != 0,
            forall|r: int, c: int|
                0 <= r < 4 && 0 <= c < 4 ==> -0x7fff_ffff_ffff_ffff <= #[trigger] spec_inv_entry(
                    *self,
                    r,
                    c,
                ) <= 0x7fff_ffff_ffff_ffff,
        ensures
            res == spec_inverse(*self),
            forall|r: int, c: int|
                0 <= r < 4 && 0 <= c < 4 ==> #[trigger] me(res, r, c) == spec_inv_entry(
                    *self,
                    r,
                    c,
                ),
    {
        let det = self.determinant();
        let res = Mat4x4 {
            data: [
                inv_row0(self, det),
                inv_row1(self, det),
                inv_row2(self, det),
                inv_row3(self, det),
            ],
        };
        proof {
            let si = spec_inverse(*self);
            assert(res.data[0] =~= si.data[0]);
            assert(res.data[1] =~= si.data[1]);
            assert(res.data[2] =~= si.data[2]);
            assert(res.data[3] =~= si.data[3]);
            assert(res.data =~= si.data);
        }
        res
    }

    /// Rotation about the x axis by a fixed-point angle in radians.
    pub fn rotate_x(angle: i64) -> (res: Mat4x4)
        requires
            fix_abs(angle as int) <= 8 * 65536,
        ensures
            me(res, 0, 0) == 65536 && me(res, 0, 1) == 0 && me(res, 0, 2) == 0 && me(res, 0, 3)
                == 0,
            me(res, 1, 0) == 0 && me(res, 1, 1) == spec_fix_cos(angle as int) && me(res, 1, 2)
                == spec_fix_sin(angle as int) && me(res, 1, 3) == 0,
            me(res, 2, 0) == 0 && me(res, 2, 1) == -spec_fix_sin(angle as int) && me(res, 2, 2)
                == spec_fix_cos(angle as int) && me(res, 2, 3) == 0,
            me(res, 3, 0) == 0 && me(res, 3, 1) == 0 && me(res, 3, 2) == 0 && me(res, 3, 3)
                == 65536,
    {
        let s = fix_sin(angle);
        let c = fix_cos(angle);
        Mat4x4 {
            data: [
                [65536, 0, 0, 0],
                [0, c, s, 0],
                [0, -s, c, 0],
                [0, 0, 0, 65536],
            ],
        }
    }

    /// Rotation about the y axis by a fixed-point angle in radians.
    pub fn rotate_y(angle: i64) -> (res: Mat4x4)
        requires
            fix_abs(angle as int) <= 8 * 65536,
        ensures
            me(res, 0, 0) == spec_fix_cos(angle as int) && me(res, 0, 1) == 0 && me(res, 0, 2)
                == -spec_fix_sin(angle as int) && me(res, 0, 3) == 0,
            me(res, 1, 0) == 0 && me(res, 1, 1) == 65536 && me(res, 1, 2) == 0 && me(res, 1, 3)
                == 0,
            me(res, 2, 0) == spec_fix_sin(angle as int) && me(res, 2, 1) == 0 && me(res, 2, 2)
                == spec_fix_cos(angle as int) && me(res, 2, 3) == 0,
            me(res, 3, 0) == 0 && me(res, 3, 1) == 0 && me(res, 3, 2) == 0 && me(res, 3, 3)
                == 65536,
    {
        let s = fix_sin(angle);
        let c = fix_cos(angle);
        Mat4x4 {
            data: [
                [c, 0, -s, 0],
                [0, 65536, 0, 0],
                [s, 0, c, 0],
                [0, 0, 0, 65536],
            ],
        }
    }

    /// Rotation about the z axis by a fixed-point angle in radians.
    pub fn rotate_z(angle: i64) -> (res: Mat4x4)
        requires
            fix_abs(angle as int) <= 8 * 65536,
        ensures
            me(res, 0, 0) == spec_fix_cos(angle as int) && me(res, 0, 1) == spec_fix_sin(
                angle as int,
            ) && me(res, 0, 2) == 0 && me(res, 0, 3) == 0,
            me(res, 1, 0) == -spec_fix_sin(angle as int) && me(res, 1, 1) == spec_fix_cos(
                angle as int,
            ) && me(res, 1, 2) == 0 && me(res, 1, 3) == 0,
            me(res, 2, 0) == 0 && me(res, 2, 1) == 0 && me(res, 2, 2) == 65536 && me(res, 2, 3)
                == 0,
            me(res, 3, 0) == 0 && me(res, 3, 1) == 0 && me(res, 3, 2) == 0 && me(res, 3, 3)
                == 65536,
    {
        let s = fix_sin(angle);
        let c = fix_cos(angle);
        Mat4x4 {
            data: [
                [c, s, 0, 0],
                [-s, c, 0, 0],
                [0, 0, 65536, 0],
                [0, 0, 0, 65536],
            ],
        }
    }

    /// Orthographic projection onto the box `[l, r] x [b, t] x [n, f]`.
    pub fn projection_ortho(l: i64, r: i64, b: i64, t: i64, n: i64, f: i64) -> (res: Mat4x4)
        requires
            fix_abs(l as int) <= PROJ_LIMIT as int,
            fix_abs(r as int) <= PROJ_LIMIT as int,
            fix_abs(b as int) <= PROJ_LIMIT as int,
            fix_abs(t as int) <= PROJ_LIMIT as int,
            fix_abs(n as int) <= PROJ_LIMIT as int,
            fix_abs(f as int) <= PROJ_LIMIT as int,
            l != r,
            b != t,
            n != f,
        ensures
            me(res, 0, 0) == spec_fix_div(131072, r - l) && me(res, 0, 1) == 0 && me(res, 0, 2)
                == 0 && me(res, 0, 3) == 0,
            me(res, 1, 0) == 0 && me(res, 1, 1) == spec_fix_div(131072, t - b) && me(res, 1, 2)
                == 0 && me(res, 1, 3) == 0,
            me(res, 2, 0) == 0 && me(res, 2, 1) == 0 && me(res, 2, 2) == -spec_fix_div(
                131072,
                f - n,
            ) && me(res, 2, 3) == 0,
            me(res, 3, 0) == -spec_fix_div(r + l, r - l) && me(res, 3, 1) == -spec_fix_div(
                t + b,
                t - b,
            ) && me(res, 3, 2) == -spec_fix_div(f + n, f - n) && me(res, 3, 3) == 65536,
    {
        proof {
            lemma_fix_div_bound(131072, r - l);
            lemma_fix_div_bound(131072, t - b);
            lemma_fix_div_bound(131072, f - n);
            lemma_fix_div_bound(r + l, r - l);
            lemma_fix_div_bound(t + b, t - b);
            lemma_fix_div_bound(f + n, f - n);
        }
        Mat4x4 {
            data: [
                [fix_div(131072, r - l), 0, 0, 0],
                [0, fix_div(131072, t - b), 0, 0],
                [0, 0, -fix_div(131072, f - n), 0],
                [
                    -fix_div(r + l, r - l),
                    -fix_div(t + b, t - b),
                    -fix_div(f + n, f - n),
                    65536,
                ],
            ],
        }
    }

    /// Perspective projection through the frustum `[l, r] x [b, t]` at the
    /// near plane `n`, reaching to the far plane `f`.
    pub fn projection_frustum(l: i64, r: i64, b: i64, t: i64, n: i64, f: i64) -> (res: Mat4x4)
        requires
            fix_abs(l as int) <= PROJ_LIMIT as int,
            fix_abs(r as int) <= PROJ_LIMIT as int,
            fix_abs(b as int) <= PROJ_LIMIT as int,
            fix_abs(t as int) <= PROJ_LIMIT as int,
            fix_abs(n as int) <= PROJ_LIMIT as int,
            fix_abs(f as int) <= PROJ_LIMIT as int,
            l != r,
            b != t,
            n != f,
        ensures
            me(res, 0, 0) == spec_fix_div(2 * n, r - l) && me(res, 0, 1) == 0 && me(res, 0, 2)
                == 0 && me(res, 0, 3) == 0,
            me(res, 1, 0) == 0 && me(res, 1, 1) == spec_fix_div(2 * n, t - b) && me(res, 1, 2)
                == 0 && me(res, 1, 3) == 0,
            me(res, 2, 0) == spec_fix_div(r + l, r - l) && me(res, 2, 1) == spec_fix_div(
                t + b,
                t - b,
            ) && me(res, 2, 2) == -spec_fix_div(f + n, f - n) && me(res, 2, 3) == -65536,
            me(res, 3, 0) == 0 && me(res, 3, 1) == 0 && me(res, 3, 2) == -spec_fix_div(
                spec_fix_mul(2 * n, f as int),
                f - n,
            ) && me(res, 3, 3) == 0,
    {
        proof {
            lemma_fix_div_bound(2 * n, r - l);
            lemma_fix_div_bound(2 * n, t - b);
            lemma_fix_div_bound(r + l, r - l);
            lemma_fix_div_bound(t + b, t - b);
            lemma_fix_div_bound(f + n, f - n);
            lemma_fix_mul_bound(2 * n, f as int, 2 * PROJ_LIMIT as int, PROJ_LIMIT as int);
            lemma_fix_div_bound(spec_fix_mul(2 * n, f as int), f - n);
        }
        let nf = fix_mul(2 * n, f);
        Mat4x4 {
            data: [
                [fix_div(2 * n, r - l), 0, 0, 0],
                [0, fix_div(2 * n, t - b), 0, 0],
                [
                    fix_div(r + l, r - l),
                    fix_div(t + b, t - b),
                    -fix_div(f + n, f - n),
                    -65536,
                ],
                [0, 0, -fix_div(nf, f - n), 0],
            ],
        }
    }

    /// The viewing matrix looking from `loc` toward `at`, with `approx_up`
    /// fixing the roll. The preconditions rule out the degenerate frames in
    /// which a direction would have no length to normalize by.
    #[verifier::rlimit(100)]
    pub fn look_at(loc: Vec3, at: Vec3, approx_up: Vec3) -> (res: Mat4x4)
        requires
            v3_in(loc, 0x3fff_ffff),
            v3_in(at, 0x3fff_ffff),
            v3_in(approx_up, 0x3fff_ffff),
            spec_dot3(spec_sub3(at, loc), spec_sub3(at, loc)) >= 1,
            v3_in(spec_look_dir(loc, at), 0x3fff_ffff),
            spec_dot3(
                spec_cross(spec_look_dir(loc, at), approx_up),
                spec_cross(spec_look_dir(loc, at), approx_up),
            ) >= 1,
            v3_in(spec_cross(spec_look_dir(loc, at), approx_up), 0x7fff_ffff),
            v3_in(spec_look_right(loc, at, approx_up), 0x3fff_ffff),
            spec_dot3(
                spec_cross(spec_look_right(loc, at, approx_up), spec_look_dir(loc, at)),
                spec_cross(spec_look_right(loc, at, approx_up), spec_look_dir(loc, at)),
            ) >= 1,
            v3_in(spec_cross(spec_look_right(loc, at, approx_up), spec_look_dir(loc, at)), 0x7fff_ffff),
            v3_in(spec_look_up(loc, at, approx_up), 0x3fff_ffff),
        ensures
            ({
                let dir = spec_look_dir(loc, at);
                let right = spec_look_right(loc, at, approx_up);
                let up = spec_look_up(loc, at, approx_up);
                me(res, 0, 0) == right.x && me(res, 0, 1) == up.x && me(res, 0, 2) == -dir.x
                    && me(res, 0, 3) == 0 && me(res, 1, 0) == right.y && me(res, 1, 1) == up.y
                    && me(res, 1, 2) == -dir.y && me(res, 1, 3) == 0 && me(res, 2, 0) == right.z
                    && me(res, 2, 1) == up.z && me(res, 2, 2) == -dir.z && me(res, 2, 3) == 0
                    && me(res, 3, 0) == -spec_dot3(loc, right) && me(res, 3, 1) == -spec_dot3(
                    loc,
                    up,
                ) && me(res, 3, 2) == spec_dot3(loc, dir) && me(res, 3, 3) == 65536
            }),
    {
        let diff = at.sub(&loc);
        proof {
            assert(diff == spec_sub3(at, loc));
        }
        let dir = diff.normalized();
        proof {
            assert(dir == spec_look_dir(loc, at));
        }
        let right0 = dir.cross(&approx_up);
        let right = right0.normalized();
        proof {
            assert(right == spec_look_right(loc, at, approx_up));
        }
        let up0 = right.cross(&dir);
        let up = up0.normalized();
        proof {
            assert(up == spec_look_up(loc, at, approx_up));
        }
        Mat4x4 {
            data: [
                [right.x, up.x, -dir.x, 0],
                [right.y, up.y, -dir.y, 0],
                [right.z, up.z, -dir.z, 0],
                [-loc.dot(&right), -loc.dot(&up), loc.dot(&dir), 65536],
            ],
        }
    }
}

/// The unit view direction from `loc` toward `at`.
pub open spec fn spec_look_dir(loc: Vec3, at: Vec3) -> Vec3 {
    spec_sub3(at, loc).normalized_spec()
}

/// The unit right direction of the viewing frame.
pub open spec fn spec_look_right(loc: Vec3, at: Vec3, approx_up: Vec3) -> Vec3 {
    spec_cross(spec_look_dir(loc, at), approx_up).normalized_spec()
}

/// The unit up direction of the viewing frame.
pub open spec fn spec_look_up(loc: Vec3, at: Vec3, approx_up: Vec3) -> Vec3 {
    spec_cross(spec_look_right(loc, at, approx_up), spec_look_dir(loc, at)).normalized_spec()
}

#[verifier::rlimit(100)]
fn inv_row0(m: &Mat4x4, det: i64) -> (row: [i64; 4])
    requires
        m_in(*m, DET_LIMIT as int),
        det as int == spec_det(*m),
        det != 0,
        forall|c: int|
            0 <= c < 4 ==> -0x7fff_ffff_ffff_ffff <= #[trigger] spec_inv_entry(*m, 0, c)
                <= 0x7fff_ffff_ffff_ffff,
    ensures
        row[0] as int == spec_inv_entry(*m, 0, 0),
        row[1] as int == spec_inv_entry(*m, 0, 1),
        row[2] as int == spec_inv_entry(*m, 0, 2),
        row[3] as int == spec_inv_entry(*m, 0, 3),
{
    proof {
        lemma_entries_bounded(*m, DET_LIMIT as int);
    }
    let d = &m.data;
    let t00 = det3(d[1][1], d[1][2], d[1][3], d[2][1], d[2][2], d[2][3], d[3][1], d[3][2], d[3][3]);
    proof {
        assert(t00 as int == spec_minor(*m, 0, 0));
        assert(spec_inv_entry(*m, 0, 0) == spec_fix_div(t00 as int, det as int));
    }
    let e00 = fix_div(t00, det);
    let t01 = det3(d[0][1], d[0][2], d[0][3], d[2][1], d[2][2], d[2][3], d[3][1], d[3][2], d[3][3]);
    proof {
        assert(t01 as int == spec_minor(*m, 1, 0));
        assert(spec_inv_entry(*m, 0, 1) == -spec_fix_div(t01 as int, det as int));
    }
    let e01 = -fix_div(t01, det);
    let t02 = det3(d[0][1], d[0][2], d[0][3], d[1][1], d[1][2], d[1][3], d[3][1], d[3][2], d[3][3]);
    proof {
        assert(t02 as int == spec_minor(*m, 2, 0));
        assert(spec_inv_entry(*m, 0, 2) == spec_fix_div(t02 as int, det as int));
    }
    let e02 = fix_div(t02, det);
    let t03 = det3(d[0][1], d[0][2], d[0][3], d[1][1], d[1][2], d[1][3], d[2][1], d[2][2], d[2][3]);
    proof {
        assert(t03 as int == spec_minor(*m, 3, 0));
        assert(spec_inv_entry(*m, 0, 3) == -spec_fix_div(t03 as int, det as int));
    }
    let e03 = -fix_div(t03, det);
    [e00, e01, e02, e03]
}

#[verifier::rlimit(100)]
fn inv_row1(m: &Mat4x4, det: i64) -> (row: [i64; 4])
    requires
        m_in(*m, DET_LIMIT as int),
        det as int == spec_det(*m),
        det != 0,
        forall|c: int|
            0 <= c < 4 ==> -0x7fff_ffff_ffff_ffff <= #[trigger] spec_inv_entry(*m, 1, c)
                <= 0x7fff_ffff_ffff_ffff,
    ensures
        row[0] as int == spec_inv_entry(*m, 1, 0),
        row[1] as int == spec_inv_entry(*m, 1, 1),
        row[2] as int == spec_inv_entry(*m, 1, 2),
        row[3] as int == spec_inv_entry(*m, 1, 3),
{
    proof {
        lemma_entries_bounded(*m, DET_LIMIT as int);
    }
    let d = &m.data;
    let t10 = det3(d[1][0], d[1][2], d[1][3], d[2][0], d[2][2], d[2][3], d[3][0], d[3][2], d[3][3]);
    proof {
        assert(t10 as int == spec_minor(*m, 0, 1));
        assert(spec_inv_entry(*m, 1, 0) == -spec_fix_div(t10 as int, det as int));
    }
    let e10 = -fix_div(t10, det);
    let t11 = det3(d[0][0], d[0][2], d[0][3], d[2][0], d[2][2], d[2][3], d[3][0], d[3][2], d[3][3]);
    proof {
        assert(t11 as int == spec_minor(*m, 1, 1));
        assert(spec_inv_entry(*m, 1, 1) == spec_fix_div(t11 as int, det as int));
    }
    let e11 = fix_div(t11, det);
    let t12 = det3(d[0][0], d[0][2], d[0][3], d[1][0], d[1][2], d[1][3], d[3][0], d[3][2], d[3][3]);
    proof {
        assert(t12 as int == spec_minor(*m, 2, 1));
        assert(spec_inv_entry(*m, 1, 2) == -spec_fix_div(t12 as int, det as int));
    }
    let e12 = -fix_div(t12, det);
    let t13 = det3(d[0][0], d[0][2], d[0][3], d[1][0], d[1][2], d[1][3], d[2][0], d[2][2], d[2][3]);
    proof {
        assert(t13 as int == spec_minor(*m, 3, 1));
        assert(spec_inv_entry(*m, 1, 3) == spec_fix_div(t13 as int, det as int));
    }
    let e13 = fix_div(t13, det);
    [e10, e11, e12, e13]
}

#[verifier::rlimit(100)]
fn inv_row2(m: &Mat4x4, det: i64) -> (row: [i64; 4])
    requires
        m_in(*m, DET_LIMIT as int),
        det as int == spec_det(*m),
        det != 0,
        forall|c: int|
            0 <= c < 4 ==> -0x7fff_ffff_ffff_ffff <= #[trigger] spec_inv_entry(*m, 2, c)
                <= 0x7fff_ffff_ffff_ffff,
    ensures
        row[0] as int == spec_inv_entry(*m, 2, 0),
        row[1] as int == spec_inv_entry(*m, 2, 1),
        row[2] as int == spec_inv_entry(*m, 2, 2),
        row[3] as int == spec_inv_entry(*m, 2, 3),
{
    proof {
        lemma_entries_bounded(*m, DET_LIMIT as int);
    }
    let d = &m.data;
    let t20 = det3(d[1][0], d[1][1], d[1][3], d[2][0], d[2][1], d[2][3], d[3][0], d[3][1], d[3][3]);
    proof {
        assert(t20 as int == spec_minor(*m, 0, 2));
        assert(spec_inv_entry(*m, 2, 0) == spec_fix_div(t20 as int, det as int));
    }
    let e20 = fix_div(t20, det);
    let t21 = det3(d[0][0], d[0][1], d[0][3], d[2][0], d[2][1], d[2][3], d[3][0], d[3][1], d[3][3]);
    proof {
        assert(t21 as int == spec_minor(*m, 1, 2));
        assert(spec_inv_entry(*m, 2, 1) == -spec_fix_div(t21 as int, det as int));
    }
    let e21 = -fix_div(t21, det);
    let t22 = det3(d[0][0], d[0][1], d[0][3], d[1][0], d[1][1], d[1][3], d[3][0], d[3][1], d[3][3]);
    proof {
        assert(t22 as int == spec_minor(*m, 2, 2));
        assert(spec_inv_entry(*m, 2, 2) == spec_fix_div(t22 as int, det as int));
    }
    let e22 = fix_div(t22, det);
    let t23 = det3(d[0][0], d[0][1], d[0][3], d[1][0], d[1][1], d[1][3], d[2][0], d[2][1], d[2][3]);
    proof {
        assert(t23 as int == spec_minor(*m, 3, 2));
        assert(spec_inv_entry(*m, 2, 3) == -spec_fix_div(t23 as int, det as int));
    }
    let e23 = -fix_div(t23, det);
    [e20, e21, e22, e23]
}

#[verifier::rlimit(100)]
fn inv_row3(m: &Mat4x4, det: i64) -> (row: [i64; 4])
    requires
        m_in(*m, DET_LIMIT as int),
        det as int == spec_det(*m),
        det != 0,
        forall|c: int|
            0 <= c < 4 ==> -0x7fff_ffff_ffff_ffff <= #[trigger] spec_inv_entry(*m, 3, c)
                <= 0x7fff_ffff_ffff_ffff,
    ensures
        row[0] as int == spec_inv_entry(*m, 3, 0),
        row[1] as int == spec_inv_entry(*m, 3, 1),
        row[2] as int == spec_inv_entry(*m, 3, 2),
        row[3] as int == spec_inv_entry(*m, 3, 3),
{
    proof {
        lemma_entries_bounded(*m, DET_LIMIT as int);
    }
    let d = &m.data;
    let t30 = det3(d[1][0], d[1][1], d[1][2], d[2][0], d[2][1], d[2][2], d[3][0], d[3][1], d[3][2]);
    proof {
        assert(t30 as int == spec_minor(*m, 0, 3));
        assert(spec_inv_entry(*m, 3, 0) == -spec_fix_div(t30 as int, det as int));
    }
    let e30 = -fix_div(t30, det);
    let t31 = det3(d[0][0], d[0][1], d[0][2], d[2][0], d[2][1], d[2][2], d[3][0], d[3][1], d[3][2]);
    proof {
        assert(t31 as int == spec_minor(*m, 1, 3));
        assert(spec_inv_entry(*m, 3, 1) == spec_fix_div(t31 as int, det as int));
    }
    let e31 = fix_div(t31, det);
    let t32 = det3(d[0][0], d[0][1], d[0][2], d[1][0], d[1][1], d[1][2], d[3][0], d[3][1], d[3][2]);
    proof {
        assert(t32 as int == spec_minor(*m, 2, 3));
        assert(spec_inv_entry(*m, 3, 2) == -spec_fix_div(t32 as int, det as int));
    }
    let e32 = -fix_div(t32, det);
    let t33 = det3(d[0][0], d[0][1], d[0][2], d[1][0], d[1][1], d[1][2], d[2][0], d[2][1], d[2][2]);
    proof {
        assert(t33 as int == spec_minor(*m, 3, 3));
        assert(spec_inv_entry(*m, 3, 3) == spec_fix_div(t33 as int, det as int));
    }
    let e33 = fix_div(t33, det);
    [e30, e31, e32, e33]
}


/// The identity matrix, as a spec-level value.
pub open spec fn spec_identity() -> Mat4x4 {
    Mat4x4 {
        data: [
            [65536i64, 0i64, 0i64, 0i64],
            [0i64, 65536i64, 0i64, 0i64],
            [0i64, 0i64, 65536i64, 0i64],
            [0i64, 0i64, 0i64, 65536i64],
        ],
    }
}

/// The fixed-point inverse, as a spec-level value.
pub open spec fn spec_inverse(m: Mat4x4) -> Mat4x4 {
    Mat4x4 {
        data: [
            [
                spec_inv_entry(m, 0, 0) as i64,
                spec_inv_entry(m, 0, 1) as i64,
                spec_inv_entry(m, 0, 2) as i64,
                spec_inv_entry(m, 0, 3) as i64,
            ],
            [
                spec_inv_entry(m, 1, 0) as i64,
                spec_inv_entry(m, 1, 1) as i64,
                spec_inv_entry(m, 1, 2) as i64,
                spec_inv_entry(m, 1, 3) as i64,
            ],
            [
                spec_inv_entry(m, 2, 0) as i64,
                spec_inv_entry(m, 2, 1) as i64,
                spec_inv_entry(m, 2, 2) as i64,
                spec_inv_entry(m, 2, 3) as i64,
            ],
            [
                spec_inv_entry(m, 3, 0) as i64,
                spec_inv_entry(m, 3, 1) as i64,
                spec_inv_entry(m, 3, 2) as i64,
                spec_inv_entry(m, 3, 3) as i64,
            ],
        ],
    }
}

/// One row of the inverse stays within the scalar's range.
pub open spec fn row_inv_in_range(m: Mat4x4, r: int) -> bool {
    forall|c: int|
        0 <= c < 4 ==> -0x7fff_ffff_ffff_ffff <= #[trigger] spec_inv_entry(m, r, c)
            <= 0x7fff_ffff_ffff_ffff
}

/// The matrix has a representable fixed-point inverse: a nonzero
/// determinant, and every inverse entry within the scalar's range.
pub open spec fn invertible_ok(m: Mat4x4) -> bool {
    &&& spec_det(m) != 0
    &&& forall|r: int, c: int|
        0 <= r < 4 && 0 <= c < 4 ==> -0x7fff_ffff_ffff_ffff <= #[trigger] spec_inv_entry(m, r, c)
            <= 0x7fff_ffff_ffff_ffff
}

#[verifier::rlimit(100)]
fn inv_row_checked0(m: &Mat4x4, det: i64) -> (row: Option<[i64; 4]>)
    requires
        m_in(*m, DET_LIMIT as int),
        det as int == spec_det(*m),
        det != 0,
    ensures
        row is Some <==> row_inv_in_range(*m, 0),
        row matches Some(v) ==> v[0] as int == spec_inv_entry(*m, 0, 0) && v[1] as int
            == spec_inv_entry(*m, 0, 1) && v[2] as int == spec_inv_entry(*m, 0, 2)
            && v[3] as int == spec_inv_entry(*m, 0, 3),
{
    proof {
        lemma_entries_bounded(*m, DET_LIMIT as int);
    }
    let d = &m.data;
    let t00 = det3(d[1][1], d[1][2], d[1][3], d[2][1], d[2][2], d[2][3], d[3][1], d[3][2], d[3][3]);
    proof {
        assert(t00 as int == spec_minor(*m, 0, 0));
        assert(spec_inv_entry(*m, 0, 0) == spec_fix_div(t00 as int, det as int));
    }
    let e000 = match fix_div_checked(t00, det) {
        Some(v) => v,
        None => {
            proof {
                assert(!row_inv_in_range(*m, 0)) by {
                    assert(!(-0x7fff_ffff_ffff_ffff <= spec_inv_entry(*m, 0, 0)
                        <= 0x7fff_ffff_ffff_ffff));
                }
            }
            return None;
        },
    };
    let e00 = e000;
    let t01 = det3(d[0][1], d[0][2], d[0][3], d[2][1], d[2][2], d[2][3], d[3][1], d[3][2], d[3][3]);
    proof {
        assert(t01 as int == spec_minor(*m, 1, 0));
        assert(spec_inv_entry(*m, 0, 1) == -spec_fix_div(t01 as int, det as int));
    }
    let e010 = match fix_div_checked(t01, det) {
        Some(v) => v,
        None => {
            proof {
                assert(!row_inv_in_range(*m, 0)) by {
                    assert(!(-0x7fff_ffff_ffff_ffff <= spec_inv_entry(*m, 0, 1)
                        <= 0x7fff_ffff_ffff_ffff));
                }
            }
            return None;
        },
    };
    let e01 = -e010;
    let t02 = det3(d[0][1], d[0][2], d[0][3], d[1][1], d[1][2], d[1][3], d[3][1], d[3][2], d[3][3]);
    proof {
        assert(t02 as int == spec_minor(*m, 2, 0));
        assert(spec_inv_entry(*m, 0, 2) == spec_fix_div(t02 as int, det as int));
    }
    let e020 = match fix_div_checked(t02, det) {
        Some(v) => v,
        None => {
            proof {
                assert(!row_inv_in_range(*m, 0)) by {
                    assert(!(-0x7fff_ffff_ffff_ffff <= spec_inv_entry(*m, 0, 2)
                        <= 0x7fff_ffff_ffff_ffff));
                }
            }
            return None;
        },
    };
    let e02 = e020;
    let t03 = det3(d[0][1], d[0][2], d[0][3], d[1][1], d[1][2], d[1][3], d[2][1], d[2][2], d[2][3]);
    proof {
        assert(t03 as int == spec_minor(*m, 3, 0));
        assert(spec_inv_entry(*m, 0, 3) == -spec_fix_div(t03 as int, det as int));
    }
    let e030 = match fix_div_checked(t03, det) {
        Some(v) => v,
        None => {
            proof {
                assert(!row_inv_in_range(*m, 0)) by {
                    assert(!(-0x7fff_ffff_ffff_ffff <= spec_inv_entry(*m, 0, 3)
                        <= 0x7fff_ffff_ffff_ffff));
                }
            }
            return None;
        },
    };
    let e03 = -e030;
    proof {
        assert(row_inv_in_range(*m, 0)) by {
            assert forall|c: int| 0 <= c < 4 implies -0x7fff_ffff_ffff_ffff <= #[trigger] spec_inv_entry(
                *m,
                0,
                c,
            ) <= 0x7fff_ffff_ffff_ffff by {
                if c == 0 {
                    assert(spec_inv_entry(*m, 0, 0) == spec_fix_div(t00 as int, det as int));
                } else if c == 1 {
                    assert(spec_inv_entry(*m, 0, 1) == -spec_fix_div(t01 as int, det as int));
                } else if c == 2 {
                    assert(spec_inv_entry(*m, 0, 2) == spec_fix_div(t02 as int, det as int));
                } else {
                    assert(spec_inv_entry(*m, 0, 3) == -spec_fix_div(t03 as int, det as int));
                }
            }
        }
    }
    Some([e00, e01, e02, e03])
}

#[verifier::rlimit(100)]
fn inv_row_checked1(m: &Mat4x4, det: i64) -> (row: Option<[i64; 4]>)
    requires
        m_in(*m, DET_LIMIT as int),
        det as int == spec_det(*m),
        det != 0,
    ensures
        row is Some <==> row_inv_in_range(*m, 1),
        row matches Some(v) ==> v[0] as int == spec_inv_entry(*m, 1, 0) && v[1] as int
            == spec_inv_entry(*m, 1, 1) && v[2] as int == spec_inv_entry(*m, 1, 2)
            && v[3] as int == spec_inv_entry(*m, 1, 3),
{
    proof {
        lemma_entries_bounded(*m, DET_LIMIT as int);
    }
    let d = &m.data;
    let t10 = det3(d[1][0], d[1][2], d[1][3], d[2][0], d[2][2], d[2][3], d[3][0], d[3][2], d[3][3]);
    proof {
        assert(t10 as int == spec_minor(*m, 0, 1));
        assert(spec_inv_entry(*m, 1, 0) == -spec_fix_div(t10 as int, det as int));
    }
    let e100 = match fix_div_checked(t10, det) {
        Some(v) => v,
        None => {
            proof {
                assert(!row_inv_in_range(*m, 1)) by {
                    assert(!(-0x7fff_ffff_ffff_ffff <= spec_inv_entry(*m, 1, 0)
                        <= 0x7fff_ffff_ffff_ffff));
                }
            }
            return None;
        },
    };
    let e10 = -e100;
    let t11 = det3(d[0][0], d[0][2], d[0][3], d[2][0], d[2][2], d[2][3], d[3][0], d[3][2], d[3][3]);
    proof {
        assert(t11 as int == spec_minor(*m, 1, 1));
        assert(spec_inv_entry(*m, 1, 1) == spec_fix_div(t11 as int, det as int));
    }
    let e110 = match fix_div_checked(t11, det) {
        Some(v) => v,
        None => {
            proof {
                assert(!row_inv_in_range(*m, 1)) by {
                    assert(!(-0x7fff_ffff_ffff_ffff <= spec_inv_entry(*m, 1, 1)
                        <= 0x7fff_ffff_ffff_ffff));
                }
            }
            return None;
        },
    };
    let e11 = e110;
    let t12 = det3(d[0][0], d[0][2], d[0][3], d[1][0], d[1][2], d[1][3], d[3][0], d[3][2], d[3][3]);
    proof {
        assert(t12 as int == spec_minor(*m, 2, 1));
        assert(spec_inv_entry(*m, 1, 2) == -spec_fix_div(t12 as int, det as int));
    }
    let e120 = match fix_div_checked(t12, det) {
        Some(v) => v,
        None => {
            proof {
                assert(!row_inv_in_range(*m, 1)) by {
                    assert(!(-0x7fff_ffff_ffff_ffff <= spec_inv_entry(*m, 1, 2)
                        <= 0x7fff_ffff_ffff_ffff));
                }
            }
            return None;
        },
    };
    let e12 = -e120;
    let t13 = det3(d[0][0], d[0][2], d[0][3], d[1][0], d[1][2], d[1][3], d[2][0], d[2][2], d[2][3]);
    proof {
        assert(t13 as int == spec_minor(*m, 3, 1));
        assert(spec_inv_entry(*m, 1, 3) == spec_fix_div(t13 as int, det as int));
    }
    let e130 = match fix_div_checked(t13, det) {
        Some(v) => v,
        None => {
            proof {
                assert(!row_inv_in_range(*m, 1)) by {
                    assert(!(-0x7fff_ffff_ffff_ffff <= spec_inv_entry(*m, 1, 3)
                        <= 0x7fff_ffff_ffff_ffff));
                }
            }
            return None;
        },
    };
    let e13 = e130;
    proof {
        assert(row_inv_in_range(*m, 1)) by {
            assert forall|c: int| 0 <= c < 4 implies -0x7fff_ffff_ffff_ffff <= #[trigger] spec_inv_entry(
                *m,
                1,
                c,
            ) <= 0x7fff_ffff_ffff_ffff by {
                if c == 0 {
                    assert(spec_inv_entry(*m, 1, 0) == -spec_fix_div(t10 as int, det as int));
                } else if c == 1 {
                    assert(spec_inv_entry(*m, 1, 1) == spec_fix_div(t11 as int, det as int));
                } else if c == 2 {
                    assert(spec_inv_entry(*m, 1, 2) == -spec_fix_div(t12 as int, det as int));
                } else {
                    assert(spec_inv_entry(*m, 1, 3) == spec_fix_div(t13 as int, det as int));
                }
            }
        }
    }
    Some([e10, e11, e12, e13])
}

#[verifier::rlimit(100)]
fn inv_row_checked2(m: &Mat4x4, det: i64) -> (row: Option<[i64; 4]>)
    requires
        m_in(*m, DET_LIMIT as int),
        det as int == spec_det(*m),
        det != 0,
    ensures
        row is Some <==> row_inv_in_range(*m, 2),
        row matches Some(v) ==> v[0] as int == spec_inv_entry(*m, 2, 0) && v[1] as int
            == spec_inv_entry(*m, 2, 1) && v[2] as int == spec_inv_entry(*m, 2, 2)
            && v[3] as int == spec_inv_entry(*m, 2, 3),
{
    proof {
        lemma_entries_bounded(*m, DET_LIMIT as int);
    }
    let d = &m.data;
    let t20 = det3(d[1][0], d[1][1], d[1][3], d[2][0], d[2][1], d[2][3], d[3][0], d[3][1], d[3][3]);
    proof {
        assert(t20 as int == spec_minor(*m, 0, 2));
        assert(spec_inv_entry(*m, 2, 0) == spec_fix_div(t20 as int, det as int));
    }
    let e200 = match fix_div_checked(t20, det) {
        Some(v) => v,
        None => {
            proof {
                assert(!row_inv_in_range(*m, 2)) by {
                    assert(!(-0x7fff_ffff_ffff_ffff <= spec_inv_entry(*m, 2, 0)
                        <= 0x7fff_ffff_ffff_ffff));
                }
            }
            return None;
        },
    };
    let e20 = e200;
    let t21 = det3(d[0][0], d[0][1], d[0][3], d[2][0], d[2][1], d[2][3], d[3][0], d[3][1], d[3][3]);
    proof {
        assert(t21 as int == spec_minor(*m, 1, 2));
        assert(spec_inv_entry(*m, 2, 1) == -spec_fix_div(t21 as int, det as int));
    }
    let e210 = match fix_div_checked(t21, det) {
        Some(v) => v,
        None => {
            proof {
                assert(!row_inv_in_range(*m, 2)) by {
                    assert(!(-0x7fff_ffff_ffff_ffff <= spec_inv_entry(*m, 2, 1)
                        <= 0x7fff_ffff_ffff_ffff));
                }
            }
            return None;
        },
    };
    let e21 = -e210;
    let t22 = det3(d[0][0], d[0][1], d[0][3], d[1][0], d[1][1], d[1][3], d[3][0], d[3][1], d[3][3]);
    proof {
        assert(t22 as int == spec_minor(*m, 2, 2));
        assert(spec_inv_entry(*m, 2, 2) == spec_fix_div(t22 as int, det as int));
    }
    let e220 = match fix_div_checked(t22, det) {
        Some(v) => v,
        None => {
            proof {
                assert(!row_inv_in_range(*m, 2)) by {
                    assert(!(-0x7fff_ffff_ffff_ffff <= spec_inv_entry(*m, 2, 2)
                        <= 0x7fff_ffff_ffff_ffff));
                }
            }
            return None;
        },
    };
    let e22 = e220;
    let t23 = det3(d[0][0], d[0][1], d[0][3], d[1][0], d[1][1], d[1][3], d[2][0], d[2][1], d[2][3]);
    proof {
        assert(t23 as int == spec_minor(*m, 3, 2));
        assert(spec_inv_entry(*m, 2, 3) == -spec_fix_div(t23 as int, det as int));
    }
    let e230 = match fix_div_checked(t23, det) {
        Some(v) => v,
        None => {
            proof {
                assert(!row_inv_in_range(*m, 2)) by {
                    assert(!(-0x7fff_ffff_ffff_ffff <= spec_inv_entry(*m, 2, 3)
                        <= 0x7fff_ffff_ffff_ffff));
                }
            }
            return None;
        },
    };
    let e23 = -e230;
    proof {
        assert(row_inv_in_range(*m, 2)) by {
            assert forall|c: int| 0 <= c < 4 implies -0x7fff_ffff_ffff_ffff <= #[trigger] spec_inv_entry(
                *m,
                2,
                c,
            ) <= 0x7fff_ffff_ffff_ffff by {
                if c == 0 {
                    assert(spec_inv_entry(*m, 2, 0) == spec_fix_div(t20 as int, det as int));
                } else if c == 1 {
                    assert(spec_inv_entry(*m, 2, 1) == -spec_fix_div(t21 as int, det as int));
                } else if c == 2 {
                    assert(spec_inv_entry(*m, 2, 2) == spec_fix_div(t22 as int, det as int));
                } else {
                    assert(spec_inv_entry(*m, 2, 3) == -spec_fix_div(t23 as int, det as int));
                }
            }
        }
    }
    Some([e20, e21, e22, e23])
}

#[verifier::rlimit(100)]
fn inv_row_checked3(m: &Mat4x4, det: i64) -> (row: Option<[i64; 4]>)
    requires
        m_in(*m, DET_LIMIT as int),
        det as int == spec_det(*m),
        det != 0,
    ensures
        row is Some <==> row_inv_in_range(*m, 3),
        row matches Some(v) ==> v[0] as int == spec_inv_entry(*m, 3, 0) && v[1] as int
            == spec_inv_entry(*m, 3, 1) && v[2] as int == spec_inv_entry(*m, 3, 2)
            && v[3] as int == spec_inv_entry(*m, 3, 3),
{
    proof {
        lemma_entries_bounded(*m, DET_LIMIT as int);
    }
    let d = &m.data;
    let t30 = det3(d[1][0], d[1][1], d[1][2], d[2][0], d[2][1], d[2][2], d[3][0], d[3][1], d[3][2]);
    proof {
        assert(t30 as int == spec_minor(*m, 0, 3));
        assert(spec_inv_entry(*m, 3, 0) == -spec_fix_div(t30 as int, det as int));
    }
    let e300 = match fix_div_checked(t30, det) {
        Some(v) => v,
        None => {
            proof {
                assert(!row_inv_in_range(*m, 3)) by {
                    assert(!(-0x7fff_ffff_ffff_ffff <= spec_inv_entry(*m, 3, 0)
                        <= 0x7fff_ffff_ffff_ffff));
                }
            }
            return None;
        },
    };
    let e30 = -e300;
    let t31 = det3(d[0][0], d[0][1], d[0][2], d[2][0], d[2][1], d[2][2], d[3][0], d[3][1], d[3][2]);
    proof {
        assert(t31 as int == spec_minor(*m, 1, 3));
        assert(spec_inv_entry(*m, 3, 1) == spec_fix_div(t31 as int, det as int));
    }
    let e310 = match fix_div_checked(t31, det) {
        Some(v) => v,
        None => {
            proof {
                assert(!row_inv_in_range(*m, 3)) by {
                    assert(!(-0x7fff_ffff_ffff_ffff <= spec_inv_entry(*m, 3, 1)
                        <= 0x7fff_ffff_ffff_ffff));
                }
            }
            return None;
        },
    };
    let e31 = e310;
    let t32 = det3(d[0][0], d[0][1], d[0][2], d[1][0], d[1][1], d[1][2], d[3][0], d[3][1], d[3][2]);
    proof {
        assert(t32 as int == spec_minor(*m, 2, 3));
        assert(spec_inv_entry(*m, 3, 2) == -spec_fix_div(t32 as int, det as int));
    }
    let e320 = match fix_div_checked(t32, det) {
        Some(v) => v,
        None => {
            proof {
                assert(!row_inv_in_range(*m, 3)) by {
                    assert(!(-0x7fff_ffff_ffff_ffff <= spec_inv_entry(*m, 3, 2)
                        <= 0x7fff_ffff_ffff_ffff));
                }
            }
            return None;
        },
    };
    let e32 = -e320;
    let t33 = det3(d[0][0], d[0][1], d[0][2], d[1][0], d[1][1], d[1][2], d[2][0], d[2][1], d[2][2]);
    proof {
        assert(t33 as int == spec_minor(*m, 3, 3));
        assert(spec_inv_entry(*m, 3, 3) == spec_fix_div(t33 as int, det as int));
    }
    let e330 = match fix_div_checked(t33, det) {
        Some(v) => v,
        None => {
            proof {
                assert(!row_inv_in_range(*m, 3)) by {
                    assert(!(-0x7fff_ffff_ffff_ffff <= spec_inv_entry(*m, 3, 3)
                        <= 0x7fff_ffff_ffff_ffff));
                }
            }
            return None;
        },
    };
    let e33 = e330;
    proof {
        assert(row_inv_in_range(*m, 3)) by {
            assert forall|c: int| 0 <= c < 4 implies -0x7fff_ffff_ffff_ffff <= #[trigger] spec_inv_entry(
                *m,
                3,
                c,
            ) <= 0x7fff_ffff_ffff_ffff by {
                if c == 0 {
                    assert(spec_inv_entry(*m, 3, 0) == -spec_fix_div(t30 as int, det as int));
                } else if c == 1 {
                    assert(spec_inv_entry(*m, 3, 1) == spec_fix_div(t31 as int, det as int));
                } else if c == 2 {
                    assert(spec_inv_entry(*m, 3, 2) == -spec_fix_div(t32 as int, det as int));
                } else {
                    assert(spec_inv_entry(*m, 3, 3) == spec_fix_div(t33 as int, det as int));
                }
            }
        }
    }
    Some([e30, e31, e32, e33])
}


impl Mat4x4 {
    /// Whether every entry's magnitude is at most `limit`.
    pub fn entries_bounded(&self, limit: i64) -> (r: bool)
        requires
            limit >= 0,
        ensures
            r == m_in(*self, limit as int),
    {
        let d = &self.data;
        let ok = -limit <= d[0][0] && d[0][0] <= limit && -limit <= d[0][1] && d[0][1] <= limit && -limit <= d[0][2] && d[0][2] <= limit && -limit <= d[0][3] && d[0][3] <= limit && -limit <= d[1][0] && d[1][0] <= limit && -limit <= d[1][1] && d[1][1] <= limit && -limit <= d[1][2] && d[1][2] <= limit && -limit <= d[1][3] && d[1][3] <= limit && -limit <= d[2][0] && d[2][0] <= limit && -limit <= d[2][1] && d[2][1] <= limit && -limit <= d[2][2] && d[2][2] <= limit && -limit <= d[2][3] && d[2][3] <= limit && -limit <= d[3][0] && d[3][0] <= limit && -limit <= d[3][1] && d[3][1] <= limit && -limit <= d[3][2] && d[3][2] <= limit && -limit <= d[3][3] && d[3][3] <= limit;
        proof {
            if ok {
                assert forall|i: int, j: int| 0 <= i < 4 && 0 <= j < 4 implies fix_abs(
                    #[trigger] me(*self, i, j),
                ) <= limit as int by {
                }
            } else {
                if m_in(*self, limit as int) {
                    lemma_entries_bounded(*self, limit as int);
                }
            }
        }
        ok
    }

    /// The fixed-point inverse, when it is representable: the same value
    /// `inversed` gives, or nothing when the determinant is zero or some
    /// inverse entry falls outside the scalar.
    pub fn try_inversed(&self) -> (res: Option<Mat4x4>)
        requires
            m_in(*self, DET_LIMIT as int),
        ensures
            res is Some <==> invertible_ok(*self),
            res matches Some(v) ==> v == spec_inverse(*self),
    {
        let det = self.determinant();
        if det == 0 {
            return None;
        }
        let r0 = match inv_row_checked0(self, det) {
            Some(v) => v,
            None => {
                return None;
            },
        };
        let r1 = match inv_row_checked1(self, det) {
            Some(v) => v,
            None => {
                return None;
            },
        };
        let r2 = match inv_row_checked2(self, det) {
            Some(v) => v,
            None => {
                return None;
            },
        };
        let r3 = match inv_row_checked3(self, det) {
            Some(v) => v,
            None => {
                return None;
            },
        };
        let res = Mat4x4 { data: [r0, r1, r2, r3] };
        proof {
            assert(invertible_ok(*self)) by {
                assert forall|r: int, c: int|
                    0 <= r < 4 && 0 <= c < 4 implies -0x7fff_ffff_ffff_ffff <= #[trigger] spec_inv_entry(
                    *self,
                    r,
                    c,
                ) <= 0x7fff_ffff_ffff_ffff by {
                    if r == 0 {
                        assert(row_inv_in_range(*self, 0));
                    } else if r == 1 {
                        assert(row_inv_in_range(*self, 1));
                    } else if r == 2 {
                        assert(row_inv_in_range(*self, 2));
                    } else {
                        assert(row_inv_in_range(*self, 3));
                    }
                }
            }
            let si = spec_inverse(*self);
            assert(res.data[0] =~= si.data[0]);
            assert(res.data[1] =~= si.data[1]);
            assert(res.data[2] =~= si.data[2]);
            assert(res.data[3] =~= si.data[3]);
            assert(res.data =~= si.data);
        }
        Some(res)
    }
}

/// A direction taken through the matrix: the linear part only, row-vector
/// convention.
pub open spec fn spec_transform_vector(m: Mat4x4, v: Vec3) -> Vec3 {
    Vec3 {
        x: (spec_fix_mul(v.x as int, me(m, 0, 0)) + spec_fix_mul(v.y as int, me(m, 1, 0))
            + spec_fix_mul(v.z as int, me(m, 2, 0))) as i64,
        y: (spec_fix_mul(v.x as int, me(m, 0, 1)) + spec_fix_mul(v.y as int, me(m, 1, 1))
            + spec_fix_mul(v.z as int, me(m, 2, 1))) as i64,
        z: (spec_fix_mul(v.x as int, me(m, 0, 2)) + spec_fix_mul(v.y as int, me(m, 1, 2))
            + spec_fix_mul(v.z as int, me(m, 2, 2))) as i64,
    }
}

/// A point taken through the matrix: the linear part plus the translation
/// row.
pub open spec fn spec_transform_point(m: Mat4x4, v: Vec3) -> Vec3 {
    Vec3 {
        x: (spec_fix_mul(v.x as int, me(m, 0, 0)) + spec_fix_mul(v.y as int, me(m, 1, 0))
            + spec_fix_mul(v.z as int, me(m, 2, 0)) + me(m, 3, 0)) as i64,
        y: (spec_fix_mul(v.x as int, me(m, 0, 1)) + spec_fix_mul(v.y as int, me(m, 1, 1))
            + spec_fix_mul(v.z as int, me(m, 2, 1)) + me(m, 3, 1)) as i64,
        z: (spec_fix_mul(v.x as int, me(m, 0, 2)) + spec_fix_mul(v.y as int, me(m, 1, 2))
            + spec_fix_mul(v.z as int, me(m, 2, 2)) + me(m, 3, 2)) as i64,
    }
}

/// The homogeneous weight a point picks up through the matrix.
pub open spec fn spec_transform_w(m: Mat4x4, v: Vec3) -> int {
    spec_fix_mul(v.x as int, me(m, 0, 3)) + spec_fix_mul(v.y as int, me(m, 1, 3)) + spec_fix_mul(
        v.z as int,
        me(m, 2, 3),
    ) + me(m, 3, 3)
}

impl Mat4x4 {
    /// Take a direction through the matrix, ignoring the translation.
    pub fn transform_vector(&self, v: Vec3) -> (r: Vec3)
        requires
            m_in(*self, MAT_LIMIT as int),
            v3_in(v, MAT_LIMIT as int),
        ensures
            r == spec_transform_vector(*self, v),
    {
        proof {
            lemma_entries_bounded(*self, MAT_LIMIT as int);
            lemma_fix_mul_bound(v.x as int, self.data[0][0] as int, MAT_LIMIT as int, MAT_LIMIT as int);
            lemma_fix_mul_bound(v.x as int, self.data[0][1] as int, MAT_LIMIT as int, MAT_LIMIT as int);
            lemma_fix_mul_bound(v.x as int, self.data[0][2] as int, MAT_LIMIT as int, MAT_LIMIT as int);
            lemma_fix_mul_bound(v.x as int, self.data[1][0] as int, MAT_LIMIT as int, MAT_LIMIT as int);
            lemma_fix_mul_bound(v.x as int, self.data[1][1] as int, MAT_LIMIT as int, MAT_LIMIT as int);
            lemma_fix_mul_bound(v.x as int, self.data[1][2] as int, MAT_LIMIT as int, MAT_LIMIT as int);
            lemma_fix_mul_bound(v.x as int, self.data[2][0] as int, MAT_LIMIT as int, MAT_LIMIT as int);
            lemma_fix_mul_bound(v.x as int, self.data[2][1] as int, MAT_LIMIT as int, MAT_LIMIT as int);
            lemma_fix_mul_bound(v.x as int, self.data[2][2] as int, MAT_LIMIT as int, MAT_LIMIT as int);
            lemma_fix_mul_bound(v.y as int, self.data[0][0] as int, MAT_LIMIT as int, MAT_LIMIT as int);
            lemma_fix_mul_bound(v.y as int, self.data[0][1] as int, MAT_LIMIT as int, MAT_LIMIT as int);
            lemma_fix_mul_bound(v.y as int, self.data[0][2] as int, MAT_LIMIT as int, MAT_LIMIT as int);
            lemma_fix_mul_bound(v.y as int, self.data[1][0] as int, MAT_LIMIT as int, MAT_LIMIT as int);
            lemma_fix_mul_bound(v.y as int, self.data[1][1] as int, MAT_LIMIT as int, MAT_LIMIT as int);
            lemma_fix_mul_bound(v.y as int, self.data[1][2] as int, MAT_LIMIT as int, MAT_LIMIT as int);
            lemma_fix_mul_bound(v.y as int, self.data[2][0] as int, MAT_LIMIT as int, MAT_LIMIT as int);
            lemma_fix_mul_bound(v.y as int, self.data[2][1] as int, MAT_LIMIT as int, MAT_LIMIT as int);
            lemma_fix_mul_bound(v.y as int, self.data[2][2] as int, MAT_LIMIT as int, MAT_LIMIT as int);
            lemma_fix_mul_bound(v.z as int, self.data[0][0] as int, MAT_LIMIT as int, MAT_LIMIT as int);
            lemma_fix_mul_bound(v.z as int, self.data[0][1] as int, MAT_LIMIT as int, MAT_LIMIT as int);
            lemma_fix_mul_bound(v.z as int, self.data[0][2] as int, MAT_LIMIT as int, MAT_LIMIT as int);
            lemma_fix_mul_bound(v.z as int, self.data[1][0] as int, MAT_LIMIT as int, MAT_LIMIT as int);
            lemma_fix_mul_bound(v.z as int, self.data[1][1] as int, MAT_LIMIT as int, MAT_LIMIT as int);
            lemma_fix_mul_bound(v.z as int, self.data[1][2] as int, MAT_LIMIT as int, MAT_LIMIT as int);
            lemma_fix_mul_bound(v.z as int, self.data[2][0] as int, MAT_LIMIT as int, MAT_LIMIT as int);
            lemma_fix_mul_bound(v.z as int, self.data[2][1] as int, MAT_LIMIT as int, MAT_LIMIT as int);
            lemma_fix_mul_bound(v.z as int, self.data[2][2] as int, MAT_LIMIT as int, MAT_LIMIT as int);
        }
        let d = &self.data;
        Vec3 {
            x: fix_mul(v.x, d[0][0]) + fix_mul(v.y, d[1][0]) + fix_mul(v.z, d[2][0]),
            y: fix_mul(v.x, d[0][1]) + fix_mul(v.y, d[1][1]) + fix_mul(v.z, d[2][1]),
            z: fix_mul(v.x, d[0][2]) + fix_mul(v.y, d[1][2]) + fix_mul(v.z, d[2][2]),
        }
    }

    /// Take a point through the matrix, translation included.
    pub fn transform_point(&self, v: Vec3) -> (r: Vec3)
        requires
            m_in(*self, MAT_LIMIT as int),
            v3_in(v, MAT_LIMIT as int),
        ensures
            r == spec_transform_point(*self, v),
    {
        proof {
            lemma_entries_bounded(*self, MAT_LIMIT as int);
            lemma_fix_mul_bound(v.x as int, self.data[0][0] as int, MAT_LIMIT as int, MAT_LIMIT as int);
            lemma_fix_mul_bound(v.x as int, self.data[0][1] as int, MAT_LIMIT as int, MAT_LIMIT as int);
            lemma_fix_mul_bound(v.x as int, self.data[0][2] as int, MAT_LIMIT as int, MAT_LIMIT as int);
            lemma_fix_mul_bound(v.x as int, self.data[1][0] as int, MAT_LIMIT as int, MAT_LIMIT as int);
            lemma_fix_mul_bound(v.x as int, self.data[1][1] as int, MAT_LIMIT as int, MAT_LIMIT as int);
            lemma_fix_mul_bound(v.x as int, self.data[1][2] as int, MAT_LIMIT as int, MAT_LIMIT as int);
            lemma_fix_mul_bound(v.x as int, self.data[2][0] as int, MAT_LIMIT as int, MAT_LIMIT as int);
            lemma_fix_mul_bound(v.x as int, self.data[2][1] as int, MAT_LIMIT as int, MAT_LIMIT as int);
            lemma_fix_mul_bound(v.x as int, self.data[2][2] as int, MAT_LIMIT as int, MAT_LIMIT as int);
            lemma_fix_mul_bound(v.y as int, self.data[0][0] as int, MAT_LIMIT as int, MAT_LIMIT as int);
            lemma_fix_mul_bound(v.y as int, self.data[0][1] as int, MAT_LIMIT as int, MAT_LIMIT as int);
            lemma_fix_mul_bound(v.y as int, self.data[0][2] as int, MAT_LIMIT as int, MAT_LIMIT as int);
            lemma_fix_mul_bound(v.y as int, self.data[1][0] as int, MAT_LIMIT as int, MAT_LIMIT as int);
            lemma_fix_mul_bound(v.y as int, self.data[1][1] as int, MAT_LIMIT as int, MAT_LIMIT as int);
            lemma_fix_mul_bound(v.y as int, self.data[1][2] as int, MAT_LIMIT as int, MAT_LIMIT as int);
            lemma_fix_mul_bound(v.y as int, self.data[2][0] as int, MAT_LIMIT as int, MAT_LIMIT as int);
            lemma_fix_mul_bound(v.y as int, self.data[2][1] as int, MAT_LIMIT as int, MAT_LIMIT as int);
            lemma_fix_mul_bound(v.y as int, self.data[2][2] as int, MAT_LIMIT as int, MAT_LIMIT as int);
            lemma_fix_mul_bound(v.z as int, self.data[0][0] as int, MAT_LIMIT as int, MAT_LIMIT as int);
            lemma_fix_mul_bound(v.z as int, self.data[0][1] as int, MAT_LIMIT as int, MAT_LIMIT as int);
            lemma_fix_mul_bound(v.z as int, self.data[0][2] as int, MAT_LIMIT as int, MAT_LIMIT as int);
            lemma_fix_mul_bound(v.z as int, self.data[1][0] as int, MAT_LIMIT as int, MAT_LIMIT as int);
            lemma_fix_mul_bound(v.z as int, self.data[1][1] as int, MAT_LIMIT as int, MAT_LIMIT as int);
            lemma_fix_mul_bound(v.z as int, self.data[1][2] as int, MAT_LIMIT as int, MAT_LIMIT as int);
            lemma_fix_mul_bound(v.z as int, self.data[2][0] as int, MAT_LIMIT as int, MAT_LIMIT as int);
            lemma_fix_mul_bound(v.z as int, self.data[2][1] as int, MAT_LIMIT as int, MAT_LIMIT as int);
            lemma_fix_mul_bound(v.z as int, self.data[2][2] as int, MAT_LIMIT as int, MAT_LIMIT as int);
        }
        let d = &self.data;
        Vec3 {
            x: fix_mul(v.x, d[0][0]) + fix_mul(v.y, d[1][0]) + fix_mul(v.z, d[2][0]) + d[3][0],
            y: fix_mul(v.x, d[0][1]) + fix_mul(v.y, d[1][1]) + fix_mul(v.z, d[2][1]) + d[3][1],
            z: fix_mul(v.x, d[0][2]) + fix_mul(v.y, d[1][2]) + fix_mul(v.z, d[2][2]) + d[3][2],
        }
    }

    /// Take a point through the full homogeneous matrix, dividing by the
    /// picked-up weight, which must be nonzero and must leave every
    /// coordinate representable.
    pub fn transform_4x4(&self, v: Vec3) -> (r: Vec3)
        requires
            m_in(*self, MAT_LIMIT as int),
            v3_in(v, MAT_LIMIT as int),
            spec_transform_w(*self, v) != 0,
            ({
                let p = spec_transform_point(*self, v);
                let w = spec_transform_w(*self, v);
                &&& -0x7fff_ffff_ffff_ffff <= spec_fix_div(p.x as int, w) <= 0x7fff_ffff_ffff_ffff
                &&& -0x7fff_ffff_ffff_ffff <= spec_fix_div(p.y as int, w) <= 0x7fff_ffff_ffff_ffff
                &&& -0x7fff_ffff_ffff_ffff <= spec_fix_div(p.z as int, w) <= 0x7fff_ffff_ffff_ffff
            }),
        ensures
            ({
                let p = spec_transform_point(*self, v);
                let w = spec_transform_w(*self, v);
                r.x as int == spec_fix_div(p.x as int, w) && r.y as int == spec_fix_div(
                    p.y as int,
                    w,
                ) && r.z as int == spec_fix_div(p.z as int, w)
            }),
    {
        proof {
            lemma_entries_bounded(*self, MAT_LIMIT as int);
            lemma_fix_mul_bound(v.x as int, self.data[0][0] as int, MAT_LIMIT as int, MAT_LIMIT as int);
            lemma_fix_mul_bound(v.x as int, self.data[0][1] as int, MAT_LIMIT as int, MAT_LIMIT as int);
            lemma_fix_mul_bound(v.x as int, self.data[0][2] as int, MAT_LIMIT as int, MAT_LIMIT as int);
            lemma_fix_mul_bound(v.x as int, self.data[0][3] as int, MAT_LIMIT as int, MAT_LIMIT as int);
            lemma_fix_mul_bound(v.x as int, self.data[1][0] as int, MAT_LIMIT as int, MAT_LIMIT as int);
            lemma_fix_mul_bound(v.x as int, self.data[1][1] as int, MAT_LIMIT as int, MAT_LIMIT as int);
            lemma_fix_mul_bound(v.x as int, self.data[1][2] as int, MAT_LIMIT as int, MAT_LIMIT as int);
            lemma_fix_mul_bound(v.x as int, self.data[1][3] as int, MAT_LIMIT as int, MAT_LIMIT as int);
            lemma_fix_mul_bound(v.x as int, self.data[2][0] as int, MAT_LIMIT as int, MAT_LIMIT as int);
            lemma_fix_mul_bound(v.x as int, self.data[2][1] as int, MAT_LIMIT as int, MAT_LIMIT as int);
            lemma_fix_mul_bound(v.x as int, self.data[2][2] as int, MAT_LIMIT as int, MAT_LIMIT as int);
            lemma_fix_mul_bound(v.x as int, self.data[2][3] as int, MAT_LIMIT as int, MAT_LIMIT as int);
            lemma_fix_mul_bound(v.y as int, self.data[0][0] as int, MAT_LIMIT as int, MAT_LIMIT as int);
            lemma_fix_mul_bound(v.y as int, self.data[0][1] as int, MAT_LIMIT as int, MAT_LIMIT as int);
            lemma_fix_mul_bound(v.y as int, self.data[0][2] as int, MAT_LIMIT as int, MAT_LIMIT as int);
            lemma_fix_mul_bound(v.y as int, self.data[0][3] as int, MAT_LIMIT as int, MAT_LIMIT as int);
            lemma_fix_mul_bound(v.y as int, self.data[1][0] as int, MAT_LIMIT as int, MAT_LIMIT as int);
            lemma_fix_mul_bound(v.y as int, self.data[1][1] as int, MAT_LIMIT as int, MAT_LIMIT as int);
            lemma_fix_mul_bound(v.y as int, self.data[1][2] as int, MAT_LIMIT as int, MAT_LIMIT as int);
            lemma_fix_mul_bound(v.y as int, self.data[1][3] as int, MAT_LIMIT as int, MAT_LIMIT as int);
            lemma_fix_mul_bound(v.y as int, self.data[2][0] as int, MAT_LIMIT as int, MAT_LIMIT as int);
            lemma_fix_mul_bound(v.y as int, self.data[2][1] as int, MAT_LIMIT as int, MAT_LIMIT as int);
            lemma_fix_mul_bound(v.y as int, self.data[2][2] as int, MAT_LIMIT as int, MAT_LIMIT as int);
            lemma_fix_mul_bound(v.y as int, self.data[2][3] as int, MAT_LIMIT as int, MAT_LIMIT as int);
            lemma_fix_mul_bound(v.z as int, self.data[0][0] as int, MAT_LIMIT as int, MAT_LIMIT as int);
            lemma_fix_mul_bound(v.z as int, self.data[0][1] as int, MAT_LIMIT as int, MAT_LIMIT as int);
            lemma_fix_mul_bound(v.z as int, self.data[0][2] as int, MAT_LIMIT as int, MAT_LIMIT as int);
            lemma_fix_mul_bound(v.z as int, self.data[0][3] as int, MAT_LIMIT as int, MAT_LIMIT as int);
            lemma_fix_mul_bound(v.z as int, self.data[1][0] as int, MAT_LIMIT as int, MAT_LIMIT as int);
            lemma_fix_mul_bound(v.z as int, self.data[1][1] as int, MAT_LIMIT as int, MAT_LIMIT as int);
            lemma_fix_mul_bound(v.z as int, self.data[1][2] as int, MAT_LIMIT as int, MAT_LIMIT as int);
            lemma_fix_mul_bound(v.z as int, self.data[1][3] as int, MAT_LIMIT as int, MAT_LIMIT as int);
            lemma_fix_mul_bound(v.z as int, self.data[2][0] as int, MAT_LIMIT as int, MAT_LIMIT as int);
            lemma_fix_mul_bound(v.z as int, self.data[2][1] as int, MAT_LIMIT as int, MAT_LIMIT as int);
            lemma_fix_mul_bound(v.z as int, self.data[2][2] as int, MAT_LIMIT as int, MAT_LIMIT as int);
            lemma_fix_mul_bound(v.z as int, self.data[2][3] as int, MAT_LIMIT as int, MAT_LIMIT as int);
        }
        let d = &self.data;
        let w = fix_mul(v.x, d[0][3]) + fix_mul(v.y, d[1][3]) + fix_mul(v.z, d[2][3]) + d[3][3];
        let px = fix_mul(v.x, d[0][0]) + fix_mul(v.y, d[1][0]) + fix_mul(v.z, d[2][0]) + d[3][0];
        let py = fix_mul(v.x, d[0][1]) + fix_mul(v.y, d[1][1]) + fix_mul(v.z, d[2][1]) + d[3][1];
        let pz = fix_mul(v.x, d[0][2]) + fix_mul(v.y, d[1][2]) + fix_mul(v.z, d[2][2]) + d[3][2];
        Vec3 { x: fix_div(px, w), y: fix_div(py, w), z: fix_div(pz, w) }
    }
}

impl Mat4x4 {
    /// Rotation about an arbitrary axis by a fixed-point angle in radians:
    /// the axis is normalized first, and the entries follow the axis-angle
    /// form over the angle's sine and cosine. The preconditions bound the
    /// angle to the sine's domain and rule out an axis too short to
    /// normalize or too long to multiply on.
    #[verifier::rlimit(100)]
    pub fn rotate(angle: i64, axis: Vec3) -> (res: Mat4x4)
        requires
            fix_abs(angle as int) <= 8 * 65536,
            v3_in(axis, 0x7fff_ffff),
            spec_dot3(axis, axis) >= 1,
            v3_in(axis.normalized_spec(), 131072),
        ensures
            ({
                let u = axis.normalized_spec();
                let sn = spec_fix_sin(angle as int);
                let cs = spec_fix_cos(angle as int);
                let omc = 65536 - cs;
                &&& me(res, 0, 0) == spec_fix_mul(spec_fix_mul(u.x as int, u.x as int), omc) + cs
                &&& me(res, 0, 1) == spec_fix_mul(spec_fix_mul(u.x as int, u.y as int), omc)
                    - spec_fix_mul(u.z as int, sn)
                &&& me(res, 0, 2) == spec_fix_mul(spec_fix_mul(u.x as int, u.z as int), omc)
                    + spec_fix_mul(u.y as int, sn)
                &&& me(res, 1, 0) == spec_fix_mul(spec_fix_mul(u.y as int, u.x as int), omc)
                    + spec_fix_mul(u.z as int, sn)
                &&& me(res, 1, 1) == spec_fix_mul(spec_fix_mul(u.y as int, u.y as int), omc) + cs
                &&& me(res, 1, 2) == spec_fix_mul(spec_fix_mul(u.y as int, u.z as int), omc)
                    - spec_fix_mul(u.x as int, sn)
                &&& me(res, 2, 0) == spec_fix_mul(spec_fix_mul(u.z as int, u.x as int), omc)
                    - spec_fix_mul(u.y as int, sn)
                &&& me(res, 2, 1) == spec_fix_mul(spec_fix_mul(u.z as int, u.y as int), omc)
                    + spec_fix_mul(u.x as int, sn)
                &&& me(res, 2, 2) == spec_fix_mul(spec_fix_mul(u.z as int, u.z as int), omc) + cs
                &&& me(res, 0, 3) == 0 && me(res, 1, 3) == 0 && me(res, 2, 3) == 0
                &&& me(res, 3, 0) == 0 && me(res, 3, 1) == 0 && me(res, 3, 2) == 0
                &&& me(res, 3, 3) == 65536
            }),
    {
        let u = axis.normalized();
        let sn = fix_sin(angle);
        let cs = fix_cos(angle);
        let omc = 65536 - cs;
        proof {
            lemma_fix_mul_bound(u.x as int, u.x as int, 131072, 131072);
            lemma_fix_mul_bound(u.x as int, u.y as int, 131072, 131072);
            lemma_fix_mul_bound(u.x as int, u.z as int, 131072, 131072);
            lemma_fix_mul_bound(u.y as int, u.x as int, 131072, 131072);
            lemma_fix_mul_bound(u.y as int, u.y as int, 131072, 131072);
            lemma_fix_mul_bound(u.y as int, u.z as int, 131072, 131072);
            lemma_fix_mul_bound(u.z as int, u.x as int, 131072, 131072);
            lemma_fix_mul_bound(u.z as int, u.y as int, 131072, 131072);
            lemma_fix_mul_bound(u.z as int, u.z as int, 131072, 131072);
        }
        let xx = fix_mul(u.x, u.x);
        let xy = fix_mul(u.x, u.y);
        let xz = fix_mul(u.x, u.z);
        let yx = fix_mul(u.y, u.x);
        let yy = fix_mul(u.y, u.y);
        let yz = fix_mul(u.y, u.z);
        let zx = fix_mul(u.z, u.x);
        let zy = fix_mul(u.z, u.y);
        let zz = fix_mul(u.z, u.z);
        proof {
            lemma_fix_mul_bound(xx as int, omc as int, 0x4_0000, 0x101_0000);
            lemma_fix_mul_bound(xy as int, omc as int, 0x4_0000, 0x101_0000);
            lemma_fix_mul_bound(xz as int, omc as int, 0x4_0000, 0x101_0000);
            lemma_fix_mul_bound(yx as int, omc as int, 0x4_0000, 0x101_0000);
            lemma_fix_mul_bound(yy as int, omc as int, 0x4_0000, 0x101_0000);
            lemma_fix_mul_bound(yz as int, omc as int, 0x4_0000, 0x101_0000);
            lemma_fix_mul_bound(zx as int, omc as int, 0x4_0000, 0x101_0000);
            lemma_fix_mul_bound(zy as int, omc as int, 0x4_0000, 0x101_0000);
            lemma_fix_mul_bound(zz as int, omc as int, 0x4_0000, 0x101_0000);
            lemma_fix_mul_bound(u.x as int, sn as int, 131072, 0x200_0000);
            lemma_fix_mul_bound(u.y as int, sn as int, 131072, 0x200_0000);
            lemma_fix_mul_bound(u.z as int, sn as int, 131072, 0x200_0000);
        }
        Mat4x4 {
            data: [
                [
                    fix_mul(xx, omc) + cs,
                    fix_mul(xy, omc) - fix_mul(u.z, sn),
                    fix_mul(xz, omc) + fix_mul(u.y, sn),
                    0,
                ],
                [
                    fix_mul(yx, omc) + fix_mul(u.z, sn),
                    fix_mul(yy, omc) + cs,
                    fix_mul(yz, omc) - fix_mul(u.x, sn),
                    0,
                ],
                [
                    fix_mul(zx, omc) - fix_mul(u.y, sn),
                    fix_mul(zy, omc) + fix_mul(u.x, sn),
                    fix_mul(zz, omc) + cs,
                    0,
                ],
                [0, 0, 0, 65536],
            ],
        }
    }
}

} // verus!
