use wat3rs::matrix::Mat4x4;
use wat3rs::quat::Quat;
use wat3rs::scalar::fix_cos;
use wat3rs::scalar::fix_div;
use wat3rs::scalar::fix_mul;
use wat3rs::scalar::fix_sin;
use wat3rs::scalar::fix_sqrt;
use wat3rs::scalar::tdiv;
use wat3rs::scalar::FIX_ONE;
use wat3rs::scalar::SinCos;
use wat3rs::scalar::Sqrt;
use wat3rs::vector::Vec3;

#[test]
fn fixed_multiplication() {
    assert_eq!(fix_mul(FIX_ONE, FIX_ONE), FIX_ONE);
    assert_eq!(fix_mul(2 * FIX_ONE, 98304), 3 * FIX_ONE);
    assert_eq!(fix_mul(-2 * FIX_ONE, 98304), -3 * FIX_ONE);
    assert_eq!(fix_mul(0, 12345), 0);
}

#[test]
fn fixed_division() {
    assert_eq!(fix_div(FIX_ONE, 2 * FIX_ONE), 32768);
    assert_eq!(fix_div(-FIX_ONE, 2 * FIX_ONE), -32768);
    assert_eq!(fix_div(3 * FIX_ONE, FIX_ONE), 3 * FIX_ONE);
}

#[test]
fn truncating_division_rounds_toward_zero() {
    assert_eq!(tdiv(7, 2), 3);
    assert_eq!(tdiv(-7, 2), -3);
}

#[test]
fn fixed_square_root() {
    assert_eq!(fix_sqrt(0), 0);
    assert_eq!(fix_sqrt(FIX_ONE), FIX_ONE);
    assert_eq!(fix_sqrt(4 * FIX_ONE), 2 * FIX_ONE);
    assert_eq!((4 * FIX_ONE).sqrt(), 2 * FIX_ONE);
    assert_eq!((-5i64).sqrt(), 0);
}

#[test]
fn sine_and_cosine() {
    assert_eq!(fix_sin(0), 0);
    assert_eq!(fix_cos(0), FIX_ONE);
    assert_eq!(0i64.sin(), 0);
    assert_eq!(0i64.cos(), FIX_ONE);
    // At a right angle the truncated series sits near one and near zero.
    let half_pi = 102944;
    let s = fix_sin(half_pi);
    let c = fix_cos(half_pi);
    assert!(s > 65000 && s < 66200, "sin(pi/2) was {s}");
    assert!(c > -2000 && c < 2000, "cos(pi/2) was {c}");
}

#[test]
fn vector_products() {
    let x = Vec3 { x: FIX_ONE, y: 0, z: 0 };
    let y = Vec3 { x: 0, y: FIX_ONE, z: 0 };
    let z = x.cross(&y);
    assert_eq!(z, Vec3 { x: 0, y: 0, z: FIX_ONE });
    let a = Vec3 { x: FIX_ONE, y: 2 * FIX_ONE, z: 3 * FIX_ONE };
    let b = Vec3 { x: 4 * FIX_ONE, y: 5 * FIX_ONE, z: 6 * FIX_ONE };
    assert_eq!(a.dot(&b), 32 * FIX_ONE);
}

#[test]
fn vector_length_and_normalization() {
    let v = Vec3 { x: 3 * FIX_ONE, y: 4 * FIX_ONE, z: 0 };
    assert_eq!(v.length2(), 25 * FIX_ONE);
    assert_eq!(v.length(), 5 * FIX_ONE);
    let n = v.normalized();
    assert_eq!(n.x, 39321);
    assert_eq!(n.y, 52428);
    assert_eq!(n.z, 0);
}

#[test]
fn matrix_identity_and_product() {
    let i = Mat4x4::identity();
    assert_eq!(i.data[0][0], FIX_ONE);
    assert_eq!(i.data[0][1], 0);
    let p = i.mul(&i);
    assert_eq!(p.data, i.data);
    let s = Mat4x4::scale(Vec3 { x: 2 * FIX_ONE, y: 3 * FIX_ONE, z: 4 * FIX_ONE });
    let sp = s.mul(&i);
    assert_eq!(sp.data, s.data);
}

#[test]
fn matrix_determinant_and_inverse() {
    let i = Mat4x4::identity();
    assert_eq!(i.determinant(), FIX_ONE);
    assert_eq!(i.inversed().data, i.data);
    let s = Mat4x4::scale(Vec3 { x: 2 * FIX_ONE, y: 3 * FIX_ONE, z: 4 * FIX_ONE });
    assert_eq!(s.determinant(), 24 * FIX_ONE);
    let si = s.inversed();
    assert_eq!(si.data[0][0], 32768);
    assert_eq!(si.data[1][1], 21845);
    assert_eq!(si.data[2][2], 16384);
    assert_eq!(si.data[3][3], FIX_ONE);
    assert_eq!(si.data[0][1], 0);
    assert_eq!(si.data[3][0], 0);
}

#[test]
fn translation_inverts_exactly() {
    let t = Mat4x4::translate(Vec3 { x: FIX_ONE, y: 0, z: 0 });
    let ti = t.inversed();
    assert_eq!(ti.data, Mat4x4::translate(Vec3 { x: -FIX_ONE, y: 0, z: 0 }).data);
    // The round trip through the inverse recovers the identity.
    assert_eq!(t.mul(&ti).data, Mat4x4::identity().data);
}

#[test]
fn permutation_matrix_is_invertible() {
    // The cyclic permutation of the three axes: an even permutation, so
    // its determinant is one and it inverts to the reverse cycle.
    let p = Mat4x4 {
        data: [
            [0, FIX_ONE, 0, 0],
            [0, 0, FIX_ONE, 0],
            [FIX_ONE, 0, 0, 0],
            [0, 0, 0, FIX_ONE],
        ],
    };
    assert_eq!(p.determinant(), FIX_ONE);
    let pi = p.inversed();
    assert_eq!(p.mul(&pi).data, Mat4x4::identity().data);
}

#[test]
fn matrix_translation_and_rotation() {
    let t = Mat4x4::translate(Vec3 { x: 5 * FIX_ONE, y: 6 * FIX_ONE, z: 7 * FIX_ONE });
    assert_eq!(t.data[3][0], 5 * FIX_ONE);
    assert_eq!(t.data[3][1], 6 * FIX_ONE);
    assert_eq!(t.data[3][2], 7 * FIX_ONE);
    assert_eq!(t.data[0][0], FIX_ONE);
    let r = Mat4x4::rotate_z(0);
    assert_eq!(r.data, Mat4x4::identity().data);
}

#[test]
fn matrix_frustum() {
    let f = Mat4x4::projection_frustum(
        -FIX_ONE,
        FIX_ONE,
        -FIX_ONE,
        FIX_ONE,
        FIX_ONE,
        2 * FIX_ONE,
    );
    assert_eq!(f.data[0][0], FIX_ONE);
    assert_eq!(f.data[1][1], FIX_ONE);
    assert_eq!(f.data[2][2], -3 * FIX_ONE);
    assert_eq!(f.data[2][3], -FIX_ONE);
    assert_eq!(f.data[3][2], -4 * FIX_ONE);
}

#[test]
fn quaternion_basics() {
    let r = Quat::from_scalar(FIX_ONE);
    assert_eq!(r.s, FIX_ONE);
    assert_eq!(r.v, Vec3 { x: 0, y: 0, z: 0 });
    let p = Quat::pure(Vec3 { x: FIX_ONE, y: 0, z: 0 });
    assert_eq!(p.s, 0);
    assert_eq!(r.norm2(), FIX_ONE);
    assert_eq!(r.norm(), FIX_ONE);
    let c = p.conjugate();
    assert_eq!(c.v.x, -FIX_ONE);
}

#[test]
fn quaternion_product_and_inverse() {
    let qi = Quat::pure(Vec3 { x: FIX_ONE, y: 0, z: 0 });
    let qj = Quat::pure(Vec3 { x: 0, y: FIX_ONE, z: 0 });
    let qk = qi.mul(qj);
    assert_eq!(qk.s, 0);
    assert_eq!(qk.v, Vec3 { x: 0, y: 0, z: FIX_ONE });
    let unit = Quat::from_scalar(FIX_ONE);
    let inv = unit.inversed();
    assert_eq!(inv.s, FIX_ONE);
    assert_eq!(inv.v, Vec3 { x: 0, y: 0, z: 0 });
    assert_eq!(unit.normalized(), unit);
    let v = Vec3 { x: FIX_ONE, y: 2 * FIX_ONE, z: 3 * FIX_ONE };
    assert_eq!(unit.rotate_vector(v), v);
}

#[test]
fn quaternion_rotation_about_axis() {
    // A zero-angle rotation about any axis is the unit quaternion.
    let q = Quat::rotation(0, Vec3 { x: 0, y: 0, z: FIX_ONE });
    assert_eq!(q.s, FIX_ONE);
    assert_eq!(q.v, Vec3 { x: 0, y: 0, z: 0 });
}

#[test]
fn checked_inverse_reports_singularity() {
    let singular = Mat4x4 { data: [[0; 4]; 4] };
    assert!(singular.try_inversed().is_none());
    let i = Mat4x4::identity();
    assert_eq!(i.try_inversed().unwrap().data, i.data);
    assert!(i.entries_bounded(FIX_ONE));
    assert!(!i.entries_bounded(100));
}

#[test]
fn matrix_transforms() {
    let t = Mat4x4::translate(Vec3 { x: 5 * FIX_ONE, y: 6 * FIX_ONE, z: 7 * FIX_ONE });
    let v = Vec3 { x: FIX_ONE, y: 2 * FIX_ONE, z: 3 * FIX_ONE };
    // A direction ignores the translation; a point picks it up.
    assert_eq!(t.transform_vector(v), v);
    assert_eq!(
        t.transform_point(v),
        Vec3 { x: 6 * FIX_ONE, y: 8 * FIX_ONE, z: 10 * FIX_ONE },
    );
    // The identity's homogeneous weight is one, so nothing is rescaled.
    assert_eq!(Mat4x4::identity().transform_4x4(v), v);
}

#[test]
fn axis_angle_rotation() {
    // A zero-angle rotation about any axis is the identity.
    let r = Mat4x4::rotate(0, Vec3 { x: 0, y: 0, z: FIX_ONE });
    assert_eq!(r.data, Mat4x4::identity().data);
    // The axis-angle form and the dedicated z constructor turn in
    // opposite senses, so the one matches the other's negated angle.
    let a = 30000;
    assert_eq!(
        Mat4x4::rotate(a, Vec3 { x: 0, y: 0, z: FIX_ONE }).data,
        Mat4x4::rotate_z(-a).data,
    );
}
