//! The render camera: an eye position and basis, a projection, and the
//! cached view, projection, and view-projection matrices. The cached
//! product is recomputed whenever the location or the projection changes.

use vstd::prelude::*;

verus! {

use crate::matrix::m_in;
use crate::matrix::me;
use crate::matrix::spec_look_dir;
use crate::matrix::spec_look_right;
use crate::matrix::spec_look_up;
use crate::matrix::spec_identity;
use crate::matrix::spec_mul_entry;
use crate::matrix::Mat4x4;
use crate::matrix::MAT_LIMIT;
use crate::matrix::PROJ_LIMIT;
use crate::scalar::fix_abs;
use crate::scalar::fix_mul;
use crate::scalar::fix_div;
use crate::scalar::spec_fix_div;
use crate::scalar::spec_fix_mul;
use crate::scalar::lemma_div_value;
use crate::scalar::spec_tdiv;
use crate::scalar::tdiv;
use crate::vector::spec_cross;
use crate::vector::spec_dot3;
use crate::vector::spec_sub3;
use crate::vector::v3_in;
use crate::vector::Vec2;
use crate::vector::Vec3;

/// A window extent in pixels.
#[derive(Clone, Copy, Debug, PartialEq, Eq, Structural)]
pub struct Ext2 {
    pub w: u32,
    pub h: u32,
}

/// The largest window side the camera accepts, in pixels.
pub const EXTENT_LIMIT: u32 = 16384;

/// Where the camera sits and which way it faces.
#[derive(Clone, Copy, Debug, PartialEq, Eq, Structural)]
pub struct Location {
    /// Unit vector from the eye toward the point looked at.
    pub direction: Vec3,
    /// Unit vector to the right of the view.
    pub right: Vec3,
    /// Unit vector up from the view.
    pub up: Vec3,
    /// The eye position.
    pub location: Vec3,
    /// The point looked at.
    pub at: Vec3,
}

/// The projection parameters: a logical size and the near and far planes.
#[derive(Clone, Copy, Debug, PartialEq, Eq, Structural)]
pub struct Projection {
    pub size: Vec2,
    pub near: i64,
    pub far: i64,
}

/// The cached matrices; `view_projection` is always the product of the
/// other two.
#[derive(Clone, Copy, Debug, PartialEq, Eq)]
pub struct Matrices {
    pub view: Mat4x4,
    pub projection: Mat4x4,
    pub view_projection: Mat4x4,
}

/// The projection extent along x: the logical width, widened by the pixel
/// aspect ratio when the window is wider than tall.
pub open spec fn spec_proj_w(size: Vec2, w: int, h: int) -> int {
    if w > h {
        spec_fix_mul(size.x as int, spec_fix_div(w, h))
    } else {
        size.x as int
    }
}

/// The projection extent along y: the logical height, widened by the pixel
/// aspect ratio when the window is taller than wide.
pub open spec fn spec_proj_h(size: Vec2, w: int, h: int) -> int {
    if w > h {
        size.y as int
    } else {
        spec_fix_mul(size.y as int, spec_fix_div(h, w))
    }
}

/// Entry `(i, j)` of the perspective frustum matrix, as
/// `Mat4x4::projection_frustum` builds it.
pub open spec fn spec_frustum_entry(
    l: int,
    r: int,
    b: int,
    t: int,
    n: int,
    f: int,
    i: int,
    j: int,
) -> int {
    if i == 0 {
        if j == 0 {
            spec_fix_div(2 * n, r - l)
        } else {
            0
        }
    } else if i == 1 {
        if j == 1 {
            spec_fix_div(2 * n, t - b)
        } else {
            0
        }
    } else if i == 2 {
        if j == 0 {
            spec_fix_div(r + l, r - l)
        } else if j == 1 {
            spec_fix_div(t + b, t - b)
        } else if j == 2 {
            -spec_fix_div(f + n, f - n)
        } else {
            -65536
        }
    } else {
        if j == 2 {
            -spec_fix_div(spec_fix_mul(2 * n, f), f - n)
        } else {
            0
        }
    }
}

/// Entry `(i, j)` of the projection matrix the camera derives from its
/// logical size, the window extent, and the near and far planes: the
/// frustum over the aspect-scaled half extents.
pub open spec fn spec_cam_proj_entry(
    size: Vec2,
    w: int,
    h: int,
    near: int,
    far: int,
    i: int,
    j: int,
) -> int {
    let pw2 = spec_tdiv(spec_proj_w(size, w, h), 2);
    let ph2 = spec_tdiv(spec_proj_h(size, w, h), 2);
    spec_frustum_entry(-pw2, pw2, -ph2, ph2, near, far, i, j)
}

/// The preconditions under which the camera can rebuild its projection
/// matrix for logical size `size`, window extent `w` by `h`, and planes
/// `near` and `far`: everything in range, no division degenerate, and the
/// resulting entries small enough to multiply on.
pub open spec fn proj_args_ok(size: Vec2, w: int, h: int, near: int, far: int) -> bool {
    let pw2 = spec_tdiv(spec_proj_w(size, w, h), 2);
    let ph2 = spec_tdiv(spec_proj_h(size, w, h), 2);
    &&& 1 <= w <= EXTENT_LIMIT as int
    &&& 1 <= h <= EXTENT_LIMIT as int
    &&& fix_abs(size.x as int) <= 0x3fff_ffff
    &&& fix_abs(size.y as int) <= 0x3fff_ffff
    &&& fix_abs(near) <= PROJ_LIMIT as int
    &&& fix_abs(far) <= PROJ_LIMIT as int
    &&& near != far
    &&& fix_abs(spec_proj_w(size, w, h)) <= PROJ_LIMIT as int
    &&& fix_abs(spec_proj_h(size, w, h)) <= PROJ_LIMIT as int
    &&& 1 <= pw2
    &&& 1 <= ph2
    &&& fix_abs(spec_fix_div(2 * near, 2 * pw2)) <= MAT_LIMIT as int
    &&& fix_abs(spec_fix_div(2 * near, 2 * ph2)) <= MAT_LIMIT as int
    &&& fix_abs(spec_fix_div(far + near, far - near)) <= MAT_LIMIT as int
    &&& fix_abs(spec_fix_div(spec_fix_mul(2 * near, far), far - near)) <= MAT_LIMIT as int
}

/// The default logical projection size: a tenth of a unit each way.
pub open spec fn spec_default_size() -> Vec2 {
    Vec2 { x: 6554i64, y: 6554i64 }
}

/// The default viewing frame: the eye one unit out on the z axis, looking
/// at the origin, the y axis up.
pub open spec fn spec_default_location() -> Location {
    Location {
        direction: Vec3 { x: 0i64, y: 0i64, z: -65536i64 },
        right: Vec3 { x: 65536i64, y: 0i64, z: 0i64 },
        up: Vec3 { x: 0i64, y: 65536i64, z: 0i64 },
        location: Vec3 { x: 0i64, y: 0i64, z: 65536i64 },
        at: Vec3 { x: 0i64, y: 0i64, z: 0i64 },
    }
}

/// The default projection matrix: the aspect-scaled frustum for the default
/// size on an 800 by 600 window, near 0.05 and far 4096.
pub open spec fn spec_default_projection() -> Mat4x4 {
    Mat4x4 {
        data: [
            [
                spec_cam_proj_entry(spec_default_size(), 800, 600, 3277, 0x1000_0000, 0, 0) as i64,
                spec_cam_proj_entry(spec_default_size(), 800, 600, 3277, 0x1000_0000, 0, 1) as i64,
                spec_cam_proj_entry(spec_default_size(), 800, 600, 3277, 0x1000_0000, 0, 2) as i64,
                spec_cam_proj_entry(spec_default_size(), 800, 600, 3277, 0x1000_0000, 0, 3) as i64,
            ],
            [
                spec_cam_proj_entry(spec_default_size(), 800, 600, 3277, 0x1000_0000, 1, 0) as i64,
                spec_cam_proj_entry(spec_default_size(), 800, 600, 3277, 0x1000_0000, 1, 1) as i64,
                spec_cam_proj_entry(spec_default_size(), 800, 600, 3277, 0x1000_0000, 1, 2) as i64,
                spec_cam_proj_entry(spec_default_size(), 800, 600, 3277, 0x1000_0000, 1, 3) as i64,
            ],
            [
                spec_cam_proj_entry(spec_default_size(), 800, 600, 3277, 0x1000_0000, 2, 0) as i64,
                spec_cam_proj_entry(spec_default_size(), 800, 600, 3277, 0x1000_0000, 2, 1) as i64,
                spec_cam_proj_entry(spec_default_size(), 800, 600, 3277, 0x1000_0000, 2, 2) as i64,
                spec_cam_proj_entry(spec_default_size(), 800, 600, 3277, 0x1000_0000, 2, 3) as i64,
            ],
            [
                spec_cam_proj_entry(spec_default_size(), 800, 600, 3277, 0x1000_0000, 3, 0) as i64,
                spec_cam_proj_entry(spec_default_size(), 800, 600, 3277, 0x1000_0000, 3, 1) as i64,
                spec_cam_proj_entry(spec_default_size(), 800, 600, 3277, 0x1000_0000, 3, 2) as i64,
                spec_cam_proj_entry(spec_default_size(), 800, 600, 3277, 0x1000_0000, 3, 3) as i64,
            ],
        ],
    }
}

/// The default view-projection product: the identity view times the default
/// projection.
pub open spec fn spec_default_vp() -> Mat4x4 {
    Mat4x4 {
        data: [
            [
                spec_mul_entry(spec_identity(), spec_default_projection(), 0, 0) as i64,
                spec_mul_entry(spec_identity(), spec_default_projection(), 0, 1) as i64,
                spec_mul_entry(spec_identity(), spec_default_projection(), 0, 2) as i64,
                spec_mul_entry(spec_identity(), spec_default_projection(), 0, 3) as i64,
            ],
            [
                spec_mul_entry(spec_identity(), spec_default_projection(), 1, 0) as i64,
                spec_mul_entry(spec_identity(), spec_default_projection(), 1, 1) as i64,
                spec_mul_entry(spec_identity(), spec_default_projection(), 1, 2) as i64,
                spec_mul_entry(spec_identity(), spec_default_projection(), 1, 3) as i64,
            ],
            [
                spec_mul_entry(spec_identity(), spec_default_projection(), 2, 0) as i64,
                spec_mul_entry(spec_identity(), spec_default_projection(), 2, 1) as i64,
                spec_mul_entry(spec_identity(), spec_default_projection(), 2, 2) as i64,
                spec_mul_entry(spec_identity(), spec_default_projection(), 2, 3) as i64,
            ],
            [
                spec_mul_entry(spec_identity(), spec_default_projection(), 3, 0) as i64,
                spec_mul_entry(spec_identity(), spec_default_projection(), 3, 1) as i64,
                spec_mul_entry(spec_identity(), spec_default_projection(), 3, 2) as i64,
                spec_mul_entry(spec_identity(), spec_default_projection(), 3, 3) as i64,
            ],
        ],
    }
}

/// The camera `Camera::new` hands out, in full.
pub closed spec fn spec_default_camera() -> Camera {
    Camera {
        location: spec_default_location(),
        projection: Projection { size: spec_default_size(), near: 3277i64, far: 0x1000_0000i64 },
        matrices: Matrices {
            view: spec_identity(),
            projection: spec_default_projection(),
            view_projection: spec_default_vp(),
        },
        extent: Ext2 { w: 800u32, h: 600u32 },
    }
}

/// The renderer camera.
#[derive(Clone, Copy, Debug)]
pub struct Camera {
    location: Location,
    projection: Projection,
    matrices: Matrices,
    extent: Ext2,
}

impl Camera {
    /// The camera's position and basis.
    pub closed spec fn spec_location(self) -> Location {
        self.location
    }

    /// The camera's projection parameters.
    pub closed spec fn spec_projection(self) -> Projection {
        self.projection
    }

    /// The camera's cached matrices.
    pub closed spec fn spec_matrices(self) -> Matrices {
        self.matrices
    }

    /// The window extent the camera was last fitted to.
    pub closed spec fn spec_extent(self) -> Ext2 {
        self.extent
    }

    /// The cached view and projection matrices stay small enough to
    /// multiply on.
    pub closed spec fn wf(self) -> bool {
        &&& m_in(self.matrices.view, MAT_LIMIT as int)
        &&& m_in(self.matrices.projection, MAT_LIMIT as int)
    }

    /// The view-projection cache agrees with its two factors.
    pub open spec fn cache_ok(self) -> bool {
        forall|i: int, j: int|
            0 <= i < 4 && 0 <= j < 4 ==> #[trigger] me(self.spec_matrices().view_projection, i, j)
                == spec_mul_entry(self.spec_matrices().view, self.spec_matrices().projection, i, j)
    }

    /// Rebuild the projection matrix and the view-projection product from
    /// the stored projection parameters and extent.
    fn refresh_projection(&mut self)
        requires
            old(self).wf(),
            proj_args_ok(
                old(self).projection.size,
                old(self).extent.w as int,
                old(self).extent.h as int,
                old(self).projection.near as int,
                old(self).projection.far as int,
            ),
        ensures
            final(self).wf(),
            final(self).cache_ok(),
            final(self).location == old(self).location,
            final(self).projection == old(self).projection,
            final(self).extent == old(self).extent,
            final(self).matrices.view == old(self).matrices.view,
            forall|i: int, j: int|
                0 <= i < 4 && 0 <= j < 4 ==> #[trigger] me(final(self).matrices.projection, i, j)
                    == spec_cam_proj_entry(
                    old(self).projection.size,
                    old(self).extent.w as int,
                    old(self).extent.h as int,
                    old(self).projection.near as int,
                    old(self).projection.far as int,
                    i,
                    j,
                ),
    {
        let w = self.extent.w as i64;
        let h = self.extent.h as i64;
        let size = self.projection.size;
        let pw: i64 = if w > h {
            fix_mul(size.x, fix_div(w, h))
        } else {
            size.x
        };
        let ph: i64 = if w > h {
            size.y
        } else {
            fix_mul(size.y, fix_div(h, w))
        };
        proof {
            assert(pw as int == spec_proj_w(size, w as int, h as int));
            assert(ph as int == spec_proj_h(size, w as int, h as int));
        }
        let pw2 = tdiv(pw, 2);
        let ph2 = tdiv(ph, 2);
        let proj = Mat4x4::projection_frustum(
            -pw2,
            pw2,
            -ph2,
            ph2,
            self.projection.near,
            self.projection.far,
        );
        proof {
            assert forall|i: int, j: int| 0 <= i < 4 && 0 <= j < 4 implies #[trigger] me(
                proj,
                i,
                j,
            ) == spec_cam_proj_entry(
                size,
                w as int,
                h as int,
                self.projection.near as int,
                self.projection.far as int,
                i,
                j,
            ) by {
                assert(pw2 as int == spec_tdiv(spec_proj_w(size, w as int, h as int), 2));
                assert(ph2 as int == spec_tdiv(spec_proj_h(size, w as int, h as int), 2));
            }
            assert forall|i: int, j: int| 0 <= i < 4 && 0 <= j < 4 implies fix_abs(
                #[trigger] me(proj, i, j),
            ) <= MAT_LIMIT as int by {
                assert(2 * (pw2 as int) == (pw2 as int) - (-(pw2 as int)));
                assert(2 * (ph2 as int) == (ph2 as int) - (-(ph2 as int)));
            }
        }
        let vp = self.matrices.view.mul(&proj);
        self.matrices.projection = proj;
        self.matrices.view_projection = vp;
    }

    /// A camera with the default frame: at `(0, 0, 1)`, looking at the
    /// origin, fitted to an 800 by 600 window, with a tenth-unit logical
    /// projection size, near plane 0.05, and far plane 4096.
    pub fn new() -> (r: Camera)
        ensures
            r == spec_default_camera(),
            r.wf(),
            r.cache_ok(),
            r.spec_extent() == (Ext2 { w: 800u32, h: 600u32 }),
            r.spec_location() == spec_default_location(),
            r.spec_projection() == (Projection {
                size: spec_default_size(),
                near: 3277i64,
                far: 0x1000_0000i64,
            }),
            r.spec_matrices().view == spec_identity(),
            r.spec_matrices().projection == spec_default_projection(),
            r.spec_matrices().view_projection == spec_default_vp(),
    {
        proof {
            assert(spec_fix_div(800, 600) == 87381) by {
                lemma_div_value(800int * 65536, 600, 87381, 200);
            }
            assert(spec_fix_mul(6554, 87381) == 8738) by {
                lemma_div_value(6554int * 87381, 65536, 8738, 41506);
            }
            assert(spec_proj_w(Vec2 { x: 6554i64, y: 6554i64 }, 800, 600) == 8738);
            assert(spec_proj_h(Vec2 { x: 6554i64, y: 6554i64 }, 800, 600) == 6554);
            assert(spec_tdiv(8738, 2) == 4369);
            assert(spec_tdiv(6554, 2) == 3277);
            assert(spec_fix_div(2int * 3277, 2int * 4369) == 49155) by {
                lemma_div_value(6554int * 65536, 8738, 49155, 6554);
            }
            assert(spec_fix_div(2int * 3277, 2int * 3277) == 65536) by {
                lemma_div_value(6554int * 65536, 6554, 65536, 0);
            }
            assert(spec_fix_div(0x1000_0000int + 3277, 0x1000_0000int - 3277) == 65537) by {
                lemma_div_value(268438733int * 65536, 268432179, 65537, 161090765);
            }
            assert(spec_fix_mul(2int * 3277, 0x1000_0000int) == 26845184) by {
                lemma_div_value(6554int * 0x1000_0000, 65536, 26845184, 0);
            }
            assert(spec_fix_div(26845184int, 0x1000_0000int - 3277) == 6554) by {
                lemma_div_value(26845184int * 65536, 268432179, 6554, 21477458);
            }
        }
        let mut cam = Camera {
            location: Location {
                direction: Vec3 { x: 0, y: 0, z: -65536 },
                right: Vec3 { x: 65536, y: 0, z: 0 },
                up: Vec3 { x: 0, y: 65536, z: 0 },
                location: Vec3 { x: 0, y: 0, z: 65536 },
                at: Vec3 { x: 0, y: 0, z: 0 },
            },
            projection: Projection {
                size: Vec2 { x: 6554, y: 6554 },
                near: 3277,
                far: 0x1000_0000,
            },
            matrices: Matrices {
                view: Mat4x4::identity(),
                projection: Mat4x4::identity(),
                view_projection: Mat4x4::identity(),
            },
            extent: Ext2 { w: 800, h: 600 },
        };
        cam.refresh_projection();
        proof {
            let dp = spec_default_projection();
            assert forall|i: int, j: int|
                0 <= i < 4 && 0 <= j < 4 implies cam.matrices.projection.data[i][j]
                    == dp.data[i][j] by {
                assert(me(cam.matrices.projection, i, j) == spec_cam_proj_entry(
                    spec_default_size(),
                    800,
                    600,
                    3277,
                    0x1000_0000,
                    i,
                    j,
                ));
                assert(me(dp, i, j) == spec_cam_proj_entry(
                    spec_default_size(),
                    800,
                    600,
                    3277,
                    0x1000_0000,
                    i,
                    j,
                ));
            }
            assert(cam.matrices.projection.data[0] =~= dp.data[0]);
            assert(cam.matrices.projection.data[1] =~= dp.data[1]);
            assert(cam.matrices.projection.data[2] =~= dp.data[2]);
            assert(cam.matrices.projection.data[3] =~= dp.data[3]);
            assert(cam.matrices.projection.data =~= dp.data);
            let dv = spec_default_vp();
            assert forall|i: int, j: int|
                0 <= i < 4 && 0 <= j < 4 implies cam.matrices.view_projection.data[i][j]
                    == dv.data[i][j] by {
                assert(me(cam.spec_matrices().view_projection, i, j) == spec_mul_entry(
                    cam.spec_matrices().view,
                    cam.spec_matrices().projection,
                    i,
                    j,
                ));
                assert(me(dv, i, j) == spec_mul_entry(spec_identity(), dp, i, j));
            }
            assert(cam.matrices.view_projection.data[0] =~= dv.data[0]);
            assert(cam.matrices.view_projection.data[1] =~= dv.data[1]);
            assert(cam.matrices.view_projection.data[2] =~= dv.data[2]);
            assert(cam.matrices.view_projection.data[3] =~= dv.data[3]);
            assert(cam.matrices.view_projection.data =~= dv.data);
            assert(cam == spec_default_camera());
        }
        cam
    }

    /// The camera's position and basis.
    pub fn get_location(&self) -> (r: &Location)
        ensures
            *r == self.spec_location(),
    {
        &self.location
    }

    /// The camera's projection parameters.
    pub fn get_projection(&self) -> (r: &Projection)
        ensures
            *r == self.spec_projection(),
    {
        &self.projection
    }

    /// The camera's cached matrices.
    pub fn get_matrices(&self) -> (r: &Matrices)
        ensures
            *r == self.spec_matrices(),
    {
        &self.matrices
    }

    /// Reframe the projection and recompute the cached matrices.
    pub fn set_projection(&mut self, near: i64, far: i64, size: Vec2)
        requires
            old(self).wf(),
            proj_args_ok(
                size,
                old(self).spec_extent().w as int,
                old(self).spec_extent().h as int,
                near as int,
                far as int,
            ),
        ensures
            final(self).wf(),
            final(self).cache_ok(),
            final(self).spec_projection() == (Projection { size, near, far }),
            final(self).spec_location() == old(self).spec_location(),
            final(self).spec_extent() == old(self).spec_extent(),
            final(self).spec_matrices().view == old(self).spec_matrices().view,
            forall|i: int, j: int|
                0 <= i < 4 && 0 <= j < 4 ==> #[trigger] me(final(self).spec_matrices().projection, i, j)
                    == spec_cam_proj_entry(
                    size,
                    old(self).spec_extent().w as int,
                    old(self).spec_extent().h as int,
                    near as int,
                    far as int,
                    i,
                    j,
                ),
    {
        self.projection.near = near;
        self.projection.far = far;
        self.projection.size = size;
        self.refresh_projection();
    }

    /// Fit the camera to a new window extent. When the extent is the one
    /// already fitted to, nothing at all is recomputed.
    pub fn resize(&mut self, new_extent: Ext2)
        requires
            old(self).wf(),
            new_extent != old(self).spec_extent() ==> proj_args_ok(
                old(self).spec_projection().size,
                new_extent.w as int,
                new_extent.h as int,
                old(self).spec_projection().near as int,
                old(self).spec_projection().far as int,
            ),
        ensures
            final(self).wf(),
            new_extent == old(self).spec_extent() ==> *final(self) == *old(self),
            new_extent != old(self).spec_extent() ==> {
                &&& final(self).cache_ok()
                &&& final(self).spec_extent() == new_extent
                &&& final(self).spec_projection() == old(self).spec_projection()
                &&& final(self).spec_location() == old(self).spec_location()
                &&& final(self).spec_matrices().view == old(self).spec_matrices().view
                &&& forall|i: int, j: int|
                    0 <= i < 4 && 0 <= j < 4 ==> #[trigger] me(
                        final(self).spec_matrices().projection,
                        i,
                        j,
                    ) == spec_cam_proj_entry(
                        old(self).spec_projection().size,
                        new_extent.w as int,
                        new_extent.h as int,
                        old(self).spec_projection().near as int,
                        old(self).spec_projection().far as int,
                        i,
                        j,
                    )
            },
    {
        if self.extent.w == new_extent.w && self.extent.h == new_extent.h {
            return ;
        }
        self.extent = new_extent;
        self.refresh_projection();
    }

    /// Point the camera: eye at `location`, looking at `at`, with
    /// `approx_up` fixing the roll. Rebuilds the view matrix and the
    /// view-projection product; the stored basis is read back off the view
    /// matrix columns, the direction negated.
    #[verifier::rlimit(100)]
    pub fn set(&mut self, location: Vec3, at: Vec3, approx_up: Vec3)
        requires
            old(self).wf(),
            v3_in(location, 0x3fff_ffff),
            v3_in(at, 0x3fff_ffff),
            v3_in(approx_up, 0x3fff_ffff),
            spec_dot3(spec_sub3(at, location), spec_sub3(at, location)) >= 1,
            v3_in(spec_look_dir(location, at), 0x3fff_ffff),
            spec_dot3(
                spec_cross(spec_look_dir(location, at), approx_up),
                spec_cross(spec_look_dir(location, at), approx_up),
            ) >= 1,
            v3_in(spec_cross(spec_look_dir(location, at), approx_up), 0x7fff_ffff),
            v3_in(spec_look_right(location, at, approx_up), 0x3fff_ffff),
            spec_dot3(
                spec_cross(spec_look_right(location, at, approx_up), spec_look_dir(location, at)),
                spec_cross(spec_look_right(location, at, approx_up), spec_look_dir(location, at)),
            ) >= 1,
            v3_in(
                spec_cross(spec_look_right(location, at, approx_up), spec_look_dir(location, at)),
                0x7fff_ffff,
            ),
            v3_in(spec_look_up(location, at, approx_up), 0x3fff_ffff),
            fix_abs(spec_dot3(location, spec_look_right(location, at, approx_up))) <= MAT_LIMIT as int,
            fix_abs(spec_dot3(location, spec_look_up(location, at, approx_up))) <= MAT_LIMIT as int,
            fix_abs(spec_dot3(location, spec_look_dir(location, at))) <= MAT_LIMIT as int,
        ensures
            final(self).wf(),
            final(self).cache_ok(),
            final(self).spec_projection() == old(self).spec_projection(),
            final(self).spec_extent() == old(self).spec_extent(),
            final(self).spec_matrices().projection == old(self).spec_matrices().projection,
            final(self).spec_location().location == location,
            final(self).spec_location().at == at,
            final(self).spec_location().direction == spec_look_dir(location, at),
            final(self).spec_location().right == spec_look_right(location, at, approx_up),
            final(self).spec_location().up == spec_look_up(location, at, approx_up),
            ({
                let dir = spec_look_dir(location, at);
                let right = spec_look_right(location, at, approx_up);
                let up = spec_look_up(location, at, approx_up);
                let v = final(self).spec_matrices().view;
                me(v, 0, 0) == right.x && me(v, 1, 0) == right.y && me(v, 2, 0) == right.z && me(
                    v,
                    0,
                    1,
                ) == up.x && me(v, 1, 1) == up.y && me(v, 2, 1) == up.z && me(v, 0, 2) == -dir.x
                    && me(v, 1, 2) == -dir.y && me(v, 2, 2) == -dir.z && me(v, 3, 0)
                    == -spec_dot3(location, right) && me(v, 3, 1) == -spec_dot3(location, up) && me(
                    v,
                    3,
                    2,
                ) == spec_dot3(location, dir) && me(v, 3, 3) == 65536
            }),
    {
        let view = Mat4x4::look_at(location, at, approx_up);
        let dir = at.sub(&location).normalized();
        let right0 = dir.cross(&approx_up);
        let right = right0.normalized();
        let up0 = right.cross(&dir);
        let up = up0.normalized();
        proof {
            assert(dir == spec_look_dir(location, at));
            assert(right == spec_look_right(location, at, approx_up));
            assert(up == spec_look_up(location, at, approx_up));
            assert forall|i: int, j: int| 0 <= i < 4 && 0 <= j < 4 implies fix_abs(
                #[trigger] me(view, i, j),
            ) <= MAT_LIMIT as int by {
            }
        }
        self.location.right = right;
        self.location.up = up;
        self.location.direction = dir;
        self.location.location = location;
        self.location.at = at;
        self.matrices.view = view;
        let vp = self.matrices.view.mul(&self.matrices.projection);
        self.matrices.view_projection = vp;
    }
}

/// How the projection extents scale with the window aspect ratio: a window
/// wider than tall widens the horizontal extent by `width / height` and
/// keeps the vertical one; a window at most as wide keeps the horizontal
/// extent and widens the vertical one by `height / width`.
pub proof fn lemma_projection_aspect(size: Vec2, w: int, h: int)
    ensures
        w > h ==> spec_proj_w(size, w, h) == spec_fix_mul(size.x as int, spec_fix_div(w, h))
            && spec_proj_h(size, w, h) == size.y as int,
        w <= h ==> spec_proj_w(size, w, h) == size.x as int && spec_proj_h(size, w, h)
            == spec_fix_mul(size.y as int, spec_fix_div(h, w)),
{
}

} // verus!
