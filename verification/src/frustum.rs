//! Culling planes and frusta. Planes are kept exactly as the view-projection
//! rows combine, without normalization: every predicate below compares a
//! plane metric against zero or against a radius measured with the same
//! normal, so a common positive factor on a plane never changes a decision.

use vstd::prelude::*;
use crate::geom::{Vec3i, bounded, striple, t_dot, t_absdot, iabs, dot, absdot, wabs};
use crate::matrix::{Mat4i, mat_bounded};
use crate::volume::{BoundingVolume, vol_bounded, spec_radius_on, GEOM_LIMIT};

verus! {

/// A plane n . x + d >= 0, with the normal pointing inward.
#[derive(Clone, Copy, Debug, PartialEq, Eq, Structural)]
pub struct Plane {
    pub normal: Vec3i,
    pub d: i64,
}

/// The signed plane metric of a point: n . x + d.
pub open spec fn spec_plane_metric(p: Plane, x: (int, int, int)) -> int {
    t_dot(striple(p.normal), x) + p.d
}

/// The plane wholly rejects the volume: even the corner that reaches
/// furthest along the inward normal stays outside.
pub open spec fn spec_rejects(p: Plane, b: BoundingVolume) -> bool {
    spec_plane_metric(p, striple(b.center)) + spec_radius_on(striple(p.normal), b) < 0
}

/// Rejection with the looser componentwise radius, as the six-plane helper
/// measures it.
pub open spec fn spec_rejects_abs(p: Plane, b: BoundingVolume) -> bool {
    spec_plane_metric(p, striple(b.center)) + t_absdot(striple(p.normal), striple(b.x_axis))
        + t_absdot(striple(p.normal), striple(b.y_axis))
        + t_absdot(striple(p.normal), striple(b.z_axis)) < 0
}

/// Row three plus row k of a view-projection matrix, as a plane.
pub open spec fn spec_row_sum(m: Mat4i, k: int) -> Plane
    recommends
        0 <= k < 3,
{
    if k == 0 {
        Plane {
            normal: Vec3i {
                x: (m.c0r3 + m.c0r0) as i64,
                y: (m.c1r3 + m.c1r0) as i64,
                z: (m.c2r3 + m.c2r0) as i64,
            },
            d: (m.c3r3 + m.c3r0) as i64,
        }
    } else if k == 1 {
        Plane {
            normal: Vec3i {
                x: (m.c0r3 + m.c0r1) as i64,
                y: (m.c1r3 + m.c1r1) as i64,
                z: (m.c2r3 + m.c2r1) as i64,
            },
            d: (m.c3r3 + m.c3r1) as i64,
        }
    } else {
        Plane {
            normal: Vec3i {
                x: (m.c0r3 + m.c0r2) as i64,
                y: (m.c1r3 + m.c1r2) as i64,
                z: (m.c2r3 + m.c2r2) as i64,
            },
            d: (m.c3r3 + m.c3r2) as i64,
        }
    }
}

/// Row three minus row k of a view-projection matrix, as a plane.
pub open spec fn spec_row_diff(m: Mat4i, k: int) -> Plane
    recommends
        0 <= k < 3,
{
    if k == 0 {
        Plane {
            normal: Vec3i {
                x: (m.c0r3 - m.c0r0) as i64,
                y: (m.c1r3 - m.c1r0) as i64,
                z: (m.c2r3 - m.c2r0) as i64,
            },
            d: (m.c3r3 - m.c3r0) as i64,
        }
    } else if k == 1 {
        Plane {
            normal: Vec3i {
                x: (m.c0r3 - m.c0r1) as i64,
                y: (m.c1r3 - m.c1r1) as i64,
                z: (m.c2r3 - m.c2r1) as i64,
            },
            d: (m.c3r3 - m.c3r1) as i64,
        }
    } else {
        Plane {
            normal: Vec3i {
                x: (m.c0r3 - m.c0r2) as i64,
                y: (m.c1r3 - m.c1r2) as i64,
                z: (m.c2r3 - m.c2r2) as i64,
            },
            d: (m.c3r3 - m.c3r2) as i64,
        }
    }
}

/// The far plane that replaces the matrix one for a globe viewer: through
/// the world origin, inward normal toward the camera, so that the opposite
/// hemisphere is discarded. A camera at the origin leaves the positive-z
/// half, as the matrix-free fallback.
pub open spec fn spec_origin_far_plane(cam: Vec3i) -> Plane {
    if cam.x == 0 && cam.y == 0 && cam.z == 0 {
        Plane { normal: Vec3i { x: 0, y: 0, z: 1 }, d: 0 }
    } else {
        Plane { normal: cam, d: 0 }
    }
}

impl Plane {
    /// A plane from its normal and signed offset.
    pub fn new2(normal: Vec3i, distance: i64) -> (r: Plane)
        ensures
            r.normal == normal && r.d == distance,
    {
        Plane { normal, d: distance }
    }

    /// The plane through a point with the given normal.
    pub fn new(point: Vec3i, normal: Vec3i) -> (r: Plane)
        requires
            bounded(point, GEOM_LIMIT as int),
            bounded(normal, GEOM_LIMIT as int),
        ensures
            r.normal == normal,
            r.d == -t_dot(striple(normal), striple(point)),
    {
        proof {
            crate::volume::lemma_tdot_bound(
                striple(normal),
                striple(point),
                GEOM_LIMIT as int,
                GEOM_LIMIT as int,
            );
        }
        let s = dot(&normal, &point);
        Plane { normal, d: -(s as i64) }
    }

    /// The signed metric n . p + d.
    pub fn get_point_distance(&self, point: &Vec3i) -> (r: i128)
        requires
            bounded(self.normal, 0x2000_0000_0000_0000),
            bounded(*point, 0x2000_0000_0000_0000),
        ensures
            r == spec_plane_metric(*self, striple(*point)),
    {
        proof {
            crate::volume::lemma_tdot_bound(
                striple(self.normal),
                striple(*point),
                0x2000_0000_0000_0000,
                0x2000_0000_0000_0000,
            );
        }
        dot(&self.normal, point) + (self.d as i128)
    }

    /// True when this plane alone proves the volume invisible.
    pub fn rejects(&self, b: &BoundingVolume) -> (r: bool)
        requires
            bounded(self.normal, 0x1000_0000_0000_0000),
            vol_bounded(*b, GEOM_LIMIT as int),
        ensures
            r == spec_rejects(*self, *b),
    {
        proof {
            let mn: int = 0x1000_0000_0000_0000;
            let g = GEOM_LIMIT as int;
            crate::volume::lemma_tdot_bound(striple(self.normal), striple(b.center), mn, g);
            crate::volume::lemma_tdot_bound(striple(self.normal), striple(b.x_axis), mn, g);
            crate::volume::lemma_tdot_bound(striple(self.normal), striple(b.y_axis), mn, g);
            crate::volume::lemma_tdot_bound(striple(self.normal), striple(b.z_axis), mn, g);
        }
        let s = dot(&self.normal, &b.center) + (self.d as i128);
        let r = wabs(dot(&self.normal, &b.x_axis)) + wabs(dot(&self.normal, &b.y_axis))
            + wabs(dot(&self.normal, &b.z_axis));
        s + r < 0
    }
}

/// The five culling planes of a view: left, right, bottom, top and far.
/// The near plane of the matrix is dropped; for a globe viewer the far
/// plane is replaced by one through the origin.
#[derive(Clone, Copy, Debug, PartialEq, Eq, Structural)]
pub struct Frustum {
    pub left: Plane,
    pub right: Plane,
    pub bottom: Plane,
    pub top: Plane,
    pub far: Plane,
}

/// Magnitude bound on every plane normal of a frustum.
pub open spec fn frustum_bounded(f: Frustum, m: int) -> bool {
    bounded(f.left.normal, m) && bounded(f.right.normal, m) && bounded(f.bottom.normal, m)
        && bounded(f.top.normal, m) && bounded(f.far.normal, m)
}

/// No plane of the frustum wholly rejects the volume.
pub open spec fn spec_intersects_frustum(b: BoundingVolume, f: Frustum) -> bool {
    !spec_rejects(f.left, b) && !spec_rejects(f.right, b) && !spec_rejects(f.bottom, b)
        && !spec_rejects(f.top, b) && !spec_rejects(f.far, b)
}

impl Frustum {
    /// The five planes a view-projection matrix carries, unnormalized:
    /// left and bottom are row sums, right, top and far are row differences.
    pub fn from_view_proj(vp: &Mat4i) -> (r: Frustum)
        requires
            mat_bounded(*vp, 0x2000_0000_0000_0000),
        ensures
            r.left == spec_row_sum(*vp, 0),
            r.right == spec_row_diff(*vp, 0),
            r.bottom == spec_row_sum(*vp, 1),
            r.top == spec_row_diff(*vp, 1),
            r.far == spec_row_diff(*vp, 2),
    {
        Frustum {
            left: Plane {
                normal: Vec3i {
                    x: vp.c0r3 + vp.c0r0,
                    y: vp.c1r3 + vp.c1r0,
                    z: vp.c2r3 + vp.c2r0,
                },
                d: vp.c3r3 + vp.c3r0,
            },
            right: Plane {
                normal: Vec3i {
                    x: vp.c0r3 - vp.c0r0,
                    y: vp.c1r3 - vp.c1r0,
                    z: vp.c2r3 - vp.c2r0,
                },
                d: vp.c3r3 - vp.c3r0,
            },
            bottom: Plane {
                normal: Vec3i {
                    x: vp.c0r3 + vp.c0r1,
                    y: vp.c1r3 + vp.c1r1,
                    z: vp.c2r3 + vp.c2r1,
                },
                d: vp.c3r3 + vp.c3r1,
            },
            top: Plane {
                normal: Vec3i {
                    x: vp.c0r3 - vp.c0r1,
                    y: vp.c1r3 - vp.c1r1,
                    z: vp.c2r3 - vp.c2r1,
                },
                d: vp.c3r3 - vp.c3r1,
            },
            far: Plane {
                normal: Vec3i {
                    x: vp.c0r3 - vp.c0r2,
                    y: vp.c1r3 - vp.c1r2,
                    z: vp.c2r3 - vp.c2r2,
                },
                d: vp.c3r3 - vp.c3r2,
            },
        }
    }

    /// As from_view_proj, but the far plane passes through the world origin
    /// with its inward normal toward the camera.
    pub fn from_view_proj_with_origin_far(vp: &Mat4i, camera_pos: Vec3i) -> (r: Frustum)
        requires
            mat_bounded(*vp, 0x2000_0000_0000_0000),
        ensures
            r.left == spec_row_sum(*vp, 0),
            r.right == spec_row_diff(*vp, 0),
            r.bottom == spec_row_sum(*vp, 1),
            r.top == spec_row_diff(*vp, 1),
            r.far == spec_origin_far_plane(camera_pos),
    {
        let mut f = Frustum::from_view_proj(vp);
        let n = if camera_pos.x == 0 && camera_pos.y == 0 && camera_pos.z == 0 {
            Vec3i { x: 0, y: 0, z: 1 }
        } else {
            camera_pos
        };
        f.far = Plane { normal: n, d: 0 };
        f
    }
}

impl BoundingVolume {
    /// Frustum culling: true when no plane of the frustum proves the volume
    /// wholly outside, so some part of it may be inside the view.
    pub fn intersects_frustum(&self, frustum: &Frustum) -> (r: bool)
        requires
            frustum_bounded(*frustum, 0x1000_0000_0000_0000),
            vol_bounded(*self, GEOM_LIMIT as int),
        ensures
            r == spec_intersects_frustum(*self, *frustum),
    {
        if frustum.left.rejects(self) {
            return false;
        }
        if frustum.right.rejects(self) {
            return false;
        }
        if frustum.bottom.rejects(self) {
            return false;
        }
        if frustum.top.rejects(self) {
            return false;
        }
        if frustum.far.rejects(self) {
            return false;
        }
        true
    }
}

/// The six unnormalized planes a view-projection matrix carries: left,
/// right, bottom, top, near and far.
#[derive(Clone, Copy, Debug, PartialEq, Eq, Structural)]
pub struct Planes6 {
    pub left: Plane,
    pub right: Plane,
    pub bottom: Plane,
    pub top: Plane,
    pub near: Plane,
    pub far: Plane,
}

/// Extracts all six planes of a view-projection matrix, unnormalized.
pub fn extract_planes(m: &Mat4i) -> (r: Planes6)
    requires
        mat_bounded(*m, 0x2000_0000_0000_0000),
    ensures
        r.left == spec_row_sum(*m, 0),
        r.right == spec_row_diff(*m, 0),
        r.bottom == spec_row_sum(*m, 1),
        r.top == spec_row_diff(*m, 1),
        r.near == spec_row_sum(*m, 2),
        r.far == spec_row_diff(*m, 2),
{
    let f = Frustum::from_view_proj(m);
    Planes6 {
        left: f.left,
        right: f.right,
        bottom: f.bottom,
        top: f.top,
        near: Plane {
            normal: Vec3i {
                x: m.c0r3 + m.c0r2,
                y: m.c1r3 + m.c1r2,
                z: m.c2r3 + m.c2r2,
            },
            d: m.c3r3 + m.c3r2,
        },
        far: f.far,
    }
}

/// No plane of the six rejects the volume under the componentwise radius.
pub open spec fn spec_obb_in_planes(p: Planes6, b: BoundingVolume) -> bool {
    !spec_rejects_abs(p.left, b) && !spec_rejects_abs(p.right, b) && !spec_rejects_abs(p.bottom, b)
        && !spec_rejects_abs(p.top, b) && !spec_rejects_abs(p.near, b) && !spec_rejects_abs(
        p.far,
        b,
    )
}

/// One plane's componentwise-radius rejection test.
fn plane_rejects_abs(p: &Plane, obb: &BoundingVolume) -> (r: bool)
    requires
        bounded(p.normal, 0x1000_0000_0000_0000),
        vol_bounded(*obb, GEOM_LIMIT as int),
    ensures
        r == spec_rejects_abs(*p, *obb),
{
    proof {
        let mn: int = 0x1000_0000_0000_0000;
        let g = GEOM_LIMIT as int;
        crate::volume::lemma_tdot_bound(striple(p.normal), striple(obb.center), mn, g);
    }
    let r = absdot(&p.normal, &obb.x_axis) + absdot(&p.normal, &obb.y_axis)
        + absdot(&p.normal, &obb.z_axis);
    let d = dot(&p.normal, &obb.center) + (p.d as i128);
    d + r < 0
}

/// Six-plane culling with the componentwise radius: true when no plane
/// rejects the volume.
pub fn obb_in_frustum(planes: &Planes6, obb: &BoundingVolume) -> (r: bool)
    requires
        bounded(planes.left.normal, 0x1000_0000_0000_0000),
        bounded(planes.right.normal, 0x1000_0000_0000_0000),
        bounded(planes.bottom.normal, 0x1000_0000_0000_0000),
        bounded(planes.top.normal, 0x1000_0000_0000_0000),
        bounded(planes.near.normal, 0x1000_0000_0000_0000),
        bounded(planes.far.normal, 0x1000_0000_0000_0000),
        vol_bounded(*obb, GEOM_LIMIT as int),
    ensures
        r == spec_obb_in_planes(*planes, *obb),
{
    if plane_rejects_abs(&planes.left, obb) {
        return false;
    }
    if plane_rejects_abs(&planes.right, obb) {
        return false;
    }
    if plane_rejects_abs(&planes.bottom, obb) {
        return false;
    }
    if plane_rejects_abs(&planes.top, obb) {
        return false;
    }
    if plane_rejects_abs(&planes.near, obb) {
        return false;
    }
    if plane_rejects_abs(&planes.far, obb) {
        return false;
    }
    true
}

} // verus!
