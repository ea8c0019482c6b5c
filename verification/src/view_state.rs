//! The per-frame view: position, culling planes and projection, with the
//! screen-space-error test that decides whether a tile is fine enough for
//! the current camera, and the point-to-box distance that feeds it.
//!
//! The error test is a comparison of exact integer rationals: a tile with
//! geometric error e at distance d meets the error budget when the height
//! e would project to on screen stays under sixteen pixels. No square root
//! or division ever decides; cross-multiplied comparisons do.

use vstd::prelude::*;
use crate::geom::{
    Vec3i, bounded, striple, t_dot, t_cross, iabs, wtriple, dot, wcross, wdot, wdot2, wabs, vsub,
    isqrt, lemma_mul_bound, lemma_mul_bound2,
};
use crate::matrix::{Mat4i, mat_bounded};
use crate::frustum::{Plane, Frustum, Planes6, spec_row_sum, spec_row_diff};
use crate::volume::{GEOM_LIMIT, lemma_tdot_bound};
use vstd::arithmetic::div_mod::{lemma_div_nonincreasing, lemma_div_pos_is_pos, lemma_multiply_divide_le};

verus! {

/// Cap on projection-matrix entries admitted by the error test.
pub const PROJ_LIMIT: i64 = 0x10_0000;

/// Cap on viewport extents in pixels.
pub const VIEW_LIMIT: i64 = 0x1_0000;

/// Cap on the camera distance the error test evaluates at; greater
/// distances are treated as this one.
pub const DIST_LIMIT: i64 = 0x4_0000_0000;

/// Where a volume stands with respect to one plane.
#[derive(Clone, Copy, Debug, PartialEq, Eq, Structural)]
pub enum CullingResult {
    Outside,
    Intersecting,
    Inside,
}

/// An oriented box held as a center and three half-axis columns.
#[derive(Clone, Copy, Debug, PartialEq, Eq, Structural)]
pub struct OrientedBoundingBox {
    pub center: Vec3i,
    pub ax: Vec3i,
    pub ay: Vec3i,
    pub az: Vec3i,
}

/// Magnitude bound on every stored component of the box.
pub open spec fn obb_bounded(b: OrientedBoundingBox, m: int) -> bool {
    bounded(b.center, m) && bounded(b.ax, m) && bounded(b.ay, m) && bounded(b.az, m)
}

/// The effective radius of the box along a plane normal, measured with the
/// three half-axis columns.
pub open spec fn spec_obb_radius(b: OrientedBoundingBox, n: Vec3i) -> int {
    iabs(t_dot(striple(n), striple(b.ax))) + iabs(t_dot(striple(n), striple(b.ay))) + iabs(
        t_dot(striple(n), striple(b.az)),
    )
}

/// Three-way plane classification of the box.
pub open spec fn spec_intersect_plane(b: OrientedBoundingBox, p: Plane) -> CullingResult {
    let dist = t_dot(striple(p.normal), striple(b.center)) + p.d;
    let rad = spec_obb_radius(b, p.normal);
    if dist <= -rad {
        CullingResult::Outside
    } else if dist >= rad {
        CullingResult::Inside
    } else {
        CullingResult::Intersecting
    }
}

/// One squared-overshoot term of the point-to-box distance: zero while the
/// projection q stays within the axis (both measured against the squared
/// axis length aa), else the squared overshoot, floored by the division.
pub open spec fn spec_axis_term(q: int, aa: int) -> int {
    if aa <= 0 {
        0
    } else if iabs(q) <= aa {
        0
    } else {
        ((iabs(q) - aa) * (iabs(q) - aa)) / aa
    }
}

/// One component of a synthesized direction, scaled down toward zero.
pub open spec fn spec_shrunk1(c: int) -> int {
    if c >= 0 {
        c / 0x1_0000_0000
    } else {
        -((-c) / 0x1_0000_0000)
    }
}

/// A synthesized direction, scaled down when a component leaves the
/// working range. A direction's overall scale does not change the
/// real-valued distance term it measures, so only the integer rounding
/// differs; directions already in range are kept exactly.
pub open spec fn spec_shrunk(sv: (int, int, int)) -> (int, int, int) {
    if iabs(sv.0) <= 0x4000_0000 && iabs(sv.1) <= 0x4000_0000 && iabs(sv.2) <= 0x4000_0000 {
        sv
    } else {
        (spec_shrunk1(sv.0), spec_shrunk1(sv.1), spec_shrunk1(sv.2))
    }
}

/// The squared-distance term of a zero-extent axis substituted by the
/// direction sv: the full squared projection of the offset onto it,
/// floored by the division.
pub open spec fn spec_deg_term(sv: (int, int, int), o: (int, int, int)) -> int {
    let s2 = spec_shrunk(sv);
    let q = t_dot(s2, o);
    let aa = t_dot(s2, s2);
    if aa <= 0 {
        0
    } else {
        (q * q) / aa
    }
}

/// The substituted direction for the two-degenerate case: the world y axis,
/// unless the one valid axis is parallel to it, then the world x axis.
pub open spec fn spec_cross_helper(a: Vec3i) -> (int, int, int) {
    if t_cross(striple(a), (0int, 1int, 0int)) == (0int, 0int, 0int) {
        (1int, 0int, 0int)
    } else {
        (0int, 1int, 0int)
    }
}

/// The squared distance from a point to the box, as the sum of squared
/// overshoots along each axis. A zero axis is replaced by a synthesized
/// direction so the test stays well-defined for collapsed faces and edges.
pub open spec fn spec_dist_sq(b: OrientedBoundingBox, p: Vec3i) -> int {
    let o = (p.x - b.center.x as int, p.y - b.center.y as int, p.z - b.center.z as int);
    let aax = t_dot(striple(b.ax), striple(b.ax));
    let aay = t_dot(striple(b.ay), striple(b.ay));
    let aaz = t_dot(striple(b.az), striple(b.az));
    let xv = aax > 0;
    let yv = aay > 0;
    let zv = aaz > 0;
    if xv && yv && zv {
        spec_axis_term(t_dot(striple(b.ax), o), aax) + spec_axis_term(t_dot(striple(b.ay), o), aay)
            + spec_axis_term(t_dot(striple(b.az), o), aaz)
    } else if yv && zv {
        let s = t_cross(striple(b.ay), striple(b.az));
        spec_axis_term(t_dot(striple(b.ay), o), aay) + spec_axis_term(t_dot(striple(b.az), o), aaz)
            + spec_deg_term(s, o)
    } else if xv && zv {
        let s = t_cross(striple(b.ax), striple(b.az));
        spec_axis_term(t_dot(striple(b.ax), o), aax) + spec_axis_term(t_dot(striple(b.az), o), aaz)
            + spec_deg_term(s, o)
    } else if xv && yv {
        let s = t_cross(striple(b.ay), striple(b.ax));
        spec_axis_term(t_dot(striple(b.ax), o), aax) + spec_axis_term(t_dot(striple(b.ay), o), aay)
            + spec_deg_term(s, o)
    } else if xv || yv || zv {
        let a = if xv { b.ax } else if yv { b.ay } else { b.az };
        let aa = if xv { aax } else if yv { aay } else { aaz };
        let v2 = t_cross(striple(a), spec_cross_helper(a));
        let v3 = t_cross(striple(a), v2);
        spec_axis_term(t_dot(striple(a), o), aa) + spec_deg_term(v2, o) + spec_deg_term(v3, o)
    } else {
        spec_deg_term((1int, 0int, 0int), o) + spec_deg_term((0int, 1int, 0int), o)
            + spec_deg_term((0int, 0int, 1int), o)
    }
}

impl OrientedBoundingBox {
    pub fn new(center: Vec3i, ax: Vec3i, ay: Vec3i, az: Vec3i) -> (r: OrientedBoundingBox)
        ensures
            r == (OrientedBoundingBox { center, ax, ay, az }),
    {
        OrientedBoundingBox { center, ax, ay, az }
    }

    /// The box carried through an integer affine map: the center as a
    /// point, each half-axis column as a direction.
    pub fn transform(&self, transformation: &Mat4i) -> (r: OrientedBoundingBox)
        requires
            obb_bounded(*self, GEOM_LIMIT as int),
            mat_bounded(*transformation, XFORM_LIMIT as int),
        ensures
            striple(r.center) == spec_transform_point(*transformation, self.center),
            striple(r.ax) == spec_transform_dir(*transformation, self.ax),
            striple(r.ay) == spec_transform_dir(*transformation, self.ay),
            striple(r.az) == spec_transform_dir(*transformation, self.az),
    {
        let m = transformation;
        OrientedBoundingBox {
            center: Vec3i {
                x: row_apply(m.c0r0, m.c1r0, m.c2r0, m.c3r0, &self.center),
                y: row_apply(m.c0r1, m.c1r1, m.c2r1, m.c3r1, &self.center),
                z: row_apply(m.c0r2, m.c1r2, m.c2r2, m.c3r2, &self.center),
            },
            ax: Vec3i {
                x: row_apply(m.c0r0, m.c1r0, m.c2r0, 0, &self.ax),
                y: row_apply(m.c0r1, m.c1r1, m.c2r1, 0, &self.ax),
                z: row_apply(m.c0r2, m.c1r2, m.c2r2, 0, &self.ax),
            },
            ay: Vec3i {
                x: row_apply(m.c0r0, m.c1r0, m.c2r0, 0, &self.ay),
                y: row_apply(m.c0r1, m.c1r1, m.c2r1, 0, &self.ay),
                z: row_apply(m.c0r2, m.c1r2, m.c2r2, 0, &self.ay),
            },
            az: Vec3i {
                x: row_apply(m.c0r0, m.c1r0, m.c2r0, 0, &self.az),
                y: row_apply(m.c0r1, m.c1r1, m.c2r1, 0, &self.az),
                z: row_apply(m.c0r2, m.c1r2, m.c2r2, 0, &self.az),
            },
        }
    }

    /// Three-way classification against a plane: wholly outside, wholly
    /// inside, or intersecting it.
    pub fn intersect_plane(&self, plane: &Plane) -> (r: CullingResult)
        requires
            obb_bounded(*self, GEOM_LIMIT as int),
            bounded(plane.normal, 0x1000_0000_0000_0000),
        ensures
            r == spec_intersect_plane(*self, *plane),
    {
        proof {
            let mn: int = 0x1000_0000_0000_0000;
            let g = GEOM_LIMIT as int;
            lemma_tdot_bound(striple(plane.normal), striple(self.center), mn, g);
            lemma_tdot_bound(striple(plane.normal), striple(self.ax), mn, g);
            lemma_tdot_bound(striple(plane.normal), striple(self.ay), mn, g);
            lemma_tdot_bound(striple(plane.normal), striple(self.az), mn, g);
        }
        let rad = wabs(dot(&plane.normal, &self.ax)) + wabs(dot(&plane.normal, &self.ay))
            + wabs(dot(&plane.normal, &self.az));
        let dist = dot(&plane.normal, &self.center) + (plane.d as i128);
        if dist <= -rad {
            CullingResult::Outside
        } else if dist >= rad {
            CullingResult::Inside
        } else {
            CullingResult::Intersecting
        }
    }
}

/// One squared-overshoot term, exactly as spec_axis_term floors it.
fn axis_term(q: i128, aa: i128) -> (r: i128)
    requires
        aa <= 0x3000_0000_0000_0000_0000,
        -0x6000_0000_0000_0000 <= q <= 0x6000_0000_0000_0000,
    ensures
        r == spec_axis_term(q as int, aa as int),
        0 <= r <= 0x2400_0000_0000_0000_0000_0000_0000_0000,
{
    if aa <= 0 {
        0
    } else {
        let qa = wabs(q);
        if qa <= aa {
            0
        } else {
            let diff: u128 = (qa - aa) as u128;
            proof {
                lemma_mul_bound(diff as int, diff as int, 0x6000_0000_0000_0000);
            }
            let sq: u128 = diff * diff;
            proof {
                lemma_div_pos_is_pos(sq as int, aa as int);
                lemma_div_nonincreasing(sq as int, aa as int);
            }
            (sq / (aa as u128)) as i128
        }
    }
}

/// One component of a synthesized direction, scaled down toward zero,
/// exactly as spec_shrunk1 floors it.
fn shrink1(c: i128) -> (r: i128)
    requires
        -0x4000_0000_0000_0000 <= c <= 0x4000_0000_0000_0000,
    ensures
        r == spec_shrunk1(c as int),
        -0x4000_0000 <= r <= 0x4000_0000,
{
    if c >= 0 {
        proof {
            lemma_div_pos_is_pos(c as int, 0x1_0000_0000);
            lemma_multiply_divide_le(c as int, 0x1_0000_0000, 0x4000_0000);
        }
        ((c as u128) / 0x1_0000_0000) as i128
    } else {
        proof {
            lemma_div_pos_is_pos((-c) as int, 0x1_0000_0000);
            lemma_multiply_divide_le((-c) as int, 0x1_0000_0000, 0x4000_0000);
        }
        -((((-c) as u128) / 0x1_0000_0000) as i128)
    }
}

/// One substituted-axis term, exactly as spec_deg_term scales and floors it.
fn deg_term(sv: (i128, i128, i128), o: &Vec3i) -> (r: i128)
    requires
        -0x4000_0000_0000_0000 <= sv.0 <= 0x4000_0000_0000_0000,
        -0x4000_0000_0000_0000 <= sv.1 <= 0x4000_0000_0000_0000,
        -0x4000_0000_0000_0000 <= sv.2 <= 0x4000_0000_0000_0000,
        bounded(*o, 0x1_0000_0000),
    ensures
        r == spec_deg_term(wtriple(sv), striple(*o)),
        0 <= r <= 0x9_0000_0000_0000_0000,
{
    let within = -0x4000_0000 <= sv.0 && sv.0 <= 0x4000_0000 && -0x4000_0000 <= sv.1 && sv.1
        <= 0x4000_0000 && -0x4000_0000 <= sv.2 && sv.2 <= 0x4000_0000;
    let s2: (i128, i128, i128) = if within {
        sv
    } else {
        (shrink1(sv.0), shrink1(sv.1), shrink1(sv.2))
    };
    proof {
        assert(wtriple(s2) == spec_shrunk(wtriple(sv)));
    }
    let q = wdot(s2, o);
    let aa = wdot2(s2, s2);
    if aa <= 0 {
        0
    } else {
        proof {
            let s0 = s2.0 as int;
            let s1 = s2.1 as int;
            let s2c = s2.2 as int;
            let o0 = o.x as int;
            let o1 = o.y as int;
            let o2 = o.z as int;
            let m: int = if iabs(s0) >= iabs(s1) && iabs(s0) >= iabs(s2c) {
                iabs(s0)
            } else if iabs(s1) >= iabs(s2c) {
                iabs(s1)
            } else {
                iabs(s2c)
            };
            assert(m * m <= s0 * s0 + s1 * s1 + s2c * s2c) by (nonlinear_arith)
                requires
                    (m == iabs(s0) || m == iabs(s1) || m == iabs(s2c)),
                    iabs(s0) <= m && iabs(s1) <= m && iabs(s2c) <= m,
            ;
            assert(iabs(s0 * o0 + s1 * o1 + s2c * o2) <= 3 * (0x1_0000_0000 * m))
                by (nonlinear_arith)
                requires
                    iabs(s0) <= m && iabs(s1) <= m && iabs(s2c) <= m,
                    0 <= m,
                    -0x1_0000_0000 <= o0 <= 0x1_0000_0000,
                    -0x1_0000_0000 <= o1 <= 0x1_0000_0000,
                    -0x1_0000_0000 <= o2 <= 0x1_0000_0000,
            ;
            assert((q as int) * (q as int) <= (aa as int) * 0x9_0000_0000_0000_0000)
                by (nonlinear_arith)
                requires
                    iabs(q as int) <= 3 * (0x1_0000_0000 * m),
                    m * m <= aa as int,
                    0 <= m,
            ;
        }
        let qa: u128 = wabs(q) as u128;
        proof {
            assert((qa as int) * (qa as int) == (q as int) * (q as int)) by (nonlinear_arith)
                requires
                    qa as int == iabs(q as int),
            ;
            assert(qa * qa <= u128::MAX) by (nonlinear_arith)
                requires
                    qa <= 0xc000_0000_0000_0000u128,
            ;
        }
        let sq: u128 = qa * qa;
        proof {
            lemma_div_pos_is_pos(sq as int, aa as int);
            lemma_multiply_divide_le(sq as int, aa as int, 0x9_0000_0000_0000_0000);
        }
        (sq / (aa as u128)) as i128
    }
}

impl OrientedBoundingBox {
    /// The squared distance from the position to this box, as the sum of
    /// the squared overshoots that spec_dist_sq fixes.
    pub fn compute_distance_squared_to_position(&self, position: &Vec3i) -> (r: i128)
        requires
            obb_bounded(*self, GEOM_LIMIT as int),
            bounded(*position, GEOM_LIMIT as int),
        ensures
            r == spec_dist_sq(*self, *position),
            0 <= r,
    {
        let o = vsub(position, &self.center);
        proof {
            let g = GEOM_LIMIT as int;
            lemma_tdot_bound(striple(self.ax), striple(self.ax), g, g);
            lemma_tdot_bound(striple(self.ay), striple(self.ay), g, g);
            lemma_tdot_bound(striple(self.az), striple(self.az), g, g);
            lemma_tdot_bound(striple(self.ax), striple(o), g, 2 * g);
            lemma_tdot_bound(striple(self.ay), striple(o), g, 2 * g);
            lemma_tdot_bound(striple(self.az), striple(o), g, 2 * g);
        }
        let aax = dot(&self.ax, &self.ax);
        let aay = dot(&self.ay, &self.ay);
        let aaz = dot(&self.az, &self.az);
        let xv = aax > 0;
        let yv = aay > 0;
        let zv = aaz > 0;
        if xv && yv && zv {
            axis_term(dot(&self.ax, &o), aax) + axis_term(dot(&self.ay, &o), aay) + axis_term(
                dot(&self.az, &o),
                aaz,
            )
        } else if yv && zv {
            let s = wcross(&self.ay, &self.az);
            proof {
                lemma_tcross_small(self.ay, self.az);
            }
            axis_term(dot(&self.ay, &o), aay) + axis_term(dot(&self.az, &o), aaz) + deg_term(
                s,
                &o,
            )
        } else if xv && zv {
            let s = wcross(&self.ax, &self.az);
            proof {
                lemma_tcross_small(self.ax, self.az);
            }
            axis_term(dot(&self.ax, &o), aax) + axis_term(dot(&self.az, &o), aaz) + deg_term(
                s,
                &o,
            )
        } else if xv && yv {
            let s = wcross(&self.ay, &self.ax);
            proof {
                lemma_tcross_small(self.ay, self.ax);
            }
            axis_term(dot(&self.ax, &o), aax) + axis_term(dot(&self.ay, &o), aay) + deg_term(
                s,
                &o,
            )
        } else if xv || yv || zv {
            let a = if xv {
                self.ax
            } else if yv {
                self.ay
            } else {
                self.az
            };
            let aa = if xv {
                aax
            } else if yv {
                aay
            } else {
                aaz
            };
            let cy = wcross(&a, &Vec3i { x: 0, y: 1, z: 0 });
            let helper = if cy.0 == 0 && cy.1 == 0 && cy.2 == 0 {
                Vec3i { x: 1, y: 0, z: 0 }
            } else {
                Vec3i { x: 0, y: 1, z: 0 }
            };
            proof {
                crate::volume::lemma_tcross_bound(
                    striple(a),
                    striple(helper),
                    GEOM_LIMIT as int,
                    1,
                );
            }
            let v2w = wcross(&a, &helper);
            let v2 = Vec3i { x: v2w.0 as i64, y: v2w.1 as i64, z: v2w.2 as i64 };
            proof {
                assert(striple(v2) == t_cross(striple(a), spec_cross_helper(a)));
                lemma_tcross_small(a, v2);
                lemma_tdot_bound(striple(v2), striple(v2), 0x8000_0000, 0x8000_0000);
            }
            let v3 = wcross(&a, &v2);
            axis_term(dot(&a, &o), aa) + deg_term(
                (v2.x as i128, v2.y as i128, v2.z as i128),
                &o,
            ) + deg_term(v3, &o)
        } else {
            deg_term((1, 0, 0), &o) + deg_term((0, 1, 0), &o) + deg_term((0, 0, 1), &o)
        }
    }
}

/// The cross product of two admissible geometry vectors stays within the
/// working range of the widened dot products.
proof fn lemma_tcross_small(a: Vec3i, b: Vec3i)
    requires
        bounded(a, 0x4000_0000),
        bounded(b, 0x8000_0000),
    ensures
        iabs(t_cross(striple(a), striple(b)).0) <= 0x4000_0000_0000_0000,
        iabs(t_cross(striple(a), striple(b)).1) <= 0x4000_0000_0000_0000,
        iabs(t_cross(striple(a), striple(b)).2) <= 0x4000_0000_0000_0000,
{
    crate::volume::lemma_tcross_bound(striple(a), striple(b), 0x4000_0000, 0x8000_0000);
    assert(2 * (0x4000_0000 * 0x8000_0000int) == 0x4000_0000_0000_0000);
}

/// Cap on the entries of an integer affine transform applied to a box.
pub const XFORM_LIMIT: i64 = 0x8000;

/// Where an affine matrix sends a point: the upper three rows applied to
/// (x, y, z, 1).
pub open spec fn spec_transform_point(m: Mat4i, v: Vec3i) -> (int, int, int) {
    (
        m.c0r0 * v.x + m.c1r0 * v.y + m.c2r0 * v.z + m.c3r0,
        m.c0r1 * v.x + m.c1r1 * v.y + m.c2r1 * v.z + m.c3r1,
        m.c0r2 * v.x + m.c1r2 * v.y + m.c2r2 * v.z + m.c3r2,
    )
}

/// Where an affine matrix sends a direction: the upper-left block applied
/// to (x, y, z).
pub open spec fn spec_transform_dir(m: Mat4i, v: Vec3i) -> (int, int, int) {
    (
        m.c0r0 * v.x + m.c1r0 * v.y + m.c2r0 * v.z,
        m.c0r1 * v.x + m.c1r1 * v.y + m.c2r1 * v.z,
        m.c0r2 * v.x + m.c1r2 * v.y + m.c2r2 * v.z,
    )
}

/// One row of an affine application, exact in 128 bits and back.
fn row_apply(a: i64, b: i64, c: i64, d: i64, v: &Vec3i) -> (r: i64)
    requires
        -XFORM_LIMIT <= a <= XFORM_LIMIT,
        -XFORM_LIMIT <= b <= XFORM_LIMIT,
        -XFORM_LIMIT <= c <= XFORM_LIMIT,
        -XFORM_LIMIT <= d <= XFORM_LIMIT,
        bounded(*v, GEOM_LIMIT as int),
    ensures
        r == a * v.x + b * v.y + c * v.z + d,
{
    proof {
        lemma_mul_bound2(a as int, v.x as int, XFORM_LIMIT as int, GEOM_LIMIT as int);
        lemma_mul_bound2(b as int, v.y as int, XFORM_LIMIT as int, GEOM_LIMIT as int);
        lemma_mul_bound2(c as int, v.z as int, XFORM_LIMIT as int, GEOM_LIMIT as int);
    }
    let s: i128 = (a as i128) * (v.x as i128) + (b as i128) * (v.y as i128) + (c as i128) * (
    v.z as i128) + (d as i128);
    s as i64
}

/// The four side planes of a clip matrix, used for culling without near
/// and far bounds.
#[derive(Clone, Copy, Debug, PartialEq, Eq, Structural)]
pub struct CullingVolume {
    pub left_plane: Plane,
    pub right_plane: Plane,
    pub top_plane: Plane,
    pub bottom_plane: Plane,
}

impl CullingVolume {
    /// The four side planes a clip matrix carries, unnormalized.
    pub fn new_matrix(clip_matrix: &Mat4i) -> (r: CullingVolume)
        requires
            mat_bounded(*clip_matrix, 0x2000_0000_0000_0000),
        ensures
            r.left_plane == spec_row_sum(*clip_matrix, 0),
            r.right_plane == spec_row_diff(*clip_matrix, 0),
            r.bottom_plane == spec_row_diff(*clip_matrix, 1),
            r.top_plane == spec_row_sum(*clip_matrix, 1),
    {
        CullingVolume {
            left_plane: Plane {
                normal: Vec3i {
                    x: clip_matrix.c0r3 + clip_matrix.c0r0,
                    y: clip_matrix.c1r3 + clip_matrix.c1r0,
                    z: clip_matrix.c2r3 + clip_matrix.c2r0,
                },
                d: clip_matrix.c3r3 + clip_matrix.c3r0,
            },
            right_plane: Plane {
                normal: Vec3i {
                    x: clip_matrix.c0r3 - clip_matrix.c0r0,
                    y: clip_matrix.c1r3 - clip_matrix.c1r0,
                    z: clip_matrix.c2r3 - clip_matrix.c2r0,
                },
                d: clip_matrix.c3r3 - clip_matrix.c3r0,
            },
            bottom_plane: Plane {
                normal: Vec3i {
                    x: clip_matrix.c0r3 - clip_matrix.c0r1,
                    y: clip_matrix.c1r3 - clip_matrix.c1r1,
                    z: clip_matrix.c2r3 - clip_matrix.c2r1,
                },
                d: clip_matrix.c3r3 - clip_matrix.c3r1,
            },
            top_plane: Plane {
                normal: Vec3i {
                    x: clip_matrix.c0r3 + clip_matrix.c0r1,
                    y: clip_matrix.c1r3 + clip_matrix.c1r1,
                    z: clip_matrix.c2r3 + clip_matrix.c2r1,
                },
                d: clip_matrix.c3r3 + clip_matrix.c3r1,
            },
        }
    }

    /// True when no side plane classifies the box as wholly outside.
    pub fn is_bounding_volume_visible(&self, b: &OrientedBoundingBox) -> (r: bool)
        requires
            obb_bounded(*b, GEOM_LIMIT as int),
            bounded(self.left_plane.normal, 0x1000_0000_0000_0000),
            bounded(self.right_plane.normal, 0x1000_0000_0000_0000),
            bounded(self.top_plane.normal, 0x1000_0000_0000_0000),
            bounded(self.bottom_plane.normal, 0x1000_0000_0000_0000),
        ensures
            r == (spec_intersect_plane(*b, self.left_plane) != CullingResult::Outside
                && spec_intersect_plane(*b, self.right_plane) != CullingResult::Outside
                && spec_intersect_plane(*b, self.top_plane) != CullingResult::Outside
                && spec_intersect_plane(*b, self.bottom_plane) != CullingResult::Outside),
    {
        if b.intersect_plane(&self.left_plane) == CullingResult::Outside {
            return false;
        }
        if b.intersect_plane(&self.right_plane) == CullingResult::Outside {
            return false;
        }
        if b.intersect_plane(&self.top_plane) == CullingResult::Outside {
            return false;
        }
        if b.intersect_plane(&self.bottom_plane) == CullingResult::Outside {
            return false;
        }
        true
    }
}

/// Everything the traversal reads of the camera each frame.
pub struct ViewState {
    /// The five culling planes with the origin far plane.
    pub frustum: Frustum,
    /// All six planes of the view-projection matrix.
    pub planes: Planes6,
    /// The camera position in world coordinates.
    pub position: Vec3i,
    /// The viewport width in pixels.
    pub viewport_w: i64,
    /// The viewport height in pixels.
    pub viewport_h: i64,
    /// The four side planes of the clip matrix.
    pub culling_volume: CullingVolume,
    /// The projection matrix alone, for the screen-space-error test.
    pub projection: Mat4i,
}

/// The y clip coordinate of the point (0, 0, -d, 1).
pub open spec fn spec_y1(m: Mat4i, d: int) -> int {
    m.c3r1 - d * m.c2r1
}

/// The w clip coordinate of the point (0, 0, -d, 1).
pub open spec fn spec_w1(m: Mat4i, d: int) -> int {
    m.c3r3 - d * m.c2r3
}

/// The y clip coordinate of the point (0, e, -d, 1).
pub open spec fn spec_y2(m: Mat4i, e: int, d: int) -> int {
    e * m.c1r1 - d * m.c2r1 + m.c3r1
}

/// The w clip coordinate of the point (0, e, -d, 1).
pub open spec fn spec_w2(m: Mat4i, e: int, d: int) -> int {
    e * m.c1r3 - d * m.c2r3 + m.c3r3
}

/// The numerator of the screen-space error: minus the on-screen offset the
/// geometric error projects to, times the viewport height in pixels.
pub open spec fn spec_sse_num(m: Mat4i, h: int, e: int, d: int) -> int {
    -(spec_y2(m, e, d) * spec_w1(m, d) - spec_y1(m, d) * spec_w2(m, e, d)) * h
}

/// The denominator of the screen-space error: twice the product of the two
/// perspective divisors.
pub open spec fn spec_sse_den(m: Mat4i, e: int, d: int) -> int {
    2 * (spec_w1(m, d) * spec_w2(m, e, d))
}

/// The error budget in pixels.
pub const MAX_SSE: i64 = 16;

/// The refinement decision at a given distance: the screen-space error,
/// an exact rational, stays under the budget. A zero divisor counts as
/// not meeting the budget, as a degenerate projection must.
pub open spec fn spec_meets_sse_at(m: Mat4i, h: int, e: int, d: int) -> bool {
    let num = spec_sse_num(m, h, e, d);
    let den = spec_sse_den(m, e, d);
    den != 0 && iabs(num) < MAX_SSE * iabs(den)
}

/// Distances are evaluated at least at one unit and at most at the cap.
pub open spec fn spec_clamp_dist(d: int) -> int {
    if d < 1 {
        1
    } else if d > DIST_LIMIT {
        DIST_LIMIT as int
    } else {
        d
    }
}

/// The floor of the square root of a nonnegative integer.
pub open spec fn spec_sqrt_floor(n: int) -> int {
    choose|r: int| 0 <= r && #[trigger] (r * r) <= n && n < (r + 1) * (r + 1)
}

/// The full refinement decision for a tile: its distance is the rounded
/// distance to its box, clamped into the working range, and the error
/// test is evaluated there.
pub open spec fn spec_does_tile_meet_sse(
    v: ViewState,
    b: OrientedBoundingBox,
    geometric_error: i64,
) -> bool {
    spec_meets_sse_at(
        v.projection,
        v.viewport_h as int,
        geometric_error as int,
        spec_clamp_dist(spec_sqrt_floor(spec_dist_sq(b, v.position))),
    )
}

/// Any value whose square brackets n is the floor square root of n.
proof fn lemma_sqrt_floor_unique(n: int, r: int)
    requires
        0 <= r,
        r * r <= n,
        n < (r + 1) * (r + 1),
    ensures
        spec_sqrt_floor(n) == r,
{
    let s = spec_sqrt_floor(n);
    assert(0 <= s && s * s <= n && n < (s + 1) * (s + 1)) by {
        assert(0 <= r && r * r <= n && n < (r + 1) * (r + 1));
    }
    assert(s == r) by (nonlinear_arith)
        requires
            0 <= r && r * r <= n && n < (r + 1) * (r + 1),
            0 <= s && s * s <= n && n < (s + 1) * (s + 1),
    ;
}

impl ViewState {
    /// The screen-space error of a tile with the given geometric error at
    /// the given distance, as an exact rational: the first value over the
    /// second. Distances under one unit are evaluated at one unit.
    pub fn compute_screen_space_error(&self, geometric_error: i64, distance: i64) -> (r: (
        i128,
        i128,
    ))
        requires
            mat_bounded(self.projection, PROJ_LIMIT as int),
            -GEOM_LIMIT <= geometric_error <= GEOM_LIMIT,
            -DIST_LIMIT <= distance <= DIST_LIMIT,
            0 <= self.viewport_h <= VIEW_LIMIT,
        ensures
            r.0 == spec_sse_num(
                self.projection,
                self.viewport_h as int,
                geometric_error as int,
                spec_clamp_dist(distance as int),
            ),
            r.1 == spec_sse_den(
                self.projection,
                geometric_error as int,
                spec_clamp_dist(distance as int),
            ),
            -0x4000_0000_0000_0000_0000_0000_0000_0000 <= r.0
                <= 0x4000_0000_0000_0000_0000_0000_0000_0000,
            -0x4000_0000_0000_0000_0000_0000_0000 <= r.1 <= 0x4000_0000_0000_0000_0000_0000_0000,
    {
        let d: i128 = if distance < 1 {
            1
        } else {
            distance as i128
        };
        let m = &self.projection;
        let ge: i128 = geometric_error as i128;
        proof {
            let pl = PROJ_LIMIT as int;
            lemma_mul_bound2(d as int, m.c2r1 as int, DIST_LIMIT as int, pl);
            lemma_mul_bound2(d as int, m.c2r3 as int, DIST_LIMIT as int, pl);
            lemma_mul_bound2(ge as int, m.c1r1 as int, GEOM_LIMIT as int, pl);
            lemma_mul_bound2(ge as int, m.c1r3 as int, GEOM_LIMIT as int, pl);
        }
        let y1: i128 = (m.c3r1 as i128) - d * (m.c2r1 as i128);
        let w1: i128 = (m.c3r3 as i128) - d * (m.c2r3 as i128);
        let y2: i128 = ge * (m.c1r1 as i128) - d * (m.c2r1 as i128) + (m.c3r1 as i128);
        let w2: i128 = ge * (m.c1r3 as i128) - d * (m.c2r3 as i128) + (m.c3r3 as i128);
        proof {
            let yw: int = 0x50_0000_0000_0000;
            lemma_mul_bound2(y2 as int, w1 as int, yw, yw);
            lemma_mul_bound2(y1 as int, w2 as int, yw, yw);
            lemma_mul_bound2(w1 as int, w2 as int, yw, yw);
        }
        let num0: i128 = y2 * w1 - y1 * w2;
        proof {
            lemma_mul_bound2(
                (-num0) as int,
                self.viewport_h as int,
                0x4000_0000_0000_0000_0000_0000_0000,
                VIEW_LIMIT as int,
            );
        }
        let num: i128 = (-num0) * (self.viewport_h as i128);
        let den: i128 = 2 * (w1 * w2);
        (num, den)
    }

    /// The refinement decision for a tile: true when its screen-space error
    /// at its distance from the camera stays under the sixteen-pixel budget.
    pub fn does_tile_meet_sse(&self, bounding: &OrientedBoundingBox, geometric_error: i64) -> (r:
        bool)
        requires
            mat_bounded(self.projection, PROJ_LIMIT as int),
            obb_bounded(*bounding, GEOM_LIMIT as int),
            bounded(self.position, GEOM_LIMIT as int),
            -GEOM_LIMIT <= geometric_error <= GEOM_LIMIT,
            0 <= self.viewport_h <= VIEW_LIMIT,
        ensures
            r == spec_does_tile_meet_sse(*self, *bounding, geometric_error),
    {
        let dist2 = bounding.compute_distance_squared_to_position(&self.position);
        let droot = isqrt(dist2 as u128);
        proof {
            lemma_sqrt_floor_unique(dist2 as int, droot as int);
        }
        let d: i64 = if droot > 0x4_0000_0000 {
            DIST_LIMIT
        } else {
            droot as i64
        };
        let (num, den) = self.compute_screen_space_error(geometric_error, d);
        den != 0 && wabs(num) < (MAX_SSE as i128) * wabs(den)
    }
}

/// The shape of a perspective projection in the entries the error test
/// reads: a positive y scale, a w row that passes the negated z through at
/// any positive fixed-point scale, and nothing else feeding y or w.
pub open spec fn spec_perspective_shape(m: Mat4i) -> bool {
    m.c1r1 > 0 && m.c2r3 < 0 && m.c2r1 == 0 && m.c3r1 == 0 && m.c1r3 == 0 && m.c3r3 == 0
}

/// Under a perspective projection the error test is the plain comparison
/// of the projected error height against the budget: the error times the
/// y scale times the pixels, against thirty-two times the distance at the
/// w-row scale.
pub proof fn lemma_sse_reduction(m: Mat4i, h: int, e: int, d: int)
    requires
        spec_perspective_shape(m),
        1 <= d,
        0 <= h,
        0 <= e,
    ensures
        spec_meets_sse_at(m, h, e, d) <==> (e * m.c1r1) * h < 32 * (d * (-m.c2r3)),
{
    let p = m.c1r1 as int;
    let q = -m.c2r3 as int;
    assert(spec_y1(m, d) == 0);
    assert(spec_w1(m, d) == d * q) by (nonlinear_arith)
        requires
            q == -m.c2r3 as int && m.c3r3 == 0 && spec_w1(m, d) == m.c3r3 - d * m.c2r3,
    ;
    assert(spec_y2(m, e, d) == e * p);
    assert(spec_w2(m, e, d) == d * q) by (nonlinear_arith)
        requires
            q == -m.c2r3 as int && m.c3r3 == 0 && m.c1r3 == 0 && spec_w2(m, e, d) == e * m.c1r3
                - d * m.c2r3 + m.c3r3,
    ;
    assert(spec_sse_num(m, h, e, d) == -((e * p) * (d * q) - 0 * (d * q)) * h);
    assert(spec_sse_den(m, e, d) == 2 * ((d * q) * (d * q)));
    assert((iabs(-((e * p) * (d * q) - 0 * (d * q)) * h) < 16 * iabs(2 * ((d * q) * (d * q)))
        && 2 * ((d * q) * (d * q)) != 0) <==> (e * p) * h < 32 * (d * q)) by (nonlinear_arith)
        requires
            1 <= d,
            0 <= h,
            0 <= e,
            0 < p,
            0 < q,
    ;
}

/// Shrinking the distance never turns a met error budget into an unmet
/// one: the decision is monotone in the distance.
pub proof fn lemma_meets_sse_monotone(m: Mat4i, h: int, e: int, d1: int, d2: int)
    requires
        spec_perspective_shape(m),
        1 <= d1 <= d2,
        0 <= h,
        0 <= e,
        spec_meets_sse_at(m, h, e, d1),
    ensures
        spec_meets_sse_at(m, h, e, d2),
{
    lemma_sse_reduction(m, h, e, d1);
    lemma_sse_reduction(m, h, e, d2);
    assert(d1 * (-m.c2r3) <= d2 * (-m.c2r3)) by (nonlinear_arith)
        requires
            d1 <= d2,
            0 < -m.c2r3 as int,
    ;
}

/// Far enough away, every tile meets the error budget: refinement halts
/// at the farthest tiles.
pub proof fn lemma_meets_sse_far(m: Mat4i, h: int, e: int, d: int)
    requires
        spec_perspective_shape(m),
        1 <= d,
        0 <= h,
        0 <= e,
        (e * m.c1r1) * h < 32 * (d * (-m.c2r3)),
    ensures
        spec_meets_sse_at(m, h, e, d),
{
    lemma_sse_reduction(m, h, e, d);
}

/// A tile without geometric error meets the budget at every distance.
pub proof fn lemma_zero_error_meets_sse(m: Mat4i, h: int, d: int)
    requires
        spec_perspective_shape(m),
        1 <= d,
        0 <= h,
    ensures
        spec_meets_sse_at(m, h, 0, d),
{
    lemma_sse_reduction(m, h, 0, d);
    assert((0 * m.c1r1) * h == 0) by (nonlinear_arith);
    assert(0 < 32 * (d * (-m.c2r3))) by (nonlinear_arith)
        requires
            1 <= d,
            0 < -m.c2r3 as int,
    ;
}

/// The full tile decision with zero geometric error is true for every box
/// and every camera position.
pub proof fn lemma_zero_error_tile_meets(v: ViewState, b: OrientedBoundingBox)
    requires
        spec_perspective_shape(v.projection),
        0 <= v.viewport_h,
    ensures
        spec_does_tile_meet_sse(v, b, 0),
{
    let d = spec_clamp_dist(spec_sqrt_floor(spec_dist_sq(b, v.position)));
    assert(1 <= d);
    lemma_zero_error_meets_sse(v.projection, v.viewport_h as int, d);
}

} // verus!
