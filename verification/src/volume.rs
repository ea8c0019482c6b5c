//! Oriented bounding volumes: the twelve-value wire codec, corner points,
//! hemisphere visibility, containment and the separating-axis overlap test.

use vstd::prelude::*;
use crate::geom::{
    Vec3i, bounded, sdot, striple, t_dot, t_cross, iabs, wtriple, dot, wcross, wdot, wabs, vsub,
};

verus! {

/// Magnitude cap on tile geometry held by this crate. Wide enough for
/// earth-centred meters with a comfortable fixed-point scale; small enough
/// that every predicate below is exact in 128-bit intermediates.
pub const GEOM_LIMIT: i64 = 0x4000_0000;

/// An oriented box: a center and three half-axis vectors. The eight corners
/// are center plus or minus each axis; the axes need not be orthogonal.
#[derive(Clone, Copy, Debug, PartialEq, Eq, Structural)]
pub struct BoundingVolume {
    pub center: Vec3i,
    pub x_axis: Vec3i,
    pub y_axis: Vec3i,
    pub z_axis: Vec3i,
}

/// Magnitude bound on every stored component of a volume.
pub open spec fn vol_bounded(b: BoundingVolume, m: int) -> bool {
    bounded(b.center, m) && bounded(b.x_axis, m) && bounded(b.y_axis, m) && bounded(b.z_axis, m)
}

/// The value kept when the sign choice is positive, negated otherwise.
pub open spec fn signed(plus: bool, v: int) -> int {
    if plus { v } else { -v }
}

/// The corner with the given sign choice for each half-axis.
pub open spec fn spec_signed_corner(b: BoundingVolume, px: bool, py: bool, pz: bool) -> (
    int,
    int,
    int,
) {
    (
        b.center.x + signed(px, b.x_axis.x as int) + signed(py, b.y_axis.x as int) + signed(
            pz,
            b.z_axis.x as int,
        ),
        b.center.y + signed(px, b.x_axis.y as int) + signed(py, b.y_axis.y as int) + signed(
            pz,
            b.z_axis.y as int,
        ),
        b.center.z + signed(px, b.x_axis.z as int) + signed(py, b.y_axis.z as int) + signed(
            pz,
            b.z_axis.z as int,
        ),
    )
}

/// The corner with index i, ordered with x varying fastest:
/// the sign of the x half-axis is + when i is odd, of the y half-axis when
/// i / 2 is odd, of the z half-axis when i >= 4.
pub open spec fn spec_corner(b: BoundingVolume, i: int) -> (int, int, int) {
    spec_signed_corner(b, i % 2 == 1, (i / 2) % 2 == 1, i >= 4)
}

/// The corner with index i in the edge-mesh order, where the x sign leads:
/// + for i < 4, the y sign + for i % 4 < 2, the z sign + for even i.
pub open spec fn spec_edge_point(b: BoundingVolume, i: int) -> (int, int, int) {
    spec_signed_corner(b, i < 4, i % 4 < 2, i % 2 == 0)
}

/// The twelve stored values in wire order: center, then the three half-axes.
pub open spec fn flat_of(b: BoundingVolume) -> Seq<i64> {
    seq![
        b.center.x, b.center.y, b.center.z,
        b.x_axis.x, b.x_axis.y, b.x_axis.z,
        b.y_axis.x, b.y_axis.y, b.y_axis.z,
        b.z_axis.x, b.z_axis.y, b.z_axis.z,
    ]
}

/// The volume a twelve-value array describes.
pub open spec fn vol_of_flat(s: Seq<i64>) -> BoundingVolume
    recommends
        s.len() >= 12,
{
    BoundingVolume {
        center: Vec3i { x: s[0], y: s[1], z: s[2] },
        x_axis: Vec3i { x: s[3], y: s[4], z: s[5] },
        y_axis: Vec3i { x: s[6], y: s[7], z: s[8] },
        z_axis: Vec3i { x: s[9], y: s[10], z: s[11] },
    }
}

/// Decoding the twelve values a volume encodes to gives the volume back,
/// component for component.
pub proof fn lemma_flat_round_trip(b: BoundingVolume)
    ensures
        vol_of_flat(flat_of(b)) == b,
{
}

/// Encoding the volume a twelve-value array decodes to gives the array back.
pub proof fn lemma_flat_round_trip_rev(s: Seq<i64>)
    requires
        s.len() == 12,
    ensures
        flat_of(vol_of_flat(s)) == s,
{
    assert(flat_of(vol_of_flat(s)) =~= s);
}

/// At least one corner lies on the camera's hemisphere of the globe: its
/// dot product with the camera position is positive.
pub open spec fn spec_is_visible(b: BoundingVolume, cam: Vec3i) -> bool {
    exists|i: int| 0 <= i < 8 && t_dot(spec_edge_point(b, i), striple(cam)) > 0
}

/// The center sits on the hemisphere opposite the camera.
pub open spec fn spec_occluded(b: BoundingVolume, cam: Vec3i) -> bool {
    sdot(cam, b.center) < 0
}

/// Membership of a point in the closed parallelepiped, decided by Cramer's
/// rule: each barycentric coordinate of the offset stays within one half-axis.
pub open spec fn spec_contains_point(b: BoundingVolume, p: (int, int, int)) -> bool {
    let d = (p.0 - b.center.x, p.1 - b.center.y, p.2 - b.center.z);
    let nyz = t_cross(striple(b.y_axis), striple(b.z_axis));
    let nzx = t_cross(striple(b.z_axis), striple(b.x_axis));
    let nxy = t_cross(striple(b.x_axis), striple(b.y_axis));
    iabs(t_dot(nyz, d)) <= iabs(t_dot(nyz, striple(b.x_axis)))
        && iabs(t_dot(nzx, d)) <= iabs(t_dot(nzx, striple(b.y_axis)))
        && iabs(t_dot(nxy, d)) <= iabs(t_dot(nxy, striple(b.z_axis)))
}

/// Every corner of the other volume lies inside this one.
pub open spec fn spec_contains(b: BoundingVolume, o: BoundingVolume) -> bool {
    forall|i: int| 0 <= i < 8 ==> spec_contains_point(b, spec_corner(o, i))
}

/// The projection radius of a volume's half-axes along an axis direction.
pub open spec fn spec_radius_on(l: (int, int, int), b: BoundingVolume) -> int {
    iabs(t_dot(l, striple(b.x_axis))) + iabs(t_dot(l, striple(b.y_axis)))
        + iabs(t_dot(l, striple(b.z_axis)))
}

/// The two volumes' projections onto the axis direction do not overlap.
pub open spec fn spec_separated_on(a: BoundingVolume, b: BoundingVolume, l: (int, int, int)) -> bool {
    let t = (
        b.center.x - a.center.x as int,
        b.center.y - a.center.y as int,
        b.center.z - a.center.z as int,
    );
    iabs(t_dot(l, t)) > spec_radius_on(l, a) + spec_radius_on(l, b)
}

/// Separating-axis overlap for the two parallelepipeds over the fifteen
/// candidate directions: the three face normals of each volume and the nine
/// pairwise edge cross products.
pub open spec fn spec_intersects(a: BoundingVolume, b: BoundingVolume) -> bool {
    let ax = striple(a.x_axis);
    let ay = striple(a.y_axis);
    let az = striple(a.z_axis);
    let bx = striple(b.x_axis);
    let by = striple(b.y_axis);
    let bz = striple(b.z_axis);
    !spec_separated_on(a, b, t_cross(ax, ay)) && !spec_separated_on(a, b, t_cross(ay, az))
        && !spec_separated_on(a, b, t_cross(az, ax)) && !spec_separated_on(a, b, t_cross(bx, by))
        && !spec_separated_on(a, b, t_cross(by, bz)) && !spec_separated_on(a, b, t_cross(bz, bx))
        && !spec_separated_on(a, b, t_cross(ax, bx)) && !spec_separated_on(a, b, t_cross(ax, by))
        && !spec_separated_on(a, b, t_cross(ax, bz)) && !spec_separated_on(a, b, t_cross(ay, bx))
        && !spec_separated_on(a, b, t_cross(ay, by)) && !spec_separated_on(a, b, t_cross(ay, bz))
        && !spec_separated_on(a, b, t_cross(az, bx)) && !spec_separated_on(a, b, t_cross(az, by))
        && !spec_separated_on(a, b, t_cross(az, bz))
}

/// The magnitude of a triple dot product is at most three times the product
/// of the component bounds.
pub proof fn lemma_tdot_bound(a: (int, int, int), b: (int, int, int), ma: int, mb: int)
    requires
        -ma <= a.0 <= ma && -ma <= a.1 <= ma && -ma <= a.2 <= ma,
        -mb <= b.0 <= mb && -mb <= b.1 <= mb && -mb <= b.2 <= mb,
        0 <= ma,
        0 <= mb,
    ensures
        iabs(t_dot(a, b)) <= 3 * ma * mb,
{
    assert(iabs(t_dot(a, b)) <= 3 * ma * mb) by (nonlinear_arith)
        requires
            -ma <= a.0 <= ma && -ma <= a.1 <= ma && -ma <= a.2 <= ma,
            -mb <= b.0 <= mb && -mb <= b.1 <= mb && -mb <= b.2 <= mb,
            0 <= ma,
            0 <= mb,
    ;
}

/// The components of a triple cross product are at most twice the product
/// of the component bounds.
pub proof fn lemma_tcross_bound(a: (int, int, int), b: (int, int, int), ma: int, mb: int)
    requires
        -ma <= a.0 <= ma && -ma <= a.1 <= ma && -ma <= a.2 <= ma,
        -mb <= b.0 <= mb && -mb <= b.1 <= mb && -mb <= b.2 <= mb,
        0 <= ma,
        0 <= mb,
    ensures
        iabs(t_cross(a, b).0) <= 2 * (ma * mb),
        iabs(t_cross(a, b).1) <= 2 * (ma * mb),
        iabs(t_cross(a, b).2) <= 2 * (ma * mb),
{
    crate::geom::lemma_mul_bound2(a.1, b.2, ma, mb);
    crate::geom::lemma_mul_bound2(a.2, b.1, ma, mb);
    crate::geom::lemma_mul_bound2(a.2, b.0, ma, mb);
    crate::geom::lemma_mul_bound2(a.0, b.2, ma, mb);
    crate::geom::lemma_mul_bound2(a.0, b.1, ma, mb);
    crate::geom::lemma_mul_bound2(a.1, b.0, ma, mb);
}

impl BoundingVolume {
    pub fn new(center: Vec3i, x_axis: Vec3i, y_axis: Vec3i, z_axis: Vec3i) -> (r: BoundingVolume)
        ensures
            r == (BoundingVolume { center, x_axis, y_axis, z_axis }),
    {
        BoundingVolume { center, x_axis, y_axis, z_axis }
    }

    /// Reads a volume from the twelve-value wire array: center, then the
    /// x, y and z half-axes.
    pub fn from_flat(v: &Vec<i64>) -> (r: BoundingVolume)
        requires
            v@.len() >= 12,
        ensures
            r == vol_of_flat(v@),
    {
        BoundingVolume {
            center: Vec3i { x: v[0], y: v[1], z: v[2] },
            x_axis: Vec3i { x: v[3], y: v[4], z: v[5] },
            y_axis: Vec3i { x: v[6], y: v[7], z: v[8] },
            z_axis: Vec3i { x: v[9], y: v[10], z: v[11] },
        }
    }

    /// Writes the twelve-value wire array back.
    pub fn to_flat(&self) -> (r: Vec<i64>)
        ensures
            r@ == flat_of(*self),
    {
        let r: Vec<i64> = vec![
            self.center.x, self.center.y, self.center.z,
            self.x_axis.x, self.x_axis.y, self.x_axis.z,
            self.y_axis.x, self.y_axis.y, self.y_axis.z,
            self.z_axis.x, self.z_axis.y, self.z_axis.z,
        ];
        proof {
            assert(r@ =~= flat_of(*self));
        }
        r
    }

    /// The corner with index i, in the order spec_corner fixes.
    pub fn corner_at(&self, i: usize) -> (r: Vec3i)
        requires
            i < 8,
            vol_bounded(*self, 0x1000_0000_0000_0000),
        ensures
            striple(r) == spec_corner(*self, i as int),
    {
        let mut px: i64 = self.center.x;
        let mut py: i64 = self.center.y;
        let mut pz: i64 = self.center.z;
        if i % 2 == 1 {
            px = px + self.x_axis.x;
            py = py + self.x_axis.y;
            pz = pz + self.x_axis.z;
        } else {
            px = px - self.x_axis.x;
            py = py - self.x_axis.y;
            pz = pz - self.x_axis.z;
        }
        if (i / 2) % 2 == 1 {
            px = px + self.y_axis.x;
            py = py + self.y_axis.y;
            pz = pz + self.y_axis.z;
        } else {
            px = px - self.y_axis.x;
            py = py - self.y_axis.y;
            pz = pz - self.y_axis.z;
        }
        if i >= 4 {
            px = px + self.z_axis.x;
            py = py + self.z_axis.y;
            pz = pz + self.z_axis.z;
        } else {
            px = px - self.z_axis.x;
            py = py - self.z_axis.y;
            pz = pz - self.z_axis.z;
        }
        Vec3i { x: px, y: py, z: pz }
    }

    /// All eight corners, in the order spec_corner fixes.
    pub fn corners(&self) -> (r: Vec<Vec3i>)
        requires
            vol_bounded(*self, 0x1000_0000_0000_0000),
        ensures
            r@.len() == 8,
            forall|i: int| 0 <= i < 8 ==> striple(#[trigger] r@[i]) == spec_corner(*self, i),
    {
        let mut r: Vec<Vec3i> = Vec::new();
        let mut i: usize = 0;
        while i < 8
            invariant
                i <= 8,
                r@.len() == i,
                vol_bounded(*self, 0x1000_0000_0000_0000),
                forall|j: int| 0 <= j < i ==> striple(#[trigger] r@[j]) == spec_corner(*self, j),
            decreases 8 - i,
        {
            let c = self.corner_at(i);
            r.push(c);
            i = i + 1;
        }
        r
    }

    /// All eight corners in the edge-mesh order spec_edge_point fixes.
    pub fn get_edge_points(&self) -> (r: Vec<Vec3i>)
        requires
            vol_bounded(*self, 0x1000_0000_0000_0000),
        ensures
            r@.len() == 8,
            forall|i: int| 0 <= i < 8 ==> striple(#[trigger] r@[i]) == spec_edge_point(*self, i),
    {
        let mut r: Vec<Vec3i> = Vec::new();
        let mut i: usize = 0;
        while i < 8
            invariant
                i <= 8,
                r@.len() == i,
                vol_bounded(*self, 0x1000_0000_0000_0000),
                forall|j: int| 0 <= j < i ==> striple(#[trigger] r@[j]) == spec_edge_point(*self, j),
            decreases 8 - i,
        {
            let mut px: i64 = self.center.x;
            let mut py: i64 = self.center.y;
            let mut pz: i64 = self.center.z;
            if i < 4 {
                px = px + self.x_axis.x;
                py = py + self.x_axis.y;
                pz = pz + self.x_axis.z;
            } else {
                px = px - self.x_axis.x;
                py = py - self.x_axis.y;
                pz = pz - self.x_axis.z;
            }
            if i % 4 < 2 {
                px = px + self.y_axis.x;
                py = py + self.y_axis.y;
                pz = pz + self.y_axis.z;
            } else {
                px = px - self.y_axis.x;
                py = py - self.y_axis.y;
                pz = pz - self.y_axis.z;
            }
            if i % 2 == 0 {
                px = px + self.z_axis.x;
                py = py + self.z_axis.y;
                pz = pz + self.z_axis.z;
            } else {
                px = px - self.z_axis.x;
                py = py - self.z_axis.y;
                pz = pz - self.z_axis.z;
            }
            r.push(Vec3i { x: px, y: py, z: pz });
            i = i + 1;
        }
        r
    }

    /// The index pairs of the twelve box edges, as line-list indices into
    /// the points of get_edge_points.
    pub fn edge_indices() -> (r: Vec<u32>)
        ensures
            r@ == seq![
                0u32, 4u32, 1u32, 5u32, 2u32, 6u32, 3u32, 7u32,
                0u32, 1u32, 0u32, 2u32, 2u32, 3u32, 3u32, 1u32,
                4u32, 5u32, 4u32, 6u32, 6u32, 7u32, 7u32, 5u32,
            ],
    {
        let r: Vec<u32> = vec![
            0, 4, 1, 5, 2, 6, 3, 7,
            0, 1, 0, 2, 2, 3, 3, 1,
            4, 5, 4, 6, 6, 7, 7, 5,
        ];
        proof {
            assert(r@ =~= seq![
                0u32, 4u32, 1u32, 5u32, 2u32, 6u32, 3u32, 7u32,
                0u32, 1u32, 0u32, 2u32, 2u32, 3u32, 3u32, 1u32,
                4u32, 5u32, 4u32, 6u32, 6u32, 7u32, 7u32, 5u32,
            ]);
        }
        r
    }

    /// True when some corner shares the camera's hemisphere of the globe.
    /// Signs of dot products decide this, so no normalization is needed.
    pub fn is_visible(&self, camera_pos: &Vec3i) -> (r: bool)
        requires
            vol_bounded(*self, 0x400_0000_0000_0000),
            bounded(*camera_pos, 0x2000_0000_0000_0000),
        ensures
            r == spec_is_visible(*self, *camera_pos),
    {
        let points = self.get_edge_points();
        let mut i: usize = 0;
        while i < 8
            invariant
                i <= 8,
                points@.len() == 8,
                bounded(*camera_pos, 0x2000_0000_0000_0000),
                forall|j: int| 0 <= j < 8 ==> striple(#[trigger] points@[j]) == spec_edge_point(*self, j),
                forall|j: int| 0 <= j < 8 ==> bounded(#[trigger] points@[j], 0x1000_0000_0000_0000),
                forall|j: int| 0 <= j < i ==> !(t_dot(#[trigger] spec_edge_point(*self, j), striple(*camera_pos)) > 0),
            decreases 8 - i,
        {
            let p = points[i];
            if dot(&p, camera_pos) > 0 {
                return true;
            }
            i = i + 1;
        }
        false
    }

    /// True when the center lies on the opposite hemisphere from the camera.
    pub fn occluded(&self, camera_pos: &Vec3i) -> (r: bool)
        requires
            bounded(self.center, 0x2000_0000_0000_0000),
            bounded(*camera_pos, 0x2000_0000_0000_0000),
        ensures
            r == spec_occluded(*self, *camera_pos),
    {
        dot(camera_pos, &self.center) < 0
    }

    /// Exact point membership in the closed parallelepiped.
    pub fn contains_point(&self, p: &Vec3i) -> (r: bool)
        requires
            vol_bounded(*self, GEOM_LIMIT as int),
            bounded(*p, 0x10_0000_0000),
        ensures
            r == spec_contains_point(*self, striple(*p)),
    {
        let d = vsub(p, &self.center);
        let nyz = wcross(&self.y_axis, &self.z_axis);
        let nzx = wcross(&self.z_axis, &self.x_axis);
        let nxy = wcross(&self.x_axis, &self.y_axis);
        proof {
            let g = GEOM_LIMIT as int;
            lemma_tcross_bound(striple(self.y_axis), striple(self.z_axis), g, g);
            lemma_tcross_bound(striple(self.z_axis), striple(self.x_axis), g, g);
            lemma_tcross_bound(striple(self.x_axis), striple(self.y_axis), g, g);
        }
        let a1 = wabs(wdot(nyz, &d));
        let b1 = wabs(wdot(nyz, &self.x_axis));
        let a2 = wabs(wdot(nzx, &d));
        let b2 = wabs(wdot(nzx, &self.y_axis));
        let a3 = wabs(wdot(nxy, &d));
        let b3 = wabs(wdot(nxy, &self.z_axis));
        a1 <= b1 && a2 <= b2 && a3 <= b3
    }

    /// True when every corner of the other volume lies inside this one.
    pub fn contains(&self, other: &BoundingVolume) -> (r: bool)
        requires
            vol_bounded(*self, GEOM_LIMIT as int),
            vol_bounded(*other, GEOM_LIMIT as int),
        ensures
            r == spec_contains(*self, *other),
    {
        let mut i: usize = 0;
        while i < 8
            invariant
                i <= 8,
                vol_bounded(*self, GEOM_LIMIT as int),
                vol_bounded(*other, GEOM_LIMIT as int),
                forall|j: int| 0 <= j < i ==> spec_contains_point(*self, #[trigger] spec_corner(*other, j)),
            decreases 8 - i,
        {
            let c = other.corner_at(i);
            if !self.contains_point(&c) {
                return false;
            }
            i = i + 1;
        }
        true
    }

    /// One candidate direction of the separating-axis test.
    fn separated_on(&self, other: &BoundingVolume, l: (i128, i128, i128)) -> (r: bool)
        requires
            vol_bounded(*self, GEOM_LIMIT as int),
            vol_bounded(*other, GEOM_LIMIT as int),
            -0x8000_0000_0000_0000 <= l.0 <= 0x8000_0000_0000_0000,
            -0x8000_0000_0000_0000 <= l.1 <= 0x8000_0000_0000_0000,
            -0x8000_0000_0000_0000 <= l.2 <= 0x8000_0000_0000_0000,
        ensures
            r == spec_separated_on(*self, *other, wtriple(l)),
    {
        let t = vsub(&other.center, &self.center);
        proof {
            let ml: int = 0x8000_0000_0000_0000;
            let g = GEOM_LIMIT as int;
            lemma_tdot_bound(wtriple(l), striple(t), ml, 2 * g);
            lemma_tdot_bound(wtriple(l), striple(self.x_axis), ml, g);
            lemma_tdot_bound(wtriple(l), striple(self.y_axis), ml, g);
            lemma_tdot_bound(wtriple(l), striple(self.z_axis), ml, g);
            lemma_tdot_bound(wtriple(l), striple(other.x_axis), ml, g);
            lemma_tdot_bound(wtriple(l), striple(other.y_axis), ml, g);
            lemma_tdot_bound(wtriple(l), striple(other.z_axis), ml, g);
        }
        let dist = wabs(wdot(l, &t));
        let ra = wabs(wdot(l, &self.x_axis)) + wabs(wdot(l, &self.y_axis))
            + wabs(wdot(l, &self.z_axis));
        let rb = wabs(wdot(l, &other.x_axis)) + wabs(wdot(l, &other.y_axis))
            + wabs(wdot(l, &other.z_axis));
        dist > ra + rb
    }

    /// Separating-axis overlap of two volumes: true when no candidate
    /// direction separates their projections.
    pub fn intersects(&self, other: &BoundingVolume) -> (r: bool)
        requires
            vol_bounded(*self, GEOM_LIMIT as int),
            vol_bounded(*other, GEOM_LIMIT as int),
        ensures
            r == spec_intersects(*self, *other),
    {
        proof {
            let g = GEOM_LIMIT as int;
            lemma_tcross_bound(striple(self.x_axis), striple(self.y_axis), g, g);
            lemma_tcross_bound(striple(self.y_axis), striple(self.z_axis), g, g);
            lemma_tcross_bound(striple(self.z_axis), striple(self.x_axis), g, g);
            lemma_tcross_bound(striple(other.x_axis), striple(other.y_axis), g, g);
            lemma_tcross_bound(striple(other.y_axis), striple(other.z_axis), g, g);
            lemma_tcross_bound(striple(other.z_axis), striple(other.x_axis), g, g);
            lemma_tcross_bound(striple(self.x_axis), striple(other.x_axis), g, g);
            lemma_tcross_bound(striple(self.x_axis), striple(other.y_axis), g, g);
            lemma_tcross_bound(striple(self.x_axis), striple(other.z_axis), g, g);
            lemma_tcross_bound(striple(self.y_axis), striple(other.x_axis), g, g);
            lemma_tcross_bound(striple(self.y_axis), striple(other.y_axis), g, g);
            lemma_tcross_bound(striple(self.y_axis), striple(other.z_axis), g, g);
            lemma_tcross_bound(striple(self.z_axis), striple(other.x_axis), g, g);
            lemma_tcross_bound(striple(self.z_axis), striple(other.y_axis), g, g);
            lemma_tcross_bound(striple(self.z_axis), striple(other.z_axis), g, g);
        }
        if self.separated_on(other, wcross(&self.x_axis, &self.y_axis)) {
            return false;
        }
        if self.separated_on(other, wcross(&self.y_axis, &self.z_axis)) {
            return false;
        }
        if self.separated_on(other, wcross(&self.z_axis, &self.x_axis)) {
            return false;
        }
        if self.separated_on(other, wcross(&other.x_axis, &other.y_axis)) {
            return false;
        }
        if self.separated_on(other, wcross(&other.y_axis, &other.z_axis)) {
            return false;
        }
        if self.separated_on(other, wcross(&other.z_axis, &other.x_axis)) {
            return false;
        }
        if self.separated_on(other, wcross(&self.x_axis, &other.x_axis)) {
            return false;
        }
        if self.separated_on(other, wcross(&self.x_axis, &other.y_axis)) {
            return false;
        }
        if self.separated_on(other, wcross(&self.x_axis, &other.z_axis)) {
            return false;
        }
        if self.separated_on(other, wcross(&self.y_axis, &other.x_axis)) {
            return false;
        }
        if self.separated_on(other, wcross(&self.y_axis, &other.y_axis)) {
            return false;
        }
        if self.separated_on(other, wcross(&self.y_axis, &other.z_axis)) {
            return false;
        }
        if self.separated_on(other, wcross(&self.z_axis, &other.x_axis)) {
            return false;
        }
        if self.separated_on(other, wcross(&self.z_axis, &other.y_axis)) {
            return false;
        }
        if self.separated_on(other, wcross(&self.z_axis, &other.z_axis)) {
            return false;
        }
        true
    }
}

/// A volume entirely on the negative-x side of the globe is never visible
/// to a camera on the positive-x axis: no corner can share its hemisphere.
pub proof fn lemma_back_hemisphere_hidden(b: BoundingVolume, cam: Vec3i)
    requires
        cam.x > 0,
        cam.y == 0,
        cam.z == 0,
        forall|i: int| 0 <= i < 8 ==> (#[trigger] spec_edge_point(b, i)).0 < 0,
    ensures
        !spec_is_visible(b, cam),
{
    assert forall|i: int| 0 <= i < 8 implies !(t_dot(
        #[trigger] spec_edge_point(b, i),
        striple(cam),
    ) > 0) by {
        let p = spec_edge_point(b, i);
        assert(t_dot(p, striple(cam)) == p.0 * cam.x);
        assert(p.0 * cam.x < 0) by (nonlinear_arith)
            requires
                p.0 < 0,
                cam.x > 0,
        ;
    }
}

} // verus!
