use tilecore::frustum::{extract_planes, obb_in_frustum, Frustum, Plane};
use tilecore::matrix::{final_model_matrix, Mat4i};
use tilecore::view_state::{CullingResult, CullingVolume, OrientedBoundingBox, ViewState};
use tilecore::volume::BoundingVolume;
use tilecore::Vec3i;

fn v(x: i64, y: i64, z: i64) -> Vec3i {
    Vec3i { x, y, z }
}

fn m16(a: [i64; 16]) -> Mat4i {
    Mat4i::from_cols_array(&a.to_vec())
}

/// Fixed point at one thousandth: a view-projection for a camera at
/// (0, 0, 100) looking down negative z, ninety-degree square frustum,
/// near 1 and far 1000.
fn vp_toward_neg_z() -> Mat4i {
    m16([
        1000, 0, 0, 0, // column 0
        0, 1000, 0, 0, // column 1
        0, 0, -1002, -1000, // column 2
        0, 0, 98200, 100000, // column 3
    ])
}

/// The same camera turned around, looking down positive z.
fn vp_toward_pos_z() -> Mat4i {
    m16([
        -1000, 0, 0, 0, // column 0
        0, 1000, 0, 0, // column 1
        0, 0, 1002, 1000, // column 2
        0, 0, -102202, -100000, // column 3
    ])
}

fn obb_ahead() -> BoundingVolume {
    BoundingVolume::new(v(0, 0, -100), v(10, 0, 0), v(0, 10, 0), v(0, 0, 10))
}

#[test]
fn frustum_cull_front_and_back() {
    // The box ahead of the camera intersects the frustum; the same box is
    // rejected once the camera looks the other way.
    let f_front = Frustum::from_view_proj(&vp_toward_neg_z());
    assert!(obb_ahead().intersects_frustum(&f_front));
    let f_back = Frustum::from_view_proj(&vp_toward_pos_z());
    assert!(!obb_ahead().intersects_frustum(&f_back));
}

#[test]
fn origin_far_plane_discards_far_hemisphere() {
    let cam = v(1000, 0, 0);
    let f = Frustum::from_view_proj_with_origin_far(&vp_toward_neg_z(), cam);
    assert_eq!(f.far.normal, cam);
    assert_eq!(f.far.d, 0);
    // A box on the opposite side of the origin fails the far plane.
    let behind = BoundingVolume::new(v(-500, 0, 0), v(10, 0, 0), v(0, 10, 0), v(0, 0, 10));
    assert!(!behind.intersects_frustum(&f));
}

#[test]
fn extract_planes_rows() {
    let m = vp_toward_neg_z();
    let p = extract_planes(&m);
    assert_eq!(p.left.normal, v(1000, 0, -1000));
    assert_eq!(p.left.d, 100000);
    assert_eq!(p.right.normal, v(-1000, 0, -1000));
    assert_eq!(p.far.normal, v(0, 0, 2));
    assert_eq!(p.far.d, 1800);
    assert!(obb_in_frustum(&p, &obb_ahead()));
}

#[test]
fn culling_volume_side_planes() {
    let cv = CullingVolume::new_matrix(&vp_toward_neg_z());
    let b = OrientedBoundingBox::new(v(0, 0, -100), v(10, 0, 0), v(0, 10, 0), v(0, 0, 10));
    assert!(cv.is_bounding_volume_visible(&b));
    // Far off to the left, outside the left plane.
    let far_left = OrientedBoundingBox::new(v(-100000, 0, -100), v(10, 0, 0), v(0, 10, 0), v(0, 0, 10));
    assert!(!cv.is_bounding_volume_visible(&far_left));
}

#[test]
fn plane_classification() {
    let plane = Plane { normal: v(1, 0, 0), d: 0 };
    let inside = OrientedBoundingBox::new(v(50, 0, 0), v(10, 0, 0), v(0, 10, 0), v(0, 0, 10));
    let outside = OrientedBoundingBox::new(v(-50, 0, 0), v(10, 0, 0), v(0, 10, 0), v(0, 0, 10));
    let cut = OrientedBoundingBox::new(v(0, 0, 0), v(10, 0, 0), v(0, 10, 0), v(0, 0, 10));
    assert_eq!(inside.intersect_plane(&plane), CullingResult::Inside);
    assert_eq!(outside.intersect_plane(&plane), CullingResult::Outside);
    assert_eq!(cut.intersect_plane(&plane), CullingResult::Intersecting);
}

#[test]
fn distance_squared_cases() {
    let b = OrientedBoundingBox::new(v(0, 0, 0), v(10, 0, 0), v(0, 10, 0), v(0, 0, 10));
    assert_eq!(b.compute_distance_squared_to_position(&v(5, 5, 5)), 0);
    assert_eq!(b.compute_distance_squared_to_position(&v(100, 0, 0)), 8100);
    assert_eq!(b.compute_distance_squared_to_position(&v(13, 14, 0)), 9 + 16);
    // A fully collapsed box measures the plain squared offset.
    let p = OrientedBoundingBox::new(v(0, 0, 0), v(0, 0, 0), v(0, 0, 0), v(0, 0, 0));
    assert_eq!(p.compute_distance_squared_to_position(&v(3, 4, 0)), 25);
    // One collapsed axis: the synthesized direction still measures the
    // overshoot across the collapsed face.
    let slab = OrientedBoundingBox::new(v(0, 0, 0), v(10, 0, 0), v(0, 10, 0), v(0, 0, 0));
    assert_eq!(slab.compute_distance_squared_to_position(&v(0, 0, 7)), 49);
}

fn perspective_projection() -> Mat4i {
    // Forty-five degree vertical field of view at one-thousandth fixed
    // point: the y scale is the cotangent of 22.5 degrees.
    m16([
        2414, 0, 0, 0, // column 0
        0, 2414, 0, 0, // column 1
        0, 0, -1002, -1000, // column 2
        0, 0, -2002, 0, // column 3
    ])
}

fn view_with(projection: Mat4i, position: Vec3i) -> ViewState {
    let zero_plane = Plane { normal: v(0, 0, 0), d: 0 };
    ViewState {
        frustum: Frustum {
            left: zero_plane,
            right: zero_plane,
            bottom: zero_plane,
            top: zero_plane,
            far: zero_plane,
        },
        planes: extract_planes(&projection),
        position,
        viewport_w: 1000,
        viewport_h: 1000,
        culling_volume: CullingVolume::new_matrix(&projection),
        projection,
    }
}

#[test]
fn refinement_near_and_far() {
    // A tile with geometric error 1000 at distance 10 must not meet the
    // error budget; the same tile a billion meters away must.
    let b = OrientedBoundingBox::new(v(0, 0, 0), v(0, 0, 0), v(0, 0, 0), v(0, 0, 0));
    let near = view_with(perspective_projection(), v(10, 0, 0));
    assert!(!near.does_tile_meet_sse(&b, 1000));
    let far = view_with(perspective_projection(), v(1_000_000_000, 0, 0));
    assert!(far.does_tile_meet_sse(&b, 1000));
}

#[test]
fn zero_error_always_meets() {
    let b = OrientedBoundingBox::new(v(0, 0, 0), v(0, 0, 0), v(0, 0, 0), v(0, 0, 0));
    for d in [1i64, 10, 1000, 1_000_000, 1_000_000_000] {
        let view = view_with(perspective_projection(), v(d, 0, 0));
        assert!(view.does_tile_meet_sse(&b, 0));
    }
}

#[test]
fn meets_monotone_in_distance() {
    // Once the budget is met at some distance, it stays met farther out.
    let b = OrientedBoundingBox::new(v(0, 0, 0), v(0, 0, 0), v(0, 0, 0), v(0, 0, 0));
    let mut was_met = false;
    for d in [1i64, 10, 100, 10_000, 1_000_000, 100_000_000] {
        let view = view_with(perspective_projection(), v(d, 0, 0));
        let met = view.does_tile_meet_sse(&b, 100);
        assert!(!was_met || met);
        was_met = met;
    }
    assert!(was_met);
}

#[test]
fn screen_space_error_rational() {
    let view = view_with(perspective_projection(), v(0, 0, 0));
    // At distance d the projected error height is e * scale / d of the
    // half viewport: numerator and denominator carry it exactly.
    let (num, den) = view.compute_screen_space_error(1000, 100);
    // y2 = 1000 * 2414, w1 = w2 = 100 * 1000.
    let y2: i128 = 1000 * 2414;
    let w: i128 = 100 * 1000;
    assert_eq!(num, -(y2 * w) * 1000);
    assert_eq!(den, 2 * w * w);
}

#[test]
fn model_matrix_axis_swap() {
    // The final model matrix swaps each column from y-up to z-up: the
    // column (x, y, z, w) becomes (x, -z, y, w).
    let a = m16([
        1, 2, 3, 4, //
        5, 6, 7, 8, //
        9, 10, 11, 12, //
        13, 14, 15, 16,
    ]);
    let r = final_model_matrix(&a);
    assert_eq!(r.to_cols_array(), vec![
        1, -3, 2, 4, //
        5, -7, 6, 8, //
        9, -11, 10, 12, //
        13, -15, 14, 16,
    ]);
}

#[test]
fn transform_uses_all_three_columns() {
    // Each half-axis is carried by the three distinct columns of the
    // transform, never the same column twice.
    let b = OrientedBoundingBox::new(v(1, 2, 3), v(1, 0, 0), v(0, 1, 0), v(0, 0, 1));
    let t = m16([
        2, 0, 0, 0, // column 0: doubles x
        0, 3, 0, 0, // column 1: triples y
        0, 0, 5, 0, // column 2: five times z
        10, 20, 30, 1, // translation
    ]);
    let r = b.transform(&t);
    assert_eq!(r.center, v(2 + 10, 6 + 20, 15 + 30));
    assert_eq!(r.ax, v(2, 0, 0));
    assert_eq!(r.ay, v(0, 3, 0));
    assert_eq!(r.az, v(0, 0, 5));
}

#[test]
fn distance_to_collapsed_box_at_large_offset() {
    // A box collapsed to a single valid axis, with the camera far out
    // along a collapsed direction: the synthesized-axis term measures the
    // full squared offset even where the synthesized direction's raw
    // components leave the working range.
    let b = OrientedBoundingBox::new(
        v(0, 0, 0),
        v(0x4000_0000, 0, 0),
        v(0, 0, 0),
        v(0, 0, 0),
    );
    let d2 = b.compute_distance_squared_to_position(&v(0, 0x4000_0000, 0));
    assert_eq!(d2, 1i128 << 60);
    // And along the other collapsed direction.
    let d2z = b.compute_distance_squared_to_position(&v(0, 0, 0x4000_0000));
    assert_eq!(d2z, 1i128 << 60);
}
