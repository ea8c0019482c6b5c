use tilecore::geom::{dot, isqrt, wabs};
use tilecore::volume::BoundingVolume;
use tilecore::Vec3i;

fn v(x: i64, y: i64, z: i64) -> Vec3i {
    Vec3i { x, y, z }
}

fn unit_box(cx: i64, cy: i64, cz: i64, e: i64) -> BoundingVolume {
    BoundingVolume::new(v(cx, cy, cz), v(e, 0, 0), v(0, e, 0), v(0, 0, e))
}

#[test]
fn dot_exact() {
    assert_eq!(dot(&v(1, 2, 3), &v(4, -5, 6)), 4 - 10 + 18);
    assert_eq!(dot(&v(0, 0, 0), &v(7, 8, 9)), 0);
}

#[test]
fn wabs_exact() {
    assert_eq!(wabs(-5), 5);
    assert_eq!(wabs(5), 5);
    assert_eq!(wabs(0), 0);
}

#[test]
fn isqrt_exact() {
    assert_eq!(isqrt(0), 0);
    assert_eq!(isqrt(1), 1);
    assert_eq!(isqrt(15), 3);
    assert_eq!(isqrt(16), 4);
    assert_eq!(isqrt(8100), 90);
    assert_eq!(isqrt(u128::MAX), 0xffff_ffff_ffff_ffff);
}

#[test]
fn flat_codec_round_trip() {
    // Serializing the twelve values and reading them back yields the very
    // same axes, value for value.
    let b = BoundingVolume::new(
        v(1, -2, 3),
        v(40, 50, -60),
        v(-7, 8, 9),
        v(10, -11, 12),
    );
    let flat = b.to_flat();
    assert_eq!(flat, vec![1, -2, 3, 40, 50, -60, -7, 8, 9, 10, -11, 12]);
    let back = BoundingVolume::from_flat(&flat);
    assert_eq!(back, b);
    // And the other direction.
    let again = back.to_flat();
    assert_eq!(again, flat);
}

#[test]
fn corners_and_edge_points() {
    let b = unit_box(0, 0, 0, 1);
    let cs = b.corners();
    assert_eq!(cs.len(), 8);
    // First corner: center minus every half-axis; last: plus every one.
    assert_eq!((cs[0].x, cs[0].y, cs[0].z), (-1, -1, -1));
    assert_eq!((cs[7].x, cs[7].y, cs[7].z), (1, 1, 1));
    let ps = b.get_edge_points();
    assert_eq!(ps.len(), 8);
    // Edge-mesh order leads with the positive x sign.
    assert_eq!((ps[0].x, ps[0].y, ps[0].z), (1, 1, 1));
    assert_eq!((ps[7].x, ps[7].y, ps[7].z), (-1, -1, -1));
    let idx = BoundingVolume::edge_indices();
    assert_eq!(idx.len(), 24);
    assert_eq!(&idx[0..8], &[0, 4, 1, 5, 2, 6, 3, 7]);
}

#[test]
fn back_of_globe_hidden() {
    // A volume whose corners all sit at x = -R is invisible to a camera on
    // the positive-x side of the globe.
    let r = 6_400_000;
    let b = unit_box(-r, 0, 0, 0);
    assert!(!b.is_visible(&v(r, 0, 0)));
    // The mirror volume on the camera's own hemisphere is visible.
    let f = unit_box(r, 0, 0, 10);
    assert!(f.is_visible(&v(r, 0, 0)));
}

#[test]
fn occluded_by_hemisphere() {
    let b = unit_box(-100, 0, 0, 1);
    assert!(b.occluded(&v(100, 0, 0)));
    assert!(!b.occluded(&v(-100, 0, 0)));
}

#[test]
fn contains_point_and_volume() {
    let b = unit_box(0, 0, 0, 10);
    assert!(b.contains_point(&v(0, 0, 0)));
    assert!(b.contains_point(&v(10, 10, 10)));
    assert!(!b.contains_point(&v(11, 0, 0)));
    let inner = unit_box(0, 0, 0, 5);
    let shifted = unit_box(8, 0, 0, 5);
    assert!(b.contains(&inner));
    assert!(!b.contains(&shifted));
}

#[test]
fn separating_axis_overlap() {
    let a = unit_box(0, 0, 0, 10);
    let b = unit_box(15, 0, 0, 10);
    let c = unit_box(25, 0, 0, 4);
    assert!(a.intersects(&b));
    assert!(!a.intersects(&c));
    // Touching faces still count as overlap.
    let d = unit_box(20, 0, 0, 10);
    assert!(a.intersects(&d));
    // A rotated-like box given by skewed axes.
    let e = BoundingVolume::new(v(0, 30, 0), v(7, 7, 0), v(-7, 7, 0), v(0, 0, 10));
    assert!(!a.intersects(&e));
}
