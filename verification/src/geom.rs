//! Fixed-point vector arithmetic: exact integer dot products, component sums
//! and an integer square root, the ground every culling predicate stands on.

use vstd::prelude::*;

verus! {

/// A point or direction in earth-centred coordinates, held as fixed-point
/// integers. The unit per meter is the caller's choice: every predicate of
/// this crate is homogeneous, so the choice never changes a decision.
#[derive(Clone, Copy, Debug, PartialEq, Eq, Structural)]
pub struct Vec3i {
    pub x: i64,
    pub y: i64,
    pub z: i64,
}

/// Magnitude bound on each component, as mathematical integers.
pub open spec fn bounded(v: Vec3i, b: int) -> bool {
    -b <= v.x <= b && -b <= v.y <= b && -b <= v.z <= b
}

/// Mathematical dot product of two stored vectors.
pub open spec fn sdot(a: Vec3i, b: Vec3i) -> int {
    a.x * b.x + a.y * b.y + a.z * b.z
}

/// Mathematical component-wise difference.
pub open spec fn ssub(a: Vec3i, b: Vec3i) -> (int, int, int) {
    (a.x - b.x, a.y - b.y, a.z - b.z)
}

/// The triple a vector holds, as mathematical integers.
pub open spec fn striple(a: Vec3i) -> (int, int, int) {
    (a.x as int, a.y as int, a.z as int)
}

impl Vec3i {
    pub fn new(x: i64, y: i64, z: i64) -> (r: Vec3i)
        ensures
            r.x == x && r.y == y && r.z == z,
    {
        Vec3i { x, y, z }
    }
}

/// How large a product of two admissible components may grow.
pub proof fn lemma_mul_bound(a: int, b: int, m: int)
    requires
        -m <= a <= m,
        -m <= b <= m,
        0 <= m,
    ensures
        -(m * m) <= a * b <= m * m,
{
    assert(-(m * m) <= a * b <= m * m) by (nonlinear_arith)
        requires
            -m <= a <= m,
            -m <= b <= m,
            0 <= m,
    ;
}

/// The two-sided product bound with a separate cap on each factor.
pub proof fn lemma_mul_bound2(a: int, b: int, ma: int, mb: int)
    requires
        -ma <= a <= ma,
        -mb <= b <= mb,
        0 <= ma,
        0 <= mb,
    ensures
        -(ma * mb) <= a * b <= ma * mb,
{
    assert(-(ma * mb) <= a * b <= ma * mb) by (nonlinear_arith)
        requires
            -ma <= a <= ma,
            -mb <= b <= mb,
            0 <= ma,
            0 <= mb,
    ;
}

/// Exact dot product, widened so that no admissible input can overflow.
pub fn dot(a: &Vec3i, b: &Vec3i) -> (r: i128)
    requires
        bounded(*a, 0x2000_0000_0000_0000) && bounded(*b, 0x2000_0000_0000_0000),
    ensures
        r == sdot(*a, *b),
{
    proof {
        let m: int = 0x2000_0000_0000_0000;
        lemma_mul_bound(a.x as int, b.x as int, m);
        lemma_mul_bound(a.y as int, b.y as int, m);
        lemma_mul_bound(a.z as int, b.z as int, m);
    }
    let px: i128 = (a.x as i128) * (b.x as i128);
    let py: i128 = (a.y as i128) * (b.y as i128);
    let pz: i128 = (a.z as i128) * (b.z as i128);
    px + py + pz
}

/// Component-wise difference.
pub fn vsub(a: &Vec3i, b: &Vec3i) -> (r: Vec3i)
    requires
        bounded(*a, 0x2000_0000_0000_0000) && bounded(*b, 0x2000_0000_0000_0000),
    ensures
        striple(r) == ssub(*a, *b),
{
    Vec3i { x: a.x - b.x, y: a.y - b.y, z: a.z - b.z }
}

/// Mathematical dot product of two integer triples.
pub open spec fn t_dot(a: (int, int, int), b: (int, int, int)) -> int {
    a.0 * b.0 + a.1 * b.1 + a.2 * b.2
}

/// Mathematical cross product of two integer triples.
pub open spec fn t_cross(a: (int, int, int), b: (int, int, int)) -> (int, int, int) {
    (a.1 * b.2 - a.2 * b.1, a.2 * b.0 - a.0 * b.2, a.0 * b.1 - a.1 * b.0)
}

/// Absolute value of a mathematical integer.
pub open spec fn iabs(x: int) -> int {
    if x < 0 { -x } else { x }
}

/// The triple a widened vector holds, as mathematical integers.
pub open spec fn wtriple(a: (i128, i128, i128)) -> (int, int, int) {
    (a.0 as int, a.1 as int, a.2 as int)
}

/// Exact cross product, widened: the result of crossing two stored vectors
/// always fits the wider components.
pub fn wcross(a: &Vec3i, b: &Vec3i) -> (r: (i128, i128, i128))
    requires
        bounded(*a, 0x2000_0000_0000_0000) && bounded(*b, 0x2000_0000_0000_0000),
    ensures
        wtriple(r) == t_cross(striple(*a), striple(*b)),
{
    proof {
        let m: int = 0x2000_0000_0000_0000;
        lemma_mul_bound(a.y as int, b.z as int, m);
        lemma_mul_bound(a.z as int, b.y as int, m);
        lemma_mul_bound(a.z as int, b.x as int, m);
        lemma_mul_bound(a.x as int, b.z as int, m);
        lemma_mul_bound(a.x as int, b.y as int, m);
        lemma_mul_bound(a.y as int, b.x as int, m);
    }
    let cx: i128 = (a.y as i128) * (b.z as i128) - (a.z as i128) * (b.y as i128);
    let cy: i128 = (a.z as i128) * (b.x as i128) - (a.x as i128) * (b.z as i128);
    let cz: i128 = (a.x as i128) * (b.y as i128) - (a.y as i128) * (b.x as i128);
    (cx, cy, cz)
}

/// Exact dot product of a widened vector against a stored vector.
pub fn wdot(l: (i128, i128, i128), v: &Vec3i) -> (r: i128)
    requires
        -0x4_0000_0000_0000_0000_0000 <= l.0 <= 0x4_0000_0000_0000_0000_0000,
        -0x4_0000_0000_0000_0000_0000 <= l.1 <= 0x4_0000_0000_0000_0000_0000,
        -0x4_0000_0000_0000_0000_0000 <= l.2 <= 0x4_0000_0000_0000_0000_0000,
        bounded(*v, 0x100_0000_0000),
    ensures
        r == t_dot(wtriple(l), striple(*v)),
        -0x4000_0000_0000_0000_0000_0000_0000_0000 <= r
            <= 0x4000_0000_0000_0000_0000_0000_0000_0000,
{
    proof {
        let m1: int = 0x4_0000_0000_0000_0000_0000;
        let m2: int = 0x100_0000_0000;
        assert(-m1 * m2 <= l.0 * v.x <= m1 * m2 && -m1 * m2 <= l.1 * v.y <= m1 * m2
            && -m1 * m2 <= l.2 * v.z <= m1 * m2) by (nonlinear_arith)
            requires
                -m1 <= l.0 <= m1 && -m1 <= l.1 <= m1 && -m1 <= l.2 <= m1,
                -m2 <= v.x <= m2 && -m2 <= v.y <= m2 && -m2 <= v.z <= m2,
                m1 == 0x4_0000_0000_0000_0000_0000 && m2 == 0x100_0000_0000,
        ;
    }
    l.0 * (v.x as i128) + l.1 * (v.y as i128) + l.2 * (v.z as i128)
}

/// Exact dot product of two widened vectors.
pub fn wdot2(a: (i128, i128, i128), b: (i128, i128, i128)) -> (r: i128)
    requires
        -0x4000_0000_0000_0000 <= a.0 <= 0x4000_0000_0000_0000,
        -0x4000_0000_0000_0000 <= a.1 <= 0x4000_0000_0000_0000,
        -0x4000_0000_0000_0000 <= a.2 <= 0x4000_0000_0000_0000,
        -0x4000_0000_0000_0000 <= b.0 <= 0x4000_0000_0000_0000,
        -0x4000_0000_0000_0000 <= b.1 <= 0x4000_0000_0000_0000,
        -0x4000_0000_0000_0000 <= b.2 <= 0x4000_0000_0000_0000,
    ensures
        r == t_dot(wtriple(a), wtriple(b)),
        -0x3000_0000_0000_0000_0000_0000_0000_0000 <= r <= 0x3000_0000_0000_0000_0000_0000_0000_0000,
{
    proof {
        let m: int = 0x4000_0000_0000_0000;
        lemma_mul_bound(a.0 as int, b.0 as int, m);
        lemma_mul_bound(a.1 as int, b.1 as int, m);
        lemma_mul_bound(a.2 as int, b.2 as int, m);
    }
    a.0 * b.0 + a.1 * b.1 + a.2 * b.2
}

/// Dot product of component magnitudes: an upper bound on the magnitude of
/// any projection of one vector onto the other.
pub open spec fn t_absdot(a: (int, int, int), b: (int, int, int)) -> int {
    iabs(a.0) * iabs(b.0) + iabs(a.1) * iabs(b.1) + iabs(a.2) * iabs(b.2)
}

/// Exact dot product of the component magnitudes.
pub fn absdot(a: &Vec3i, b: &Vec3i) -> (r: i128)
    requires
        bounded(*a, 0x2000_0000_0000_0000) && bounded(*b, 0x2000_0000_0000_0000),
    ensures
        r == t_absdot(striple(*a), striple(*b)),
        0 <= r <= 0xc00_0000_0000_0000_0000_0000_0000_0000,
{
    proof {
        let m: int = 0x2000_0000_0000_0000;
        lemma_mul_bound(iabs(a.x as int), iabs(b.x as int), m);
        lemma_mul_bound(iabs(a.y as int), iabs(b.y as int), m);
        lemma_mul_bound(iabs(a.z as int), iabs(b.z as int), m);
        let px = iabs(a.x as int);
        let py = iabs(a.y as int);
        let pz = iabs(a.z as int);
        let qx = iabs(b.x as int);
        let qy = iabs(b.y as int);
        let qz = iabs(b.z as int);
        assert(0 <= px * qx && 0 <= py * qy && 0 <= pz * qz) by (nonlinear_arith)
            requires
                0 <= px && 0 <= py && 0 <= pz,
                0 <= qx && 0 <= qy && 0 <= qz,
        ;
    }
    let ax: i128 = if a.x < 0 { -(a.x as i128) } else { a.x as i128 };
    let ay: i128 = if a.y < 0 { -(a.y as i128) } else { a.y as i128 };
    let az: i128 = if a.z < 0 { -(a.z as i128) } else { a.z as i128 };
    let bx: i128 = if b.x < 0 { -(b.x as i128) } else { b.x as i128 };
    let by: i128 = if b.y < 0 { -(b.y as i128) } else { b.y as i128 };
    let bz: i128 = if b.z < 0 { -(b.z as i128) } else { b.z as i128 };
    ax * bx + ay * by + az * bz
}

/// Absolute value, widened; exact for every admissible input.
pub fn wabs(x: i128) -> (r: i128)
    requires
        x != i128::MIN,
    ensures
        r == iabs(x as int),
{
    if x < 0 { -x } else { x }
}

/// Floor of the square root: the largest r with r * r <= n.
pub fn isqrt(n: u128) -> (r: u128)
    ensures
        r * r <= n,
        n < (r + 1) * (r + 1),
{
    let mut lo: u128 = 0;
    let mut hi: u128 = 0x2_0000_0000_0000_0000;
    proof {
        assert(hi * hi > u128::MAX) by (nonlinear_arith)
            requires hi == 0x2_0000_0000_0000_0000u128,
        ;
    }
    while hi - lo > 1
        invariant
            lo < hi,
            hi <= 0x2_0000_0000_0000_0000,
            lo * lo <= n,
            n < hi * hi,
        decreases hi - lo,
    {
        let mid: u128 = lo + (hi - lo) / 2;
        if mid <= 0xffff_ffff_ffff_ffff {
            proof {
                assert(mid * mid <= u128::MAX) by (nonlinear_arith)
                    requires mid <= 0xffff_ffff_ffff_ffffu128,
                ;
            }
            if mid * mid <= n {
                lo = mid;
            } else {
                hi = mid;
            }
        } else {
            proof {
                assert(mid * mid > n) by (nonlinear_arith)
                    requires
                        mid > 0xffff_ffff_ffff_ffffu128,
                        n <= u128::MAX,
                ;
            }
            hi = mid;
        }
    }
    lo
}

} // verus!
