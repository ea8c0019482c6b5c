//! Homogeneous 4 x 4 matrices in fixed point, named by column and row as the
//! sources that feed them store their entries, and the axis-swap composition
//! that adapts mesh transforms from a y-up convention to z-up world space.

use vstd::prelude::*;

verus! {

/// A 4 x 4 matrix. Field cCrR holds column C, row R.
#[derive(Clone, Copy, Debug, PartialEq, Eq, Structural)]
pub struct Mat4i {
    pub c0r0: i64, pub c0r1: i64, pub c0r2: i64, pub c0r3: i64,
    pub c1r0: i64, pub c1r1: i64, pub c1r2: i64, pub c1r3: i64,
    pub c2r0: i64, pub c2r1: i64, pub c2r2: i64, pub c2r3: i64,
    pub c3r0: i64, pub c3r1: i64, pub c3r2: i64, pub c3r3: i64,
}

/// Magnitude bound on every entry.
pub open spec fn mat_bounded(m: Mat4i, b: int) -> bool {
    -b <= m.c0r0 <= b && -b <= m.c0r1 <= b && -b <= m.c0r2 <= b && -b <= m.c0r3 <= b
        && -b <= m.c1r0 <= b && -b <= m.c1r1 <= b && -b <= m.c1r2 <= b && -b <= m.c1r3 <= b
        && -b <= m.c2r0 <= b && -b <= m.c2r1 <= b && -b <= m.c2r2 <= b && -b <= m.c2r3 <= b
        && -b <= m.c3r0 <= b && -b <= m.c3r1 <= b && -b <= m.c3r2 <= b && -b <= m.c3r3 <= b
}

/// The matrix with each column (x, y, z, w) replaced by (x, -z, y, w): the
/// left-composition with the axis swap whose columns are X, Z, -Y, W. It
/// turns a y-up mesh transform into the z-up convention of the dataset.
pub open spec fn spec_yz_swap_of(a: Mat4i) -> Mat4i {
    Mat4i {
        c0r0: a.c0r0, c0r1: (-a.c0r2) as i64, c0r2: a.c0r1, c0r3: a.c0r3,
        c1r0: a.c1r0, c1r1: (-a.c1r2) as i64, c1r2: a.c1r1, c1r3: a.c1r3,
        c2r0: a.c2r0, c2r1: (-a.c2r2) as i64, c2r2: a.c2r1, c2r3: a.c2r3,
        c3r0: a.c3r0, c3r1: (-a.c3r2) as i64, c3r2: a.c3r1, c3r3: a.c3r3,
    }
}

impl Mat4i {
    /// Builds a matrix from sixteen entries in column-major order.
    pub fn from_cols_array(v: &Vec<i64>) -> (r: Mat4i)
        requires
            v@.len() >= 16,
        ensures
            r.c0r0 == v@[0] && r.c0r1 == v@[1] && r.c0r2 == v@[2] && r.c0r3 == v@[3],
            r.c1r0 == v@[4] && r.c1r1 == v@[5] && r.c1r2 == v@[6] && r.c1r3 == v@[7],
            r.c2r0 == v@[8] && r.c2r1 == v@[9] && r.c2r2 == v@[10] && r.c2r3 == v@[11],
            r.c3r0 == v@[12] && r.c3r1 == v@[13] && r.c3r2 == v@[14] && r.c3r3 == v@[15],
    {
        Mat4i {
            c0r0: v[0], c0r1: v[1], c0r2: v[2], c0r3: v[3],
            c1r0: v[4], c1r1: v[5], c1r2: v[6], c1r3: v[7],
            c2r0: v[8], c2r1: v[9], c2r2: v[10], c2r3: v[11],
            c3r0: v[12], c3r1: v[13], c3r2: v[14], c3r3: v[15],
        }
    }

    /// The sixteen entries back, in column-major order.
    pub fn to_cols_array(&self) -> (r: Vec<i64>)
        ensures
            r@ == seq![
                self.c0r0, self.c0r1, self.c0r2, self.c0r3,
                self.c1r0, self.c1r1, self.c1r2, self.c1r3,
                self.c2r0, self.c2r1, self.c2r2, self.c2r3,
                self.c3r0, self.c3r1, self.c3r2, self.c3r3,
            ],
    {
        let r: Vec<i64> = vec![
            self.c0r0, self.c0r1, self.c0r2, self.c0r3,
            self.c1r0, self.c1r1, self.c1r2, self.c1r3,
            self.c2r0, self.c2r1, self.c2r2, self.c2r3,
            self.c3r0, self.c3r1, self.c3r2, self.c3r3,
        ];
        proof {
            assert(r@ =~= seq![
                self.c0r0, self.c0r1, self.c0r2, self.c0r3,
                self.c1r0, self.c1r1, self.c1r2, self.c1r3,
                self.c2r0, self.c2r1, self.c2r2, self.c2r3,
                self.c3r0, self.c3r1, self.c3r2, self.c3r3,
            ]);
        }
        r
    }
}

/// The final model matrix of decoded tile content: the node transform
/// composed on the left with the y-up to z-up axis swap.
pub fn final_model_matrix(a: &Mat4i) -> (r: Mat4i)
    requires
        mat_bounded(*a, 0x4000_0000_0000_0000),
    ensures
        r == spec_yz_swap_of(*a),
{
    Mat4i {
        c0r0: a.c0r0, c0r1: -a.c0r2, c0r2: a.c0r1, c0r3: a.c0r3,
        c1r0: a.c1r0, c1r1: -a.c1r2, c1r2: a.c1r1, c1r3: a.c1r3,
        c2r0: a.c2r0, c2r1: -a.c2r2, c2r2: a.c2r1, c2r3: a.c2r3,
        c3r0: a.c3r0, c3r1: -a.c3r2, c3r2: a.c3r1, c3r3: a.c3r3,
    }
}

} // verus!
