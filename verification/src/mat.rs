//! Four-by-four fixed-point matrices: constructors, products and
//! applications, each pinned to its exact rounded arithmetic.

use vstd::prelude::*;
use crate::fx::{div_f, div_floor, lemma_div_f_bound, lemma_mul_bound, narrow, wide_mul};
use crate::vec::{Vec3, Vec4};

verus! {

/// A 4 x 4 matrix of fixed-point entries, named row first: `m12` is the entry
/// in row 1, column 2.
#[derive(Clone, Copy, PartialEq, Eq, Structural, Debug)]
pub struct Mat4 {
    pub m00: i64, pub m01: i64, pub m02: i64, pub m03: i64,
    pub m10: i64, pub m11: i64, pub m12: i64, pub m13: i64,
    pub m20: i64, pub m21: i64, pub m22: i64, pub m23: i64,
    pub m30: i64, pub m31: i64, pub m32: i64, pub m33: i64,
}

/// The entry of `m` in row `r`, column `c`.
pub open spec fn mentry(m: Mat4, r: int, c: int) -> int {
    if r == 0 {
        if c == 0 { m.m00 as int } else if c == 1 { m.m01 as int }
        else if c == 2 { m.m02 as int } else { m.m03 as int }
    } else if r == 1 {
        if c == 0 { m.m10 as int } else if c == 1 { m.m11 as int }
        else if c == 2 { m.m12 as int } else { m.m13 as int }
    } else if r == 2 {
        if c == 0 { m.m20 as int } else if c == 1 { m.m21 as int }
        else if c == 2 { m.m22 as int } else { m.m23 as int }
    } else {
        if c == 0 { m.m30 as int } else if c == 1 { m.m31 as int }
        else if c == 2 { m.m32 as int } else { m.m33 as int }
    }
}

/// All sixteen entries within `b` in magnitude.
pub open spec fn ok_mat(m: Mat4, b: int) -> bool {
    &&& -b <= m.m00 <= b
    &&& -b <= m.m01 <= b
    &&& -b <= m.m02 <= b
    &&& -b <= m.m03 <= b
    &&& -b <= m.m10 <= b
    &&& -b <= m.m11 <= b
    &&& -b <= m.m12 <= b
    &&& -b <= m.m13 <= b
    &&& -b <= m.m20 <= b
    &&& -b <= m.m21 <= b
    &&& -b <= m.m22 <= b
    &&& -b <= m.m23 <= b
    &&& -b <= m.m30 <= b
    &&& -b <= m.m31 <= b
    &&& -b <= m.m32 <= b
    &&& -b <= m.m33 <= b
}

/// The entry of the fixed-point matrix product of `a` and `b` in row `r`,
/// column `c`: the exact dot product of a row with a column, rescaled.
pub open spec fn mul_entry(a: Mat4, b: Mat4, r: int, c: int) -> int {
    div_f(
        mentry(a, r, 0) * mentry(b, 0, c) + mentry(a, r, 1) * mentry(b, 1, c) + mentry(a, r, 2)
            * mentry(b, 2, c) + mentry(a, r, 3) * mentry(b, 3, c),
        65536,
    )
}

/// Row `r` of `m` applied to the homogeneous point `(v, FX_ONE)`.
pub open spec fn apply_row_v3(m: Mat4, r: int, v: Vec3) -> int {
    div_f(
        mentry(m, r, 0) * v.x + mentry(m, r, 1) * v.y + mentry(m, r, 2) * v.z + mentry(m, r, 3)
            * 65536,
        65536,
    )
}

/// Row `r` of `m` applied to the homogeneous vector `v`.
pub open spec fn apply_row_v4(m: Mat4, r: int, v: Vec4) -> int {
    div_f(
        mentry(m, r, 0) * v.x + mentry(m, r, 1) * v.y + mentry(m, r, 2) * v.z + mentry(m, r, 3)
            * v.w,
        65536,
    )
}

/// The fixed-point dot product of two rows of four, shared by the matrix
/// products.
fn dot4(a0: i64, a1: i64, a2: i64, a3: i64, b0: i64, b1: i64, b2: i64, b3: i64) -> (r: i64)
    requires
        -0x7fff_ffff <= a0 <= 0x7fff_ffff,
        -0x7fff_ffff <= a1 <= 0x7fff_ffff,
        -0x7fff_ffff <= a2 <= 0x7fff_ffff,
        -0x7fff_ffff <= a3 <= 0x7fff_ffff,
        -0x7fff_ffff <= b0 <= 0x7fff_ffff,
        -0x7fff_ffff <= b1 <= 0x7fff_ffff,
        -0x7fff_ffff <= b2 <= 0x7fff_ffff,
        -0x7fff_ffff <= b3 <= 0x7fff_ffff,
    ensures
        r == div_f(a0 * b0 + a1 * b1 + a2 * b2 + a3 * b3, 65536),
        -0x1_0000_0000_0000 <= r <= 0x1_0000_0000_0000,
{
    let p0 = wide_mul(a0, b0);
    let p1 = wide_mul(a1, b1);
    let p2 = wide_mul(a2, b2);
    let p3 = wide_mul(a3, b3);
    proof {
        lemma_mul_bound(a0 as int, b0 as int, 0x8000_0000);
        lemma_mul_bound(a1 as int, b1 as int, 0x8000_0000);
        lemma_mul_bound(a2 as int, b2 as int, 0x8000_0000);
        lemma_mul_bound(a3 as int, b3 as int, 0x8000_0000);
        lemma_div_f_bound(p0 + p1 + p2 + p3, 65536, 0x1_0000_0000_0000);
    }
    narrow(div_floor(p0 + p1 + p2 + p3, 65536))
}

impl Mat4 {
    /// The matrix with the given entries, row by row.
    #[allow(clippy::too_many_arguments)]
    pub fn new(
        f_00: i64, f_01: i64, f_02: i64, f_03: i64,
        f_10: i64, f_11: i64, f_12: i64, f_13: i64,
        f_20: i64, f_21: i64, f_22: i64, f_23: i64,
        f_30: i64, f_31: i64, f_32: i64, f_33: i64,
    ) -> (r: Mat4)
        ensures
            r == (Mat4 {
                m00: f_00, m01: f_01, m02: f_02, m03: f_03,
                m10: f_10, m11: f_11, m12: f_12, m13: f_13,
                m20: f_20, m21: f_21, m22: f_22, m23: f_23,
                m30: f_30, m31: f_31, m32: f_32, m33: f_33,
            }),
    {
        Mat4 {
            m00: f_00, m01: f_01, m02: f_02, m03: f_03,
            m10: f_10, m11: f_11, m12: f_12, m13: f_13,
            m20: f_20, m21: f_21, m22: f_22, m23: f_23,
            m30: f_30, m31: f_31, m32: f_32, m33: f_33,
        }
    }

    /// The all-zero matrix.
    pub fn zero() -> (r: Mat4)
        ensures
            forall|i: int, j: int| 0 <= i < 4 && 0 <= j < 4 ==> #[trigger] mentry(r, i, j) == 0,
    {
        Mat4::new(
            0, 0, 0, 0,
            0, 0, 0, 0,
            0, 0, 0, 0,
            0, 0, 0, 0,
        )
    }

    /// The identity, with ones in fixed-point form on the diagonal.
    pub fn identity() -> (r: Mat4)
        ensures
            forall|i: int, j: int|
                0 <= i < 4 && 0 <= j < 4 ==> #[trigger] mentry(r, i, j) == (
                if i == j {
                    65536int
                } else {
                    0int
                }),
    {
        Mat4::new(
            65536, 0, 0, 0,
            0, 65536, 0, 0,
            0, 0, 65536, 0,
            0, 0, 0, 65536,
        )
    }

    /// Scaling of each axis by a fixed-point factor.
    pub fn scale(x: i64, y: i64, z: i64) -> (r: Mat4)
        ensures
            r == (Mat4 {
                m00: x, m01: 0, m02: 0, m03: 0,
                m10: 0, m11: y, m12: 0, m13: 0,
                m20: 0, m21: 0, m22: z, m23: 0,
                m30: 0, m31: 0, m32: 0, m33: 65536,
            }),
    {
        Mat4::new(
            x, 0, 0, 0,
            0, y, 0, 0,
            0, 0, z, 0,
            0, 0, 0, 65536,
        )
    }

    /// Translation by a fixed-point offset.
    pub fn translate(x: i64, y: i64, z: i64) -> (r: Mat4)
        ensures
            r == (Mat4 {
                m00: 65536, m01: 0, m02: 0, m03: x,
                m10: 0, m11: 65536, m12: 0, m13: y,
                m20: 0, m21: 0, m22: 65536, m23: z,
                m30: 0, m31: 0, m32: 0, m33: 65536,
            }),
    {
        Mat4::new(
            65536, 0, 0, x,
            0, 65536, 0, y,
            0, 0, 65536, z,
            0, 0, 0, 65536,
        )
    }

    /// Rotation about the x axis, given the fixed-point cosine and sine of the
    /// angle (the trigonometry itself is left to the caller).
    pub fn rotate_x(cos_a: i64, sin_a: i64) -> (r: Mat4)
        requires
            -0x7fff_ffff_ffff_ffff <= sin_a,
        ensures
            r.m00 == 65536 && r.m01 == 0 && r.m02 == 0 && r.m03 == 0,
            r.m10 == 0 && r.m11 == cos_a && r.m12 == -sin_a && r.m13 == 0,
            r.m20 == 0 && r.m21 == sin_a && r.m22 == cos_a && r.m23 == 0,
            r.m30 == 0 && r.m31 == 0 && r.m32 == 0 && r.m33 == 65536,
            r == rot_x_spec(cos_a, sin_a),
    {
        Mat4::new(
            65536, 0, 0, 0,
            0, cos_a, -sin_a, 0,
            0, sin_a, cos_a, 0,
            0, 0, 0, 65536,
        )
    }

    /// Rotation about the y axis, given the fixed-point cosine and sine.
    pub fn rotate_y(cos_a: i64, sin_a: i64) -> (r: Mat4)
        requires
            -0x7fff_ffff_ffff_ffff <= sin_a,
        ensures
            r.m00 == cos_a && r.m01 == 0 && r.m02 == sin_a && r.m03 == 0,
            r.m10 == 0 && r.m11 == 65536 && r.m12 == 0 && r.m13 == 0,
            r.m20 == -sin_a && r.m21 == 0 && r.m22 == cos_a && r.m23 == 0,
            r.m30 == 0 && r.m31 == 0 && r.m32 == 0 && r.m33 == 65536,
            r == rot_y_spec(cos_a, sin_a),
    {
        Mat4::new(
            cos_a, 0, sin_a, 0,
            0, 65536, 0, 0,
            -sin_a, 0, cos_a, 0,
            0, 0, 0, 65536,
        )
    }

    /// Rotation about the z axis, given the fixed-point cosine and sine.
    pub fn rotate_z(cos_a: i64, sin_a: i64) -> (r: Mat4)
        requires
            -0x7fff_ffff_ffff_ffff <= sin_a,
        ensures
            r.m00 == cos_a && r.m01 == -sin_a && r.m02 == 0 && r.m03 == 0,
            r.m10 == sin_a && r.m11 == cos_a && r.m12 == 0 && r.m13 == 0,
            r.m20 == 0 && r.m21 == 0 && r.m22 == 65536 && r.m23 == 0,
            r.m30 == 0 && r.m31 == 0 && r.m32 == 0 && r.m33 == 65536,
            r == rot_z_spec(cos_a, sin_a),
    {
        Mat4::new(
            cos_a, -sin_a, 0, 0,
            sin_a, cos_a, 0, 0,
            0, 0, 65536, 0,
            0, 0, 0, 65536,
        )
    }

    /// The transposed matrix.
    pub fn transpose(&self) -> (r: Mat4)
        ensures
            forall|i: int, j: int|
                0 <= i < 4 && 0 <= j < 4 ==> #[trigger] mentry(r, i, j) == mentry(*self, j, i),
    {
        Mat4::new(
            self.m00, self.m10, self.m20, self.m30,
            self.m01, self.m11, self.m21, self.m31,
            self.m02, self.m12, self.m22, self.m32,
            self.m03, self.m13, self.m23, self.m33,
        )
    }

    /// The entry in the given row and column.
    pub fn get(&self, row: usize, column: usize) -> (r: i64)
        requires
            row < 4,
            column < 4,
        ensures
            r == mentry(*self, row as int, column as int),
    {
        if row == 0 {
            if column == 0 { self.m00 } else if column == 1 { self.m01 }
            else if column == 2 { self.m02 } else { self.m03 }
        } else if row == 1 {
            if column == 0 { self.m10 } else if column == 1 { self.m11 }
            else if column == 2 { self.m12 } else { self.m13 }
        } else if row == 2 {
            if column == 0 { self.m20 } else if column == 1 { self.m21 }
            else if column == 2 { self.m22 } else { self.m23 }
        } else {
            if column == 0 { self.m30 } else if column == 1 { self.m31 }
            else if column == 2 { self.m32 } else { self.m33 }
        }
    }

    /// Replace the entry in the given row and column.
    pub fn set(&mut self, row: usize, column: usize, value: i64)
        requires
            row < 4,
            column < 4,
        ensures
            mentry(*final(self), row as int, column as int) == value,
            forall|i: int, j: int|
                0 <= i < 4 && 0 <= j < 4 && !(i == row as int && j == column as int)
                    ==> #[trigger] mentry(*final(self), i, j) == mentry(*old(self), i, j),
    {
        if row == 0 {
            if column == 0 { self.m00 = value; } else if column == 1 { self.m01 = value; }
            else if column == 2 { self.m02 = value; } else { self.m03 = value; }
        } else if row == 1 {
            if column == 0 { self.m10 = value; } else if column == 1 { self.m11 = value; }
            else if column == 2 { self.m12 = value; } else { self.m13 = value; }
        } else if row == 2 {
            if column == 0 { self.m20 = value; } else if column == 1 { self.m21 = value; }
            else if column == 2 { self.m22 = value; } else { self.m23 = value; }
        } else {
            if column == 0 { self.m30 = value; } else if column == 1 { self.m31 = value; }
            else if column == 2 { self.m32 = value; } else { self.m33 = value; }
        }
    }

    /// The entrywise sum.
    pub fn add(self, other: Mat4) -> (r: Mat4)
        requires
            ok_mat(self, 0x3fff_ffff_ffff_ffff),
            ok_mat(other, 0x3fff_ffff_ffff_ffff),
        ensures
            forall|i: int, j: int|
                0 <= i < 4 && 0 <= j < 4 ==> #[trigger] mentry(r, i, j) == mentry(self, i, j)
                    + mentry(other, i, j),
    {
        Mat4::new(
            self.m00 + other.m00, self.m01 + other.m01, self.m02 + other.m02, self.m03 + other.m03,
            self.m10 + other.m10, self.m11 + other.m11, self.m12 + other.m12, self.m13 + other.m13,
            self.m20 + other.m20, self.m21 + other.m21, self.m22 + other.m22, self.m23 + other.m23,
            self.m30 + other.m30, self.m31 + other.m31, self.m32 + other.m32, self.m33 + other.m33,
        )
    }

    /// The entrywise difference.
    pub fn sub(self, other: Mat4) -> (r: Mat4)
        requires
            ok_mat(self, 0x3fff_ffff_ffff_ffff),
            ok_mat(other, 0x3fff_ffff_ffff_ffff),
        ensures
            forall|i: int, j: int|
                0 <= i < 4 && 0 <= j < 4 ==> #[trigger] mentry(r, i, j) == mentry(self, i, j)
                    - mentry(other, i, j),
    {
        Mat4::new(
            self.m00 - other.m00, self.m01 - other.m01, self.m02 - other.m02, self.m03 - other.m03,
            self.m10 - other.m10, self.m11 - other.m11, self.m12 - other.m12, self.m13 - other.m13,
            self.m20 - other.m20, self.m21 - other.m21, self.m22 - other.m22, self.m23 - other.m23,
            self.m30 - other.m30, self.m31 - other.m31, self.m32 - other.m32, self.m33 - other.m33,
        )
    }

    /// The matrix scaled entrywise by a fixed-point factor.
    pub fn mul_s(self, s: i64) -> (r: Mat4)
        requires
            ok_mat(self, 0x7fff_ffff),
            -0x7fff_ffff <= s <= 0x7fff_ffff,
        ensures
            forall|i: int, j: int|
                0 <= i < 4 && 0 <= j < 4 ==> #[trigger] mentry(r, i, j) == div_f(
                    mentry(self, i, j) * s,
                    65536,
                ),
    {
        let r = Mat4::new(
            dot4(self.m00, 0, 0, 0, s, 0, 0, 0), dot4(self.m01, 0, 0, 0, s, 0, 0, 0),
            dot4(self.m02, 0, 0, 0, s, 0, 0, 0), dot4(self.m03, 0, 0, 0, s, 0, 0, 0),
            dot4(self.m10, 0, 0, 0, s, 0, 0, 0), dot4(self.m11, 0, 0, 0, s, 0, 0, 0),
            dot4(self.m12, 0, 0, 0, s, 0, 0, 0), dot4(self.m13, 0, 0, 0, s, 0, 0, 0),
            dot4(self.m20, 0, 0, 0, s, 0, 0, 0), dot4(self.m21, 0, 0, 0, s, 0, 0, 0),
            dot4(self.m22, 0, 0, 0, s, 0, 0, 0), dot4(self.m23, 0, 0, 0, s, 0, 0, 0),
            dot4(self.m30, 0, 0, 0, s, 0, 0, 0), dot4(self.m31, 0, 0, 0, s, 0, 0, 0),
            dot4(self.m32, 0, 0, 0, s, 0, 0, 0), dot4(self.m33, 0, 0, 0, s, 0, 0, 0),
        );
        r
    }

    /// The fixed-point matrix product.
    pub fn mul(self, other: Mat4) -> (r: Mat4)
        requires
            ok_mat(self, 0x7fff_ffff),
            ok_mat(other, 0x7fff_ffff),
        ensures
            forall|i: int, j: int|
                0 <= i < 4 && 0 <= j < 4 ==> #[trigger] mentry(r, i, j) == mul_entry(
                    self,
                    other,
                    i,
                    j,
                ),
            r == mat_product(self, other),
    {
        Mat4::new(
            dot4(self.m00, self.m01, self.m02, self.m03, other.m00, other.m10, other.m20, other.m30),
            dot4(self.m00, self.m01, self.m02, self.m03, other.m01, other.m11, other.m21, other.m31),
            dot4(self.m00, self.m01, self.m02, self.m03, other.m02, other.m12, other.m22, other.m32),
            dot4(self.m00, self.m01, self.m02, self.m03, other.m03, other.m13, other.m23, other.m33),
            dot4(self.m10, self.m11, self.m12, self.m13, other.m00, other.m10, other.m20, other.m30),
            dot4(self.m10, self.m11, self.m12, self.m13, other.m01, other.m11, other.m21, other.m31),
            dot4(self.m10, self.m11, self.m12, self.m13, other.m02, other.m12, other.m22, other.m32),
            dot4(self.m10, self.m11, self.m12, self.m13, other.m03, other.m13, other.m23, other.m33),
            dot4(self.m20, self.m21, self.m22, self.m23, other.m00, other.m10, other.m20, other.m30),
            dot4(self.m20, self.m21, self.m22, self.m23, other.m01, other.m11, other.m21, other.m31),
            dot4(self.m20, self.m21, self.m22, self.m23, other.m02, other.m12, other.m22, other.m32),
            dot4(self.m20, self.m21, self.m22, self.m23, other.m03, other.m13, other.m23, other.m33),
            dot4(self.m30, self.m31, self.m32, self.m33, other.m00, other.m10, other.m20, other.m30),
            dot4(self.m30, self.m31, self.m32, self.m33, other.m01, other.m11, other.m21, other.m31),
            dot4(self.m30, self.m31, self.m32, self.m33, other.m02, other.m12, other.m22, other.m32),
            dot4(self.m30, self.m31, self.m32, self.m33, other.m03, other.m13, other.m23, other.m33),
        )
    }

    /// The matrix applied to a point, with an implicit homogeneous one.
    pub fn mul_vec3(self, v: Vec3) -> (r: Vec3)
        requires
            ok_mat(self, 0x7fff_ffff),
            crate::vec::ok3(v, 0x7fff_ffff),
        ensures
            r.x == apply_row_v3(self, 0, v),
            r.y == apply_row_v3(self, 1, v),
            r.z == apply_row_v3(self, 2, v),
            r == apply_v3(self, v),
            crate::vec::ok3(r, 0x1_0000_0000_0000),
    {
        let x = dot4(self.m00, self.m01, self.m02, self.m03, v.x, v.y, v.z, 65536);
        let y = dot4(self.m10, self.m11, self.m12, self.m13, v.x, v.y, v.z, 65536);
        let z = dot4(self.m20, self.m21, self.m22, self.m23, v.x, v.y, v.z, 65536);
        Vec3 { x, y, z }
    }

    /// The matrix applied to a homogeneous vector.
    pub fn mul_vec4(self, v: Vec4) -> (r: Vec4)
        requires
            ok_mat(self, 0x7fff_ffff),
            crate::vec::ok4(v, 0x7fff_ffff),
        ensures
            r.x == apply_row_v4(self, 0, v),
            r.y == apply_row_v4(self, 1, v),
            r.z == apply_row_v4(self, 2, v),
            r.w == apply_row_v4(self, 3, v),
    {
        let x = dot4(self.m00, self.m01, self.m02, self.m03, v.x, v.y, v.z, v.w);
        let y = dot4(self.m10, self.m11, self.m12, self.m13, v.x, v.y, v.z, v.w);
        let z = dot4(self.m20, self.m21, self.m22, self.m23, v.x, v.y, v.z, v.w);
        let w = dot4(self.m30, self.m31, self.m32, self.m33, v.x, v.y, v.z, v.w);
        Vec4 { x, y, z, w }
    }
}

/// Every entry of a fixed-point matrix product is bounded by the scaled
/// product of the factors' entry bounds.
pub proof fn lemma_mul_bound_mat(a: Mat4, b: Mat4, r: Mat4, ba: int, bb: int, m: int)
    requires
        ok_mat(a, ba),
        ok_mat(b, bb),
        0 <= ba,
        0 <= bb,
        4 * (ba * bb) <= m * 65536,
        0 <= m,
        forall|i: int, j: int|
            0 <= i < 4 && 0 <= j < 4 ==> #[trigger] mentry(r, i, j) == mul_entry(a, b, i, j),
    ensures
        ok_mat(r, m),
{
    assert forall|i: int, j: int|
        0 <= i < 4 && 0 <= j < 4 implies -m <= #[trigger] mentry(r, i, j) <= m by {
        crate::fx::lemma_mul_bound2(mentry(a, i, 0), mentry(b, 0, j), ba, bb);
        crate::fx::lemma_mul_bound2(mentry(a, i, 1), mentry(b, 1, j), ba, bb);
        crate::fx::lemma_mul_bound2(mentry(a, i, 2), mentry(b, 2, j), ba, bb);
        crate::fx::lemma_mul_bound2(mentry(a, i, 3), mentry(b, 3, j), ba, bb);
        crate::fx::lemma_div_f_bound(
            mentry(a, i, 0) * mentry(b, 0, j) + mentry(a, i, 1) * mentry(b, 1, j) + mentry(a, i, 2)
                * mentry(b, 2, j) + mentry(a, i, 3) * mentry(b, 3, j),
            65536,
            m,
        );
    }
    assert(mentry(r, 0, 0) == r.m00 && mentry(r, 0, 1) == r.m01 && mentry(r, 0, 2) == r.m02
        && mentry(r, 0, 3) == r.m03);
    assert(mentry(r, 1, 0) == r.m10 && mentry(r, 1, 1) == r.m11 && mentry(r, 1, 2) == r.m12
        && mentry(r, 1, 3) == r.m13);
    assert(mentry(r, 2, 0) == r.m20 && mentry(r, 2, 1) == r.m21 && mentry(r, 2, 2) == r.m22
        && mentry(r, 2, 3) == r.m23);
    assert(mentry(r, 3, 0) == r.m30 && mentry(r, 3, 1) == r.m31 && mentry(r, 3, 2) == r.m32
        && mentry(r, 3, 3) == r.m33);
}

/// The fixed-point product of two matrices, as a value.
pub open spec fn mat_product(a: Mat4, b: Mat4) -> Mat4 {
    Mat4 {
        m00: mul_entry(a, b, 0, 0) as i64,
        m01: mul_entry(a, b, 0, 1) as i64,
        m02: mul_entry(a, b, 0, 2) as i64,
        m03: mul_entry(a, b, 0, 3) as i64,
        m10: mul_entry(a, b, 1, 0) as i64,
        m11: mul_entry(a, b, 1, 1) as i64,
        m12: mul_entry(a, b, 1, 2) as i64,
        m13: mul_entry(a, b, 1, 3) as i64,
        m20: mul_entry(a, b, 2, 0) as i64,
        m21: mul_entry(a, b, 2, 1) as i64,
        m22: mul_entry(a, b, 2, 2) as i64,
        m23: mul_entry(a, b, 2, 3) as i64,
        m30: mul_entry(a, b, 3, 0) as i64,
        m31: mul_entry(a, b, 3, 1) as i64,
        m32: mul_entry(a, b, 3, 2) as i64,
        m33: mul_entry(a, b, 3, 3) as i64,
    }
}

/// The rotation about the x axis with the given fixed-point cosine and sine.
pub open spec fn rot_x_spec(c: i64, s: i64) -> Mat4 {
    Mat4 {
        m00: 65536, m01: 0, m02: 0, m03: 0,
        m10: 0, m11: c, m12: (-s) as i64, m13: 0,
        m20: 0, m21: s, m22: c, m23: 0,
        m30: 0, m31: 0, m32: 0, m33: 65536,
    }
}

/// The rotation about the y axis with the given fixed-point cosine and sine.
pub open spec fn rot_y_spec(c: i64, s: i64) -> Mat4 {
    Mat4 {
        m00: c, m01: 0, m02: s, m03: 0,
        m10: 0, m11: 65536, m12: 0, m13: 0,
        m20: (-s) as i64, m21: 0, m22: c, m23: 0,
        m30: 0, m31: 0, m32: 0, m33: 65536,
    }
}

/// The rotation about the z axis with the given fixed-point cosine and sine.
pub open spec fn rot_z_spec(c: i64, s: i64) -> Mat4 {
    Mat4 {
        m00: c, m01: (-s) as i64, m02: 0, m03: 0,
        m10: s, m11: c, m12: 0, m13: 0,
        m20: 0, m21: 0, m22: 65536, m23: 0,
        m30: 0, m31: 0, m32: 0, m33: 65536,
    }
}

/// The matrix applied to a homogeneous point, as a value.
pub open spec fn apply_v3(m: Mat4, v: Vec3) -> Vec3 {
    Vec3 {
        x: apply_row_v3(m, 0, v) as i64,
        y: apply_row_v3(m, 1, v) as i64,
        z: apply_row_v3(m, 2, v) as i64,
    }
}

} // verus!
