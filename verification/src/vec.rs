//! Two-, three- and four-component vectors of fixed-point coordinates, with
//! exact contracts for every operation including the rounded ones.

use vstd::prelude::*;
use crate::fx::{
    div_f, div_floor, fx_div, fx_mul, iabs, isqrt, lemma_div_f_bound, lemma_div_f_le_abs,
    lemma_mul_bound, narrow, wide_mul,
};

verus! {

/// A two-component vector of fixed-point coordinates.
#[derive(Clone, Copy, PartialEq, Eq, Structural, Debug)]
pub struct Vec2 {
    pub x: i64,
    pub y: i64,
}

/// A three-component vector of fixed-point coordinates.
#[derive(Clone, Copy, PartialEq, Eq, Structural, Debug)]
pub struct Vec3 {
    pub x: i64,
    pub y: i64,
    pub z: i64,
}

/// A four-component vector of fixed-point coordinates; `w` carries the
/// homogeneous depth through projection.
#[derive(Clone, Copy, PartialEq, Eq, Structural, Debug)]
pub struct Vec4 {
    pub x: i64,
    pub y: i64,
    pub z: i64,
    pub w: i64,
}

/// All coordinates within `m` in magnitude.
pub open spec fn ok2(v: Vec2, m: int) -> bool {
    -m <= v.x <= m && -m <= v.y <= m
}

/// All coordinates within `m` in magnitude.
pub open spec fn ok3(v: Vec3, m: int) -> bool {
    -m <= v.x <= m && -m <= v.y <= m && -m <= v.z <= m
}

/// All coordinates within `m` in magnitude.
pub open spec fn ok4(v: Vec4, m: int) -> bool {
    -m <= v.x <= m && -m <= v.y <= m && -m <= v.z <= m && -m <= v.w <= m
}

/// Squared Euclidean length of a three-vector, in raw fixed-point units.
pub open spec fn norm_sq3(v: Vec3) -> int {
    v.x * v.x + v.y * v.y + v.z * v.z
}

/// The floor of the square root of a non-negative integer, written as the
/// unique value its defining inequalities allow.
pub open spec fn sqrt_f(n: int) -> int {
    choose|r: int| 0 <= r && #[trigger] (r * r) <= n && n < (r + 1) * (r + 1)
}

/// The defining inequalities of the floor square root pin it down.
pub proof fn lemma_sqrt_f_unique(n: int, r: int)
    requires
        0 <= r,
        r * r <= n,
        n < (r + 1) * (r + 1),
    ensures
        sqrt_f(n) == r,
{
    assert(0 <= r && r * r <= n && n < (r + 1) * (r + 1));
    let s = sqrt_f(n);
    assert(0 <= s && s * s <= n && n < (s + 1) * (s + 1));
    assert(s == r) by (nonlinear_arith)
        requires
            0 <= r,
            r * r <= n,
            n < (r + 1) * (r + 1),
            0 <= s,
            s * s <= n,
            n < (s + 1) * (s + 1),
    ;
}

impl Vec2 {
    pub fn new(x: i64, y: i64) -> (r: Vec2)
        ensures
            r.x == x,
            r.y == y,
    {
        Vec2 { x, y }
    }

    /// The signed magnitude of the z-component of the cross product of the
    /// two vectors, rescaled into fixed-point units.
    pub fn cross_z(&self, other: Vec2) -> (r: i64)
        requires
            ok2(*self, 0x7fff_ffff),
            ok2(other, 0x7fff_ffff),
        ensures
            r == div_f(self.x * other.y - self.y * other.x, 65536),
            -0x8000_0000_0000 <= r <= 0x8000_0000_0000,
    {
        let a = wide_mul(self.x, other.y);
        let b = wide_mul(self.y, other.x);
        proof {
            lemma_mul_bound(self.x as int, other.y as int, 0x8000_0000);
            lemma_mul_bound(self.y as int, other.x as int, 0x8000_0000);
            lemma_div_f_bound(a - b, 65536, 0x8000_0000_0000);
        }
        narrow(div_floor(a - b, 65536))
    }

    /// The dot product, rescaled into fixed-point units.
    pub fn dot(&self, other: Vec2) -> (r: i64)
        requires
            ok2(*self, 0x7fff_ffff),
            ok2(other, 0x7fff_ffff),
        ensures
            r == div_f(self.x * other.x + self.y * other.y, 65536),
            -0x8000_0000_0000 <= r <= 0x8000_0000_0000,
    {
        let a = wide_mul(self.x, other.x);
        let b = wide_mul(self.y, other.y);
        proof {
            lemma_mul_bound(self.x as int, other.x as int, 0x8000_0000);
            lemma_mul_bound(self.y as int, other.y as int, 0x8000_0000);
            lemma_div_f_bound(a + b, 65536, 0x8000_0000_0000);
        }
        narrow(div_floor(a + b, 65536))
    }

    /// The length of the vector in fixed-point units: because coordinates are
    /// scaled by `FX_ONE`, the raw square root of the raw squared length is
    /// already the scaled length.
    pub fn len(&self) -> (r: i64)
        requires
            ok2(*self, 0x7fff_ffff),
        ensures
            r == sqrt_f(norm_sq2(*self)),
            r * r <= norm_sq2(*self) < (r + 1) * (r + 1),
            0 <= r <= 0x1_0000_0000,
    {
        let a = wide_mul(self.x, self.x);
        let b = wide_mul(self.y, self.y);
        proof {
            lemma_mul_bound(self.x as int, self.x as int, 0x8000_0000);
            lemma_mul_bound(self.y as int, self.y as int, 0x8000_0000);
            assert(0 <= a && 0 <= b) by (nonlinear_arith)
                requires
                    a == self.x as int * self.x as int,
                    b == self.y as int * self.y as int,
            ;
        }
        let s = isqrt((a + b) as u64);
        proof {
            lemma_sqrt_f_unique((a + b) as int, s as int);
            assert(s <= 0x1_0000_0000) by (nonlinear_arith)
                requires
                    s as int * s as int <= 0x8000_0000_0000_0000,
                    0 <= s,
            ;
        }
        s as i64
    }

    /// The vector rescaled to unit length (within rounding).
    pub fn unit_norm(&self) -> (r: Vec2)
        requires
            ok2(*self, 0x7fff_ffff),
            norm_sq2(*self) > 0,
        ensures
            r.x == div_f(self.x * 65536, sqrt_f(norm_sq2(*self))),
            r.y == div_f(self.y * 65536, sqrt_f(norm_sq2(*self))),
            ok2(r, 65536),
    {
        let l = self.len();
        proof {
            assert(l > 0) by (nonlinear_arith)
                requires
                    l as int * l as int <= norm_sq2(*self),
                    norm_sq2(*self) < (l + 1) * (l + 1),
                    norm_sq2(*self) > 0,
                    l >= 0,
            ;
            lemma_div_f_le_abs(self.x * 65536, l as int);
            lemma_div_f_le_abs(self.y * 65536, l as int);
            lemma_mul_bound(self.x as int, 65536, 0x8000_0000_0000);
            lemma_mul_bound(self.y as int, 65536, 0x8000_0000_0000);
            assert(-(l as int) <= self.x <= l && -(l as int) <= self.y <= l) by (nonlinear_arith)
                requires
                    norm_sq2(*self) == self.x * self.x + self.y * self.y,
                    norm_sq2(*self) < (l + 1) * (l + 1),
                    l >= 0,
            ;
            lemma_div_f_bound(self.x * 65536, l as int, 65536);
            lemma_div_f_bound(self.y * 65536, l as int, 65536);
        }
        let x = narrow(div_floor(wide_mul(self.x, 65536), l as i128));
        let y = narrow(div_floor(wide_mul(self.y, 65536), l as i128));
        Vec2 { x, y }
    }

    pub fn add(self, other: Vec2) -> (r: Vec2)
        requires
            -0x8000_0000_0000_0000 <= self.x + other.x <= 0x7fff_ffff_ffff_ffff,
            -0x8000_0000_0000_0000 <= self.y + other.y <= 0x7fff_ffff_ffff_ffff,
        ensures
            r.x == self.x + other.x,
            r.y == self.y + other.y,
    {
        Vec2 { x: self.x + other.x, y: self.y + other.y }
    }

    pub fn sub(self, other: Vec2) -> (r: Vec2)
        requires
            -0x8000_0000_0000_0000 <= self.x - other.x <= 0x7fff_ffff_ffff_ffff,
            -0x8000_0000_0000_0000 <= self.y - other.y <= 0x7fff_ffff_ffff_ffff,
        ensures
            r.x == self.x - other.x,
            r.y == self.y - other.y,
    {
        Vec2 { x: self.x - other.x, y: self.y - other.y }
    }

    /// Componentwise scaling by a fixed-point factor.
    pub fn mul(self, s: i64) -> (r: Vec2)
        requires
            -0x7fff_ffff_ffff_ffff * 65536 <= self.x * s <= 0x7fff_ffff_ffff_ffff * 65536,
            -0x7fff_ffff_ffff_ffff * 65536 <= self.y * s <= 0x7fff_ffff_ffff_ffff * 65536,
        ensures
            r.x == div_f(self.x * s, 65536),
            r.y == div_f(self.y * s, 65536),
    {
        Vec2 { x: fx_mul(self.x, s), y: fx_mul(self.y, s) }
    }

    /// Componentwise division by a fixed-point factor.
    pub fn div(self, s: i64) -> (r: Vec2)
        requires
            s != 0,
            -0x7fff_ffff_ffff <= self.x <= 0x7fff_ffff_ffff,
            -0x7fff_ffff_ffff <= self.y <= 0x7fff_ffff_ffff,
        ensures
            r.x == div_f(self.x * 65536, s as int),
            r.y == div_f(self.y * 65536, s as int),
    {
        Vec2 { x: fx_div(self.x, s), y: fx_div(self.y, s) }
    }
}

/// Squared Euclidean length of a four-vector, in raw fixed-point units.
pub open spec fn norm_sq4(v: Vec4) -> int {
    v.x * v.x + v.y * v.y + v.z * v.z + v.w * v.w
}

/// Squared Euclidean length of a two-vector, in raw fixed-point units.
pub open spec fn norm_sq2(v: Vec2) -> int {
    v.x * v.x + v.y * v.y
}

impl Vec3 {
    pub fn new(x: i64, y: i64, z: i64) -> (r: Vec3)
        ensures
            r.x == x,
            r.y == y,
            r.z == z,
    {
        Vec3 { x, y, z }
    }

    /// The cross product, rescaled into fixed-point units.
    pub fn cross(&self, other: Vec3) -> (r: Vec3)
        requires
            ok3(*self, 0x7fff_ffff),
            ok3(other, 0x7fff_ffff),
        ensures
            r.x == div_f(self.y * other.z - self.z * other.y, 65536),
            r.y == div_f(self.z * other.x - self.x * other.z, 65536),
            r.z == div_f(self.x * other.y - self.y * other.x, 65536),
            ok3(r, 0x8000_0000_0000),
    {
        proof {
            lemma_mul_bound(self.y as int, other.z as int, 0x8000_0000);
            lemma_mul_bound(self.z as int, other.y as int, 0x8000_0000);
            lemma_mul_bound(self.z as int, other.x as int, 0x8000_0000);
            lemma_mul_bound(self.x as int, other.z as int, 0x8000_0000);
            lemma_mul_bound(self.x as int, other.y as int, 0x8000_0000);
            lemma_mul_bound(self.y as int, other.x as int, 0x8000_0000);
            lemma_div_f_bound(self.y * other.z - self.z * other.y, 65536, 0x8000_0000_0000);
            lemma_div_f_bound(self.z * other.x - self.x * other.z, 65536, 0x8000_0000_0000);
            lemma_div_f_bound(self.x * other.y - self.y * other.x, 65536, 0x8000_0000_0000);
        }
        let x = narrow(div_floor(wide_mul(self.y, other.z) - wide_mul(self.z, other.y), 65536));
        let y = narrow(div_floor(wide_mul(self.z, other.x) - wide_mul(self.x, other.z), 65536));
        let z = narrow(div_floor(wide_mul(self.x, other.y) - wide_mul(self.y, other.x), 65536));
        Vec3 { x, y, z }
    }

    /// The dot product, rescaled into fixed-point units.
    pub fn dot(&self, other: Vec3) -> (r: i64)
        requires
            ok3(*self, 0x7fff_ffff),
            ok3(other, 0x7fff_ffff),
        ensures
            r == div_f(self.x * other.x + self.y * other.y + self.z * other.z, 65536),
            -0xc000_0000_0000 <= r <= 0xc000_0000_0000,
    {
        let a = wide_mul(self.x, other.x);
        let b = wide_mul(self.y, other.y);
        let c = wide_mul(self.z, other.z);
        proof {
            lemma_mul_bound(self.x as int, other.x as int, 0x8000_0000);
            lemma_mul_bound(self.y as int, other.y as int, 0x8000_0000);
            lemma_mul_bound(self.z as int, other.z as int, 0x8000_0000);
            lemma_div_f_bound(a + b + c, 65536, 0xc000_0000_0000);
        }
        narrow(div_floor(a + b + c, 65536))
    }

    /// The length of the vector in fixed-point units.
    pub fn len(&self) -> (r: i64)
        requires
            ok3(*self, 0x7fff_ffff),
        ensures
            r == sqrt_f(norm_sq3(*self)),
            r * r <= norm_sq3(*self) < (r + 1) * (r + 1),
            0 <= r <= 0x1_8000_0000,
    {
        let a = wide_mul(self.x, self.x);
        let b = wide_mul(self.y, self.y);
        let c = wide_mul(self.z, self.z);
        proof {
            lemma_mul_bound(self.x as int, self.x as int, 0x8000_0000);
            lemma_mul_bound(self.y as int, self.y as int, 0x8000_0000);
            lemma_mul_bound(self.z as int, self.z as int, 0x8000_0000);
            assert(0 <= a && 0 <= b && 0 <= c) by (nonlinear_arith)
                requires
                    a == self.x as int * self.x as int,
                    b == self.y as int * self.y as int,
                    c == self.z as int * self.z as int,
            ;
        }
        let s = isqrt((a + b + c) as u64);
        proof {
            lemma_sqrt_f_unique((a + b + c) as int, s as int);
            assert(s <= 0x1_8000_0000) by (nonlinear_arith)
                requires
                    s as int * s as int <= 0xc000_0000_0000_0000,
                    0 <= s,
            ;
        }
        s as i64
    }

    /// The vector rescaled to unit length (within rounding).
    pub fn unit_norm(&self) -> (r: Vec3)
        requires
            ok3(*self, 0x7fff_ffff),
            norm_sq3(*self) > 0,
        ensures
            r.x == div_f(self.x * 65536, sqrt_f(norm_sq3(*self))),
            r.y == div_f(self.y * 65536, sqrt_f(norm_sq3(*self))),
            r.z == div_f(self.z * 65536, sqrt_f(norm_sq3(*self))),
            ok3(r, 65536),
    {
        let l = self.len();
        proof {
            assert(l > 0) by (nonlinear_arith)
                requires
                    l as int * l as int <= norm_sq3(*self),
                    norm_sq3(*self) < (l + 1) * (l + 1),
                    norm_sq3(*self) > 0,
                    l >= 0,
            ;
            lemma_div_f_le_abs(self.x * 65536, l as int);
            lemma_div_f_le_abs(self.y * 65536, l as int);
            lemma_div_f_le_abs(self.z * 65536, l as int);
            lemma_mul_bound(self.x as int, 65536, 0x8000_0000_0000);
            lemma_mul_bound(self.y as int, 65536, 0x8000_0000_0000);
            lemma_mul_bound(self.z as int, 65536, 0x8000_0000_0000);
            assert(-(l as int) <= self.x <= l && -(l as int) <= self.y <= l && -(l as int)
                <= self.z <= l) by (nonlinear_arith)
                requires
                    norm_sq3(*self) == self.x * self.x + self.y * self.y + self.z * self.z,
                    norm_sq3(*self) < (l + 1) * (l + 1),
                    l >= 0,
            ;
            lemma_div_f_bound(self.x * 65536, l as int, 65536);
            lemma_div_f_bound(self.y * 65536, l as int, 65536);
            lemma_div_f_bound(self.z * 65536, l as int, 65536);
        }
        let x = narrow(div_floor(wide_mul(self.x, 65536), l as i128));
        let y = narrow(div_floor(wide_mul(self.y, 65536), l as i128));
        let z = narrow(div_floor(wide_mul(self.z, 65536), l as i128));
        Vec3 { x, y, z }
    }

    /// The homogeneous form of the point, with `w` equal to one.
    pub fn to_vec4(&self) -> (r: Vec4)
        ensures
            r.x == self.x,
            r.y == self.y,
            r.z == self.z,
            r.w == 65536,
    {
        Vec4 { x: self.x, y: self.y, z: self.z, w: 65536 }
    }

    pub fn add(self, other: Vec3) -> (r: Vec3)
        requires
            -0x8000_0000_0000_0000 <= self.x + other.x <= 0x7fff_ffff_ffff_ffff,
            -0x8000_0000_0000_0000 <= self.y + other.y <= 0x7fff_ffff_ffff_ffff,
            -0x8000_0000_0000_0000 <= self.z + other.z <= 0x7fff_ffff_ffff_ffff,
        ensures
            r.x == self.x + other.x,
            r.y == self.y + other.y,
            r.z == self.z + other.z,
    {
        Vec3 { x: self.x + other.x, y: self.y + other.y, z: self.z + other.z }
    }

    pub fn sub(self, other: Vec3) -> (r: Vec3)
        requires
            -0x8000_0000_0000_0000 <= self.x - other.x <= 0x7fff_ffff_ffff_ffff,
            -0x8000_0000_0000_0000 <= self.y - other.y <= 0x7fff_ffff_ffff_ffff,
            -0x8000_0000_0000_0000 <= self.z - other.z <= 0x7fff_ffff_ffff_ffff,
        ensures
            r.x == self.x - other.x,
            r.y == self.y - other.y,
            r.z == self.z - other.z,
    {
        Vec3 { x: self.x - other.x, y: self.y - other.y, z: self.z - other.z }
    }

    /// Componentwise scaling by a fixed-point factor.
    pub fn mul(self, s: i64) -> (r: Vec3)
        requires
            -0x7fff_ffff_ffff_ffff * 65536 <= self.x * s <= 0x7fff_ffff_ffff_ffff * 65536,
            -0x7fff_ffff_ffff_ffff * 65536 <= self.y * s <= 0x7fff_ffff_ffff_ffff * 65536,
            -0x7fff_ffff_ffff_ffff * 65536 <= self.z * s <= 0x7fff_ffff_ffff_ffff * 65536,
        ensures
            r.x == div_f(self.x * s, 65536),
            r.y == div_f(self.y * s, 65536),
            r.z == div_f(self.z * s, 65536),
    {
        Vec3 { x: fx_mul(self.x, s), y: fx_mul(self.y, s), z: fx_mul(self.z, s) }
    }

    /// Componentwise division by a fixed-point factor.
    pub fn div(self, s: i64) -> (r: Vec3)
        requires
            s != 0,
            -0x7fff_ffff_ffff <= self.x <= 0x7fff_ffff_ffff,
            -0x7fff_ffff_ffff <= self.y <= 0x7fff_ffff_ffff,
            -0x7fff_ffff_ffff <= self.z <= 0x7fff_ffff_ffff,
        ensures
            r.x == div_f(self.x * 65536, s as int),
            r.y == div_f(self.y * 65536, s as int),
            r.z == div_f(self.z * 65536, s as int),
    {
        Vec3 { x: fx_div(self.x, s), y: fx_div(self.y, s), z: fx_div(self.z, s) }
    }
}

impl Vec4 {
    pub fn new(x: i64, y: i64, z: i64, w: i64) -> (r: Vec4)
        ensures
            r.x == x,
            r.y == y,
            r.z == z,
            r.w == w,
    {
        Vec4 { x, y, z, w }
    }

    /// The dot product, rescaled into fixed-point units.
    pub fn dot(&self, other: Vec4) -> (r: i64)
        requires
            ok4(*self, 0x7fff_ffff),
            ok4(other, 0x7fff_ffff),
        ensures
            r == div_f(
                self.x * other.x + self.y * other.y + self.z * other.z + self.w * other.w,
                65536,
            ),
    {
        let a = wide_mul(self.x, other.x);
        let b = wide_mul(self.y, other.y);
        let c = wide_mul(self.z, other.z);
        let d = wide_mul(self.w, other.w);
        proof {
            lemma_mul_bound(self.x as int, other.x as int, 0x8000_0000);
            lemma_mul_bound(self.y as int, other.y as int, 0x8000_0000);
            lemma_mul_bound(self.z as int, other.z as int, 0x8000_0000);
            lemma_mul_bound(self.w as int, other.w as int, 0x8000_0000);
            lemma_div_f_bound(a + b + c + d, 65536, 0x1_0000_0000_0000);
        }
        narrow(div_floor(a + b + c + d, 65536))
    }

    /// The length of the vector in fixed-point units.
    pub fn len(&self) -> (r: i64)
        requires
            ok4(*self, 0x7fff_ffff),
        ensures
            r == sqrt_f(norm_sq4(*self)),
            r * r <= norm_sq4(*self) < (r + 1) * (r + 1),
            0 <= r <= 0x2_0000_0000,
    {
        let a = wide_mul(self.x, self.x);
        let b = wide_mul(self.y, self.y);
        let c = wide_mul(self.z, self.z);
        let d = wide_mul(self.w, self.w);
        proof {
            lemma_mul_bound(self.x as int, self.x as int, 0x8000_0000);
            lemma_mul_bound(self.y as int, self.y as int, 0x8000_0000);
            lemma_mul_bound(self.z as int, self.z as int, 0x8000_0000);
            lemma_mul_bound(self.w as int, self.w as int, 0x8000_0000);
            assert(0 <= a && 0 <= b && 0 <= c && 0 <= d) by (nonlinear_arith)
                requires
                    a == self.x as int * self.x as int,
                    b == self.y as int * self.y as int,
                    c == self.z as int * self.z as int,
                    d == self.w as int * self.w as int,
            ;
            assert(a + b + c + d < 0x1_0000_0000_0000_0000) by (nonlinear_arith)
                requires
                    -0x8000_0000 < self.x < 0x8000_0000,
                    -0x8000_0000 < self.y < 0x8000_0000,
                    -0x8000_0000 < self.z < 0x8000_0000,
                    -0x8000_0000 < self.w < 0x8000_0000,
                    a == self.x as int * self.x as int,
                    b == self.y as int * self.y as int,
                    c == self.z as int * self.z as int,
                    d == self.w as int * self.w as int,
            ;
        }
        let s = isqrt((a + b + c + d) as u64);
        proof {
            lemma_sqrt_f_unique((a + b + c + d) as int, s as int);
            assert(s <= 0x2_0000_0000) by (nonlinear_arith)
                requires
                    s as int * s as int <= 0xffff_ffff_ffff_ffff,
                    0 <= s,
            ;
        }
        s as i64
    }

    /// The vector rescaled to unit length (within rounding).
    pub fn unit_norm(&self) -> (r: Vec4)
        requires
            ok4(*self, 0x7fff_ffff),
            norm_sq4(*self) > 0,
        ensures
            r.x == div_f(self.x * 65536, sqrt_f(norm_sq4(*self))),
            r.y == div_f(self.y * 65536, sqrt_f(norm_sq4(*self))),
            r.z == div_f(self.z * 65536, sqrt_f(norm_sq4(*self))),
            r.w == div_f(self.w * 65536, sqrt_f(norm_sq4(*self))),
            ok4(r, 65536),
    {
        let l = self.len();
        proof {
            assert(l > 0) by (nonlinear_arith)
                requires
                    l as int * l as int <= norm_sq4(*self),
                    norm_sq4(*self) < (l + 1) * (l + 1),
                    norm_sq4(*self) > 0,
                    l >= 0,
            ;
            lemma_div_f_le_abs(self.x * 65536, l as int);
            lemma_div_f_le_abs(self.y * 65536, l as int);
            lemma_div_f_le_abs(self.z * 65536, l as int);
            lemma_div_f_le_abs(self.w * 65536, l as int);
            lemma_mul_bound(self.x as int, 65536, 0x8000_0000_0000);
            lemma_mul_bound(self.y as int, 65536, 0x8000_0000_0000);
            lemma_mul_bound(self.z as int, 65536, 0x8000_0000_0000);
            lemma_mul_bound(self.w as int, 65536, 0x8000_0000_0000);
            assert(-(l as int) <= self.x <= l && -(l as int) <= self.y <= l && -(l as int)
                <= self.z <= l && -(l as int) <= self.w <= l) by (nonlinear_arith)
                requires
                    norm_sq4(*self) == self.x * self.x + self.y * self.y + self.z * self.z
                        + self.w * self.w,
                    norm_sq4(*self) < (l + 1) * (l + 1),
                    l >= 0,
            ;
            lemma_div_f_bound(self.x * 65536, l as int, 65536);
            lemma_div_f_bound(self.y * 65536, l as int, 65536);
            lemma_div_f_bound(self.z * 65536, l as int, 65536);
            lemma_div_f_bound(self.w * 65536, l as int, 65536);
        }
        let x = narrow(div_floor(wide_mul(self.x, 65536), l as i128));
        let y = narrow(div_floor(wide_mul(self.y, 65536), l as i128));
        let z = narrow(div_floor(wide_mul(self.z, 65536), l as i128));
        let w = narrow(div_floor(wide_mul(self.w, 65536), l as i128));
        Vec4 { x, y, z, w }
    }

    /// The screen-space position, dropping depth.
    pub fn to_vec2(&self) -> (r: Vec2)
        ensures
            r.x == self.x,
            r.y == self.y,
    {
        Vec2 { x: self.x, y: self.y }
    }

    pub fn to_vec3(&self) -> (r: Vec3)
        ensures
            r.x == self.x,
            r.y == self.y,
            r.z == self.z,
    {
        Vec3 { x: self.x, y: self.y, z: self.z }
    }

    pub fn add(self, other: Vec4) -> (r: Vec4)
        requires
            -0x8000_0000_0000_0000 <= self.x + other.x <= 0x7fff_ffff_ffff_ffff,
            -0x8000_0000_0000_0000 <= self.y + other.y <= 0x7fff_ffff_ffff_ffff,
            -0x8000_0000_0000_0000 <= self.z + other.z <= 0x7fff_ffff_ffff_ffff,
            -0x8000_0000_0000_0000 <= self.w + other.w <= 0x7fff_ffff_ffff_ffff,
        ensures
            r.x == self.x + other.x,
            r.y == self.y + other.y,
            r.z == self.z + other.z,
            r.w == self.w + other.w,
    {
        Vec4 {
            x: self.x + other.x,
            y: self.y + other.y,
            z: self.z + other.z,
            w: self.w + other.w,
        }
    }

    pub fn sub(self, other: Vec4) -> (r: Vec4)
        requires
            -0x8000_0000_0000_0000 <= self.x - other.x <= 0x7fff_ffff_ffff_ffff,
            -0x8000_0000_0000_0000 <= self.y - other.y <= 0x7fff_ffff_ffff_ffff,
            -0x8000_0000_0000_0000 <= self.z - other.z <= 0x7fff_ffff_ffff_ffff,
            -0x8000_0000_0000_0000 <= self.w - other.w <= 0x7fff_ffff_ffff_ffff,
        ensures
            r.x == self.x - other.x,
            r.y == self.y - other.y,
            r.z == self.z - other.z,
            r.w == self.w - other.w,
    {
        Vec4 {
            x: self.x - other.x,
            y: self.y - other.y,
            z: self.z - other.z,
            w: self.w - other.w,
        }
    }

    /// Componentwise scaling by a fixed-point factor.
    pub fn mul(self, s: i64) -> (r: Vec4)
        requires
            -0x7fff_ffff_ffff_ffff * 65536 <= self.x * s <= 0x7fff_ffff_ffff_ffff * 65536,
            -0x7fff_ffff_ffff_ffff * 65536 <= self.y * s <= 0x7fff_ffff_ffff_ffff * 65536,
            -0x7fff_ffff_ffff_ffff * 65536 <= self.z * s <= 0x7fff_ffff_ffff_ffff * 65536,
            -0x7fff_ffff_ffff_ffff * 65536 <= self.w * s <= 0x7fff_ffff_ffff_ffff * 65536,
        ensures
            r.x == div_f(self.x * s, 65536),
            r.y == div_f(self.y * s, 65536),
            r.z == div_f(self.z * s, 65536),
            r.w == div_f(self.w * s, 65536),
    {
        Vec4 { x: fx_mul(self.x, s), y: fx_mul(self.y, s), z: fx_mul(self.z, s), w: fx_mul(self.w, s) }
    }

    /// Componentwise division by a fixed-point factor.
    pub fn div(self, s: i64) -> (r: Vec4)
        requires
            s != 0,
            -0x7fff_ffff_ffff <= self.x <= 0x7fff_ffff_ffff,
            -0x7fff_ffff_ffff <= self.y <= 0x7fff_ffff_ffff,
            -0x7fff_ffff_ffff <= self.z <= 0x7fff_ffff_ffff,
            -0x7fff_ffff_ffff <= self.w <= 0x7fff_ffff_ffff,
        ensures
            r.x == div_f(self.x * 65536, s as int),
            r.y == div_f(self.y * 65536, s as int),
            r.z == div_f(self.z * 65536, s as int),
            r.w == div_f(self.w * 65536, s as int),
    {
        Vec4 { x: fx_div(self.x, s), y: fx_div(self.y, s), z: fx_div(self.z, s), w: fx_div(self.w, s) }
    }

    /// The position with the homogeneous depth in place of `z`.
    pub fn to_vec3_w(&self) -> (r: Vec3)
        ensures
            r.x == self.x,
            r.y == self.y,
            r.z == self.w,
    {
        Vec3 { x: self.x, y: self.y, z: self.w }
    }
}

} // verus!
