//! The triangle rasterizer: the edge-function fill test with a watertight
//! boundary tie-break, perspective-correct interpolation with one final
//! rounding, depth-tested flat and textured fills with per-pixel contracts,
//! and the accumulated-error line stroke.

use vstd::prelude::*;
use vstd::arithmetic::div_mod::{lemma_div_of0, lemma_fundamental_div_mod_converse_div};
use crate::fx::{
    div_f, div_floor, fx_round, iabs, lemma_div_f_bound, lemma_div_f_le_abs, lemma_div_f_ordered,
    lemma_mul_bound, lemma_mul_bound2, narrow, wide_mul, wide_mul128,
};
use crate::clip::B_UV;
use crate::mesh::{tex_wf, Mesh, Texture};
use crate::pixel_renderer::Color;
use crate::vec::{ok2, ok4, Vec2, Vec4};

verus! {

/// Screen-space coordinates stay within this bound (4096 pixels, in
/// fixed-point form).
pub const B_SCR: i64 = 0x1000_0000;

/// Homogeneous depths stay within this bound (32 units).
pub const B_W: i64 = 0x20_0000;

/// A screen-space vertex the rasterizer can work with: coordinates within the
/// screen bound and a strictly positive bounded depth (the clipper's near
/// plane guarantees the latter).
pub open spec fn tri_wf(v: Vec4) -> bool {
    &&& ok4(v, B_SCR as int)
    &&& 1 <= v.w <= B_W
}

/// The z-component of the cross product of the vectors `(vx, vy)` and
/// `(wx, wy)`, unscaled.
pub open spec fn ecross(vx: int, vy: int, wx: int, wy: int) -> int {
    vx * wy - vy * wx
}

/// The deterministic boundary tie-break: an edge pointing downward, or
/// exactly rightward, owns the pixels on its line.
pub open spec fn edge_tl(ex: int, ey: int) -> bool {
    ey > 0 || (ey == 0 && ex > 0)
}

/// The side of the directed edge through `(vx, vy)` along `(ex, ey)` that the
/// point `(px, py)` falls on: `1` or `-1`, with points exactly on the edge
/// assigned by the tie-break so that two opposite edges never share them.
pub open spec fn edge_sign(px: int, py: int, vx: int, vy: int, ex: int, ey: int) -> int {
    let cr = ecross(ex, ey, px - vx, py - vy);
    if cr > 0 {
        1
    } else if cr < 0 {
        -1
    } else if edge_tl(ex, ey) {
        1
    } else {
        -1
    }
}

/// Whether the triangle `a b c` covers the point `(px, py)` (in fixed-point
/// screen coordinates): the point is on the same side of all three directed
/// edges, boundary pixels counted by the tie-break.
pub open spec fn tri_covers(a: Vec4, b: Vec4, c: Vec4, px: int, py: int) -> bool {
    let sa = edge_sign(px, py, a.x as int, a.y as int, b.x - a.x, b.y - a.y);
    let sb = edge_sign(px, py, b.x as int, b.y as int, c.x - b.x, c.y - b.y);
    let sc = edge_sign(px, py, c.x as int, c.y as int, a.x - c.x, a.y - c.y);
    sa == sb && sa == sc
}

/// The screen-space barycentric numerator of vertex `a`: the edge function of
/// the opposite edge `b c` at the point.
pub open spec fn lam_a(a: Vec4, b: Vec4, c: Vec4, px: int, py: int) -> int {
    ecross(c.x - b.x, c.y - b.y, px - b.x, py - b.y)
}

pub open spec fn lam_b(a: Vec4, b: Vec4, c: Vec4, px: int, py: int) -> int {
    ecross(a.x - c.x, a.y - c.y, px - c.x, py - c.y)
}

pub open spec fn lam_c(a: Vec4, b: Vec4, c: Vec4, px: int, py: int) -> int {
    ecross(b.x - a.x, b.y - a.y, px - a.x, py - a.y)
}

/// The perspective-corrected weight of vertex `a`. Each screen-space weight
/// is divided by its own vertex's depth; multiplying all three by the
/// positive product of the depths clears the fractions without changing the
/// blend, so the weight of `a` carries the depths of `b` and `c`.
pub open spec fn pw_a(a: Vec4, b: Vec4, c: Vec4, px: int, py: int) -> int {
    lam_a(a, b, c, px, py) * (b.w * c.w)
}

pub open spec fn pw_b(a: Vec4, b: Vec4, c: Vec4, px: int, py: int) -> int {
    lam_b(a, b, c, px, py) * (a.w * c.w)
}

pub open spec fn pw_c(a: Vec4, b: Vec4, c: Vec4, px: int, py: int) -> int {
    lam_c(a, b, c, px, py) * (a.w * b.w)
}

/// The normalizer of the perspective-corrected weights.
pub open spec fn interp_den(a: Vec4, b: Vec4, c: Vec4, px: int, py: int) -> int {
    pw_a(a, b, c, px, py) + pw_b(a, b, c, px, py) + pw_c(a, b, c, px, py)
}

/// The perspective-correct blend of the three vertex values `qa qb qc` at the
/// point, rounded once at the end.
pub open spec fn interp_val(
    a: Vec4,
    b: Vec4,
    c: Vec4,
    px: int,
    py: int,
    qa: int,
    qb: int,
    qc: int,
) -> int {
    div_f(
        qa * pw_a(a, b, c, px, py) + qb * pw_b(a, b, c, px, py) + qc * pw_c(a, b, c, px, py),
        interp_den(a, b, c, px, py),
    )
}

/// The interpolated homogeneous depth at the point: the blend of the three
/// vertex depths.
pub open spec fn interp_w(a: Vec4, b: Vec4, c: Vec4, px: int, py: int) -> int {
    interp_val(a, b, c, px, py, a.w as int, b.w as int, c.w as int)
}

/// The three screen-space weights agree in sign, as they do at every covered
/// point.
pub open spec fn lams_consistent(a: Vec4, b: Vec4, c: Vec4, px: int, py: int) -> bool {
    ||| (lam_a(a, b, c, px, py) >= 0 && lam_b(a, b, c, px, py) >= 0 && lam_c(a, b, c, px, py)
        >= 0)
    ||| (lam_a(a, b, c, px, py) <= 0 && lam_b(a, b, c, px, py) <= 0 && lam_c(a, b, c, px, py)
        <= 0)
}

/// The least and greatest of three fixed-point values, rounded to the
/// nearest whole pixel, as the raster loop bounds.
pub fn min_max(a: i64, b: i64, c: i64) -> (r: (i64, i64))
    requires
        -0x1000_0000 <= a <= 0x1000_0000,
        -0x1000_0000 <= b <= 0x1000_0000,
        -0x1000_0000 <= c <= 0x1000_0000,
    ensures
        r.0 == div_f(
            (if a <= b && a <= c {
                a
            } else if b <= c {
                b
            } else {
                c
            }) + 32768,
            65536,
        ),
        r.1 == div_f(
            (if a >= b && a >= c {
                a
            } else if b >= c {
                b
            } else {
                c
            }) + 32768,
            65536,
        ),
        -4097 <= r.0 <= 4097,
        -4097 <= r.1 <= 4097,
        r.0 <= r.1,
{
    let lo: i64 = if a <= b && a <= c {
        a
    } else if b <= c {
        b
    } else {
        c
    };
    let hi: i64 = if a >= b && a >= c {
        a
    } else if b >= c {
        b
    } else {
        c
    };
    let rlo = fx_round(lo);
    let rhi = fx_round(hi);
    proof {
        lemma_div_f_bound(lo + 32768, 65536, 4097);
        lemma_div_f_bound(hi + 32768, 65536, 4097);
        lemma_div_f_ordered(lo + 32768, hi + 32768, 65536);
    }
    (rlo, rhi)
}

/// The side of a directed edge that a point falls on, with the boundary
/// tie-break. `p` and `vert` are points in fixed-point screen coordinates;
/// `edge_from_vert` is the edge direction out of `vert`.
pub fn cross_edge(p: Vec2, vert: Vec2, edge_from_vert: Vec2) -> (r: i64)
    requires
        ok2(p, 0x2000_0000),
        ok2(vert, 0x2000_0000),
        ok2(edge_from_vert, 0x4000_0000),
    ensures
        r == edge_sign(
            p.x as int,
            p.y as int,
            vert.x as int,
            vert.y as int,
            edge_from_vert.x as int,
            edge_from_vert.y as int,
        ),
{
    let cx = wide_mul(edge_from_vert.x, p.y - vert.y);
    let cy = wide_mul(edge_from_vert.y, p.x - vert.x);
    proof {
        lemma_mul_bound(edge_from_vert.x as int, p.y - vert.y, 0x4000_0000);
        lemma_mul_bound(edge_from_vert.y as int, p.x - vert.x, 0x4000_0000);
    }
    let cr = cx - cy;
    if cr > 0 {
        1
    } else if cr < 0 {
        -1
    } else if edge_from_vert.y > 0 || (edge_from_vert.y == 0 && edge_from_vert.x > 0) {
        1
    } else {
        -1
    }
}

/// A color with each channel scaled by a fixed-point intensity, rounded to
/// the nearest value and clamped to the byte range.
pub fn color_mul(color: Color, multiplier: i64) -> (r: Color)
    requires
        0 <= multiplier <= 0x20_0000,
    ensures
        r.r == scaled_channel(color.r as int, multiplier as int),
        r.g == scaled_channel(color.g as int, multiplier as int),
        r.b == scaled_channel(color.b as int, multiplier as int),
        r == flat_shaded(color, multiplier as int),
{
    Color {
        r: channel_mul(color.r, multiplier),
        g: channel_mul(color.g, multiplier),
        b: channel_mul(color.b, multiplier),
    }
}

/// A color with each channel scaled by an intensity, as a value.
pub open spec fn flat_shaded(c: Color, li: int) -> Color {
    Color {
        r: scaled_channel(c.r as int, li) as u8,
        g: scaled_channel(c.g as int, li) as u8,
        b: scaled_channel(c.b as int, li) as u8,
    }
}

/// One channel scaled by a fixed-point intensity: rounded to nearest, then
/// clamped to the byte range.
pub open spec fn scaled_channel(ch: int, m: int) -> int {
    let v = div_f(ch * m + 32768, 65536);
    if v < 0 {
        0
    } else if v > 255 {
        255
    } else {
        v
    }
}

fn channel_mul(ch: u8, m: i64) -> (r: u8)
    requires
        0 <= m <= 0x20_0000,
    ensures
        r == scaled_channel(ch as int, m as int),
{
    let p = wide_mul(ch as i64, m);
    proof {
        lemma_mul_bound2(ch as int, m as int, 255, 0x20_0000);
        lemma_div_f_bound(p as int + 32768, 65536, 0x7fff_ffff);
    }
    let v = narrow(div_floor(p + 32768, 65536));
    if v < 0 {
        0
    } else if v > 255 {
        255
    } else {
        v as u8
    }
}

/// The three perspective-corrected weights at a point, computed exactly.
fn interp_parts(a: &Vec4, b: &Vec4, c: &Vec4, px: i64, py: i64) -> (r: (i128, i128, i128))
    requires
        tri_wf(*a),
        tri_wf(*b),
        tri_wf(*c),
        -0x1100_0000 <= px <= 0x1100_0000,
        -0x1100_0000 <= py <= 0x1100_0000,
    ensures
        r.0 == pw_a(*a, *b, *c, px as int, py as int),
        r.1 == pw_b(*a, *b, *c, px as int, py as int),
        r.2 == pw_c(*a, *b, *c, px as int, py as int),
        -0x40_0000_0000_0000_0000_0000_0000 <= r.0 <= 0x40_0000_0000_0000_0000_0000_0000,
        -0x40_0000_0000_0000_0000_0000_0000 <= r.1 <= 0x40_0000_0000_0000_0000_0000_0000,
        -0x40_0000_0000_0000_0000_0000_0000 <= r.2 <= 0x40_0000_0000_0000_0000_0000_0000,
{
    proof {
        lemma_mul_bound(c.x - b.x, py - b.y as int, 0x2200_0000);
        lemma_mul_bound(c.y - b.y, px - b.x as int, 0x2200_0000);
        lemma_mul_bound(a.x - c.x, py - c.y as int, 0x2200_0000);
        lemma_mul_bound(a.y - c.y, px - c.x as int, 0x2200_0000);
        lemma_mul_bound(b.x - a.x, py - a.y as int, 0x2200_0000);
        lemma_mul_bound(b.y - a.y, px - a.x as int, 0x2200_0000);
        lemma_mul_bound2(b.w as int, c.w as int, 0x20_0000, 0x20_0000);
        lemma_mul_bound2(a.w as int, c.w as int, 0x20_0000, 0x20_0000);
        lemma_mul_bound2(a.w as int, b.w as int, 0x20_0000, 0x20_0000);
    }
    let la = wide_mul(c.x - b.x, py - b.y) - wide_mul(c.y - b.y, px - b.x);
    let lb = wide_mul(a.x - c.x, py - c.y) - wide_mul(a.y - c.y, px - c.x);
    let lc = wide_mul(b.x - a.x, py - a.y) - wide_mul(b.y - a.y, px - a.x);
    let wbc = wide_mul(b.w, c.w);
    let wac = wide_mul(a.w, c.w);
    let wab = wide_mul(a.w, b.w);
    proof {
        lemma_mul_bound2(la as int, wbc as int, 0x908_0000_0000_0000, 0x400_0000_0000);
        lemma_mul_bound2(lb as int, wac as int, 0x908_0000_0000_0000, 0x400_0000_0000);
        lemma_mul_bound2(lc as int, wab as int, 0x908_0000_0000_0000, 0x400_0000_0000);
    }
    let pa = wide_mul128(la, wbc);
    let pb = wide_mul128(lb, wac);
    let pc = wide_mul128(lc, wab);
    (pa, pb, pc)
}

/// When the weights agree in sign and the normalizer is not zero, the blend
/// of values within a bound stays within a hair of that bound.
proof fn lemma_interp_val_bounds(
    pa: int,
    pb: int,
    pc: int,
    qa: int,
    qb: int,
    qc: int,
    lo: int,
    hi: int,
)
    requires
        (pa >= 0 && pb >= 0 && pc >= 0) || (pa <= 0 && pb <= 0 && pc <= 0),
        pa + pb + pc != 0,
        lo <= qa <= hi,
        lo <= qb <= hi,
        lo <= qc <= hi,
    ensures
        lo <= div_f(qa * pa + qb * pb + qc * pc, pa + pb + pc) <= hi,
{
    let den = pa + pb + pc;
    let num = qa * pa + qb * pb + qc * pc;
    if den > 0 {
        assert(lo * den <= num <= hi * den) by (nonlinear_arith)
            requires
                pa >= 0 && pb >= 0 && pc >= 0,
                den == pa + pb + pc,
                num == qa * pa + qb * pb + qc * pc,
                lo <= qa <= hi,
                lo <= qb <= hi,
                lo <= qc <= hi,
        ;
        lemma_div_f_ordered(lo * den, num, den);
        lemma_div_f_ordered(num, hi * den, den);
        lemma_div_f_exact(lo, den);
        lemma_div_f_exact(hi, den);
    } else {
        assert(hi * den <= num <= lo * den) by (nonlinear_arith)
            requires
                pa <= 0 && pb <= 0 && pc <= 0,
                den == pa + pb + pc,
                num == qa * pa + qb * pb + qc * pc,
                lo <= qa <= hi,
                lo <= qb <= hi,
                lo <= qc <= hi,
        ;
        assert(div_f(num, den) == div_f(-num, -den));
        assert(-(lo * den) <= -num <= -(hi * den));
        assert(-(lo * den) == lo * (-den) && -(hi * den) == hi * (-den)) by (nonlinear_arith);
        lemma_div_f_ordered(lo * (-den), -num, -den);
        lemma_div_f_ordered(-num, hi * (-den), -den);
        lemma_div_f_exact(lo, -den);
        lemma_div_f_exact(hi, -den);
    }
}

/// A whole multiple of a positive divisor divides back exactly.
proof fn lemma_div_f_exact(k: int, d: int)
    requires
        d > 0,
    ensures
        div_f(k * d, d) == k,
{
    lemma_fundamental_div_mod_converse_div(k * d, d, k, 0);
}

/// The perspective-correct texture coordinate and depth at a point: each
/// screen-space barycentric weight is divided by its vertex's depth and the
/// three are renormalized, so that the blend is affine in world space rather
/// than in screen space; interpolating screen-space values directly would
/// warp the texture under perspective. Returns nothing when the triangle is
/// degenerate at this point (a zero normalizer).
pub fn interpolate_uv(
    p: Vec2,
    a4: Vec4,
    b4: Vec4,
    c4: Vec4,
    a_uv: Vec2,
    b_uv: Vec2,
    c_uv: Vec2,
) -> (r: Option<(Vec2, i64)>)
    requires
        tri_wf(a4),
        tri_wf(b4),
        tri_wf(c4),
        ok2(a_uv, B_UV as int),
        ok2(b_uv, B_UV as int),
        ok2(c_uv, B_UV as int),
        -0x1100_0000 <= p.x <= 0x1100_0000,
        -0x1100_0000 <= p.y <= 0x1100_0000,
        lams_consistent(a4, b4, c4, p.x as int, p.y as int),
    ensures
        r is Some <==> interp_den(a4, b4, c4, p.x as int, p.y as int) != 0,
        r matches Some(v) ==> {
            let px = p.x as int;
            let py = p.y as int;
            &&& v.0.x == interp_val(a4, b4, c4, px, py, a_uv.x as int, b_uv.x as int, c_uv.x as int)
            &&& v.0.y == interp_val(a4, b4, c4, px, py, a_uv.y as int, b_uv.y as int, c_uv.y as int)
            &&& v.1 == interp_w(a4, b4, c4, px, py)
            &&& 1 <= v.1 <= B_W
            &&& ok2(v.0, B_UV as int)
        },
{
    let (pa, pb, pc) = interp_parts(&a4, &b4, &c4, p.x, p.y);
    let den = pa + pb + pc;
    if den == 0 {
        return None;
    }
    proof {
        assert((pa >= 0 && pb >= 0 && pc >= 0) || (pa <= 0 && pb <= 0 && pc <= 0)) by {
            assert(b4.w * c4.w > 0 && a4.w * c4.w > 0 && a4.w * b4.w > 0) by (nonlinear_arith)
                requires
                    a4.w >= 1,
                    b4.w >= 1,
                    c4.w >= 1,
            ;
            if lam_a(a4, b4, c4, p.x as int, p.y as int) >= 0 && lam_b(
                a4,
                b4,
                c4,
                p.x as int,
                p.y as int,
            ) >= 0 && lam_c(a4, b4, c4, p.x as int, p.y as int) >= 0 {
                assert(pa >= 0 && pb >= 0 && pc >= 0) by (nonlinear_arith)
                    requires
                        pa == lam_a(a4, b4, c4, p.x as int, p.y as int) * (b4.w * c4.w),
                        pb == lam_b(a4, b4, c4, p.x as int, p.y as int) * (a4.w * c4.w),
                        pc == lam_c(a4, b4, c4, p.x as int, p.y as int) * (a4.w * b4.w),
                        lam_a(a4, b4, c4, p.x as int, p.y as int) >= 0,
                        lam_b(a4, b4, c4, p.x as int, p.y as int) >= 0,
                        lam_c(a4, b4, c4, p.x as int, p.y as int) >= 0,
                        b4.w * c4.w > 0,
                        a4.w * c4.w > 0,
                        a4.w * b4.w > 0,
                ;
            } else {
                assert(pa <= 0 && pb <= 0 && pc <= 0) by (nonlinear_arith)
                    requires
                        pa == lam_a(a4, b4, c4, p.x as int, p.y as int) * (b4.w * c4.w),
                        pb == lam_b(a4, b4, c4, p.x as int, p.y as int) * (a4.w * c4.w),
                        pc == lam_c(a4, b4, c4, p.x as int, p.y as int) * (a4.w * b4.w),
                        lam_a(a4, b4, c4, p.x as int, p.y as int) <= 0,
                        lam_b(a4, b4, c4, p.x as int, p.y as int) <= 0,
                        lam_c(a4, b4, c4, p.x as int, p.y as int) <= 0,
                        b4.w * c4.w > 0,
                        a4.w * c4.w > 0,
                        a4.w * b4.w > 0,
                ;
            }
        };
        lemma_mul_bound2(a_uv.x as int, pa as int, 0x20_0000, 0x40_0000_0000_0000_0000_0000_0000);
        lemma_mul_bound2(b_uv.x as int, pb as int, 0x20_0000, 0x40_0000_0000_0000_0000_0000_0000);
        lemma_mul_bound2(c_uv.x as int, pc as int, 0x20_0000, 0x40_0000_0000_0000_0000_0000_0000);
        lemma_mul_bound2(a_uv.y as int, pa as int, 0x20_0000, 0x40_0000_0000_0000_0000_0000_0000);
        lemma_mul_bound2(b_uv.y as int, pb as int, 0x20_0000, 0x40_0000_0000_0000_0000_0000_0000);
        lemma_mul_bound2(c_uv.y as int, pc as int, 0x20_0000, 0x40_0000_0000_0000_0000_0000_0000);
        lemma_mul_bound2(a4.w as int, pa as int, 0x20_0000, 0x40_0000_0000_0000_0000_0000_0000);
        lemma_mul_bound2(b4.w as int, pb as int, 0x20_0000, 0x40_0000_0000_0000_0000_0000_0000);
        lemma_mul_bound2(c4.w as int, pc as int, 0x20_0000, 0x40_0000_0000_0000_0000_0000_0000);
        lemma_interp_val_bounds(
            pa as int,
            pb as int,
            pc as int,
            a_uv.x as int,
            b_uv.x as int,
            c_uv.x as int,
            -(B_UV as int),
            B_UV as int,
        );
        lemma_interp_val_bounds(
            pa as int,
            pb as int,
            pc as int,
            a_uv.y as int,
            b_uv.y as int,
            c_uv.y as int,
            -(B_UV as int),
            B_UV as int,
        );
        lemma_interp_val_bounds(
            pa as int,
            pb as int,
            pc as int,
            a4.w as int,
            b4.w as int,
            c4.w as int,
            1,
            B_W as int,
        );
    }
    let nx = wide_mul128(a_uv.x as i128, pa) + wide_mul128(b_uv.x as i128, pb) + wide_mul128(
        c_uv.x as i128,
        pc,
    );
    let ny = wide_mul128(a_uv.y as i128, pa) + wide_mul128(b_uv.y as i128, pb) + wide_mul128(
        c_uv.y as i128,
        pc,
    );
    let nw = wide_mul128(a4.w as i128, pa) + wide_mul128(b4.w as i128, pb) + wide_mul128(
        c4.w as i128,
        pc,
    );
    let ux = narrow(div_floor(nx, den));
    let uy = narrow(div_floor(ny, den));
    let w = narrow(div_floor(nw, den));
    Some((Vec2 { x: ux, y: uy }, w))
}

/// The least of three values.
pub open spec fn bb_min3(a: int, b: int, c: int) -> int {
    if a <= b && a <= c {
        a
    } else if b <= c {
        b
    } else {
        c
    }
}

/// The greatest of three values.
pub open spec fn bb_max3(a: int, b: int, c: int) -> int {
    if a >= b && a >= c {
        a
    } else if b >= c {
        b
    } else {
        c
    }
}

/// The raster loop's column bounds: the triangle's horizontal extent rounded
/// to whole pixels.
pub open spec fn tri_xlo(a: Vec4, b: Vec4, c: Vec4) -> int {
    div_f(bb_min3(a.x as int, b.x as int, c.x as int) + 32768, 65536)
}

pub open spec fn tri_xhi(a: Vec4, b: Vec4, c: Vec4) -> int {
    div_f(bb_max3(a.x as int, b.x as int, c.x as int) + 32768, 65536)
}

pub open spec fn tri_ylo(a: Vec4, b: Vec4, c: Vec4) -> int {
    div_f(bb_min3(a.y as int, b.y as int, c.y as int) + 32768, 65536)
}

pub open spec fn tri_yhi(a: Vec4, b: Vec4, c: Vec4) -> int {
    div_f(bb_max3(a.y as int, b.y as int, c.y as int) + 32768, 65536)
}

/// Whether filling the triangle touches the pixel `(x, y)`: the pixel is in
/// the rounded bounding box, the fill test covers its center, and the
/// perspective weights are not degenerate there.
pub open spec fn tri_draws(a: Vec4, b: Vec4, c: Vec4, x: int, y: int) -> bool {
    &&& tri_xlo(a, b, c) <= x <= tri_xhi(a, b, c)
    &&& tri_ylo(a, b, c) <= y <= tri_yhi(a, b, c)
    &&& tri_covers(a, b, c, x * 65536, y * 65536)
    &&& interp_den(a, b, c, x * 65536, y * 65536) != 0
}

/// How one pixel's cells read after a depth-tested fill with the flat color
/// `col`: touched pixels that win the depth test take the color and the
/// interpolated depth, every other pixel keeps both cells.
pub open spec fn tri_cell_ok(
    pr0: crate::pixel_renderer::PixelRenderer,
    pr1: crate::pixel_renderer::PixelRenderer,
    a: Vec4,
    b: Vec4,
    c: Vec4,
    col: Color,
    x: int,
    y: int,
) -> bool {
    let i = crate::pixel_renderer::pix(pr0, x, y);
    if tri_draws(a, b, c, x, y) && interp_w(a, b, c, x * 65536, y * 65536) < pr0.z_buffer@[i] {
        pr1.color_buffer@[i] == col && pr1.z_buffer@[i] == interp_w(a, b, c, x * 65536, y * 65536)
    } else {
        pr1.color_buffer@[i] == pr0.color_buffer@[i] && pr1.z_buffer@[i] == pr0.z_buffer@[i]
    }
}

/// Fill the triangle with one flat color, visiting every pixel of its
/// rounded bounding box, testing each pixel center against the three edges
/// with the boundary tie-break, and writing through the depth test.
pub fn draw_triangle_color(
    pixel_renderer: &mut crate::pixel_renderer::PixelRenderer,
    color: Color,
    a: Vec4,
    b: Vec4,
    c: Vec4,
)
    requires
        crate::pixel_renderer::pr_wf(*old(pixel_renderer)),
        tri_wf(a),
        tri_wf(b),
        tri_wf(c),
    ensures
        crate::pixel_renderer::pr_wf(*final(pixel_renderer)),
        final(pixel_renderer).width == old(pixel_renderer).width,
        final(pixel_renderer).height == old(pixel_renderer).height,
        forall|x: int, y: int|
            0 <= x < old(pixel_renderer).width && 0 <= y < old(pixel_renderer).height
                ==> tri_cell_ok(*old(pixel_renderer), *final(pixel_renderer), a, b, c, color, x, y),
{
    let ghost pr0 = *old(pixel_renderer);
    let (x_min0, x_max) = min_max(a.x, b.x, c.x);
    let (y_min0, y_max) = min_max(a.y, b.y, c.y);
    let x_min: i64 = if x_min0 < 0 {
        0
    } else {
        x_min0
    };
    let y_min: i64 = if y_min0 < 0 {
        0
    } else {
        y_min0
    };
    let mut x: i64 = x_min;
    while x <= x_max
        invariant
            crate::pixel_renderer::pr_wf(*pixel_renderer),
            crate::pixel_renderer::pr_wf(pr0),
            pixel_renderer.width == pr0.width,
            pixel_renderer.height == pr0.height,
            x_min <= x <= x_max + 1 || x == x_min,
            x_min == if tri_xlo(a, b, c) < 0 {
                0int
            } else {
                tri_xlo(a, b, c)
            },
            y_min == if tri_ylo(a, b, c) < 0 {
                0int
            } else {
                tri_ylo(a, b, c)
            },
            x_max == tri_xhi(a, b, c),
            y_max == tri_yhi(a, b, c),
            0 <= x_min,
            0 <= y_min,
            x_max <= 4097,
            y_max <= 4097,
            tri_wf(a),
            tri_wf(b),
            tri_wf(c),
            forall|px: int, py: int|
                0 <= px < pr0.width && 0 <= py < pr0.height ==> if px < x {
                    tri_cell_ok(pr0, *pixel_renderer, a, b, c, color, px, py)
                } else {
                    pixel_renderer.color_buffer@[crate::pixel_renderer::pix(pr0, px, py)]
                        == pr0.color_buffer@[crate::pixel_renderer::pix(pr0, px, py)]
                        && pixel_renderer.z_buffer@[crate::pixel_renderer::pix(pr0, px, py)]
                        == pr0.z_buffer@[crate::pixel_renderer::pix(pr0, px, py)]
                },
        decreases x_max + 1 - x,
    {
        let mut y: i64 = y_min;
        while y <= y_max
            invariant
                crate::pixel_renderer::pr_wf(*pixel_renderer),
                crate::pixel_renderer::pr_wf(pr0),
                pixel_renderer.width == pr0.width,
                pixel_renderer.height == pr0.height,
                x_min <= x <= x_max,
                y_min <= y <= y_max + 1 || y == y_min,
                x_min == if tri_xlo(a, b, c) < 0 {
                    0int
                } else {
                    tri_xlo(a, b, c)
                },
                y_min == if tri_ylo(a, b, c) < 0 {
                    0int
                } else {
                    tri_ylo(a, b, c)
                },
                x_max == tri_xhi(a, b, c),
                y_max == tri_yhi(a, b, c),
                0 <= x_min,
                0 <= y_min,
                x_max <= 4097,
                y_max <= 4097,
                tri_wf(a),
                tri_wf(b),
                tri_wf(c),
                forall|px: int, py: int|
                    0 <= px < pr0.width && 0 <= py < pr0.height ==> if px < x || (px == x && py
                        < y) {
                        tri_cell_ok(pr0, *pixel_renderer, a, b, c, color, px, py)
                    } else {
                        pixel_renderer.color_buffer@[crate::pixel_renderer::pix(pr0, px, py)]
                            == pr0.color_buffer@[crate::pixel_renderer::pix(pr0, px, py)]
                            && pixel_renderer.z_buffer@[crate::pixel_renderer::pix(pr0, px, py)]
                            == pr0.z_buffer@[crate::pixel_renderer::pix(pr0, px, py)]
                    },
            decreases y_max + 1 - y,
        {
            let ghost prev = *pixel_renderer;
            let p = Vec2 { x: x * 65536, y: y * 65536 };
            let in_a = cross_edge(p, Vec2 { x: a.x, y: a.y }, Vec2 { x: b.x - a.x, y: b.y - a.y });
            let in_b = cross_edge(p, Vec2 { x: b.x, y: b.y }, Vec2 { x: c.x - b.x, y: c.y - b.y });
            let in_c = cross_edge(p, Vec2 { x: c.x, y: c.y }, Vec2 { x: a.x - c.x, y: a.y - c.y });
            let ghost px = p.x as int;
            let ghost py = p.y as int;
            if in_a == in_b && in_a == in_c {
                proof {
                    lemma_covered_consistent(a, b, c, px, py);
                }
                let z = Vec2 { x: 0, y: 0 };
                match interpolate_uv(p, a, b, c, z, z, z) {
                    Some(uvw) => {
                        pixel_renderer.set_pixel_z(x as u32, y as u32, uvw.1, color);
                    },
                    None => {
                    },
                }
            }
            proof {
                lemma_column_step(pr0, prev, *pixel_renderer, a, b, c, color, x as int, y as int);
            }
            y = y + 1;
        }
        x = x + 1;
    }
}

/// A covered point has sign-consistent screen-space weights.
proof fn lemma_covered_consistent(a: Vec4, b: Vec4, c: Vec4, px: int, py: int)
    requires
        tri_covers(a, b, c, px, py),
    ensures
        lams_consistent(a, b, c, px, py),
{
}

/// One pixel visit extends the processed region by one pixel: the visited
/// pixel reaches its final form and every other pixel's cells are untouched.
proof fn lemma_column_step(
    pr0: crate::pixel_renderer::PixelRenderer,
    prev: crate::pixel_renderer::PixelRenderer,
    cur: crate::pixel_renderer::PixelRenderer,
    a: Vec4,
    b: Vec4,
    c: Vec4,
    col: Color,
    x: int,
    y: int,
)
    requires
        crate::pixel_renderer::pr_wf(pr0),
        prev.width == pr0.width,
        prev.height == pr0.height,
        prev.color_buffer@.len() == pr0.color_buffer@.len(),
        prev.z_buffer@.len() == pr0.z_buffer@.len(),
        cur.width == pr0.width,
        cur.height == pr0.height,
        0 <= x,
        0 <= y,
        // the visited pixel was untouched before this visit
        0 <= x < pr0.width && 0 <= y < pr0.height ==> {
            &&& prev.color_buffer@[crate::pixel_renderer::pix(pr0, x, y)]
                == pr0.color_buffer@[crate::pixel_renderer::pix(pr0, x, y)]
            &&& prev.z_buffer@[crate::pixel_renderer::pix(pr0, x, y)]
                == pr0.z_buffer@[crate::pixel_renderer::pix(pr0, x, y)]
        },
        // what the visit did: either it wrote the visited pixel through the
        // depth test, or it left the buffers alone
        ({
            ||| (0 <= x < pr0.width && 0 <= y < pr0.height && tri_draws(a, b, c, x, y)
                && interp_w(a, b, c, x * 65536, y * 65536) < prev.z_buffer@[crate::pixel_renderer::pix(pr0, x, y)]
                && cur.color_buffer@ == prev.color_buffer@.update(
                crate::pixel_renderer::pix(pr0, x, y),
                col,
            ) && cur.z_buffer@ == prev.z_buffer@.update(
                crate::pixel_renderer::pix(pr0, x, y),
                interp_w(a, b, c, x * 65536, y * 65536) as i64,
            ) && interp_w(a, b, c, x * 65536, y * 65536) == interp_w(
                a,
                b,
                c,
                x * 65536,
                y * 65536,
            ) as i64)
            ||| (cur.color_buffer@ == prev.color_buffer@ && cur.z_buffer@ == prev.z_buffer@
                && !(0 <= x < pr0.width && 0 <= y < pr0.height && tri_draws(a, b, c, x, y)
                && interp_w(a, b, c, x * 65536, y * 65536) < prev.z_buffer@[crate::pixel_renderer::pix(
                pr0,
                x,
                y,
            )]))
        }),
    ensures
        0 <= x < pr0.width && 0 <= y < pr0.height ==> tri_cell_ok(pr0, cur, a, b, c, col, x, y),
        forall|qx: int, qy: int|
            0 <= qx < pr0.width && 0 <= qy < pr0.height && !(qx == x && qy == y) ==> {
                &&& cur.color_buffer@[crate::pixel_renderer::pix(pr0, qx, qy)]
                    == prev.color_buffer@[crate::pixel_renderer::pix(pr0, qx, qy)]
                &&& cur.z_buffer@[crate::pixel_renderer::pix(pr0, qx, qy)]
                    == prev.z_buffer@[crate::pixel_renderer::pix(pr0, qx, qy)]
            },
{
    if 0 <= x < pr0.width && 0 <= y < pr0.height {
        crate::pixel_renderer::lemma_pix_bound(x, y, pr0.width as int, pr0.height as int);
    }
    assert forall|qx: int, qy: int|
        0 <= qx < pr0.width && 0 <= qy < pr0.height && !(qx == x && qy == y) implies {
        &&& cur.color_buffer@[crate::pixel_renderer::pix(pr0, qx, qy)]
            == prev.color_buffer@[crate::pixel_renderer::pix(pr0, qx, qy)]
        &&& cur.z_buffer@[crate::pixel_renderer::pix(pr0, qx, qy)]
            == prev.z_buffer@[crate::pixel_renderer::pix(pr0, qx, qy)]
    } by {
        crate::pixel_renderer::lemma_pix_bound(qx, qy, pr0.width as int, pr0.height as int);
        if 0 <= x < pr0.width && 0 <= y < pr0.height {
            crate::pixel_renderer::lemma_pix_bound(x, y, pr0.width as int, pr0.height as int);
            if crate::pixel_renderer::pix(pr0, qx, qy) == crate::pixel_renderer::pix(pr0, x, y) {
                crate::pixel_renderer::lemma_pix_injective(qx, qy, x, y, pr0.width as int);
            }
        }
    }
}

/// A value clamped into a closed range.
pub open spec fn clampi(v: int, lo: int, hi: int) -> int {
    if v < lo {
        lo
    } else if v > hi {
        hi
    } else {
        v
    }
}

/// The texel column sampled for a texture coordinate: scaled across the
/// width, rounded to nearest, clamped to the grid.
pub open spec fn tex_u(t: Texture, ux: int) -> int {
    clampi(div_f((t.width - 1) * ux + 32768, 65536), 0, t.width - 1)
}

/// The texel row sampled for a texture coordinate; the vertical axis is
/// flipped, image rows running top-down.
pub open spec fn tex_v(t: Texture, uy: int) -> int {
    clampi(div_f((t.height - 1) * (65536 - uy) + 32768, 65536), 0, t.height - 1)
}

/// The texture color sampled at a texture coordinate, shaded by the light
/// intensity.
pub open spec fn tex_sample_shaded(t: Texture, li: int, ux: int, uy: int) -> Color {
    let tc = t.texels@[tex_v(t, uy) * t.width + tex_u(t, ux)];
    Color {
        r: scaled_channel(tc.r as int, li) as u8,
        g: scaled_channel(tc.g as int, li) as u8,
        b: scaled_channel(tc.b as int, li) as u8,
    }
}

/// The shaded texture color that the textured fill writes at pixel `(x, y)`:
/// the texture sampled at the perspective-correct texture coordinate there.
pub open spec fn tex_pixel_color(
    t: Texture,
    li: int,
    a: Vec4,
    b: Vec4,
    c: Vec4,
    a_uv: Vec2,
    b_uv: Vec2,
    c_uv: Vec2,
    x: int,
    y: int,
) -> Color {
    let ux = interp_val(
        a,
        b,
        c,
        x * 65536,
        y * 65536,
        a_uv.x as int,
        b_uv.x as int,
        c_uv.x as int,
    );
    let uy = interp_val(
        a,
        b,
        c,
        x * 65536,
        y * 65536,
        a_uv.y as int,
        b_uv.y as int,
        c_uv.y as int,
    );
    tex_sample_shaded(t, li, ux, uy)
}

/// Sample a texture at a texture coordinate and shade it.
fn sample_texture(t: &Texture, li: i64, ux: i64, uy: i64) -> (col: Color)
    requires
        tex_wf(*t),
        0 <= li <= 0x20_0000,
        -0x20_0000 <= ux <= 0x20_0000,
        -0x20_0000 <= uy <= 0x20_0000,
    ensures
        col == tex_sample_shaded(*t, li as int, ux as int, uy as int),
{
    let tw = t.width;
    let th = t.height;
    let pu = wide_mul((tw - 1) as i64, ux);
    let pv = wide_mul((th - 1) as i64, 65536 - uy);
    proof {
        lemma_mul_bound2((tw - 1) as int, ux as int, 0xffff_ffff, 0x20_0000);
        lemma_mul_bound2((th - 1) as int, 65536 - uy as int, 0xffff_ffff, 0x40_0000);
        lemma_div_f_le_abs(pu as int + 32768, 65536);
        lemma_div_f_le_abs(pv as int + 32768, 65536);
    }
    let qu = div_floor(pu + 32768, 65536);
    let qv = div_floor(pv + 32768, 65536);
    let u_px: u32 = if qu < 0 {
        0
    } else if qu > (tw - 1) as i128 {
        tw - 1
    } else {
        qu as u32
    };
    let v_px: u32 = if qv < 0 {
        0
    } else if qv > (th - 1) as i128 {
        th - 1
    } else {
        qv as u32
    };
    let tc = t.get_pixel(u_px, v_px);
    color_mul(tc, li)
}

/// How one pixel's cells read after a depth-tested textured fill.
pub open spec fn tri_cell_tex_ok(
    pr0: crate::pixel_renderer::PixelRenderer,
    pr1: crate::pixel_renderer::PixelRenderer,
    t: Texture,
    li: int,
    a: Vec4,
    b: Vec4,
    c: Vec4,
    a_uv: Vec2,
    b_uv: Vec2,
    c_uv: Vec2,
    x: int,
    y: int,
) -> bool {
    tri_cell_ok(
        pr0,
        pr1,
        a,
        b,
        c,
        tex_pixel_color(t, li, a, b, c, a_uv, b_uv, c_uv, x, y),
        x,
        y,
    )
}

/// Fill the triangle with its texture, shaded by the light intensity: the
/// same raster walk and depth test as the flat fill, but the color written
/// at each pixel is the texture sampled at that pixel's perspective-correct
/// texture coordinate.
pub fn draw_triangle_texture(
    pixel_renderer: &mut crate::pixel_renderer::PixelRenderer,
    mesh: &Mesh,
    light_intensity: i64,
    a: Vec4,
    b: Vec4,
    c: Vec4,
    a_uv: Vec2,
    b_uv: Vec2,
    c_uv: Vec2,
)
    requires
        crate::pixel_renderer::pr_wf(*old(pixel_renderer)),
        tex_wf(mesh.texture),
        0 <= light_intensity <= 0x20_0000,
        tri_wf(a),
        tri_wf(b),
        tri_wf(c),
        ok2(a_uv, B_UV as int),
        ok2(b_uv, B_UV as int),
        ok2(c_uv, B_UV as int),
    ensures
        crate::pixel_renderer::pr_wf(*final(pixel_renderer)),
        final(pixel_renderer).width == old(pixel_renderer).width,
        final(pixel_renderer).height == old(pixel_renderer).height,
        forall|x: int, y: int|
            0 <= x < old(pixel_renderer).width && 0 <= y < old(pixel_renderer).height
                ==> tri_cell_tex_ok(
                *old(pixel_renderer),
                *final(pixel_renderer),
                mesh.texture,
                light_intensity as int,
                a,
                b,
                c,
                a_uv,
                b_uv,
                c_uv,
                x,
                y,
            ),
{
    let ghost pr0 = *old(pixel_renderer);
    let (x_min0, x_max) = min_max(a.x, b.x, c.x);
    let (y_min0, y_max) = min_max(a.y, b.y, c.y);
    let x_min: i64 = if x_min0 < 0 {
        0
    } else {
        x_min0
    };
    let y_min: i64 = if y_min0 < 0 {
        0
    } else {
        y_min0
    };
    let mut x: i64 = x_min;
    while x <= x_max
        invariant
            crate::pixel_renderer::pr_wf(*pixel_renderer),
            crate::pixel_renderer::pr_wf(pr0),
            pixel_renderer.width == pr0.width,
            pixel_renderer.height == pr0.height,
            x_min <= x <= x_max + 1 || x == x_min,
            x_min == if tri_xlo(a, b, c) < 0 {
                0int
            } else {
                tri_xlo(a, b, c)
            },
            y_min == if tri_ylo(a, b, c) < 0 {
                0int
            } else {
                tri_ylo(a, b, c)
            },
            x_max == tri_xhi(a, b, c),
            y_max == tri_yhi(a, b, c),
            0 <= x_min,
            0 <= y_min,
            x_max <= 4097,
            y_max <= 4097,
            tri_wf(a),
            tri_wf(b),
            tri_wf(c),
            ok2(a_uv, B_UV as int),
            ok2(b_uv, B_UV as int),
            ok2(c_uv, B_UV as int),
            tex_wf(mesh.texture),
            0 <= light_intensity <= 0x20_0000,
            forall|px: int, py: int|
                0 <= px < pr0.width && 0 <= py < pr0.height ==> if px < x {
                    tri_cell_tex_ok(
                        pr0,
                        *pixel_renderer,
                        mesh.texture,
                        light_intensity as int,
                        a,
                        b,
                        c,
                        a_uv,
                        b_uv,
                        c_uv,
                        px,
                        py,
                    )
                } else {
                    pixel_renderer.color_buffer@[crate::pixel_renderer::pix(pr0, px, py)]
                        == pr0.color_buffer@[crate::pixel_renderer::pix(pr0, px, py)]
                        && pixel_renderer.z_buffer@[crate::pixel_renderer::pix(pr0, px, py)]
                        == pr0.z_buffer@[crate::pixel_renderer::pix(pr0, px, py)]
                },
        decreases x_max + 1 - x,
    {
        let mut y: i64 = y_min;
        while y <= y_max
            invariant
                crate::pixel_renderer::pr_wf(*pixel_renderer),
                crate::pixel_renderer::pr_wf(pr0),
                pixel_renderer.width == pr0.width,
                pixel_renderer.height == pr0.height,
                x_min <= x <= x_max,
                y_min <= y <= y_max + 1 || y == y_min,
                x_min == if tri_xlo(a, b, c) < 0 {
                    0int
                } else {
                    tri_xlo(a, b, c)
                },
                y_min == if tri_ylo(a, b, c) < 0 {
                    0int
                } else {
                    tri_ylo(a, b, c)
                },
                x_max == tri_xhi(a, b, c),
                y_max == tri_yhi(a, b, c),
                0 <= x_min,
                0 <= y_min,
                x_max <= 4097,
                y_max <= 4097,
                tri_wf(a),
                tri_wf(b),
                tri_wf(c),
                ok2(a_uv, B_UV as int),
                ok2(b_uv, B_UV as int),
                ok2(c_uv, B_UV as int),
                tex_wf(mesh.texture),
                0 <= light_intensity <= 0x20_0000,
                forall|px: int, py: int|
                    0 <= px < pr0.width && 0 <= py < pr0.height ==> if px < x || (px == x && py
                        < y) {
                        tri_cell_tex_ok(
                            pr0,
                            *pixel_renderer,
                            mesh.texture,
                            light_intensity as int,
                            a,
                            b,
                            c,
                            a_uv,
                            b_uv,
                            c_uv,
                            px,
                            py,
                        )
                    } else {
                        pixel_renderer.color_buffer@[crate::pixel_renderer::pix(pr0, px, py)]
                            == pr0.color_buffer@[crate::pixel_renderer::pix(pr0, px, py)]
                            && pixel_renderer.z_buffer@[crate::pixel_renderer::pix(pr0, px, py)]
                            == pr0.z_buffer@[crate::pixel_renderer::pix(pr0, px, py)]
                    },
            decreases y_max + 1 - y,
        {
            let ghost prev = *pixel_renderer;
            let p = Vec2 { x: x * 65536, y: y * 65536 };
            let in_a = cross_edge(p, Vec2 { x: a.x, y: a.y }, Vec2 { x: b.x - a.x, y: b.y - a.y });
            let in_b = cross_edge(p, Vec2 { x: b.x, y: b.y }, Vec2 { x: c.x - b.x, y: c.y - b.y });
            let in_c = cross_edge(p, Vec2 { x: c.x, y: c.y }, Vec2 { x: a.x - c.x, y: a.y - c.y });
            let ghost px = p.x as int;
            let ghost py = p.y as int;
            if in_a == in_b && in_a == in_c {
                proof {
                    lemma_covered_consistent(a, b, c, px, py);
                }
                match interpolate_uv(p, a, b, c, a_uv, b_uv, c_uv) {
                    Some(uvw) => {
                        let col = sample_texture(&mesh.texture, light_intensity, uvw.0.x, uvw.0.y);
                        proof {
                            assert(col == tex_pixel_color(
                                mesh.texture,
                                light_intensity as int,
                                a,
                                b,
                                c,
                                a_uv,
                                b_uv,
                                c_uv,
                                x as int,
                                y as int,
                            ));
                        }
                        pixel_renderer.set_pixel_z(x as u32, y as u32, uvw.1, col);
                    },
                    None => {
                    },
                }
            }
            proof {
                lemma_column_step(
                    pr0,
                    prev,
                    *pixel_renderer,
                    a,
                    b,
                    c,
                    tex_pixel_color(
                        mesh.texture,
                        light_intensity as int,
                        a,
                        b,
                        c,
                        a_uv,
                        b_uv,
                        c_uv,
                        x as int,
                        y as int,
                    ),
                    x as int,
                    y as int,
                );
            }
            y = y + 1;
        }
        x = x + 1;
    }
}

/// A fixed-point coordinate rounded to its nearest whole pixel.
pub open spec fn rpx(v: int) -> int {
    div_f(v + 32768, 65536)
}

/// The smaller of two values.
pub open spec fn imin(a: int, b: int) -> int {
    if a <= b {
        a
    } else {
        b
    }
}

/// The larger of two values.
pub open spec fn imax(a: int, b: int) -> int {
    if a >= b {
        a
    } else {
        b
    }
}

/// Whether the pixel `(x, y)` lies on the rasterized segment between the
/// rounded endpoints of `a` and `b`: inside their bounding box, and within
/// half a pixel of the ideal line, measured by the doubled cross product
/// against the segment direction.
pub open spec fn on_line_band(a: Vec4, b: Vec4, x: int, y: int) -> bool {
    let x0 = rpx(a.x as int);
    let y0 = rpx(a.y as int);
    let x1 = rpx(b.x as int);
    let y1 = rpx(b.y as int);
    &&& imin(x0, x1) <= x <= imax(x0, x1)
    &&& imin(y0, y1) <= y <= imax(y0, y1)
    &&& 2 * iabs((x - x0) * (y1 - y0) - (y - y0) * (x1 - x0)) <= imax(
        iabs(x1 - x0),
        iabs(y1 - y0),
    )
}

/// Plot one pixel of the wireframe: ignore coordinates left of or above the
/// screen, write the color without a depth test otherwise.
fn plot(pixel_renderer: &mut crate::pixel_renderer::PixelRenderer, x: i64, y: i64, color: Color)
    requires
        crate::pixel_renderer::pr_wf(*old(pixel_renderer)),
        -5000 <= x <= 5000,
        -5000 <= y <= 5000,
    ensures
        crate::pixel_renderer::pr_wf(*final(pixel_renderer)),
        final(pixel_renderer).width == old(pixel_renderer).width,
        final(pixel_renderer).height == old(pixel_renderer).height,
        final(pixel_renderer).z_buffer@ == old(pixel_renderer).z_buffer@,
        0 <= x < old(pixel_renderer).width && 0 <= y < old(pixel_renderer).height
            ==> final(pixel_renderer).color_buffer@ == old(pixel_renderer).color_buffer@.update(
            crate::pixel_renderer::pix(*old(pixel_renderer), x as int, y as int),
            color,
        ),
        !(0 <= x < old(pixel_renderer).width && 0 <= y < old(pixel_renderer).height)
            ==> final(pixel_renderer).color_buffer@ == old(pixel_renderer).color_buffer@,
{
    if x < 0 || y < 0 {
        return ;
    }
    pixel_renderer.set_pixel(x as u32, y as u32, color);
}

/// The state of one pixel cell during and after a wireframe stroke: its old
/// color, or the stroke's color if it lies on the rasterized segment.
pub open spec fn line_cell_ok(
    pr0: crate::pixel_renderer::PixelRenderer,
    pr1: crate::pixel_renderer::PixelRenderer,
    a: Vec4,
    b: Vec4,
    col: Color,
    x: int,
    y: int,
) -> bool {
    let i = crate::pixel_renderer::pix(pr0, x, y);
    ||| pr1.color_buffer@[i] == pr0.color_buffer@[i]
    ||| (pr1.color_buffer@[i] == col && on_line_band(a, b, x, y))
}

/// Stepping one pixel along the major axis keeps the accumulated error
/// within half a step of the ideal line.
proof fn lemma_bres_step(k: int, m: int, dmaj: int, dmin: int, err: int, adjusted: bool)
    requires
        dmaj > 0,
        0 <= dmin <= dmaj,
        err == k * dmin - m * dmaj,
        -dmaj <= 2 * err <= dmaj,
        0 <= k < dmaj,
        0 <= m <= dmin,
        adjusted ==> 2 * (err + dmin) > dmaj || 2 * (err + dmin) == dmaj,
        !adjusted ==> 2 * (err + dmin) <= dmaj,
    ensures
        adjusted ==> {
            &&& err + dmin - dmaj == (k + 1) * dmin - (m + 1) * dmaj
            &&& -dmaj <= 2 * (err + dmin - dmaj) <= dmaj
            &&& m + 1 <= dmin
        },
        !adjusted ==> {
            &&& err + dmin == (k + 1) * dmin - m * dmaj
            &&& -dmaj <= 2 * (err + dmin) <= dmaj
        },
{
    assert((k + 1) * dmin == k * dmin + dmin && (m + 1) * dmaj == m * dmaj + dmaj)
        by (nonlinear_arith);
    if adjusted {
        assert(m + 1 <= dmin) by (nonlinear_arith)
            requires
                err == k * dmin - m * dmaj,
                2 * (err + dmin) >= dmaj,
                0 <= k < dmaj,
                0 <= m,
                0 <= dmin <= dmaj,
                dmaj > 0,
        ;
    }
}

/// At the far end of the stroke the minor coordinate has arrived as well.
proof fn lemma_bres_end(m: int, dmaj: int, dmin: int, err: int)
    by (nonlinear_arith)
    requires
        dmaj > 0,
        0 <= dmin <= dmaj,
        err == dmaj * dmin - m * dmaj,
        -dmaj <= 2 * err <= dmaj,
    ensures
        m == dmin,
{
}

/// The doubled cross product of a plotted pixel against the segment equals
/// the doubled accumulated error up to sign.
proof fn lemma_bres_band(
    k: int,
    m: int,
    sx: int,
    sy: int,
    dmin: int,
    dmaj: int,
    cross: int,
    err: int,
)
    by (nonlinear_arith)
    requires
        sx == 1 || sx == -1,
        sy == 1 || sy == -1,
        err == k * dmin - m * dmaj,
        cross == (sx * k) * (sy * dmin) - (sy * m) * (sx * dmaj),
    ensures
        cross == sx * sy * err,
        iabs(cross) == iabs(err),
{
}

/// The stroke reaches the column `mx`: some pixel of that column is on the
/// band, and where it is on screen it holds the stroke's color.
pub open spec fn stroke_covers_column(
    pr1: crate::pixel_renderer::PixelRenderer,
    a: Vec4,
    b: Vec4,
    col: Color,
    mx: int,
) -> bool {
    exists|my: int|
        #[trigger] on_line_band(a, b, mx, my) && (0 <= mx < pr1.width && 0 <= my < pr1.height
            ==> pr1.color_buffer@[crate::pixel_renderer::pix(pr1, mx, my)] == col)
}

/// The stroke reaches the row `my`.
pub open spec fn stroke_covers_row(
    pr1: crate::pixel_renderer::PixelRenderer,
    a: Vec4,
    b: Vec4,
    col: Color,
    my: int,
) -> bool {
    exists|mx: int|
        #[trigger] on_line_band(a, b, mx, my) && (0 <= mx < pr1.width && 0 <= my < pr1.height
            ==> pr1.color_buffer@[crate::pixel_renderer::pix(pr1, mx, my)] == col)
}

/// One plot extends the stroke: the plotted pixel takes the color and lies
/// on the band, every other pixel keeps its state.
proof fn lemma_line_step(
    pr0: crate::pixel_renderer::PixelRenderer,
    prev: crate::pixel_renderer::PixelRenderer,
    cur: crate::pixel_renderer::PixelRenderer,
    a: Vec4,
    b: Vec4,
    col: Color,
    x: int,
    y: int,
)
    requires
        crate::pixel_renderer::pr_wf(pr0),
        prev.width == pr0.width,
        prev.height == pr0.height,
        prev.color_buffer@.len() == pr0.color_buffer@.len(),
        cur.width == pr0.width,
        cur.height == pr0.height,
        forall|qx: int, qy: int|
            0 <= qx < pr0.width && 0 <= qy < pr0.height ==> line_cell_ok(pr0, prev, a, b, col, qx, qy),
        0 <= x < pr0.width && 0 <= y < pr0.height ==> cur.color_buffer@
            == prev.color_buffer@.update(crate::pixel_renderer::pix(pr0, x, y), col),
        !(0 <= x < pr0.width && 0 <= y < pr0.height) ==> cur.color_buffer@ == prev.color_buffer@,
        on_line_band(a, b, x, y),
    ensures
        forall|qx: int, qy: int|
            0 <= qx < pr0.width && 0 <= qy < pr0.height ==> line_cell_ok(pr0, cur, a, b, col, qx, qy),
        forall|qx: int, qy: int|
            0 <= qx < pr0.width && 0 <= qy < pr0.height && cur.color_buffer@[crate::pixel_renderer::pix(pr0, qx, qy)]
                != prev.color_buffer@[crate::pixel_renderer::pix(pr0, qx, qy)] ==> qx == x && qy == y,
        0 <= x < pr0.width && 0 <= y < pr0.height
            ==> cur.color_buffer@[crate::pixel_renderer::pix(pr0, x, y)] == col,
{
    if 0 <= x < pr0.width && 0 <= y < pr0.height {
        crate::pixel_renderer::lemma_pix_bound(x, y, pr0.width as int, pr0.height as int);
    }
    assert forall|qx: int, qy: int|
        0 <= qx < pr0.width && 0 <= qy < pr0.height implies line_cell_ok(
        pr0,
        cur,
        a,
        b,
        col,
        qx,
        qy,
    ) by {
        assert(line_cell_ok(pr0, prev, a, b, col, qx, qy));
        crate::pixel_renderer::lemma_pix_bound(qx, qy, pr0.width as int, pr0.height as int);
        if 0 <= x < pr0.width && 0 <= y < pr0.height {
            if crate::pixel_renderer::pix(pr0, qx, qy) == crate::pixel_renderer::pix(pr0, x, y) {
                crate::pixel_renderer::lemma_pix_injective(qx, qy, x, y, pr0.width as int);
            }
        }
    }
    assert forall|qx: int, qy: int|
        0 <= qx < pr0.width && 0 <= qy < pr0.height && cur.color_buffer@[crate::pixel_renderer::pix(
        pr0,
        qx,
        qy,
    )] != prev.color_buffer@[crate::pixel_renderer::pix(pr0, qx, qy)] implies qx == x && qy
        == y by {
        crate::pixel_renderer::lemma_pix_bound(qx, qy, pr0.width as int, pr0.height as int);
        if 0 <= x < pr0.width && 0 <= y < pr0.height {
            if crate::pixel_renderer::pix(pr0, qx, qy) == crate::pixel_renderer::pix(pr0, x, y) {
                crate::pixel_renderer::lemma_pix_injective(qx, qy, x, y, pr0.width as int);
            }
        }
    }
}

/// A plot at the stroke's new column keeps every column so far covered: the
/// new column gains its witness, and old witnesses can only be repainted
/// with the same color.
proof fn lemma_stroke_extend_column(
    prev: crate::pixel_renderer::PixelRenderer,
    cur: crate::pixel_renderer::PixelRenderer,
    a: Vec4,
    b: Vec4,
    col: Color,
    x0: int,
    cxo: int,
    cxn: int,
    cyn: int,
)
    requires
        crate::pixel_renderer::pr_wf(prev),
        cur.width == prev.width,
        cur.height == prev.height,
        forall|mx: int|
            imin(x0, cxo) <= mx <= imax(x0, cxo) ==> #[trigger] stroke_covers_column(
                prev,
                a,
                b,
                col,
                mx,
            ),
        0 <= cxn < prev.width && 0 <= cyn < prev.height ==> cur.color_buffer@
            == prev.color_buffer@.update(crate::pixel_renderer::pix(prev, cxn, cyn), col),
        !(0 <= cxn < prev.width && 0 <= cyn < prev.height) ==> cur.color_buffer@
            == prev.color_buffer@,
        on_line_band(a, b, cxn, cyn),
        (cxn == cxo + 1 && cxo >= x0) || (cxn == cxo - 1 && cxo <= x0),
    ensures
        forall|mx: int|
            imin(x0, cxn) <= mx <= imax(x0, cxn) ==> #[trigger] stroke_covers_column(
                cur,
                a,
                b,
                col,
                mx,
            ),
{
    assert forall|mx: int|
        imin(x0, cxn) <= mx <= imax(x0, cxn) implies #[trigger] stroke_covers_column(
        cur,
        a,
        b,
        col,
        mx,
    ) by {
        if 0 <= cxn < prev.width && 0 <= cyn < prev.height {
            crate::pixel_renderer::lemma_pix_bound(cxn, cyn, prev.width as int, prev.height as int);
        }
        if mx == cxn {
            assert(on_line_band(a, b, mx, cyn) && (0 <= mx < cur.width && 0 <= cyn < cur.height
                ==> cur.color_buffer@[crate::pixel_renderer::pix(cur, mx, cyn)] == col));
        } else {
            assert(stroke_covers_column(prev, a, b, col, mx));
            let wy = choose|my: int|
                #[trigger] on_line_band(a, b, mx, my) && (0 <= mx < prev.width && 0 <= my
                    < prev.height ==> prev.color_buffer@[crate::pixel_renderer::pix(prev, mx, my)]
                    == col);
            if 0 <= mx < prev.width && 0 <= wy < prev.height {
                crate::pixel_renderer::lemma_pix_bound(mx, wy, prev.width as int, prev.height as int);
            }
            assert(on_line_band(a, b, mx, wy) && (0 <= mx < cur.width && 0 <= wy < cur.height
                ==> cur.color_buffer@[crate::pixel_renderer::pix(cur, mx, wy)] == col));
        }
    }
}

/// The row twin of the column-coverage step.
proof fn lemma_stroke_extend_row(
    prev: crate::pixel_renderer::PixelRenderer,
    cur: crate::pixel_renderer::PixelRenderer,
    a: Vec4,
    b: Vec4,
    col: Color,
    y0: int,
    cyo: int,
    cyn: int,
    cxn: int,
)
    requires
        crate::pixel_renderer::pr_wf(prev),
        cur.width == prev.width,
        cur.height == prev.height,
        forall|my: int|
            imin(y0, cyo) <= my <= imax(y0, cyo) ==> #[trigger] stroke_covers_row(
                prev,
                a,
                b,
                col,
                my,
            ),
        0 <= cxn < prev.width && 0 <= cyn < prev.height ==> cur.color_buffer@
            == prev.color_buffer@.update(crate::pixel_renderer::pix(prev, cxn, cyn), col),
        !(0 <= cxn < prev.width && 0 <= cyn < prev.height) ==> cur.color_buffer@
            == prev.color_buffer@,
        on_line_band(a, b, cxn, cyn),
        (cyn == cyo + 1 && cyo >= y0) || (cyn == cyo - 1 && cyo <= y0),
    ensures
        forall|my: int|
            imin(y0, cyn) <= my <= imax(y0, cyn) ==> #[trigger] stroke_covers_row(
                cur,
                a,
                b,
                col,
                my,
            ),
{
    assert forall|my: int|
        imin(y0, cyn) <= my <= imax(y0, cyn) implies #[trigger] stroke_covers_row(
        cur,
        a,
        b,
        col,
        my,
    ) by {
        if 0 <= cxn < prev.width && 0 <= cyn < prev.height {
            crate::pixel_renderer::lemma_pix_bound(cxn, cyn, prev.width as int, prev.height as int);
        }
        if my == cyn {
            assert(on_line_band(a, b, cxn, my) && (0 <= cxn < cur.width && 0 <= my < cur.height
                ==> cur.color_buffer@[crate::pixel_renderer::pix(cur, cxn, my)] == col));
        } else {
            assert(stroke_covers_row(prev, a, b, col, my));
            let wx = choose|mx: int|
                #[trigger] on_line_band(a, b, mx, my) && (0 <= mx < prev.width && 0 <= my
                    < prev.height ==> prev.color_buffer@[crate::pixel_renderer::pix(prev, mx, my)]
                    == col);
            if 0 <= wx < prev.width && 0 <= my < prev.height {
                crate::pixel_renderer::lemma_pix_bound(wx, my, prev.width as int, prev.height as int);
            }
            assert(on_line_band(a, b, wx, my) && (0 <= wx < cur.width && 0 <= my < cur.height
                ==> cur.color_buffer@[crate::pixel_renderer::pix(cur, wx, my)] == col));
        }
    }
}

/// Draw the segment between the rounded screen positions of `a` and `b` in
/// one color, stepping one pixel at a time along the longer axis with the
/// accumulated-error rule; wireframe strokes ignore the depth buffer and the
/// depth buffer ignores them. Every pixel the stroke touches lies within
/// half a pixel of the ideal segment, both endpoints are painted, and the
/// stroke is complete: every major-axis coordinate between the endpoints
/// carries a painted pixel of the band.
pub fn draw_line(
    pixel_renderer: &mut crate::pixel_renderer::PixelRenderer,
    color: Color,
    a: Vec4,
    b: Vec4,
)
    requires
        crate::pixel_renderer::pr_wf(*old(pixel_renderer)),
        ok4(a, B_SCR as int),
        ok4(b, B_SCR as int),
    ensures
        crate::pixel_renderer::pr_wf(*final(pixel_renderer)),
        final(pixel_renderer).width == old(pixel_renderer).width,
        final(pixel_renderer).height == old(pixel_renderer).height,
        final(pixel_renderer).z_buffer@ == old(pixel_renderer).z_buffer@,
        forall|x: int, y: int|
            0 <= x < old(pixel_renderer).width && 0 <= y < old(pixel_renderer).height
                ==> line_cell_ok(*old(pixel_renderer), *final(pixel_renderer), a, b, color, x, y),
        0 <= rpx(a.x as int) < old(pixel_renderer).width && 0 <= rpx(a.y as int) < old(
            pixel_renderer,
        ).height ==> final(pixel_renderer).color_buffer@[crate::pixel_renderer::pix(
            *old(pixel_renderer),
            rpx(a.x as int),
            rpx(a.y as int),
        )] == color,
        0 <= rpx(b.x as int) < old(pixel_renderer).width && 0 <= rpx(b.y as int) < old(
            pixel_renderer,
        ).height ==> final(pixel_renderer).color_buffer@[crate::pixel_renderer::pix(
            *old(pixel_renderer),
            rpx(b.x as int),
            rpx(b.y as int),
        )] == color,
        iabs(rpx(b.x as int) - rpx(a.x as int)) > iabs(rpx(b.y as int) - rpx(a.y as int))
            ==> forall|mx: int|
            imin(rpx(a.x as int), rpx(b.x as int)) <= mx <= imax(rpx(a.x as int), rpx(b.x as int))
                ==> #[trigger] stroke_covers_column(*final(pixel_renderer), a, b, color, mx),
        iabs(rpx(b.x as int) - rpx(a.x as int)) <= iabs(rpx(b.y as int) - rpx(a.y as int))
            ==> forall|my: int|
            imin(rpx(a.y as int), rpx(b.y as int)) <= my <= imax(rpx(a.y as int), rpx(b.y as int))
                ==> #[trigger] stroke_covers_row(*final(pixel_renderer), a, b, color, my),
{
    let ghost pr0 = *old(pixel_renderer);
    let x0: i64 = crate::fx::fx_round(a.x);
    let y0: i64 = crate::fx::fx_round(a.y);
    let x1: i64 = crate::fx::fx_round(b.x);
    let y1: i64 = crate::fx::fx_round(b.y);
    proof {
        lemma_div_f_bound(a.x + 32768, 65536, 4097);
        lemma_div_f_bound(a.y + 32768, 65536, 4097);
        lemma_div_f_bound(b.x + 32768, 65536, 4097);
        lemma_div_f_bound(b.y + 32768, 65536, 4097);
    }
    let delta_x = x1 - x0;
    let delta_x_abs = if delta_x >= 0 {
        delta_x
    } else {
        -delta_x
    };
    let delta_y = y1 - y0;
    let delta_y_abs = if delta_y >= 0 {
        delta_y
    } else {
        -delta_y
    };
    let sx: i64 = if delta_x > 0 {
        1
    } else {
        -1
    };
    let sy: i64 = if delta_y > 0 {
        1
    } else {
        -1
    };
    let mut cx = x0;
    let mut cy = y0;
    let mut err: i64 = 0;
    let ghost mut k: int = 0;
    let ghost mut m: int = 0;
    proof {
        assert(sx as int * delta_x_abs as int == delta_x as int && sy as int * delta_y_abs as int
            == delta_y as int) by (nonlinear_arith)
            requires
                sx == (if delta_x > 0 { 1int } else { -1int }),
                sy == (if delta_y > 0 { 1int } else { -1int }),
                delta_x_abs == iabs(delta_x as int),
                delta_y_abs == iabs(delta_y as int),
        ;
    }
    plot(pixel_renderer, cx, cy, color);
    proof {
        assert(on_line_band(a, b, x0 as int, y0 as int)) by {
            assert(2 * iabs((x0 - x0) * (y1 - y0) - (y0 - y0) * (x1 - x0)) == 0)
                by (nonlinear_arith);
        };
        lemma_line_step(pr0, pr0, *pixel_renderer, a, b, color, x0 as int, y0 as int);
        assert(0 == k * delta_y_abs - m * delta_x_abs && 0 == k * delta_x_abs - m * delta_y_abs)
            by (nonlinear_arith)
            requires
                k == 0,
                m == 0,
        ;
        assert(on_line_band(a, b, x0 as int, y0 as int) && (0 <= x0 < pixel_renderer.width && 0
            <= y0 < pixel_renderer.height
            ==> pixel_renderer.color_buffer@[crate::pixel_renderer::pix(
            *pixel_renderer,
            x0 as int,
            y0 as int,
        )] == color));
        assert(stroke_covers_column(*pixel_renderer, a, b, color, x0 as int));
        assert(stroke_covers_row(*pixel_renderer, a, b, color, y0 as int));
    }
    if delta_x_abs > delta_y_abs {
        while cx != x1
            invariant
                crate::pixel_renderer::pr_wf(*pixel_renderer),
                crate::pixel_renderer::pr_wf(pr0),
                pixel_renderer.width == pr0.width,
                pixel_renderer.height == pr0.height,
                pixel_renderer.z_buffer@ == pr0.z_buffer@,
                x0 == rpx(a.x as int) && y0 == rpx(a.y as int),
                x1 == rpx(b.x as int) && y1 == rpx(b.y as int),
                -4097 <= x0 <= 4097 && -4097 <= y0 <= 4097,
                -4097 <= x1 <= 4097 && -4097 <= y1 <= 4097,
                delta_x == x1 - x0 && delta_y == y1 - y0,
                delta_x_abs == iabs(delta_x as int) && delta_y_abs == iabs(delta_y as int),
                delta_x_abs > delta_y_abs,
                sx == (if delta_x > 0 { 1int } else { -1int }),
                sy == (if delta_y > 0 { 1int } else { -1int }),
                cx == x0 + sx * k,
                cy == y0 + sy * m,
                0 <= k <= delta_x_abs,
                0 <= m <= delta_y_abs,
                sx * delta_x_abs == delta_x,
                sy * delta_y_abs == delta_y,
                -4097 <= cx <= 4097,
                -4097 <= cy <= 4097,
                err == k * delta_y_abs - m * delta_x_abs,
                -delta_x_abs <= 2 * err <= delta_x_abs,
                forall|qx: int, qy: int|
                    0 <= qx < pr0.width && 0 <= qy < pr0.height ==> line_cell_ok(
                        pr0,
                        *pixel_renderer,
                        a,
                        b,
                        color,
                        qx,
                        qy,
                    ),
                0 <= x0 < pr0.width && 0 <= y0 < pr0.height
                    ==> pixel_renderer.color_buffer@[crate::pixel_renderer::pix(
                    pr0,
                    x0 as int,
                    y0 as int,
                )] == color,
                0 <= cx < pr0.width && 0 <= cy < pr0.height
                    ==> pixel_renderer.color_buffer@[crate::pixel_renderer::pix(
                    pr0,
                    cx as int,
                    cy as int,
                )] == color,
                forall|mx: int|
                    imin(x0 as int, cx as int) <= mx <= imax(x0 as int, cx as int)
                        ==> #[trigger] stroke_covers_column(*pixel_renderer, a, b, color, mx),
            decreases delta_x_abs - k,
        {
            proof {
                if k == delta_x_abs {
                    assert(sx * k == sx * delta_x_abs) by (nonlinear_arith)
                        requires
                            k == delta_x_abs,
                    ;
                }
            }
            let ghost prev = *pixel_renderer;
            let ghost erri = err as int;
            let ghost ko = k;
            let ghost cxo: int = cx as int;
            if delta_x > 0 {
                cx = cx + 1;
            } else {
                cx = cx - 1;
            }
            err = err + delta_y_abs;
            let adj = (err + err) > delta_x_abs || (delta_y > 0 && (err + err) == delta_x_abs);
            proof {
                lemma_bres_step(
                    k,
                    m,
                    delta_x_abs as int,
                    delta_y_abs as int,
                    erri,
                    adj,
                );
                k = k + 1;
            }
            if adj {
                err = err - delta_x_abs;
                if delta_y > 0 {
                    cy = cy + 1;
                } else {
                    cy = cy - 1;
                }
                proof {
                    m = m + 1;
                }
            }
            plot(pixel_renderer, cx, cy, color);
            proof {
                assert(sx * (k - 1) + sx == sx * k) by (nonlinear_arith);
                assert(sy * (m - 1) + sy == sy * m) by (nonlinear_arith);
                assert(cx == x0 + sx * k && cy == y0 + sy * m);
                assert(((x0 <= cx <= x1) || (x1 <= cx <= x0)) && ((y0 <= cy <= y1) || (y1 <= cy
                    <= y0))) by (nonlinear_arith)
                    requires
                        cx == x0 + sx * k,
                        cy == y0 + sy * m,
                        sx * delta_x_abs == delta_x,
                        sy * delta_y_abs == delta_y,
                        sx == 1 || sx == -1,
                        sy == 1 || sy == -1,
                        0 <= k <= delta_x_abs,
                        0 <= m <= delta_y_abs,
                        delta_x == x1 - x0,
                        delta_y == y1 - y0,
                ;
                lemma_bres_band(
                    k,
                    m,
                    sx as int,
                    sy as int,
                    delta_y_abs as int,
                    delta_x_abs as int,
                    (cx - x0) * (y1 - y0) - (cy - y0) * (x1 - x0),
                    err as int,
                );
                assert(on_line_band(a, b, cx as int, cy as int));
                lemma_line_step(pr0, prev, *pixel_renderer, a, b, color, cx as int, cy as int);
                assert(sx == 1 ==> sx * ko == ko) by (nonlinear_arith);
                assert(sx == -1 ==> sx * ko == -ko) by (nonlinear_arith);
                assert((cx == cxo + 1 && cxo >= x0) || (cx == cxo - 1 && cxo <= x0));
                lemma_stroke_extend_column(
                    prev,
                    *pixel_renderer,
                    a,
                    b,
                    color,
                    x0 as int,
                    cxo,
                    cx as int,
                    cy as int,
                );
            }
        }
        proof {
            assert(k == delta_x_abs) by (nonlinear_arith)
                requires
                    cx == x0 + sx * k,
                    cx == x1,
                    sx * delta_x_abs == delta_x,
                    delta_x == x1 - x0,
                    sx == 1 || sx == -1,
                    0 <= k <= delta_x_abs,
            ;
            lemma_bres_end(m, delta_x_abs as int, delta_y_abs as int, err as int);
            assert(cy == y1) by (nonlinear_arith)
                requires
                    cy == y0 + sy * m,
                    m == delta_y_abs,
                    sy * delta_y_abs == delta_y,
                    delta_y == y1 - y0,
            ;
            assert forall|mx: int|
                imin(rpx(a.x as int), rpx(b.x as int)) <= mx <= imax(
                    rpx(a.x as int),
                    rpx(b.x as int),
                ) implies #[trigger] stroke_covers_column(*pixel_renderer, a, b, color, mx) by {
                assert(stroke_covers_column(*pixel_renderer, a, b, color, mx));
            }
        }
    } else {
        while cy != y1
            invariant
                crate::pixel_renderer::pr_wf(*pixel_renderer),
                crate::pixel_renderer::pr_wf(pr0),
                pixel_renderer.width == pr0.width,
                pixel_renderer.height == pr0.height,
                pixel_renderer.z_buffer@ == pr0.z_buffer@,
                x0 == rpx(a.x as int) && y0 == rpx(a.y as int),
                x1 == rpx(b.x as int) && y1 == rpx(b.y as int),
                -4097 <= x0 <= 4097 && -4097 <= y0 <= 4097,
                -4097 <= x1 <= 4097 && -4097 <= y1 <= 4097,
                delta_x == x1 - x0 && delta_y == y1 - y0,
                delta_x_abs == iabs(delta_x as int) && delta_y_abs == iabs(delta_y as int),
                delta_x_abs <= delta_y_abs,
                sx == (if delta_x > 0 { 1int } else { -1int }),
                sy == (if delta_y > 0 { 1int } else { -1int }),
                cy == y0 + sy * k,
                cx == x0 + sx * m,
                0 <= k <= delta_y_abs,
                0 <= m <= delta_x_abs,
                sy * delta_y_abs == delta_y,
                sx * delta_x_abs == delta_x,
                -4097 <= cx <= 4097,
                -4097 <= cy <= 4097,
                err == k * delta_x_abs - m * delta_y_abs,
                -delta_y_abs <= 2 * err <= delta_y_abs,
                forall|qx: int, qy: int|
                    0 <= qx < pr0.width && 0 <= qy < pr0.height ==> line_cell_ok(
                        pr0,
                        *pixel_renderer,
                        a,
                        b,
                        color,
                        qx,
                        qy,
                    ),
                0 <= x0 < pr0.width && 0 <= y0 < pr0.height
                    ==> pixel_renderer.color_buffer@[crate::pixel_renderer::pix(
                    pr0,
                    x0 as int,
                    y0 as int,
                )] == color,
                0 <= cx < pr0.width && 0 <= cy < pr0.height
                    ==> pixel_renderer.color_buffer@[crate::pixel_renderer::pix(
                    pr0,
                    cx as int,
                    cy as int,
                )] == color,
                forall|my: int|
                    imin(y0 as int, cy as int) <= my <= imax(y0 as int, cy as int)
                        ==> #[trigger] stroke_covers_row(*pixel_renderer, a, b, color, my),
            decreases delta_y_abs - k,
        {
            proof {
                if k == delta_y_abs {
                    assert(sy * k == sy * delta_y_abs) by (nonlinear_arith)
                        requires
                            k == delta_y_abs,
                    ;
                }
            }
            let ghost prev = *pixel_renderer;
            let ghost erri = err as int;
            let ghost ko = k;
            let ghost cyo: int = cy as int;
            if delta_y > 0 {
                cy = cy + 1;
            } else {
                cy = cy - 1;
            }
            err = err + delta_x_abs;
            let adj = (err + err) > delta_y_abs || (delta_x > 0 && (err + err) == delta_y_abs);
            proof {
                lemma_bres_step(
                    k,
                    m,
                    delta_y_abs as int,
                    delta_x_abs as int,
                    erri,
                    adj,
                );
                k = k + 1;
            }
            if adj {
                err = err - delta_y_abs;
                if delta_x > 0 {
                    cx = cx + 1;
                } else {
                    cx = cx - 1;
                }
                proof {
                    m = m + 1;
                }
            }
            plot(pixel_renderer, cx, cy, color);
            proof {
                assert(sy * (k - 1) + sy == sy * k) by (nonlinear_arith);
                assert(sx * (m - 1) + sx == sx * m) by (nonlinear_arith);
                assert(cy == y0 + sy * k && cx == x0 + sx * m);
                assert(((x0 <= cx <= x1) || (x1 <= cx <= x0)) && ((y0 <= cy <= y1) || (y1 <= cy
                    <= y0))) by (nonlinear_arith)
                    requires
                        cy == y0 + sy * k,
                        cx == x0 + sx * m,
                        sx * delta_x_abs == delta_x,
                        sy * delta_y_abs == delta_y,
                        sx == 1 || sx == -1,
                        sy == 1 || sy == -1,
                        0 <= k <= delta_y_abs,
                        0 <= m <= delta_x_abs,
                        delta_x == x1 - x0,
                        delta_y == y1 - y0,
                ;
                lemma_bres_band(
                    k,
                    m,
                    sy as int,
                    sx as int,
                    delta_x_abs as int,
                    delta_y_abs as int,
                    (cy - y0) * (x1 - x0) - (cx - x0) * (y1 - y0),
                    err as int,
                );
                assert(iabs((cx - x0) * (y1 - y0) - (cy - y0) * (x1 - x0)) == iabs(
                    (cy - y0) * (x1 - x0) - (cx - x0) * (y1 - y0),
                )) by (nonlinear_arith);
                assert(on_line_band(a, b, cx as int, cy as int));
                lemma_line_step(pr0, prev, *pixel_renderer, a, b, color, cx as int, cy as int);
                assert(sy == 1 ==> sy * ko == ko) by (nonlinear_arith);
                assert(sy == -1 ==> sy * ko == -ko) by (nonlinear_arith);
                assert((cy == cyo + 1 && cyo >= y0) || (cy == cyo - 1 && cyo <= y0));
                lemma_stroke_extend_row(
                    prev,
                    *pixel_renderer,
                    a,
                    b,
                    color,
                    y0 as int,
                    cyo,
                    cy as int,
                    cx as int,
                );
            }
        }
        proof {
            if delta_y_abs > 0 {
                assert(k == delta_y_abs) by (nonlinear_arith)
                    requires
                        cy == y0 + sy * k,
                        cy == y1,
                        sy * delta_y_abs == delta_y,
                        delta_y == y1 - y0,
                        sy == 1 || sy == -1,
                        0 <= k <= delta_y_abs,
                ;
                lemma_bres_end(m, delta_y_abs as int, delta_x_abs as int, err as int);
                assert(cx == x1) by (nonlinear_arith)
                    requires
                        cx == x0 + sx * m,
                        m == delta_x_abs,
                        sx * delta_x_abs == delta_x,
                        delta_x == x1 - x0,
                ;
            } else {
                assert(delta_x_abs == 0 && x1 == x0 && y1 == y0);
            }
            assert forall|my: int|
                imin(rpx(a.y as int), rpx(b.y as int)) <= my <= imax(
                    rpx(a.y as int),
                    rpx(b.y as int),
                ) implies #[trigger] stroke_covers_row(*pixel_renderer, a, b, color, my) by {
                assert(stroke_covers_row(*pixel_renderer, a, b, color, my));
            }
        }
    }
}

/// The fill convention is watertight along a shared edge: a point exactly on
/// the line of an edge passes the biased side test for exactly one of the
/// edge's two directions. Two adjacent triangles walk their shared edge in
/// opposite directions, so no such point is claimed by both or by neither:
/// no double-drawn pixels and no cracks on shared edges.
pub proof fn lemma_shared_edge_exclusive(
    px: int,
    py: int,
    ax: int,
    ay: int,
    bx: int,
    by: int,
)
    requires
        !(ax == bx && ay == by),
        ecross(bx - ax, by - ay, px - ax, py - ay) == 0,
    ensures
        edge_sign(px, py, ax, ay, bx - ax, by - ay) != edge_sign(
            px,
            py,
            bx,
            by,
            ax - bx,
            ay - by,
        ),
{
    // the reversed edge's cross product is the negation of the original's,
    // so it vanishes on the same line
    assert(ecross(ax - bx, ay - by, px - bx, py - by) == -ecross(bx - ax, by - ay, px - ax, py
        - ay)) by (nonlinear_arith);
    // exactly one of the two opposite directions is biased to own the line
    assert(edge_tl(bx - ax, by - ay) != edge_tl(ax - bx, ay - by));
}

} // verus!
