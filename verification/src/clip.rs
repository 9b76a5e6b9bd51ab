//! Frustum clipping: polygons are walked edge by edge against each of six
//! planes, crossing vertices are interpolated onto the plane, and the laws
//! of the clip (unchanged inside, empty outside, a quadrilateral for a
//! straddling triangle) are proved of the same walk the code runs.

use vstd::prelude::*;
use vstd::arithmetic::div_mod::{lemma_div_of0, lemma_fundamental_div_mod};
use crate::fx::{
    div_f, div_floor, iabs, lemma_div_f_bound, lemma_div_f_le_abs, lemma_div_f_ordered,
    lemma_mul_bound2, narrow, wide_mul, wide_mul128,
};
use crate::vec::{ok2, ok3, Vec2, Vec3};

verus! {

/// Near clip distance: one unit in front of the camera.
pub const Z_NEAR: i64 = 65536;

/// Far clip distance: ten units in front of the camera.
pub const Z_FAR: i64 = 655360;

/// Distances within this many raw fixed-point units behind a clip plane are
/// still treated as in front of it, so that vertices sitting numerically on a
/// plane are kept.
pub const CLIP_EPS: i64 = 7;

/// Geometry handed to the clipper keeps every coordinate within this bound.
pub const B_GEO: i64 = 0x1000_0000;

/// Texture coordinates keep within this bound.
pub const B_UV: i64 = 0x20_0000;

/// A clip plane, given by a point on it and a normal pointing toward the kept
/// side.
#[derive(Clone, Copy, PartialEq, Eq, Structural, Debug)]
pub struct ClipPlane {
    pub point: Vec3,
    pub norm: Vec3,
}

/// A polygon vertex in camera space paired with its texture coordinate.
#[derive(Clone, Copy, PartialEq, Eq, Structural, Debug)]
pub struct ClipVert {
    pub vert: Vec3,
    pub uv: Vec2,
}

impl ClipVert {
    pub fn new(vert: Vec3, uv: Vec2) -> (r: ClipVert)
        ensures
            r.vert == vert,
            r.uv == uv,
    {
        ClipVert { vert, uv }
    }
}

/// The signed distance from the plane to `v`, scaled up by `FX_ONE`: the dot
/// product of `v - point` with the normal, before rescaling.
pub open spec fn raw_dist(pl: ClipPlane, v: Vec3) -> int {
    (v.x - pl.point.x) * pl.norm.x + (v.y - pl.point.y) * pl.norm.y + (v.z - pl.point.z)
        * pl.norm.z
}

/// The signed fixed-point distance from the plane to `v`.
pub open spec fn plane_dist(pl: ClipPlane, v: Vec3) -> int {
    div_f(raw_dist(pl, v), 65536)
}

/// Whether `v` is kept by the plane: on the normal side, or within the
/// classification tolerance behind it.
pub open spec fn inside(pl: ClipPlane, v: Vec3) -> bool {
    plane_dist(pl, v) + CLIP_EPS >= 0
}

/// A plane the clipper can work with: its point within the geometry bound and
/// its normal no longer than two fixed-point units in the one-norm.
pub open spec fn plane_wf(pl: ClipPlane) -> bool {
    &&& ok3(pl.point, B_GEO as int)
    &&& iabs(pl.norm.x as int) + iabs(pl.norm.y as int) + iabs(pl.norm.z as int) <= 131072
}

/// A clip vertex the clipper can work with.
pub open spec fn cv_wf(c: ClipVert) -> bool {
    &&& ok3(c.vert, B_GEO as int)
    &&& ok2(c.uv, B_UV as int)
}

/// Linear interpolation from `a` toward `b` by the ratio `tn / td`, with one
/// floor rounding.
pub open spec fn lerp(a: int, b: int, tn: int, td: int) -> int {
    a + div_f((b - a) * tn, td)
}

/// The crossing point of the edge between a kept vertex and a dropped one
/// with the plane, with linearly interpolated texture coordinates. The edge
/// is always walked from its kept endpoint toward the dropped one, so the
/// result does not depend on the edge's orientation, and the interpolation
/// parameter is confined to the edge.
pub open spec fn intersect_vert(pl: ClipPlane, v0: ClipVert, v1: ClipVert) -> ClipVert {
    let a = if inside(pl, v0.vert) {
        v0
    } else {
        v1
    };
    let b = if inside(pl, v0.vert) {
        v1
    } else {
        v0
    };
    let td = raw_dist(pl, a.vert) - raw_dist(pl, b.vert);
    let tn = if raw_dist(pl, a.vert) < 0 {
        0
    } else {
        raw_dist(pl, a.vert)
    };
    ClipVert {
        vert: Vec3 {
            x: lerp(a.vert.x as int, b.vert.x as int, tn, td) as i64,
            y: lerp(a.vert.y as int, b.vert.y as int, tn, td) as i64,
            z: lerp(a.vert.z as int, b.vert.z as int, tn, td) as i64,
        },
        uv: Vec2 {
            x: lerp(a.uv.x as int, b.uv.x as int, tn, td) as i64,
            y: lerp(a.uv.y as int, b.uv.y as int, tn, td) as i64,
        },
    }
}

/// The raw distance, computed exactly in wide arithmetic.
fn raw_dist_x(pl: &ClipPlane, v: &Vec3) -> (r: i128)
    requires
        plane_wf(*pl),
        ok3(*v, B_GEO as int),
    ensures
        r == raw_dist(*pl, *v),
        -0x1_0000_0000_0000 <= r <= 0x1_0000_0000_0000,
{
    let px = wide_mul(v.x - pl.point.x, pl.norm.x);
    let py = wide_mul(v.y - pl.point.y, pl.norm.y);
    let pz = wide_mul(v.z - pl.point.z, pl.norm.z);
    proof {
        lemma_mul_bound2(v.x - pl.point.x, pl.norm.x as int, 0x2000_0000, 131072);
        lemma_mul_bound2(v.y - pl.point.y, pl.norm.y as int, 0x2000_0000, 131072);
        lemma_mul_bound2(v.z - pl.point.z, pl.norm.z as int, 0x2000_0000, 131072);
    }
    px + py + pz
}

/// Classify a vertex against a plane: `1` when it is kept (in front of the
/// plane, or within the tolerance behind it), `-1` otherwise.
pub fn in_plane(vert: &Vec3, plane: &ClipPlane) -> (r: i64)
    requires
        plane_wf(*plane),
        ok3(*vert, B_GEO as int),
    ensures
        r == 1 || r == -1,
        (r == 1) <==> inside(*plane, *vert),
{
    let raw = raw_dist_x(plane, vert);
    let d = div_floor(raw, 65536);
    if d + 7 >= 0 {
        1
    } else {
        -1
    }
}

/// Interpolation with a confined parameter stays between its endpoints.
fn lerp_x(a: i64, b: i64, tn: i128, td: i128) -> (r: i64)
    requires
        0 < td <= 0x4_0000_0000_0000,
        0 <= tn <= td,
        -0x4000_0000 <= a <= 0x4000_0000,
        -0x4000_0000 <= b <= 0x4000_0000,
    ensures
        r == lerp(a as int, b as int, tn as int, td as int),
        a <= b ==> a <= r <= b,
        b <= a ==> b <= r <= a,
{
    proof {
        lemma_mul_bound2(b - a, tn as int, 0x8000_0000, 0x4_0000_0000_0000);
        if a <= b {
            assert(0 <= (b - a) * tn <= (b - a) * td) by (nonlinear_arith)
                requires
                    0 <= tn <= td,
                    b - a >= 0,
            ;
            lemma_div_f_bound((b - a) * tn, td as int, b - a);
            lemma_div_f_ordered(0, (b - a) * tn, td as int);
            lemma_div_of0(td as int);
        } else {
            assert((b - a) * td <= (b - a) * tn <= 0 && 0 <= (a - b) * td && (b - a) * td == -((a - b)
                * td)) by (nonlinear_arith)
                requires
                    0 < td,
                    0 <= tn <= td,
                    b - a <= 0,
            ;
            lemma_div_f_bound((b - a) * tn, td as int, a - b);
            lemma_div_f_ordered((b - a) * tn, 0, td as int);
            lemma_div_of0(td as int);
        }
    }
    let q = div_floor(wide_mul128((b as i128) - (a as i128), tn), td);
    a + narrow(q)
}

/// One coordinate's contribution to the scaled distance of the crossing
/// point, unfolded through its floor-division identity.
#[verifier::rlimit(100)]
proof fn lemma_coord_contrib(td: int, tn: int, aa: int, bb: int, pp: int, nn: int, q: int, r: int)
    by (nonlinear_arith)
    requires
        (bb - aa) * tn == td * q + r,
    ensures
        (aa + q - pp) * nn * td == (aa - pp) * nn * td + ((bb - pp) * nn - (aa - pp) * nn) * tn
            - nn * r,
{
}

/// An inserted crossing vertex lies on its plane: its fixed-point distance is
/// within the classification tolerance (and never in front).
proof fn lemma_intersect_on_plane(pl: ClipPlane, a: ClipVert, b: ClipVert)
    requires
        plane_wf(pl),
        cv_wf(a),
        cv_wf(b),
        inside(pl, a.vert),
        !inside(pl, b.vert),
    ensures
        -7 <= plane_dist(pl, intersect_vert(pl, a, b).vert) <= 1,
{
    let da = raw_dist(pl, a.vert);
    let db = raw_dist(pl, b.vert);
    let td = da - db;
    let tn: int = if da < 0 {
        0
    } else {
        da
    };
    // the kept endpoint is within the tolerance band or in front; the dropped
    // one is strictly beyond it
    assert(da >= -7 * 65536) by {
        assert(plane_dist(pl, a.vert) >= -7);
        lemma_fundamental_div_mod(da, 65536);
    };
    assert(db < -7 * 65536) by {
        assert(plane_dist(pl, b.vert) <= -8);
        lemma_fundamental_div_mod(db, 65536);
    };
    assert(td > 0);
    let ax = a.vert.x as int;
    let ay = a.vert.y as int;
    let az = a.vert.z as int;
    let bx = b.vert.x as int;
    let by = b.vert.y as int;
    let bz = b.vert.z as int;
    let nx = pl.norm.x as int;
    let ny = pl.norm.y as int;
    let nz = pl.norm.z as int;
    let px = pl.point.x as int;
    let py = pl.point.y as int;
    let pz = pl.point.z as int;
    let qx = div_f((bx - ax) * tn, td);
    let qy = div_f((by - ay) * tn, td);
    let qz = div_f((bz - az) * tn, td);
    lemma_fundamental_div_mod((bx - ax) * tn, td);
    lemma_fundamental_div_mod((by - ay) * tn, td);
    lemma_fundamental_div_mod((bz - az) * tn, td);
    let rx = ((bx - ax) * tn) % td;
    let ry = ((by - ay) * tn) % td;
    let rz = ((bz - az) * tn) % td;
    // the crossing point's coordinates stay between the endpoints, so the
    // spec-level narrowing casts keep their values
    lemma_lerp_in_range(ax, bx, tn, td);
    lemma_lerp_in_range(ay, by, tn, td);
    lemma_lerp_in_range(az, bz, tn, td);
    let v = intersect_vert(pl, a, b).vert;
    assert(v.x == ax + qx && v.y == ay + qy && v.z == az + qz);
    let raw2 = raw_dist(pl, v);
    // scaled by the denominator, the crossing's raw distance is exactly the
    // negated sum of the three rounding remainders weighted by the normal;
    // the identity is assembled coordinate by coordinate
    let cx = (ax - px) * nx;
    let cy = (ay - py) * ny;
    let cz = (az - pz) * nz;
    let dx = (bx - px) * nx;
    let dy = (by - py) * ny;
    let dz = (bz - pz) * nz;
    let ex = (ax + qx - px) * nx;
    let ey = (ay + qy - py) * ny;
    let ez = (az + qz - pz) * nz;
    lemma_coord_contrib(td, tn, ax, bx, px, nx, qx, rx);
    lemma_coord_contrib(td, tn, ay, by, py, ny, qy, ry);
    lemma_coord_contrib(td, tn, az, bz, pz, nz, qz, rz);
    assert(td * raw2 == ex * td + ey * td + ez * td) by (nonlinear_arith)
        requires
            raw2 == ex + ey + ez,
    ;
    assert(td * da == cx * td + cy * td + cz * td) by (nonlinear_arith)
        requires
            da == cx + cy + cz,
    ;
    assert(tn * (db - da) == (dx - cx) * tn + (dy - cy) * tn + (dz - cz) * tn)
        by (nonlinear_arith)
        requires
            da == cx + cy + cz,
            db == dx + dy + dz,
    ;
    assert(td * raw2 == td * da + tn * (db - da) - (nx * rx + ny * ry + nz * rz));
    if da < 0 {
        // the parameter clamps to the kept endpoint, which sits in the
        // tolerance band strictly behind the plane
        assert(tn == 0);
        assert((bx - ax) * tn == 0 && (by - ay) * tn == 0 && (bz - az) * tn == 0)
            by (nonlinear_arith)
            requires
                tn == 0,
        ;
        assert(qx == 0 && qy == 0 && qz == 0) by {
            lemma_div_of0(td);
        };
        assert(rx == 0 && ry == 0 && rz == 0);
        assert(nx * rx + ny * ry + nz * rz == 0) by (nonlinear_arith)
            requires
                rx == 0 && ry == 0 && rz == 0,
        ;
        assert(raw2 == da) by (nonlinear_arith)
            requires
                td * raw2 == td * da + tn * (db - da) - (nx * rx + ny * ry + nz * rz),
                tn == 0,
                nx * rx + ny * ry + nz * rz == 0,
                td > 0,
        ;
        assert(-7 * 65536 <= raw2 < 0);
        lemma_div_f_near_zero(raw2);
    } else {
        assert(tn == da);
        assert(td * raw2 == -(nx * rx + ny * ry + nz * rz)) by (nonlinear_arith)
            requires
                td * raw2 == td * da + tn * (db - da) - (nx * rx + ny * ry + nz * rz),
                tn == da,
                td == da - db,
        ;
        // each remainder is below the denominator, and the one-norm of the
        // normal is at most two fixed-point units, so the crossing's raw
        // distance is within two units of the plane
        assert(-(131072 * td) < nx * rx + ny * ry + nz * rz < 131072 * td) by (nonlinear_arith)
            requires
                0 <= rx < td,
                0 <= ry < td,
                0 <= rz < td,
                iabs(nx) + iabs(ny) + iabs(nz) <= 131072,
                td > 0,
        ;
        assert(-131072 < raw2 < 131072) by (nonlinear_arith)
            requires
                td * raw2 == -(nx * rx + ny * ry + nz * rz),
                -(131072 * td) < nx * rx + ny * ry + nz * rz < 131072 * td,
                td > 0,
        ;
        lemma_div_f_near_zero(raw2);
    }
}

/// A raw distance within two units of the plane has a fixed-point distance
/// within the tolerance band.
proof fn lemma_div_f_near_zero(raw: int)
    requires
        -7 * 65536 <= raw < 131072,
    ensures
        -7 <= div_f(raw, 65536) <= 1,
{
    lemma_div_f_bound(raw, 65536, 7);
    lemma_div_f_ordered(raw, 131071, 65536);
    lemma_div_f_bound(131071, 65536, 7);
    assert(div_f(131071, 65536) == 1) by {
        lemma_fundamental_div_mod(131071, 65536);
        vstd::arithmetic::div_mod::lemma_fundamental_div_mod_converse_div(131071, 65536, 1, 65535);
    };
}

/// The interpolated coordinate stays between its endpoints.
proof fn lemma_lerp_in_range(a: int, b: int, tn: int, td: int)
    requires
        0 < td,
        0 <= tn <= td,
    ensures
        a <= b ==> a <= lerp(a, b, tn, td) <= b,
        b <= a ==> b <= lerp(a, b, tn, td) <= a,
{
    if a <= b {
        assert(0 <= (b - a) * tn <= (b - a) * td) by (nonlinear_arith)
            requires
                0 <= tn <= td,
                b - a >= 0,
        ;
        lemma_div_f_bound((b - a) * tn, td, b - a);
        lemma_div_f_ordered(0, (b - a) * tn, td);
        lemma_div_of0(td);
    } else {
        assert((b - a) * td <= (b - a) * tn <= 0 && 0 <= (a - b) * td && (b - a) * td == -((a - b)
                * td)) by (nonlinear_arith)
            requires
                0 < td,
                0 <= tn <= td,
                b - a <= 0,
        ;
        lemma_div_f_bound((b - a) * tn, td, a - b);
        lemma_div_f_ordered((b - a) * tn, 0, td);
        lemma_div_of0(td);
    }
}

/// The crossing point of an edge that straddles the plane, walked from its
/// kept endpoint, with its texture coordinate carried along.
pub fn intersection(v0: ClipVert, v1: ClipVert, plane: &ClipPlane) -> (r: ClipVert)
    requires
        plane_wf(*plane),
        cv_wf(v0),
        cv_wf(v1),
        inside(*plane, v0.vert) != inside(*plane, v1.vert),
    ensures
        r == intersect_vert(*plane, v0, v1),
        cv_wf(r),
        -7 <= plane_dist(*plane, r.vert) <= 1,
        inside(*plane, r.vert),
{
    let in0 = in_plane(&v0.vert, plane);
    let (a, b) = if in0 == 1 {
        (v0, v1)
    } else {
        (v1, v0)
    };
    let da = raw_dist_x(plane, &a.vert);
    let db = raw_dist_x(plane, &b.vert);
    proof {
        assert(da >= -7 * 65536) by {
            assert(plane_dist(*plane, a.vert) >= -7);
            lemma_fundamental_div_mod(da as int, 65536);
        };
        assert(db < -7 * 65536) by {
            assert(plane_dist(*plane, b.vert) <= -8);
            lemma_fundamental_div_mod(db as int, 65536);
        };
    }
    let td = da - db;
    let tn: i128 = if da < 0 {
        0
    } else {
        da
    };
    let x = lerp_x(a.vert.x, b.vert.x, tn, td);
    let y = lerp_x(a.vert.y, b.vert.y, tn, td);
    let z = lerp_x(a.vert.z, b.vert.z, tn, td);
    let u = lerp_x(a.uv.x, b.uv.x, tn, td);
    let v = lerp_x(a.uv.y, b.uv.y, tn, td);
    proof {
        lemma_intersect_on_plane(*plane, a, b);
    }
    ClipVert { vert: Vec3 { x, y, z }, uv: Vec2 { x: u, y: v } }
}

/// What one directed edge of the polygon contributes to the clipped output:
/// its start vertex when that is kept, then the crossing point when the edge
/// straddles the plane.
pub open spec fn edge_out(pl: ClipPlane, s: Seq<ClipVert>, i: int) -> Seq<ClipVert> {
    let v0 = s[i];
    let v1 = if i + 1 < s.len() {
        s[i + 1]
    } else {
        s[0]
    };
    let head: Seq<ClipVert> = if inside(pl, v0.vert) {
        seq![v0]
    } else {
        Seq::empty()
    };
    let cross: Seq<ClipVert> = if inside(pl, v0.vert) != inside(pl, v1.vert) {
        seq![intersect_vert(pl, v0, v1)]
    } else {
        Seq::empty()
    };
    head + cross
}

/// The contributions of the edges from `i` on, in order.
pub open spec fn clip_edges(pl: ClipPlane, s: Seq<ClipVert>, i: int) -> Seq<ClipVert>
    decreases s.len() - i,
{
    if i < 0 || i >= s.len() {
        Seq::empty()
    } else {
        edge_out(pl, s, i) + clip_edges(pl, s, i + 1)
    }
}

/// The polygon clipped against one plane, walking every edge once.
pub open spec fn clip_poly(pl: ClipPlane, s: Seq<ClipVert>) -> Seq<ClipVert> {
    clip_edges(pl, s, 0)
}

/// The polygon clipped against each plane in turn.
pub open spec fn clip_all(planes: Seq<ClipPlane>, s: Seq<ClipVert>) -> Seq<ClipVert>
    decreases planes.len(),
{
    if planes.len() == 0 {
        s
    } else {
        clip_all(planes.drop_first(), clip_poly(planes[0], s))
    }
}

/// Every vertex of the polygon is well formed.
pub open spec fn poly_wf(s: Seq<ClipVert>) -> bool {
    forall|i: int| 0 <= i < s.len() ==> cv_wf(#[trigger] s[i])
}

/// Every vertex of the polygon has depth at least `m`.
pub open spec fn poly_z_at_least(s: Seq<ClipVert>, m: int) -> bool {
    forall|i: int| 0 <= i < s.len() ==> (#[trigger] s[i]).vert.z >= m
}

/// Every vertex of the polygon is kept by the plane.
pub open spec fn poly_inside(pl: ClipPlane, s: Seq<ClipVert>) -> bool {
    forall|i: int| 0 <= i < s.len() ==> inside(pl, #[trigger] s[i].vert)
}

/// Clip the polygon against one plane. Every output vertex is well formed and
/// on the kept side; the output is exactly the edge walk of the input.
pub fn clip_polygon_plane(poly: &Vec<ClipVert>, plane: &ClipPlane) -> (out: Vec<ClipVert>)
    requires
        plane_wf(*plane),
        poly_wf(poly@),
    ensures
        out@ == clip_poly(*plane, poly@),
        poly_wf(out@),
        poly_inside(*plane, out@),
        out@.len() <= 2 * poly@.len(),
{
    let ghost s = poly@;
    let ghost pl = *plane;
    let mut out: Vec<ClipVert> = Vec::new();
    let n = poly.len();
    if n == 0 {
        assert(clip_poly(pl, s) == Seq::<ClipVert>::empty());
        assert(out@ =~= clip_poly(pl, s));
        return out;
    }
    let mut i: usize = 0;
    proof {
        assert(out@ + clip_edges(pl, s, 0) =~= clip_edges(pl, s, 0));
    }
    while i < n
        invariant
            0 <= i <= n,
            n == s.len(),
            poly@ == s,
            *plane == pl,
            plane_wf(pl),
            poly_wf(s),
            out@ + clip_edges(pl, s, i as int) == clip_poly(pl, s),
            poly_wf(out@),
            poly_inside(pl, out@),
            out@.len() <= 2 * i,
        decreases n - i,
    {
        let v0 = poly[i];
        let v1 = if i + 1 < n {
            poly[i + 1]
        } else {
            poly[0]
        };
        let ghost out0 = out@;
        let c0 = in_plane(&v0.vert, plane);
        let c1 = in_plane(&v1.vert, plane);
        if c0 == 1 {
            out.push(v0);
        }
        if c0 != c1 {
            let crossing = intersection(v0, v1, plane);
            out.push(crossing);
        }
        proof {
            assert(clip_edges(pl, s, i as int) == edge_out(pl, s, i as int) + clip_edges(
                pl,
                s,
                i as int + 1,
            ));
            assert(out@ =~= out0 + edge_out(pl, s, i as int));
            assert(out@ + clip_edges(pl, s, i as int + 1) =~= (out0 + edge_out(pl, s, i as int))
                + clip_edges(pl, s, i as int + 1));
            assert((out0 + edge_out(pl, s, i as int)) + clip_edges(pl, s, i as int + 1) =~= out0
                + clip_edges(pl, s, i as int));
        }
        i = i + 1;
    }
    proof {
        assert(clip_edges(pl, s, n as int) == Seq::<ClipVert>::empty());
        assert(out@ =~= out@ + clip_edges(pl, s, n as int));
    }
    out
}

/// The six frustum planes as a value, in their fixed order: near, far,
/// left, right, top, bottom.
pub open spec fn standard_planes() -> Seq<ClipPlane> {
    seq![
        ClipPlane { point: Vec3 { x: 0, y: 0, z: 65536 }, norm: Vec3 { x: 0, y: 0, z: 65536 } },
        ClipPlane {
            point: Vec3 { x: 0, y: 0, z: 655360 },
            norm: Vec3 { x: 0, y: 0, z: -65536i64 },
        },
        ClipPlane {
            point: Vec3 { x: 0, y: 0, z: 0 },
            norm: Vec3 { x: 42126, y: 0, z: 50203 },
        },
        ClipPlane {
            point: Vec3 { x: 0, y: 0, z: 0 },
            norm: Vec3 { x: -42126i64, y: 0, z: 50203 },
        },
        ClipPlane {
            point: Vec3 { x: 0, y: 0, z: 0 },
            norm: Vec3 { x: 0, y: -56756i64, z: 32768 },
        },
        ClipPlane {
            point: Vec3 { x: 0, y: 0, z: 0 },
            norm: Vec3 { x: 0, y: 56756, z: 32768 },
        },
    ]
}

/// The six frustum planes in their fixed order: near, far, left, right, top,
/// bottom. The near and far planes sit on the view axis; the side planes
/// pass through the camera with their unit normals rounded to the
/// fixed-point grid. The top and bottom normals tilt by half the sixty
/// degree vertical field of view; the left and right normals tilt by fifty
/// degrees, roughly the horizontal half-angle that the same projection
/// implies: with focal cotangent 1/tan(30) and a 9:21 aspect correction the
/// horizontal extent reaches atan(21/(9*tan(30))) = 53 degrees, so a thirty
/// degree tilt would cut on-screen content while fifty keeps a small safety
/// band inside it.
pub fn frustum_planes() -> (r: Vec<ClipPlane>)
    ensures
        r@ == standard_planes(),
        r@.len() == 6,
        forall|i: int| 0 <= i < 6 ==> plane_wf(#[trigger] r@[i]),
        r@[0] == (ClipPlane {
            point: Vec3 { x: 0, y: 0, z: 65536 },
            norm: Vec3 { x: 0, y: 0, z: 65536 },
        }),
        r@[1] == (ClipPlane {
            point: Vec3 { x: 0, y: 0, z: 655360 },
            norm: Vec3 { x: 0, y: 0, z: -65536i64 },
        }),
        r@[2] == (ClipPlane {
            point: Vec3 { x: 0, y: 0, z: 0 },
            norm: Vec3 { x: 42126, y: 0, z: 50203 },
        }),
        r@[3] == (ClipPlane {
            point: Vec3 { x: 0, y: 0, z: 0 },
            norm: Vec3 { x: -42126i64, y: 0, z: 50203 },
        }),
        r@[4] == (ClipPlane {
            point: Vec3 { x: 0, y: 0, z: 0 },
            norm: Vec3 { x: 0, y: -56756i64, z: 32768 },
        }),
        r@[5] == (ClipPlane {
            point: Vec3 { x: 0, y: 0, z: 0 },
            norm: Vec3 { x: 0, y: 56756, z: 32768 },
        }),
{
    let mut r: Vec<ClipPlane> = Vec::new();
    r.push(ClipPlane { point: Vec3 { x: 0, y: 0, z: 65536 }, norm: Vec3 { x: 0, y: 0, z: 65536 } });
    r.push(ClipPlane {
        point: Vec3 { x: 0, y: 0, z: 655360 },
        norm: Vec3 { x: 0, y: 0, z: -65536 },
    });
    r.push(ClipPlane { point: Vec3 { x: 0, y: 0, z: 0 }, norm: Vec3 { x: 42126, y: 0, z: 50203 } });
    r.push(ClipPlane {
        point: Vec3 { x: 0, y: 0, z: 0 },
        norm: Vec3 { x: -42126, y: 0, z: 50203 },
    });
    r.push(ClipPlane {
        point: Vec3 { x: 0, y: 0, z: 0 },
        norm: Vec3 { x: 0, y: -56756, z: 32768 },
    });
    r.push(ClipPlane { point: Vec3 { x: 0, y: 0, z: 0 }, norm: Vec3 { x: 0, y: 56756, z: 32768 } });
    proof {
        assert(r@ =~= standard_planes());
    }
    r
}

/// Clip the polygon against each plane in turn, in place.
pub fn frustum_clip(poly: &mut Vec<ClipVert>, clip_planes: &Vec<ClipPlane>)
    requires
        forall|i: int| 0 <= i < clip_planes@.len() ==> plane_wf(#[trigger] clip_planes@[i]),
        poly_wf(old(poly)@),
    ensures
        final(poly)@ == clip_all(clip_planes@, old(poly)@),
        poly_wf(final(poly)@),
{
    let ghost planes = clip_planes@;
    let ghost orig = old(poly)@;
    let n = clip_planes.len();
    let mut j: usize = 0;
    proof {
        assert(planes.skip(0) =~= planes);
    }
    while j < n
        invariant
            0 <= j <= n,
            n == planes.len(),
            clip_planes@ == planes,
            forall|i: int| 0 <= i < planes.len() ==> plane_wf(#[trigger] planes[i]),
            poly_wf(poly@),
            clip_all(planes.skip(j as int), poly@) == clip_all(planes, orig),
        decreases n - j,
    {
        let plane = clip_planes[j];
        let clipped = clip_polygon_plane(poly, &plane);
        proof {
            let rest = planes.skip(j as int);
            assert(rest[0] == planes[j as int]);
            assert(rest.drop_first() =~= planes.skip(j as int + 1));
            assert(clip_all(rest, poly@) == clip_all(
                planes.skip(j as int + 1),
                clip_poly(planes[j as int], poly@),
            ));
        }
        *poly = clipped;
        j = j + 1;
    }
    proof {
        assert(planes.skip(n as int) =~= Seq::<ClipPlane>::empty());
        assert(clip_all(planes.skip(n as int), poly@) == poly@);
    }
}

/// The crossing vertex of a straddling edge is well formed, sits on the
/// plane within the classification tolerance, is itself kept, and stays
/// between its endpoints on every axis.
pub proof fn lemma_intersect_props(pl: ClipPlane, v0: ClipVert, v1: ClipVert)
    requires
        plane_wf(pl),
        cv_wf(v0),
        cv_wf(v1),
        inside(pl, v0.vert) != inside(pl, v1.vert),
    ensures
        cv_wf(intersect_vert(pl, v0, v1)),
        -7 <= plane_dist(pl, intersect_vert(pl, v0, v1).vert) <= 1,
        inside(pl, intersect_vert(pl, v0, v1).vert),
        intersect_vert(pl, v0, v1).vert.z >= if v0.vert.z <= v1.vert.z {
            v0.vert.z as int
        } else {
            v1.vert.z as int
        },
        intersect_vert(pl, v0, v1).vert.z <= if v0.vert.z >= v1.vert.z {
            v0.vert.z as int
        } else {
            v1.vert.z as int
        },
{
    let a = if inside(pl, v0.vert) {
        v0
    } else {
        v1
    };
    let b = if inside(pl, v0.vert) {
        v1
    } else {
        v0
    };
    assert(inside(pl, a.vert) && !inside(pl, b.vert));
    assert(intersect_vert(pl, v0, v1) == intersect_vert(pl, a, b));
    let da = raw_dist(pl, a.vert);
    let db = raw_dist(pl, b.vert);
    let td = da - db;
    let tn: int = if da < 0 {
        0
    } else {
        da
    };
    assert(da >= -7 * 65536) by {
        assert(plane_dist(pl, a.vert) >= -7);
        lemma_fundamental_div_mod(da, 65536);
    };
    assert(db < -7 * 65536) by {
        assert(plane_dist(pl, b.vert) <= -8);
        lemma_fundamental_div_mod(db, 65536);
    };
    assert(0 < td && 0 <= tn <= td);
    lemma_lerp_in_range(a.vert.x as int, b.vert.x as int, tn, td);
    lemma_lerp_in_range(a.vert.y as int, b.vert.y as int, tn, td);
    lemma_lerp_in_range(a.vert.z as int, b.vert.z as int, tn, td);
    lemma_lerp_in_range(a.uv.x as int, b.uv.x as int, tn, td);
    lemma_lerp_in_range(a.uv.y as int, b.uv.y as int, tn, td);
    lemma_intersect_on_plane(pl, a, b);
}

/// A crossing vertex measured against any plane: its fixed-point distance
/// stays within four units of the band its two endpoints span. The exact
/// crossing is a convex combination of the endpoints, and the three
/// coordinate roundings move the distance by less than the normal's one-norm
/// over the scale.
pub proof fn lemma_intersect_dist_range(pl: ClipPlane, q: ClipPlane, a: ClipVert, b: ClipVert)
    requires
        plane_wf(pl),
        plane_wf(q),
        cv_wf(a),
        cv_wf(b),
        inside(pl, a.vert),
        !inside(pl, b.vert),
    ensures
        plane_dist(q, intersect_vert(pl, a, b).vert) >= imin2(
            plane_dist(q, a.vert),
            plane_dist(q, b.vert),
        ) - 4,
        plane_dist(q, intersect_vert(pl, a, b).vert) <= imax2(
            plane_dist(q, a.vert),
            plane_dist(q, b.vert),
        ) + 4,
{
    let da = raw_dist(pl, a.vert);
    let db = raw_dist(pl, b.vert);
    let td = da - db;
    let tn: int = if da < 0 {
        0
    } else {
        da
    };
    assert(da >= -7 * 65536) by {
        assert(plane_dist(pl, a.vert) >= -7);
        lemma_fundamental_div_mod(da, 65536);
    };
    assert(db < -7 * 65536) by {
        assert(plane_dist(pl, b.vert) <= -8);
        lemma_fundamental_div_mod(db, 65536);
    };
    assert(td > 0 && 0 <= tn <= td);
    let ax = a.vert.x as int;
    let ay = a.vert.y as int;
    let az = a.vert.z as int;
    let bx = b.vert.x as int;
    let by = b.vert.y as int;
    let bz = b.vert.z as int;
    let nx = q.norm.x as int;
    let ny = q.norm.y as int;
    let nz = q.norm.z as int;
    let px = q.point.x as int;
    let py = q.point.y as int;
    let pz = q.point.z as int;
    let qx = div_f((bx - ax) * tn, td);
    let qy = div_f((by - ay) * tn, td);
    let qz = div_f((bz - az) * tn, td);
    lemma_fundamental_div_mod((bx - ax) * tn, td);
    lemma_fundamental_div_mod((by - ay) * tn, td);
    lemma_fundamental_div_mod((bz - az) * tn, td);
    let rx = ((bx - ax) * tn) % td;
    let ry = ((by - ay) * tn) % td;
    let rz = ((bz - az) * tn) % td;
    lemma_lerp_in_range(ax, bx, tn, td);
    lemma_lerp_in_range(ay, by, tn, td);
    lemma_lerp_in_range(az, bz, tn, td);
    let v = intersect_vert(pl, a, b).vert;
    assert(v.x == ax + qx && v.y == ay + qy && v.z == az + qz);
    let rqa = raw_dist(q, a.vert);
    let rqb = raw_dist(q, b.vert);
    let raw2 = raw_dist(q, v);
    let cx = (ax - px) * nx;
    let cy = (ay - py) * ny;
    let cz = (az - pz) * nz;
    let dx = (bx - px) * nx;
    let dy = (by - py) * ny;
    let dz = (bz - pz) * nz;
    let ex = (ax + qx - px) * nx;
    let ey = (ay + qy - py) * ny;
    let ez = (az + qz - pz) * nz;
    lemma_coord_contrib(td, tn, ax, bx, px, nx, qx, rx);
    lemma_coord_contrib(td, tn, ay, by, py, ny, qy, ry);
    lemma_coord_contrib(td, tn, az, bz, pz, nz, qz, rz);
    assert(td * raw2 == ex * td + ey * td + ez * td) by (nonlinear_arith)
        requires
            raw2 == ex + ey + ez,
    ;
    assert(td * rqa == cx * td + cy * td + cz * td) by (nonlinear_arith)
        requires
            rqa == cx + cy + cz,
    ;
    assert(tn * (rqb - rqa) == (dx - cx) * tn + (dy - cy) * tn + (dz - cz) * tn)
        by (nonlinear_arith)
        requires
            rqa == cx + cy + cz,
            rqb == dx + dy + dz,
    ;
    assert(td * raw2 == td * rqa + tn * (rqb - rqa) - (nx * rx + ny * ry + nz * rz));
    // the remainder term is small, and the interpolation term stays between
    // the endpoints' scaled distances
    assert(-(131072 * td) < nx * rx + ny * ry + nz * rz < 131072 * td) by (nonlinear_arith)
        requires
            0 <= rx < td,
            0 <= ry < td,
            0 <= rz < td,
            iabs(nx) + iabs(ny) + iabs(nz) <= 131072,
            td > 0,
    ;
    let lo = imin2(rqa, rqb);
    let hi = imax2(rqa, rqb);
    assert(td * lo <= td * rqa + tn * (rqb - rqa) <= td * hi) by (nonlinear_arith)
        requires
            0 <= tn <= td,
            td > 0,
            lo == imin2(rqa, rqb),
            hi == imax2(rqa, rqb),
            (lo == rqa && hi == rqb) || (lo == rqb && hi == rqa),
            lo <= rqa <= hi,
            lo <= rqb <= hi,
    ;
    assert(lo - 131072 < raw2 < hi + 131072) by (nonlinear_arith)
        requires
            td * raw2 == td * rqa + tn * (rqb - rqa) - (nx * rx + ny * ry + nz * rz),
            td * lo <= td * rqa + tn * (rqb - rqa) <= td * hi,
            -(131072 * td) < nx * rx + ny * ry + nz * rz < 131072 * td,
            td > 0,
    ;
    lemma_dist_div_range(rqa, rqb, raw2);
}

/// The smaller of two values.
pub open spec fn imin2(a: int, b: int) -> int {
    if a <= b {
        a
    } else {
        b
    }
}

/// The larger of two values.
pub open spec fn imax2(a: int, b: int) -> int {
    if a >= b {
        a
    } else {
        b
    }
}

/// A raw distance within two units of a band divides down to within four
/// fixed-point units of the band's quotients.
proof fn lemma_dist_div_range(rqa: int, rqb: int, raw2: int)
    requires
        imin2(rqa, rqb) - 131072 < raw2 < imax2(rqa, rqb) + 131072,
    ensures
        div_f(raw2, 65536) >= imin2(div_f(rqa, 65536), div_f(rqb, 65536)) - 4,
        div_f(raw2, 65536) <= imax2(div_f(rqa, 65536), div_f(rqb, 65536)) + 4,
{
    let lo = imin2(rqa, rqb);
    let hi = imax2(rqa, rqb);
    lemma_fundamental_div_mod(lo, 65536);
    lemma_fundamental_div_mod(hi, 65536);
    lemma_fundamental_div_mod(raw2, 65536);
    assert(div_f(raw2, 65536) >= div_f(lo, 65536) - 4 && div_f(raw2, 65536) <= div_f(hi, 65536)
        + 4) by (nonlinear_arith)
        requires
            lo == 65536 * div_f(lo, 65536) + lo % 65536,
            hi == 65536 * div_f(hi, 65536) + hi % 65536,
            raw2 == 65536 * div_f(raw2, 65536) + raw2 % 65536,
            0 <= lo % 65536 < 65536,
            0 <= hi % 65536 < 65536,
            0 <= raw2 % 65536 < 65536,
            lo - 131072 < raw2 < hi + 131072,
    ;
    assert(div_f(lo, 65536) == imin2(div_f(rqa, 65536), div_f(rqb, 65536))) by {
        if rqa <= rqb {
            lemma_div_f_ordered(rqa, rqb, 65536);
        } else {
            lemma_div_f_ordered(rqb, rqa, 65536);
        }
    };
    assert(div_f(hi, 65536) == imax2(div_f(rqa, 65536), div_f(rqb, 65536))) by {
        if rqa <= rqb {
            lemma_div_f_ordered(rqa, rqb, 65536);
        } else {
            lemma_div_f_ordered(rqb, rqa, 65536);
        }
    };
}

/// What it means for a vertex to appear in a clipped polygon: it is an input
/// vertex that the plane keeps, or the crossing vertex of an input edge that
/// straddles the plane.
pub open spec fn elem_ok(pl: ClipPlane, s: Seq<ClipVert>, c: ClipVert) -> bool {
    ||| (exists|j: int| 0 <= j < s.len() && s[j] == c && inside(pl, c.vert))
    ||| (exists|j: int|
        0 <= j < s.len() && inside(pl, (#[trigger] s[j]).vert) != inside(
            pl,
            (if j + 1 < s.len() {
                s[j + 1]
            } else {
                s[0]
            }).vert,
        ) && c == intersect_vert(
            pl,
            s[j],
            if j + 1 < s.len() {
                s[j + 1]
            } else {
                s[0]
            },
        ))
}

/// Every vertex that the edge walk emits is an input vertex or a crossing.
proof fn lemma_clip_edges_elems(pl: ClipPlane, s: Seq<ClipVert>, i: int)
    requires
        0 <= i,
    ensures
        forall|k: int|
            0 <= k < clip_edges(pl, s, i).len() ==> elem_ok(pl, s, #[trigger] clip_edges(pl, s, i)[k]),
    decreases s.len() - i,
{
    if i >= s.len() {
    } else {
        lemma_clip_edges_elems(pl, s, i + 1);
        let e = edge_out(pl, s, i);
        let rest = clip_edges(pl, s, i + 1);
        assert(clip_edges(pl, s, i) == e + rest);
        assert forall|k: int| 0 <= k < clip_edges(pl, s, i).len() implies elem_ok(
            pl,
            s,
            #[trigger] clip_edges(pl, s, i)[k],
        ) by {
            if k < e.len() {
                let c = e[k];
                let v0 = s[i];
                let v1 = if i + 1 < s.len() {
                    s[i + 1]
                } else {
                    s[0]
                };
                if inside(pl, v0.vert) && k == 0 {
                    assert(c == v0);
                    assert(0 <= i < s.len() && s[i] == c && inside(pl, c.vert));
                } else {
                    assert(c == intersect_vert(pl, v0, v1));
                    assert(inside(pl, v0.vert) != inside(pl, v1.vert));
                }
            } else {
                assert(clip_edges(pl, s, i)[k] == rest[k - e.len()]);
            }
        }
    }
}

/// Every vertex of a clipped polygon is an input vertex that the plane keeps
/// or a crossing of a straddling input edge.
pub proof fn lemma_clip_poly_elems(pl: ClipPlane, s: Seq<ClipVert>)
    ensures
        forall|k: int|
            0 <= k < clip_poly(pl, s).len() ==> elem_ok(pl, s, #[trigger] clip_poly(pl, s)[k]),
{
    lemma_clip_edges_elems(pl, s, 0);
}

/// A clipped polygon keeps well-formed vertices well formed, keeps every
/// vertex on the plane's kept side, and never lowers the least depth of the
/// polygon.
pub proof fn lemma_clip_poly_preserves(pl: ClipPlane, s: Seq<ClipVert>, zmin: int)
    requires
        plane_wf(pl),
        poly_wf(s),
        poly_z_at_least(s, zmin),
    ensures
        poly_wf(clip_poly(pl, s)),
        poly_inside(pl, clip_poly(pl, s)),
        poly_z_at_least(clip_poly(pl, s), zmin),
{
    lemma_clip_poly_elems(pl, s);
    let out = clip_poly(pl, s);
    assert forall|k: int| 0 <= k < out.len() implies cv_wf(#[trigger] out[k]) && inside(
        pl,
        out[k].vert,
    ) && out[k].vert.z >= zmin by {
        assert(elem_ok(pl, s, out[k]));
        if exists|j: int| 0 <= j < s.len() && s[j] == out[k] && inside(pl, out[k].vert) {
            let j = choose|j: int| 0 <= j < s.len() && s[j] == out[k] && inside(pl, out[k].vert);
            assert(cv_wf(s[j]));
            assert(s[j].vert.z >= zmin);
        } else {
            let j = choose|j: int|
                0 <= j < s.len() && inside(pl, (#[trigger] s[j]).vert) != inside(
                    pl,
                    (if j + 1 < s.len() {
                        s[j + 1]
                    } else {
                        s[0]
                    }).vert,
                ) && out[k] == intersect_vert(
                    pl,
                    s[j],
                    if j + 1 < s.len() {
                        s[j + 1]
                    } else {
                        s[0]
                    },
                );
            let v0 = s[j];
            let v1 = if j + 1 < s.len() {
                s[j + 1]
            } else {
                s[0]
            };
            assert(cv_wf(v0) && cv_wf(v1));
            assert(v0.vert.z >= zmin && v1.vert.z >= zmin);
            lemma_intersect_props(pl, v0, v1);
        }
    }
}

/// Clipping a polygon that lies entirely on the kept side of the plane
/// returns it unchanged: the same vertices, positions and texture
/// coordinates alike, in the same order.
pub proof fn lemma_clip_fully_inside(pl: ClipPlane, s: Seq<ClipVert>)
    requires
        poly_inside(pl, s),
    ensures
        clip_poly(pl, s) == s,
{
    lemma_clip_edges_inside(pl, s, 0);
    assert(s.skip(0) =~= s);
}

proof fn lemma_clip_edges_inside(pl: ClipPlane, s: Seq<ClipVert>, i: int)
    requires
        poly_inside(pl, s),
        0 <= i <= s.len(),
    ensures
        clip_edges(pl, s, i) == s.skip(i),
    decreases s.len() - i,
{
    if i >= s.len() {
        assert(clip_edges(pl, s, i) =~= s.skip(i));
    } else {
        lemma_clip_edges_inside(pl, s, i + 1);
        assert(inside(pl, s[i].vert));
        if i + 1 < s.len() {
            assert(inside(pl, s[i + 1].vert));
        } else {
            assert(inside(pl, s[0].vert));
        }
        assert(edge_out(pl, s, i) =~= seq![s[i]]);
        assert(clip_edges(pl, s, i) =~= seq![s[i]] + s.skip(i + 1));
        assert(seq![s[i]] + s.skip(i + 1) =~= s.skip(i));
    }
}

/// Clipping a polygon that lies entirely on the dropped side of the plane
/// returns the empty polygon.
pub proof fn lemma_clip_fully_outside(pl: ClipPlane, s: Seq<ClipVert>)
    requires
        forall|i: int| 0 <= i < s.len() ==> !inside(pl, #[trigger] s[i].vert),
    ensures
        clip_poly(pl, s).len() == 0,
{
    lemma_clip_edges_outside(pl, s, 0);
}

proof fn lemma_clip_edges_outside(pl: ClipPlane, s: Seq<ClipVert>, i: int)
    requires
        forall|i: int| 0 <= i < s.len() ==> !inside(pl, #[trigger] s[i].vert),
        0 <= i,
    ensures
        clip_edges(pl, s, i).len() == 0,
    decreases s.len() - i,
{
    if i >= s.len() {
    } else {
        lemma_clip_edges_outside(pl, s, i + 1);
        assert(!inside(pl, s[i].vert));
        if i + 1 < s.len() {
            assert(!inside(pl, s[i + 1].vert));
        } else {
            assert(!inside(pl, s[0].vert));
        }
        assert(edge_out(pl, s, i).len() == 0);
    }
}

/// Clipping a triangle with exactly one vertex on the dropped side gives a
/// quadrilateral: the two kept vertices come through as they are, and each
/// of the two new vertices lies on the plane, within the classification
/// tolerance.
pub proof fn lemma_clip_triangle_one_out(pl: ClipPlane, s: Seq<ClipVert>, j: int)
    requires
        plane_wf(pl),
        poly_wf(s),
        s.len() == 3,
        0 <= j < 3,
        !inside(pl, s[j].vert),
        forall|i: int| 0 <= i < 3 && i != j ==> inside(pl, #[trigger] s[i].vert),
    ensures
        clip_poly(pl, s).len() == 4,
        forall|k: int|
            0 <= k < 4 ==> (exists|i: int| 0 <= i < 3 && #[trigger] clip_poly(pl, s)[k] == s[i])
                || -7 <= plane_dist(pl, clip_poly(pl, s)[k].vert) <= 1,
{
    lemma_clip_poly_elems(pl, s);
    let out = clip_poly(pl, s);
    assert forall|k: int|
        0 <= k < out.len() implies (exists|i: int| 0 <= i < 3 && #[trigger] out[k] == s[i]) || -7
        <= plane_dist(pl, out[k].vert) <= 1 by {
        assert(elem_ok(pl, s, out[k]));
        if !(exists|i: int| 0 <= i < s.len() && s[i] == out[k] && inside(pl, out[k].vert)) {
            let i = choose|i: int|
                0 <= i < s.len() && inside(pl, (#[trigger] s[i]).vert) != inside(
                    pl,
                    (if i + 1 < s.len() {
                        s[i + 1]
                    } else {
                        s[0]
                    }).vert,
                ) && out[k] == intersect_vert(
                    pl,
                    s[i],
                    if i + 1 < s.len() {
                        s[i + 1]
                    } else {
                        s[0]
                    },
                );
            let v1 = if i + 1 < s.len() {
                s[i + 1]
            } else {
                s[0]
            };
            lemma_intersect_props(pl, s[i], v1);
        }
    }
    assert(clip_edges(pl, s, 3).len() == 0);
    assert(clip_edges(pl, s, 2) == edge_out(pl, s, 2) + clip_edges(pl, s, 3));
    assert(clip_edges(pl, s, 1) == edge_out(pl, s, 1) + clip_edges(pl, s, 2));
    assert(clip_edges(pl, s, 0) == edge_out(pl, s, 0) + clip_edges(pl, s, 1));
    if j == 0 {
        assert(edge_out(pl, s, 0).len() == 1);
        assert(edge_out(pl, s, 1).len() == 1);
        assert(edge_out(pl, s, 2).len() == 2);
    } else if j == 1 {
        assert(edge_out(pl, s, 0).len() == 2);
        assert(edge_out(pl, s, 1).len() == 1);
        assert(edge_out(pl, s, 2).len() == 1);
    } else {
        assert(edge_out(pl, s, 0).len() == 1);
        assert(edge_out(pl, s, 1).len() == 2);
        assert(edge_out(pl, s, 2).len() == 1);
    }
}

/// Clipping against every plane in turn keeps vertices well formed and never
/// lowers the least depth of the polygon.
pub proof fn lemma_clip_all_preserves(planes: Seq<ClipPlane>, s: Seq<ClipVert>, zmin: int)
    requires
        forall|i: int| 0 <= i < planes.len() ==> plane_wf(#[trigger] planes[i]),
        poly_wf(s),
        poly_z_at_least(s, zmin),
    ensures
        poly_wf(clip_all(planes, s)),
        poly_z_at_least(clip_all(planes, s), zmin),
    decreases planes.len(),
{
    if planes.len() == 0 {
    } else {
        lemma_clip_poly_preserves(planes[0], s, zmin);
        lemma_clip_all_preserves(planes.drop_first(), clip_poly(planes[0], s), zmin);
    }
}

/// After clipping against the six frustum planes (near first), every surviving
/// vertex has depth at least the near distance less the tolerance, so its
/// depth is strictly positive.
pub proof fn lemma_clip_all_near_depth(planes: Seq<ClipPlane>, s: Seq<ClipVert>)
    requires
        forall|i: int| 0 <= i < planes.len() ==> plane_wf(#[trigger] planes[i]),
        planes.len() > 0,
        planes[0] == (ClipPlane {
            point: Vec3 { x: 0, y: 0, z: 65536 },
            norm: Vec3 { x: 0, y: 0, z: 65536 },
        }),
        poly_wf(s),
    ensures
        poly_z_at_least(clip_all(planes, s), 65529),
        poly_wf(clip_all(planes, s)),
{
    let near = planes[0];
    lemma_clip_poly_preserves(near, s, -0x1000_0000);
    let t = clip_poly(near, s);
    assert forall|i: int| 0 <= i < t.len() implies #[trigger] t[i].vert.z >= 65529 by {
        assert(inside(near, t[i].vert));
        let v = t[i].vert;
        assert(raw_dist(near, v) == (v.z - 65536) * 65536);
        assert(plane_dist(near, v) == v.z - 65536) by {
            lemma_div_f_multiple(v.z - 65536);
        };
    }
    lemma_clip_all_preserves(planes.drop_first(), t, 65529);
    assert(clip_all(planes, s) == clip_all(planes.drop_first(), t));
}

/// A raw distance that is a whole multiple of the scale divides back exactly.
proof fn lemma_div_f_multiple(k: int)
    ensures
        div_f(k * 65536, 65536) == k,
{
    vstd::arithmetic::div_mod::lemma_fundamental_div_mod_converse_div(k * 65536, 65536, k, 0);
}

/// One clip pass measured against any plane: every output vertex's distance
/// to it stays within four units of the band the input vertices span.
pub proof fn lemma_clip_poly_dist_band(pl: ClipPlane, q: ClipPlane, s: Seq<ClipVert>, lo: int, hi: int)
    requires
        plane_wf(pl),
        plane_wf(q),
        poly_wf(s),
        forall|i: int| 0 <= i < s.len() ==> lo <= plane_dist(q, (#[trigger] s[i]).vert) <= hi,
    ensures
        forall|k: int|
            0 <= k < clip_poly(pl, s).len() ==> lo - 4 <= plane_dist(
                q,
                (#[trigger] clip_poly(pl, s)[k]).vert,
            ) <= hi + 4,
{
    lemma_clip_poly_elems(pl, s);
    let out = clip_poly(pl, s);
    assert forall|k: int|
        0 <= k < out.len() implies lo - 4 <= plane_dist(q, (#[trigger] out[k]).vert) <= hi
        + 4 by {
        assert(elem_ok(pl, s, out[k]));
        if exists|j: int| 0 <= j < s.len() && s[j] == out[k] && inside(pl, out[k].vert) {
            let j = choose|j: int| 0 <= j < s.len() && s[j] == out[k] && inside(pl, out[k].vert);
            assert(lo <= plane_dist(q, s[j].vert) <= hi);
        } else {
            let j = choose|j: int|
                0 <= j < s.len() && inside(pl, (#[trigger] s[j]).vert) != inside(
                    pl,
                    (if j + 1 < s.len() {
                        s[j + 1]
                    } else {
                        s[0]
                    }).vert,
                ) && out[k] == intersect_vert(
                    pl,
                    s[j],
                    if j + 1 < s.len() {
                        s[j + 1]
                    } else {
                        s[0]
                    },
                );
            let v0 = s[j];
            let v1 = if j + 1 < s.len() {
                s[j + 1]
            } else {
                s[0]
            };
            let a = if inside(pl, v0.vert) {
                v0
            } else {
                v1
            };
            let b = if inside(pl, v0.vert) {
                v1
            } else {
                v0
            };
            assert(intersect_vert(pl, v0, v1) == intersect_vert(pl, a, b));
            lemma_intersect_dist_range(pl, q, a, b);
        }
    }
}

/// Clipping leaves the empty polygon empty.
pub proof fn lemma_clip_all_of_empty(planes: Seq<ClipPlane>, s: Seq<ClipVert>)
    requires
        s.len() == 0,
    ensures
        clip_all(planes, s).len() == 0,
    decreases planes.len(),
{
    if planes.len() == 0 {
    } else {
        assert(clip_poly(planes[0], s).len() == 0);
        lemma_clip_all_of_empty(planes.drop_first(), clip_poly(planes[0], s));
    }
}

/// A polygon on the kept side of every plane passes the whole pipeline
/// unchanged.
pub proof fn lemma_clip_all_fully_inside(planes: Seq<ClipPlane>, s: Seq<ClipVert>)
    requires
        forall|p: int, i: int|
            0 <= p < planes.len() && 0 <= i < s.len() ==> inside(
                #[trigger] planes[p],
                (#[trigger] s[i]).vert,
            ),
    ensures
        clip_all(planes, s) == s,
    decreases planes.len(),
{
    if planes.len() == 0 {
    } else {
        lemma_clip_fully_inside(planes[0], s);
        assert(clip_poly(planes[0], s) == s);
        assert forall|p: int, i: int|
            0 <= p < planes.drop_first().len() && 0 <= i < s.len() implies inside(
            #[trigger] planes.drop_first()[p],
            (#[trigger] s[i]).vert,
        ) by {
            assert(planes.drop_first()[p] == planes[p + 1]);
        }
        lemma_clip_all_fully_inside(planes.drop_first(), s);
    }
}

/// The whole pipeline discards a triangle that sits clearly behind any one
/// of its planes: a margin of four units per pass keeps the crossings that
/// earlier passes insert on the dropped side until the plane's own pass
/// empties the polygon, and an empty polygon stays empty. (Right on the
/// tolerance boundary a crossing could drift across within the four-unit
/// rounding, which is why the margin grows with the plane's position.)
pub proof fn lemma_clip_all_fully_outside(planes: Seq<ClipPlane>, s: Seq<ClipVert>, j: int)
    requires
        forall|p: int| 0 <= p < planes.len() ==> plane_wf(#[trigger] planes[p]),
        poly_wf(s),
        0 <= j < planes.len(),
        forall|i: int|
            0 <= i < s.len() ==> plane_dist(planes[j], (#[trigger] s[i]).vert) <= -8 - 4 * j,
    ensures
        clip_all(planes, s).len() == 0,
    decreases planes.len(),
{
    if j == 0 {
        assert forall|i: int| 0 <= i < s.len() implies !inside(
            planes[0],
            (#[trigger] s[i]).vert,
        ) by {
            assert(plane_dist(planes[0], s[i].vert) <= -8);
        }
        lemma_clip_fully_outside(planes[0], s);
        lemma_clip_all_of_empty(planes.drop_first(), clip_poly(planes[0], s));
    } else {
        let big: int = 0x1_0000_0000_0000;
        assert forall|i: int| 0 <= i < s.len() implies -big <= plane_dist(
            planes[j],
            (#[trigger] s[i]).vert,
        ) <= -8 - 4 * j by {
            lemma_dist_within(planes[j], s[i].vert);
        }
        lemma_clip_poly_dist_band(planes[0], planes[j], s, -big, -8 - 4 * j);
        lemma_clip_poly_preserves(planes[0], s, -0x1000_0000);
        let t = clip_poly(planes[0], s);
        assert forall|i: int| 0 <= i < t.len() implies plane_dist(
            planes.drop_first()[j - 1],
            (#[trigger] t[i]).vert,
        ) <= -8 - 4 * (j - 1) by {
            assert(planes.drop_first()[j - 1] == planes[j]);
            assert(plane_dist(planes[j], t[i].vert) <= -8 - 4 * j + 4);
        }
        assert forall|p: int| 0 <= p < planes.drop_first().len() implies plane_wf(
            #[trigger] planes.drop_first()[p],
        ) by {
            assert(planes.drop_first()[p] == planes[p + 1]);
        }
        lemma_clip_all_fully_outside(planes.drop_first(), t, j - 1);
    }
}

/// The distance of a bounded vertex to a bounded plane is itself bounded.
proof fn lemma_dist_within(pl: ClipPlane, v: Vec3)
    requires
        plane_wf(pl),
        ok3(v, B_GEO as int),
    ensures
        -0x1_0000_0000_0000 <= plane_dist(pl, v) <= 0x1_0000_0000_0000,
{
    lemma_mul_bound2(v.x - pl.point.x, pl.norm.x as int, 0x2000_0000, 131072);
    lemma_mul_bound2(v.y - pl.point.y, pl.norm.y as int, 0x2000_0000, 131072);
    lemma_mul_bound2(v.z - pl.point.z, pl.norm.z as int, 0x2000_0000, 131072);
    lemma_div_f_bound(raw_dist(pl, v), 65536, 0x1_0000_0000_0000);
}

/// The whole pipeline turns a triangle that straddles exactly one of its
/// planes into a quadrilateral: the two kept vertices and two crossings on
/// the straddled plane, within the classification tolerance. The triangle
/// must sit three units clear of every other plane, so that the rounding of
/// the two crossings (at most four units) cannot push them outside one.
pub proof fn lemma_clip_all_triangle_one_out(
    planes: Seq<ClipPlane>,
    s: Seq<ClipVert>,
    j: int,
    oi: int,
)
    requires
        forall|p: int| 0 <= p < planes.len() ==> plane_wf(#[trigger] planes[p]),
        poly_wf(s),
        s.len() == 3,
        0 <= j < planes.len(),
        0 <= oi < 3,
        !inside(planes[j], s[oi].vert),
        forall|i: int| 0 <= i < 3 && i != oi ==> inside(planes[j], (#[trigger] s[i]).vert),
        forall|p: int, i: int|
            0 <= p < planes.len() && p != j && 0 <= i < 3 ==> plane_dist(
                #[trigger] planes[p],
                (#[trigger] s[i]).vert,
            ) >= -3,
    ensures
        clip_all(planes, s).len() == 4,
        forall|k: int|
            0 <= k < 4 ==> (exists|i: int|
                0 <= i < 3 && #[trigger] clip_all(planes, s)[k] == s[i]) || -7 <= plane_dist(
                planes[j],
                clip_all(planes, s)[k].vert,
            ) <= 1,
    decreases planes.len(),
{
    if j == 0 {
        lemma_clip_triangle_one_out(planes[0], s, oi);
        lemma_clip_poly_elems(planes[0], s);
        let q4 = clip_poly(planes[0], s);
        let rest = planes.drop_first();
        assert forall|p: int, k: int|
            0 <= p < rest.len() && 0 <= k < q4.len() implies inside(
            #[trigger] rest[p],
            (#[trigger] q4[k]).vert,
        ) by {
            assert(rest[p] == planes[p + 1]);
            assert(elem_ok(planes[0], s, q4[k]));
            if exists|i: int| 0 <= i < s.len() && s[i] == q4[k] && inside(planes[0], q4[k].vert) {
                let i = choose|i: int|
                    0 <= i < s.len() && s[i] == q4[k] && inside(planes[0], q4[k].vert);
                assert(plane_dist(planes[p + 1], s[i].vert) >= -3);
            } else {
                let i = choose|i: int|
                    0 <= i < s.len() && inside(planes[0], (#[trigger] s[i]).vert) != inside(
                        planes[0],
                        (if i + 1 < s.len() {
                            s[i + 1]
                        } else {
                            s[0]
                        }).vert,
                    ) && q4[k] == intersect_vert(
                        planes[0],
                        s[i],
                        if i + 1 < s.len() {
                            s[i + 1]
                        } else {
                            s[0]
                        },
                    );
                let v0 = s[i];
                let v1 = if i + 1 < s.len() {
                    s[i + 1]
                } else {
                    s[0]
                };
                let a = if inside(planes[0], v0.vert) {
                    v0
                } else {
                    v1
                };
                let b = if inside(planes[0], v0.vert) {
                    v1
                } else {
                    v0
                };
                assert(intersect_vert(planes[0], v0, v1) == intersect_vert(planes[0], a, b));
                lemma_intersect_dist_range(planes[0], planes[p + 1], a, b);
                assert(plane_dist(planes[p + 1], a.vert) >= -3);
                assert(plane_dist(planes[p + 1], b.vert) >= -3);
            }
        }
        lemma_clip_all_fully_inside(rest, q4);
        assert(clip_all(planes, s) == q4);
    } else {
        assert forall|i: int| 0 <= i < s.len() implies inside(
            planes[0],
            (#[trigger] s[i]).vert,
        ) by {
            assert(plane_dist(planes[0], s[i].vert) >= -3);
        }
        lemma_clip_fully_inside(planes[0], s);
        let rest = planes.drop_first();
        assert forall|p: int| 0 <= p < rest.len() implies plane_wf(#[trigger] rest[p]) by {
            assert(rest[p] == planes[p + 1]);
        }
        assert(rest[j - 1] == planes[j]);
        assert forall|p: int, i: int|
            0 <= p < rest.len() && p != j - 1 && 0 <= i < 3 implies plane_dist(
            #[trigger] rest[p],
            (#[trigger] s[i]).vert,
        ) >= -3 by {
            assert(rest[p] == planes[p + 1]);
        }
        lemma_clip_all_triangle_one_out(rest, s, j - 1, oi);
        assert(clip_all(planes, s) == clip_all(rest, s));
    }
}

} // verus!
