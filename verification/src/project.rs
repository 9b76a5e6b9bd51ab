//! The camera and projection pipeline: the orthonormal view frame, the
//! perspective projection to screen coordinates, its inverse, and the proof
//! that the two round-trip within a fixed tolerance.

use vstd::prelude::*;
use crate::fx::{
    div_f, fx_div, fx_mul, lemma_div_f_bound, lemma_div_f_le_abs, lemma_div_f_neg,
    lemma_mul_bound2,
};
use vstd::arithmetic::div_mod::{lemma_fundamental_div_mod, lemma_fundamental_div_mod_converse_div};
use crate::mat::{apply_row_v3, ok_mat, Mat4};
use crate::vec::{norm_sq3, ok3, sqrt_f, Vec3, Vec4};

verus! {

/// The fixed vertical field of view is sixty degrees; this is the cotangent
/// of half of it, in fixed-point form.
pub const FOV_COT_HALF: i64 = 113512;

/// The aspect correction applied to the horizontal axis.
pub const ASPECT_RATIO_FX: i64 = 28087;

/// `Z_FAR / (Z_FAR - Z_NEAR)`, the depth remapping factor of the projection.
pub const Z_RATIO_FX: i64 = 72818;

/// The fixed world-up direction used to build the camera frame.
pub open spec fn up_vector() -> Vec3 {
    Vec3 { x: 0, y: 65536, z: 0 }
}

/// Componentwise difference.
pub open spec fn sub_s(a: Vec3, b: Vec3) -> Vec3 {
    Vec3 { x: (a.x - b.x) as i64, y: (a.y - b.y) as i64, z: (a.z - b.z) as i64 }
}

/// The fixed-point cross product.
pub open spec fn cross_s(a: Vec3, b: Vec3) -> Vec3 {
    Vec3 {
        x: div_f(a.y * b.z - a.z * b.y, 65536) as i64,
        y: div_f(a.z * b.x - a.x * b.z, 65536) as i64,
        z: div_f(a.x * b.y - a.y * b.x, 65536) as i64,
    }
}

/// The fixed-point dot product.
pub open spec fn dot_s(a: Vec3, b: Vec3) -> int {
    div_f(a.x * b.x + a.y * b.y + a.z * b.z, 65536)
}

/// The vector rescaled to unit length by its integer square-root length.
pub open spec fn normalized(v: Vec3) -> Vec3 {
    Vec3 {
        x: div_f(v.x * 65536, sqrt_f(norm_sq3(v))) as i64,
        y: div_f(v.y * 65536, sqrt_f(norm_sq3(v))) as i64,
        z: div_f(v.z * 65536, sqrt_f(norm_sq3(v))) as i64,
    }
}

/// The camera frame's forward axis: toward the look-at point.
pub open spec fn view_z(cam: Vec3, look: Vec3) -> Vec3 {
    normalized(sub_s(look, cam))
}

/// The camera frame's right axis.
pub open spec fn view_x(cam: Vec3, look: Vec3, up: Vec3) -> Vec3 {
    normalized(cross_s(up, view_z(cam, look)))
}

/// The camera frame's down axis, completing the basis.
pub open spec fn view_y(cam: Vec3, look: Vec3, up: Vec3) -> Vec3 {
    cross_s(view_z(cam, look), view_x(cam, look, up))
}

/// The world-to-camera matrix: the three basis axes as rows, each translated
/// by its projection of the camera location.
pub open spec fn view_matrix(cam: Vec3, look: Vec3, up: Vec3) -> Mat4 {
    Mat4 {
        m00: view_x(cam, look, up).x,
        m01: view_x(cam, look, up).y,
        m02: view_x(cam, look, up).z,
        m03: (-dot_s(view_x(cam, look, up), cam)) as i64,
        m10: view_y(cam, look, up).x,
        m11: view_y(cam, look, up).y,
        m12: view_y(cam, look, up).z,
        m13: (-dot_s(view_y(cam, look, up), cam)) as i64,
        m20: view_z(cam, look).x,
        m21: view_z(cam, look).y,
        m22: view_z(cam, look).z,
        m23: (-dot_s(view_z(cam, look), cam)) as i64,
        m30: 0,
        m31: 0,
        m32: 0,
        m33: 65536,
    }
}

/// The matrix that carries world coordinates into the camera-aligned frame:
/// an orthonormal basis is built with its forward axis toward the look-at
/// point, and since the basis matrix is orthonormal its inverse is its
/// transpose, which is returned directly, translation folded in row by row.
/// The camera must not sit on its look-at point, and the up direction must
/// not be parallel to the view direction; the two lower bounds say exactly
/// that.
pub fn camera_view_matrix(camera_location: Vec3, look_at: Vec3, up: Vec3) -> (r: Mat4)
    requires
        ok3(camera_location, 0x100_0000),
        ok3(look_at, 0x100_0000),
        ok3(up, 0x10_0000),
        norm_sq3(sub_s(look_at, camera_location)) > 0,
        norm_sq3(cross_s(up, view_z(camera_location, look_at))) > 0,
    ensures
        r == view_matrix(camera_location, look_at, up),
        crate::mat::ok_mat(r, 0x600_0000),
        -0x2_0000 <= r.m00 <= 0x2_0000 && -0x2_0000 <= r.m01 <= 0x2_0000 && -0x2_0000 <= r.m02
            <= 0x2_0000,
        -0x2_0000 <= r.m10 <= 0x2_0000 && -0x2_0000 <= r.m11 <= 0x2_0000 && -0x2_0000 <= r.m12
            <= 0x2_0000,
        -0x2_0000 <= r.m20 <= 0x2_0000 && -0x2_0000 <= r.m21 <= 0x2_0000 && -0x2_0000 <= r.m22
            <= 0x2_0000,
        -0x600_0000 <= r.m03 <= 0x600_0000 && -0x600_0000 <= r.m13 <= 0x600_0000 && -0x600_0000
            <= r.m23 <= 0x600_0000,
{
    let za = look_at.sub(camera_location);
    let z_axis = za.unit_norm();
    let xa = up.cross(z_axis);
    proof {
        assert(xa == cross_s(up, view_z(camera_location, look_at)));
        lemma_mul_bound2(up.y as int, z_axis.z as int, 0x10_0000, 65536);
        lemma_mul_bound2(up.z as int, z_axis.y as int, 0x10_0000, 65536);
        lemma_mul_bound2(up.z as int, z_axis.x as int, 0x10_0000, 65536);
        lemma_mul_bound2(up.x as int, z_axis.z as int, 0x10_0000, 65536);
        lemma_mul_bound2(up.x as int, z_axis.y as int, 0x10_0000, 65536);
        lemma_mul_bound2(up.y as int, z_axis.x as int, 0x10_0000, 65536);
        lemma_div_f_bound(up.y * z_axis.z - up.z * z_axis.y, 65536, 0x40_0000);
        lemma_div_f_bound(up.z * z_axis.x - up.x * z_axis.z, 65536, 0x40_0000);
        lemma_div_f_bound(up.x * z_axis.y - up.y * z_axis.x, 65536, 0x40_0000);
    }
    let x_axis = xa.unit_norm();
    let y_axis = z_axis.cross(x_axis);
    proof {
        lemma_mul_bound2(z_axis.y as int, x_axis.z as int, 65536, 65536);
        lemma_mul_bound2(z_axis.z as int, x_axis.y as int, 65536, 65536);
        lemma_mul_bound2(z_axis.z as int, x_axis.x as int, 65536, 65536);
        lemma_mul_bound2(z_axis.x as int, x_axis.z as int, 65536, 65536);
        lemma_mul_bound2(z_axis.x as int, x_axis.y as int, 65536, 65536);
        lemma_mul_bound2(z_axis.y as int, x_axis.x as int, 65536, 65536);
        lemma_div_f_bound(z_axis.y * x_axis.z - z_axis.z * x_axis.y, 65536, 0x2_0000);
        lemma_div_f_bound(z_axis.z * x_axis.x - z_axis.x * x_axis.z, 65536, 0x2_0000);
        lemma_div_f_bound(z_axis.x * x_axis.y - z_axis.y * x_axis.x, 65536, 0x2_0000);
    }
    let tx = x_axis.dot(camera_location);
    let ty = y_axis.dot(camera_location);
    let tz = z_axis.dot(camera_location);
    proof {
        lemma_mul_bound2(x_axis.x as int, camera_location.x as int, 0x2_0000, 0x100_0000);
        lemma_mul_bound2(x_axis.y as int, camera_location.y as int, 0x2_0000, 0x100_0000);
        lemma_mul_bound2(x_axis.z as int, camera_location.z as int, 0x2_0000, 0x100_0000);
        lemma_mul_bound2(y_axis.x as int, camera_location.x as int, 0x2_0000, 0x100_0000);
        lemma_mul_bound2(y_axis.y as int, camera_location.y as int, 0x2_0000, 0x100_0000);
        lemma_mul_bound2(y_axis.z as int, camera_location.z as int, 0x2_0000, 0x100_0000);
        lemma_mul_bound2(z_axis.x as int, camera_location.x as int, 0x2_0000, 0x100_0000);
        lemma_mul_bound2(z_axis.y as int, camera_location.y as int, 0x2_0000, 0x100_0000);
        lemma_mul_bound2(z_axis.z as int, camera_location.z as int, 0x2_0000, 0x100_0000);
        lemma_div_f_bound(
            x_axis.x * camera_location.x + x_axis.y * camera_location.y + x_axis.z
                * camera_location.z,
            65536,
            0x600_0000,
        );
        lemma_div_f_bound(
            y_axis.x * camera_location.x + y_axis.y * camera_location.y + y_axis.z
                * camera_location.z,
            65536,
            0x600_0000,
        );
        lemma_div_f_bound(
            z_axis.x * camera_location.x + z_axis.y * camera_location.y + z_axis.z
                * camera_location.z,
            65536,
            0x600_0000,
        );
    }
    Mat4::new(
        x_axis.x, x_axis.y, x_axis.z, -tx,
        y_axis.x, y_axis.y, y_axis.z, -ty,
        z_axis.x, z_axis.y, z_axis.z, -tz,
        0, 0, 0, 65536,
    )
}

/// A world point carried into camera space by the view matrix.
pub fn project_point_to_camera_space(p: Vec3, camera_location: Vec3, look_at: Vec3) -> (r: Vec3)
    requires
        ok3(p, 0x100_0000),
        ok3(camera_location, 0x100_0000),
        ok3(look_at, 0x100_0000),
        norm_sq3(sub_s(look_at, camera_location)) > 0,
        norm_sq3(cross_s(up_vector(), view_z(camera_location, look_at))) > 0,
    ensures
        r.x == apply_row_v3(view_matrix(camera_location, look_at, up_vector()), 0, p),
        r.y == apply_row_v3(view_matrix(camera_location, look_at, up_vector()), 1, p),
        r.z == apply_row_v3(view_matrix(camera_location, look_at, up_vector()), 2, p),
        ok3(r, 0x1000_0000),
{
    let m = camera_view_matrix(camera_location, look_at, Vec3 { x: 0, y: 65536, z: 0 });
    proof {
        lemma_mul_bound2(m.m00 as int, p.x as int, 0x2_0000, 0x100_0000);
        lemma_mul_bound2(m.m01 as int, p.y as int, 0x2_0000, 0x100_0000);
        lemma_mul_bound2(m.m02 as int, p.z as int, 0x2_0000, 0x100_0000);
        lemma_mul_bound2(m.m10 as int, p.x as int, 0x2_0000, 0x100_0000);
        lemma_mul_bound2(m.m11 as int, p.y as int, 0x2_0000, 0x100_0000);
        lemma_mul_bound2(m.m12 as int, p.z as int, 0x2_0000, 0x100_0000);
        lemma_mul_bound2(m.m20 as int, p.x as int, 0x2_0000, 0x100_0000);
        lemma_mul_bound2(m.m21 as int, p.y as int, 0x2_0000, 0x100_0000);
        lemma_mul_bound2(m.m22 as int, p.z as int, 0x2_0000, 0x100_0000);
        lemma_mul_bound2(m.m03 as int, 65536, 0x600_0000, 65536);
        lemma_mul_bound2(m.m13 as int, 65536, 0x600_0000, 65536);
        lemma_mul_bound2(m.m23 as int, 65536, 0x600_0000, 65536);
        lemma_div_f_bound(
            m.m00 * p.x + m.m01 * p.y + m.m02 * p.z + m.m03 * 65536,
            65536,
            0x1000_0000,
        );
        lemma_div_f_bound(
            m.m10 * p.x + m.m11 * p.y + m.m12 * p.z + m.m13 * 65536,
            65536,
            0x1000_0000,
        );
        lemma_div_f_bound(
            m.m20 * p.x + m.m21 * p.y + m.m22 * p.z + m.m23 * 65536,
            65536,
            0x1000_0000,
        );
    }
    m.mul_vec3(p)
}

/// The horizontal projection factor: the aspect ratio times the focal
/// cotangent.
pub open spec fn aspect_focal() -> int {
    div_f((28087 * 113512) as int, 65536)
}

/// The normalized device x of a camera-space point: its x scaled by the
/// projection factor and divided by its depth.
pub open spec fn ndc_x(p: Vec3) -> int {
    div_f(div_f(aspect_focal() * p.x, 65536) * 65536, p.z as int)
}

/// The normalized device y, with the vertical axis flipped for screen rows
/// that grow downward.
pub open spec fn ndc_y(p: Vec3) -> int {
    div_f(div_f(-113512 * p.y, 65536) * 65536, p.z as int)
}

/// The remapped depth of a camera-space point.
pub open spec fn depth_of(p: Vec3) -> int {
    div_f(72818 * (p.z - 65536), 65536)
}

/// The screen x of a camera-space point on a screen of `w` pixels: the
/// device coordinate scaled by the half width and recentered.
pub open spec fn screen_x_of(w: int, p: Vec3) -> int {
    div_f(ndc_x(p) * (w * 32768), 65536) + w * 32768
}

pub open spec fn screen_y_of(h: int, p: Vec3) -> int {
    div_f(ndc_y(p) * (h * 32768), 65536) + h * 32768
}

/// A camera-space point carried into screen space: the perspective
/// projection, the divide by depth, and the viewport scaling, with the
/// homogeneous depth kept in `w` for perspective-correct interpolation
/// downstream. The point must already be in front of the camera: the clipper
/// guarantees that, and the near plane keeps the depth strictly positive.
pub fn project_point_to_screen_space(screen_width: u32, screen_height: u32, p: Vec3) -> (r: Vec4)
    requires
        1 <= screen_width <= 4096,
        1 <= screen_height <= 4096,
        ok3(p, 0x1000_0000),
        p.z >= 65529,
    ensures
        r.x == screen_x_of(screen_width as int, p),
        r.y == screen_y_of(screen_height as int, p),
        r.z == depth_of(p),
        r.w == p.z,
{
    let af = fx_mul(28087, 113512);
    proof {
        lemma_div_f_bound((28087 * 113512) as int, 65536, 0x10_0000);
        lemma_mul_bound2(af as int, p.x as int, 0x10_0000, 0x1000_0000);
        lemma_div_f_bound(af * p.x, 65536, 0x10_0000_0000);
        lemma_mul_bound2(113512, p.y as int, 0x2_0000, 0x1000_0000);
        lemma_div_f_bound(-113512 * p.y, 65536, 0x10_0000_0000);
        lemma_mul_bound2(72818, p.z - 65536, 0x2_0000, 0x2000_0000);
    }
    let px = fx_mul(af, p.x);
    let py = fx_mul(-113512, p.y);
    let pz = fx_mul(72818, p.z - 65536);
    proof {
        assert(-(0x20_0000_0000 * p.z) <= px * 65536 <= 0x20_0000_0000 * p.z && -(0x20_0000_0000
            * p.z) <= py * 65536 <= 0x20_0000_0000 * p.z) by (nonlinear_arith)
            requires
                -0x10_0000_0000 <= px <= 0x10_0000_0000,
                -0x10_0000_0000 <= py <= 0x10_0000_0000,
                p.z >= 65529,
        ;
    }
    let nx = fx_div(px, p.z);
    let ny = fx_div(py, p.z);
    proof {
        lemma_div_f_bound(px * 65536, p.z as int, 0x20_0000_0000);
        lemma_div_f_bound(py * 65536, p.z as int, 0x20_0000_0000);
        lemma_mul_bound2(nx as int, screen_width as int * 32768, 0x20_0000_0000, 0x800_0000);
        lemma_mul_bound2(ny as int, screen_height as int * 32768, 0x20_0000_0000, 0x800_0000);
        lemma_div_f_bound(nx * (screen_width as int * 32768), 65536, 0x800_0000_0000_0000);
        lemma_div_f_bound(ny * (screen_height as int * 32768), 65536, 0x800_0000_0000_0000);
    }
    let half_width: i64 = (screen_width as i64) * 32768;
    let half_height: i64 = (screen_height as i64) * 32768;
    let centered_x = fx_mul(nx, half_width) + half_width;
    let centered_y = fx_mul(ny, half_height) + half_height;
    Vec4 { x: centered_x, y: centered_y, z: pz, w: p.z }
}

/// The screen-space point carried back to camera space, inverting the
/// viewport scaling, the perspective divide and the projection factors; the
/// depth comes back from the carried `w`. Each inversion rounds once, so the
/// round trip is exact only up to those roundings.
pub fn unproject_point_from_screen_space(screen_width: u32, screen_height: u32, s: Vec4) -> (r:
    Vec3)
    requires
        1 <= screen_width <= 4096,
        1 <= screen_height <= 4096,
        -0x1000_0000 <= s.x <= 0x1000_0000,
        -0x1000_0000 <= s.y <= 0x1000_0000,
        1 <= s.w <= 0x400_0000,
    ensures
        r.x == div_f(
            div_f(div_f((s.x - screen_width * 32768) * 65536, screen_width * 32768) * s.w, 65536)
                * 65536,
            aspect_focal(),
        ),
        r.y == div_f(
            div_f(div_f((s.y - screen_height * 32768) * 65536, screen_height * 32768) * s.w, 65536)
                * 65536,
            -113512,
        ),
        r.z == s.w,
{
    let half_width: i64 = (screen_width as i64) * 32768;
    let half_height: i64 = (screen_height as i64) * 32768;
    proof {
        assert(-(0x4000_0000 * half_width) <= (s.x - half_width) * 65536 <= 0x4000_0000
            * half_width && -(0x4000_0000 * half_height) <= (s.y - half_height) * 65536
            <= 0x4000_0000 * half_height) by (nonlinear_arith)
            requires
                -0x1000_0000 <= s.x <= 0x1000_0000,
                -0x1000_0000 <= s.y <= 0x1000_0000,
                32768 <= half_width <= 0x800_0000,
                32768 <= half_height <= 0x800_0000,
        ;
    }
    let nx = fx_div(s.x - half_width, half_width);
    let ny = fx_div(s.y - half_height, half_height);
    proof {
        lemma_div_f_bound((s.x - half_width) * 65536, half_width as int, 0x4000_0000);
        lemma_div_f_bound((s.y - half_height) * 65536, half_height as int, 0x4000_0000);
        lemma_mul_bound2(nx as int, s.w as int, 0x4000_0000, 0x400_0000);
        lemma_mul_bound2(ny as int, s.w as int, 0x4000_0000, 0x400_0000);
        lemma_div_f_bound((28087 * 113512) as int, 65536, 0x10_0000);
    }
    let cx = fx_mul(nx, s.w);
    let cy = fx_mul(ny, s.w);
    proof {
        lemma_div_f_bound(nx * s.w, 65536, 0x100_0000_0000);
        lemma_div_f_bound(ny * s.w, 65536, 0x100_0000_0000);
    }
    let af = fx_mul(28087, 113512);
    let x = fx_div(cx, af);
    let y = fx_div(cy, -113512);
    Vec3 { x, y, z: s.w }
}

/// One axis of the projection pipeline, walked forward and back: scale by
/// the projection factor, divide by depth, scale by the half viewport, then
/// invert each step. Every one of the six floor divisions loses less than a
/// unit, and the losses all push the same way, so the recovered coordinate
/// sits at most eighty units below the original and never above it.
proof fn lemma_axis_round_trip(x: int, z: int, k: int, hw: int)
    requires
        32768 <= hw <= 0x800_0000,
        65529 <= z <= 655367,
        -0x1000_0000 <= x <= 0x1000_0000,
        40000 <= k <= 120000,
    ensures
        ({
            let px = div_f(k * x, 65536);
            let nx = div_f(px * 65536, z);
            let xs = div_f(nx * hw, 65536);
            let u = div_f(xs * 65536, hw);
            let c = div_f(u * z, 65536);
            let xr = div_f(c * 65536, k);
            x - 80 <= xr <= x
        }),
{
    let t: int = 65536;
    let px = div_f(k * x, t);
    let nx = div_f(px * t, z);
    let xs = div_f(nx * hw, t);
    let u = div_f(xs * t, hw);
    let c = div_f(u * z, t);
    let xr = div_f(c * t, k);
    lemma_fundamental_div_mod(k * x, t);
    lemma_fundamental_div_mod(px * t, z);
    lemma_fundamental_div_mod(nx * hw, t);
    lemma_fundamental_div_mod(xs * t, hw);
    lemma_fundamental_div_mod(u * z, t);
    lemma_fundamental_div_mod(c * t, k);
    let r1 = (k * x) % t;
    let r2 = (px * t) % z;
    let r3 = (nx * hw) % t;
    let r4 = (xs * t) % hw;
    let r5 = (u * z) % t;
    let r6 = (c * t) % k;
    assert(k * xr * hw == u * z * hw - (r5 + r6) * hw) by (nonlinear_arith)
        requires
            u * z == t * c + r5,
            c * t == k * xr + r6,
            t == 65536,
    ;
    assert(u * z * hw == xs * t * z - r4 * z) by (nonlinear_arith)
        requires
            xs * t == hw * u + r4,
    ;
    assert(xs * t * z == nx * hw * z - r3 * z) by (nonlinear_arith)
        requires
            nx * hw == t * xs + r3,
    ;
    assert(nx * hw * z == px * t * hw - r2 * hw) by (nonlinear_arith)
        requires
            px * t == z * nx + r2,
    ;
    assert(px * t * hw == k * x * hw - r1 * hw) by (nonlinear_arith)
        requires
            k * x == t * px + r1,
    ;
    assert(k * xr * hw == k * x * hw - (r1 + r2 + r5 + r6) * hw - (r3 + r4) * z)
        by (nonlinear_arith)
        requires
            k * xr * hw == u * z * hw - (r5 + r6) * hw,
            u * z * hw == xs * t * z - r4 * z,
            xs * t * z == nx * hw * z - r3 * z,
            nx * hw * z == px * t * hw - r2 * hw,
            px * t * hw == k * x * hw - r1 * hw,
    ;
    assert(x - 80 <= xr <= x) by (nonlinear_arith)
        requires
            k * xr * hw == k * x * hw - (r1 + r2 + r5 + r6) * hw - (r3 + r4) * z,
            0 <= r1 < 65536,
            0 <= r2 < z,
            0 <= r3 < 65536,
            0 <= r4 < hw,
            0 <= r5 < 65536,
            0 <= r6 < k,
            32768 <= hw <= 0x800_0000,
            65529 <= z <= 655367,
            40000 <= k <= 120000,
    ;
}

/// The horizontal projection factor evaluates to a fixed constant well
/// inside the factor band of the round-trip argument.
proof fn lemma_aspect_focal_value()
    ensures
        aspect_focal() == 48648,
{
    lemma_fundamental_div_mod_converse_div(3188211544, 65536, 48648, 16216);
}

/// Projecting a camera-space point to the screen and carrying the screen
/// point back recovers the point within a small fixed tolerance: the depth
/// comes back exactly, the x within eighty fixed-point units below the
/// original, the y within eighty fixed-point units above it and one below,
/// each bound the sum of the one-sided floor roundings along its chain. The
/// premises on `s` and `r` are exactly what `project_point_to_screen_space`
/// and `unproject_point_from_screen_space` promise of their results.
pub proof fn lemma_project_unproject_round_trip(w: int, h: int, p: Vec3, s: Vec4, r: Vec3)
    requires
        1 <= w <= 4096,
        1 <= h <= 4096,
        ok3(p, 0x1000_0000),
        65529 <= p.z <= 655367,
        s.x == screen_x_of(w, p),
        s.y == screen_y_of(h, p),
        s.w == p.z,
        r.x == div_f(
            div_f(div_f((s.x - w * 32768) * 65536, w * 32768) * s.w, 65536) * 65536,
            aspect_focal(),
        ),
        r.y == div_f(
            div_f(div_f((s.y - h * 32768) * 65536, h * 32768) * s.w, 65536) * 65536,
            -113512,
        ),
        r.z == s.w,
    ensures
        p.x - 80 <= r.x <= p.x,
        p.y - 1 <= r.y <= p.y + 80,
        r.z == p.z,
{
    lemma_aspect_focal_value();
    let hw = w * 32768;
    let hh = h * 32768;
    lemma_axis_round_trip(p.x as int, p.z as int, aspect_focal(), hw);
    assert(s.x - hw == div_f(div_f(div_f(aspect_focal() * p.x, 65536) * 65536, p.z as int) * hw, 65536));
    // the y chain is the x chain applied to the negated coordinate
    let yn: int = -(p.y as int);
    assert(-113512 * p.y == 113512 * yn) by (nonlinear_arith)
        requires
            yn == -(p.y as int),
    ;
    lemma_axis_round_trip(yn, p.z as int, 113512, hh);
    let cy = div_f(div_f(div_f(113512 * yn, 65536) * 65536, p.z as int) * hh, 65536);
    assert(s.y - hh == cy);
    let uy = div_f(cy * 65536, hh);
    let vy = div_f(uy * (p.z as int), 65536);
    let tr = div_f(vy * 65536, 113512);
    assert(yn - 80 <= tr <= yn);
    assert(r.y == div_f(vy * 65536, -113512));
    assert(div_f(vy * 65536, -113512) == div_f(-(vy * 65536), 113512));
    lemma_div_f_neg(vy * 65536, 113512);
    assert(-tr - 1 <= r.y <= -tr);
}

} // verus!
