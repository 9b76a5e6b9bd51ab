use graphics_from_scratch::pixel_renderer::{Color, PixelRenderer};
use graphics_from_scratch::vec::{Vec2, Vec4};
use graphics_from_scratch::{color_mul, cross_edge, draw_line, draw_triangle_color, interpolate_uv, min_max};

const S: i64 = 65536;

fn v4(x: i64, y: i64, w: i64) -> Vec4 {
    Vec4::new(x, y, 0, w)
}

/// Two triangles sharing the diagonal of a quad cover every pixel of the
/// quad exactly once: no pixel is claimed by both and none is left out.
#[test]
fn shared_edge_no_gap_no_double() {
    let t1 = (v4(0, 0, S), v4(10 * S, 0, S), v4(0, 10 * S, S));
    let t2 = (v4(10 * S, 0, S), v4(10 * S, 10 * S, S), v4(0, 10 * S, S));
    let red = Color::rgb(255, 0, 0);
    let green = Color::rgb(0, 255, 0);
    let black = Color::rgb(0, 0, 0);

    let mut pr1 = PixelRenderer::new(12, 12);
    draw_triangle_color(&mut pr1, red, t1.0, t1.1, t1.2);
    let mut pr2 = PixelRenderer::new(12, 12);
    draw_triangle_color(&mut pr2, green, t2.0, t2.1, t2.2);

    for x in 0..12u32 {
        for y in 0..12u32 {
            let c1 = pr1.get_pixel(x, y) == red;
            let c2 = pr2.get_pixel(x, y) == green;
            // never both
            assert!(!(c1 && c2), "double-drawn pixel at {} {}", x, y);
            // with this fill convention the quad owns columns 1..=10 and
            // rows 0..=9; inside it, exactly one triangle claims each pixel
            let in_quad = (1..=10).contains(&x) && (0..=9).contains(&y);
            assert_eq!(c1 || c2, in_quad, "coverage wrong at {} {}", x, y);
            if !c1 {
                assert_eq!(pr1.get_pixel(x, y), black);
            }
            if !c2 {
                assert_eq!(pr2.get_pixel(x, y), black);
            }
        }
    }
}

/// A pixel keeps its first color against a farther write and yields to a
/// strictly nearer one; an exact tie keeps the first writer.
#[test]
fn depth_test_nearer_wins_ties_keep_first() {
    let c1 = Color::rgb(10, 20, 30);
    let c2 = Color::rgb(200, 100, 50);
    let mut pr = PixelRenderer::new(8, 8);
    pr.set_pixel_z(3, 3, 5 * S, c1);
    assert_eq!(pr.get_pixel(3, 3), c1);
    pr.set_pixel_z(3, 3, 7 * S, c2);
    assert_eq!(pr.get_pixel(3, 3), c1);
    pr.set_pixel_z(3, 3, 5 * S, c2);
    assert_eq!(pr.get_pixel(3, 3), c1);
    pr.set_pixel_z(3, 3, 3 * S, c2);
    assert_eq!(pr.get_pixel(3, 3), c2);
    assert_eq!(pr.get_depth(3, 3), 3 * S);
}

/// Perspective-correct interpolation at an interior point differs from the
/// naive screen-space barycentric average when the depths differ.
#[test]
fn perspective_correct_uv_differs_from_naive() {
    let a = v4(0, 0, S);
    let b = v4(10 * S, 0, 2 * S);
    let c = v4(0, 10 * S, S);
    let a_uv = Vec2::new(0, 0);
    let b_uv = Vec2::new(S, 0);
    let c_uv = Vec2::new(0, S);
    let p = Vec2::new(3 * S, 3 * S);
    let (uv, w) = interpolate_uv(p, a, b, c, a_uv, b_uv, c_uv).unwrap();
    // the exact blend from the documented formula: screen weights divided by
    // their vertex depths, then renormalized
    assert_eq!(uv, Vec2::new(11565, 23130));
    assert_eq!(w, 77101);
    // the naive screen-space average would give 19660 in both coordinates
    assert_ne!(uv.x, 19660);
    assert_ne!(uv.y, 19660);
}

/// Flat vertices at equal depth interpolate back to that depth.
#[test]
fn interpolation_flat_depth() {
    let a = v4(0, 0, 3 * S);
    let b = v4(8 * S, 0, 3 * S);
    let c = v4(0, 8 * S, 3 * S);
    let z = Vec2::new(0, 0);
    let (_, w) = interpolate_uv(Vec2::new(2 * S, 2 * S), a, b, c, z, z, z).unwrap();
    assert_eq!(w, 3 * S);
}

/// A degenerate (zero-area) triangle yields no interpolation.
#[test]
fn interpolation_degenerate_none() {
    let a = v4(0, 0, S);
    let b = v4(0, 0, S);
    let c = v4(0, 0, S);
    let z = Vec2::new(0, 0);
    assert!(interpolate_uv(Vec2::new(S, S), a, b, c, z, z, z).is_none());
}

/// A stroke paints both endpoints, touches only its bounding box, and never
/// touches the depth buffer.
#[test]
fn line_endpoints_and_depth_untouched() {
    let white = Color::rgb(255, 255, 255);
    let mut pr = PixelRenderer::new(16, 16);
    draw_line(&mut pr, white, v4(2 * S, 3 * S, S), v4(12 * S, 7 * S, S));
    assert_eq!(pr.get_pixel(2, 3), white);
    assert_eq!(pr.get_pixel(12, 7), white);
    for x in 0..16u32 {
        for y in 0..16u32 {
            assert_eq!(pr.get_depth(x, y), i64::MAX);
            if pr.get_pixel(x, y) == white {
                assert!((2..=12).contains(&x) && (3..=7).contains(&y));
            }
        }
    }
}

/// A vertical stroke walks the minor axis correctly too.
#[test]
fn line_vertical() {
    let white = Color::rgb(255, 255, 255);
    let mut pr = PixelRenderer::new(8, 8);
    draw_line(&mut pr, white, v4(4 * S, 1 * S, S), v4(4 * S, 6 * S, S));
    for y in 1..=6u32 {
        assert_eq!(pr.get_pixel(4, y), white);
    }
    assert_eq!(pr.get_pixel(4, 0), Color::rgb(0, 0, 0));
    assert_eq!(pr.get_pixel(4, 7), Color::rgb(0, 0, 0));
}

/// Channel scaling rounds to nearest and clamps at the byte ceiling.
#[test]
fn color_mul_rounds_and_clamps() {
    let c = color_mul(Color::rgb(100, 200, 10), 3 * S / 2);
    assert_eq!(c, Color::rgb(150, 255, 15));
    let dark = color_mul(Color::rgb(100, 200, 10), 0);
    assert_eq!(dark, Color::rgb(0, 0, 0));
}

/// The raster bounds round each coordinate to its nearest pixel.
#[test]
fn min_max_rounds() {
    let (lo, hi) = min_max(3 * S + 1000, -2 * S, S);
    assert_eq!(lo, -2);
    assert_eq!(hi, 3);
    let (lo2, hi2) = min_max(S / 2, 0, 0);
    assert_eq!(lo2, 0);
    assert_eq!(hi2, 1);
}

/// The edge test owns boundary points through exactly one of an edge's two
/// directions.
#[test]
fn cross_edge_boundary_ownership() {
    let p = Vec2::new(5 * S, 5 * S);
    let a = Vec2::new(0, 10 * S);
    let b = Vec2::new(10 * S, 0);
    let fwd = cross_edge(p, a, b.sub(a));
    let bwd = cross_edge(p, b, a.sub(b));
    assert_ne!(fwd, bwd);
}

/// A stroke is complete along its major axis: every column between the
/// endpoints of a shallow line holds a painted pixel.
#[test]
fn line_covers_every_column() {
    let white = Color::rgb(255, 255, 255);
    let mut pr = PixelRenderer::new(16, 16);
    draw_line(&mut pr, white, v4(1 * S, 2 * S, S), v4(13 * S, 7 * S, S));
    for x in 1..=13u32 {
        let mut hit = false;
        for y in 0..16u32 {
            if pr.get_pixel(x, y) == white {
                hit = true;
            }
        }
        assert!(hit, "column {} has no pixel", x);
    }
}
