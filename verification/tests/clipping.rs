use graphics_from_scratch::clip::{clip_polygon_plane, ClipPlane, ClipVert};
use graphics_from_scratch::{frustum_clip, frustum_planes, in_plane, intersection};
use graphics_from_scratch::vec::{Vec2, Vec3};

const S: i64 = 65536;

fn near_plane() -> ClipPlane {
    let planes = frustum_planes();
    planes[0]
}

fn cv(x: i64, y: i64, z: i64, u: i64, v: i64) -> ClipVert {
    ClipVert::new(Vec3::new(x, y, z), Vec2::new(u, v))
}

/// A triangle with every vertex on the kept side of every plane comes out of
/// the clipper exactly as it went in: the same positions and the same
/// texture coordinates, in the same order.
#[test]
fn clip_fully_inside_triangle_unchanged() {
    let planes = frustum_planes();
    let tri = vec![
        cv(0, 0, 3 * S, 0, 0),
        cv(S / 2, 0, 3 * S, S, 0),
        cv(0, S / 2, 3 * S, 0, S),
    ];
    let mut poly = tri.clone();
    frustum_clip(&mut poly, &planes);
    assert_eq!(poly.len(), 3);
    for i in 0..3 {
        assert_eq!(poly[i].vert, tri[i].vert);
        assert_eq!(poly[i].uv, tri[i].uv);
    }
}

/// A triangle entirely behind the near plane is discarded whole.
#[test]
fn clip_fully_outside_triangle_empty() {
    let planes = frustum_planes();
    let mut poly = vec![
        cv(0, 0, -S, 0, 0),
        cv(S, 0, -S, S, 0),
        cv(0, S, -2 * S, 0, S),
    ];
    frustum_clip(&mut poly, &planes);
    assert_eq!(poly.len(), 0);
}

/// A triangle with one vertex behind the near plane becomes a quadrilateral
/// whose two new vertices sit on the plane.
#[test]
fn clip_one_vertex_out_gives_quad_on_plane() {
    let near = near_plane();
    let a = cv(0, 0, 3 * S, 0, 0);
    let b = cv(S, 0, 3 * S, S, 0);
    let c = cv(0, 0, 0, 0, S);
    let poly = vec![a, b, c];
    let out = clip_polygon_plane(&poly, &near);
    assert_eq!(out.len(), 4);
    // the two kept vertices come through unchanged
    assert_eq!(out[0].vert, a.vert);
    assert_eq!(out[1].vert, b.vert);
    // the two crossings sit exactly on the near plane here, well within the
    // classification tolerance
    assert_eq!(out[2].vert, Vec3::new(21845, 0, S));
    assert_eq!(out[2].uv, Vec2::new(21845, 43690));
    assert_eq!(out[3].vert, Vec3::new(0, 0, S));
    assert_eq!(out[3].uv, Vec2::new(0, 43690));
    for v in out.iter() {
        let d = v.vert.z - S;
        assert!(-7 <= d && d <= 7 || d > 0);
    }
}

/// The crossing point of a straddling edge does not depend on the edge's
/// orientation, and classification matches the signed distance.
#[test]
fn intersection_is_orientation_independent() {
    let near = near_plane();
    let inside_v = cv(0, 0, 3 * S, 0, 0);
    let outside_v = cv(0, 0, 0, 0, S);
    let forward = intersection(inside_v, outside_v, &near);
    let backward = intersection(outside_v, inside_v, &near);
    assert_eq!(forward.vert, backward.vert);
    assert_eq!(forward.uv, backward.uv);
    assert_eq!(forward.vert, Vec3::new(0, 0, S));
    assert_eq!(in_plane(&inside_v.vert, &near), 1);
    assert_eq!(in_plane(&outside_v.vert, &near), -1);
    assert_eq!(in_plane(&forward.vert, &near), 1);
}

/// A vertex within the tolerance band behind a plane is still kept.
#[test]
fn classification_tolerance_band() {
    let near = near_plane();
    assert_eq!(in_plane(&Vec3::new(0, 0, S - 7), &near), 1);
    assert_eq!(in_plane(&Vec3::new(0, 0, S - 8), &near), -1);
}

/// The six frustum planes come in their fixed order, near first.
#[test]
fn frustum_planes_shape() {
    let planes = frustum_planes();
    assert_eq!(planes.len(), 6);
    assert_eq!(planes[0].point, Vec3::new(0, 0, S));
    assert_eq!(planes[0].norm, Vec3::new(0, 0, S));
    assert_eq!(planes[1].point, Vec3::new(0, 0, 10 * S));
    assert_eq!(planes[1].norm, Vec3::new(0, 0, -S));
}

/// The whole six-plane pipeline turns a triangle with one vertex behind the
/// near plane, well inside the rest of the frustum, into the quadrilateral
/// the one-plane law describes.
#[test]
fn pipeline_one_vertex_out_gives_quad() {
    let planes = frustum_planes();
    let mut poly = vec![
        cv(0, 0, 3 * S, 0, 0),
        cv(S, 0, 3 * S, S, 0),
        cv(0, 0, 0, 0, S),
    ];
    frustum_clip(&mut poly, &planes);
    assert_eq!(poly.len(), 4);
    for v in poly.iter() {
        let d = v.vert.z - S;
        assert!(d >= -7);
    }
}
