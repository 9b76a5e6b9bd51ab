use graphics_from_scratch::vec::{Vec3, Vec4};
use graphics_from_scratch::{
    camera_view_matrix, project_point_to_camera_space, project_point_to_screen_space,
    unproject_point_from_screen_space,
};

const S: i64 = 65536;

/// A camera on the negative z axis looking at the origin sees the world
/// axis-aligned: the view transform moves a point five units down the view
/// axis.
#[test]
fn camera_space_straight_ahead() {
    let cam = Vec3::new(0, 0, -5 * S);
    let look = Vec3::new(0, 0, 0);
    let p = project_point_to_camera_space(Vec3::new(0, 0, 0), cam, look);
    assert_eq!(p, Vec3::new(0, 0, 5 * S));
    let q = project_point_to_camera_space(Vec3::new(S, S, 0), cam, look);
    assert_eq!(q, Vec3::new(S, S, 5 * S));
}

/// The view matrix of that camera is the identity basis with the translation
/// folded in.
#[test]
fn view_matrix_axis_aligned() {
    let cam = Vec3::new(0, 0, -5 * S);
    let look = Vec3::new(0, 0, 0);
    let up = Vec3::new(0, S, 0);
    let m = camera_view_matrix(cam, look, up);
    assert_eq!((m.m00, m.m01, m.m02), (S, 0, 0));
    assert_eq!((m.m10, m.m11, m.m12), (0, S, 0));
    assert_eq!((m.m20, m.m21, m.m22), (0, 0, S));
    assert_eq!((m.m03, m.m13, m.m23), (0, 0, 5 * S));
    assert_eq!((m.m30, m.m31, m.m32, m.m33), (0, 0, 0, S));
}

/// A point on the view axis lands on the screen center, keeps its depth in
/// `w`, and remaps its z by the depth ratio.
#[test]
fn screen_projection_center() {
    let p = Vec3::new(0, 0, 2 * S);
    let s = project_point_to_screen_space(860, 360, p);
    assert_eq!(s.x, 860 * 32768);
    assert_eq!(s.y, 360 * 32768);
    assert_eq!(s.w, 2 * S);
    // z remapped by 10/9 of the distance past the near plane
    assert_eq!(s.z, 72818);
}

/// Projection followed by unprojection returns the camera-space point within
/// a few fixed-point units: each direction rounds a handful of times, and
/// every rounding loses less than one unit.
#[test]
fn project_unproject_round_trip() {
    let points = [
        Vec3::new(S, S / 2, 5 * S),
        Vec3::new(-2 * S, S, 3 * S),
        Vec3::new(0, 0, 2 * S),
        Vec3::new(S / 4, -S / 3, 8 * S),
    ];
    for p in points.iter() {
        let s = project_point_to_screen_space(860, 360, *p);
        let q = unproject_point_from_screen_space(860, 360, Vec4::new(s.x, s.y, s.z, s.w));
        assert!((q.x - p.x).abs() <= 8, "x drifted: {} vs {}", q.x, p.x);
        assert!((q.y - p.y).abs() <= 8, "y drifted: {} vs {}", q.y, p.y);
        assert_eq!(q.z, p.z);
    }
}
