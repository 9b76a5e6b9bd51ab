use graphics_from_scratch::mesh::{check_mesh, Face, Mesh, Texture};
use graphics_from_scratch::pixel_renderer::{Color, PixelRenderer};
use graphics_from_scratch::vec::{Vec2, Vec3};
use graphics_from_scratch::world::update_world_with_draws;
use graphics_from_scratch::{
    backface_culled, camera_ok, draw_mesh, light_intensity, rotate_mesh, update_world,
    update_world_approach, DrawOptions, TriangleFill, World,
};

const S: i64 = 65536;

fn cube_vertices() -> Vec<Vec3> {
    vec![
        Vec3::new(-S, -S, -S),
        Vec3::new(S, -S, -S),
        Vec3::new(S, S, -S),
        Vec3::new(-S, S, -S),
        Vec3::new(-S, -S, S),
        Vec3::new(S, -S, S),
        Vec3::new(S, S, S),
        Vec3::new(-S, S, S),
    ]
}

fn cube_faces() -> Vec<[usize; 3]> {
    vec![
        [0, 2, 1],
        [0, 3, 2],
        [4, 5, 6],
        [4, 6, 7],
        [0, 1, 5],
        [0, 5, 4],
        [3, 7, 6],
        [3, 6, 2],
        [0, 4, 7],
        [0, 7, 3],
        [1, 2, 6],
        [1, 6, 5],
    ]
}

fn cube_mesh() -> Mesh {
    let faces = cube_faces()
        .into_iter()
        .map(|[a, b, c]| Face::new(a, b, c, 0, 1, 2))
        .collect();
    Mesh {
        vertices: cube_vertices(),
        uvs: vec![Vec2::new(0, 0), Vec2::new(S, 0), Vec2::new(0, S)],
        faces,
        rotation: Vec3::new(0, 0, 0),
        texture: Texture::solid(Color::rgb(200, 180, 160)),
    }
}

fn cube_world(fill: TriangleFill) -> World {
    World {
        mesh: cube_mesh(),
        camera_location: Vec3::new(0, 0, -5 * S),
        camera_look_at: Vec3::new(0, 0, 0),
        options: DrawOptions {
            draw_wireframe: false,
            triangle_fill: fill,
            backface_culling: true,
            pause_rendering: true,
        },
    }
}

/// With the camera in front of a unit cube, at least half of its twelve
/// faces always look away: the cull test never keeps more than six.
#[test]
fn cube_culls_back_half() {
    let mesh = cube_mesh();
    let cam = Vec3::new(0, 0, -5 * S);
    let mut kept = 0;
    for f in mesh.faces.iter() {
        let va = mesh.vertices[f.a];
        let vb = mesh.vertices[f.b];
        let vc = mesh.vertices[f.c];
        if !backface_culled(va, vb, vc, cam) {
            kept += 1;
        }
    }
    assert!(kept <= 6, "kept {} faces of 12", kept);
    assert!(kept >= 1);
}

/// A full frame of the cube draws something on screen and leaves the target
/// well formed.
#[test]
fn draw_mesh_cube_frame() {
    let world = cube_world(TriangleFill::Color);
    let mut pr = PixelRenderer::new(120, 90);
    draw_mesh(&mut pr, &world);
    assert_eq!(pr.width, 120);
    assert_eq!(pr.height, 90);
    let mut lit = 0;
    for x in 0..120u32 {
        for y in 0..90u32 {
            if pr.get_pixel(x, y) != Color::rgb(0, 0, 0) {
                lit += 1;
            }
        }
    }
    assert!(lit > 0, "nothing was drawn");
}

/// A textured frame samples the texture and lands the same footprint.
#[test]
fn draw_mesh_cube_textured() {
    let world = cube_world(TriangleFill::Texture);
    let mut pr = PixelRenderer::new(120, 90);
    draw_mesh(&mut pr, &world);
    let mut lit = 0;
    for x in 0..120u32 {
        for y in 0..90u32 {
            if pr.get_pixel(x, y) != Color::rgb(0, 0, 0) {
                lit += 1;
            }
        }
    }
    assert!(lit > 0, "nothing was drawn");
}

/// The mesh validator accepts the cube and rejects a face index out of
/// range.
#[test]
fn check_mesh_validates_indices() {
    let mesh = cube_mesh();
    assert!(check_mesh(&mesh));
    let mut broken = cube_mesh();
    broken.faces[0].a = 99;
    assert!(!check_mesh(&broken));
    let mut far = cube_mesh();
    far.vertices[0] = Vec3::new(0x20_0000, 0, 0);
    assert!(!check_mesh(&far));
}

/// The one-texel texture returns its color everywhere it can be sampled.
#[test]
fn texture_solid_sample() {
    let t = Texture::solid(Color::rgb(1, 2, 3));
    assert_eq!(t.width, 1);
    assert_eq!(t.height, 1);
    assert_eq!(t.get_pixel(0, 0), Color::rgb(1, 2, 3));
}

/// A paused world keeps its rotation; an unpaused one keeps it within the
/// rotation bound whatever the jitter draws.
#[test]
fn update_world_rotation_bounds() {
    let mut world = cube_world(TriangleFill::Color);
    world.mesh.rotation = Vec3::new(1000, -2000, 3000);
    update_world(&mut world);
    assert_eq!(world.mesh.rotation, Vec3::new(1000, -2000, 3000));

    world.options.pause_rendering = false;
    for _ in 0..50 {
        update_world(&mut world);
        let r = world.mesh.rotation;
        assert!(r.x.abs() <= 0x4000_0000);
        assert!(r.y.abs() <= 0x4000_0000);
        assert!(r.z.abs() <= 0x4000_0000);
    }
}

/// Moving the camera toward its look-at point translates both by the same
/// vector.
#[test]
fn approach_preserves_view_direction() {
    let mut world = cube_world(TriangleFill::Color);
    let before = (world.camera_location, world.camera_look_at);
    update_world_approach(&mut world, S / 2, S / 10);
    let d_before = before.1.sub(before.0);
    let d_after = world.camera_look_at.sub(world.camera_location);
    assert_eq!(d_before, d_after);
    // approach of one half for a tenth of a second covers roughly half a
    // unit, each fixed-point product rounding down once
    assert_eq!(world.camera_location.z, -5 * S + 32765);
}

/// A quarter turn about the z axis carries a vertex from the x axis onto the
/// y axis exactly.
#[test]
fn rotate_mesh_quarter_turn() {
    let mut mesh = cube_mesh();
    mesh.vertices = vec![Vec3::new(S, 0, 0)];
    mesh.faces = vec![];
    rotate_mesh(&mut mesh, (S, 0), (S, 0), (0, S));
    assert_eq!(mesh.vertices[0], Vec3::new(0, S, 0));
}

/// The flat-shading intensity stays in the two-fifths to six-fifths band,
/// even for a degenerate normal whose quantized length exceeds one.
#[test]
fn light_intensity_band() {
    let up = Vec3::new(0, S, 0);
    let li = light_intensity(up);
    assert!(li >= 2 * S / 5 && li <= 6 * S / 5);
    let down = Vec3::new(0, -S, 0);
    let lj = light_intensity(down);
    assert!(lj >= 2 * S / 5 && lj <= 6 * S / 5);
    assert!(li != lj);
    let overlong = Vec3::new(-S, S, -S);
    let lk = light_intensity(overlong);
    assert!(lk >= 2 * S / 5 && lk <= 6 * S / 5);
}

/// Every pixel a frame does not reach keeps the cleared black and the far
/// depth; with the only face looking away from the camera and culling on,
/// that is the whole screen.
#[test]
fn draw_mesh_culled_frame_stays_clear() {
    let mut world = cube_world(TriangleFill::Color);
    world.mesh.vertices = vec![Vec3::new(0, 0, 0), Vec3::new(S, 0, 0), Vec3::new(0, S, 0)];
    world.mesh.faces = vec![Face::new(0, 1, 2, 0, 1, 2)];
    let mut pr = PixelRenderer::new(40, 30);
    draw_mesh(&mut pr, &world);
    for x in 0..40u32 {
        for y in 0..30u32 {
            assert_eq!(pr.get_pixel(x, y), Color::rgb(0, 0, 0));
            assert_eq!(pr.get_depth(x, y), i64::MAX);
        }
    }
}

/// Pixels outside the cube's footprint keep the cleared state even in a
/// frame that draws.
#[test]
fn draw_mesh_untouched_corners_stay_clear() {
    let world = cube_world(TriangleFill::Color);
    let mut pr = PixelRenderer::new(120, 90);
    draw_mesh(&mut pr, &world);
    for &(x, y) in [(0u32, 0u32), (119, 0), (0, 89), (119, 89)].iter() {
        assert_eq!(pr.get_pixel(x, y), Color::rgb(0, 0, 0));
        assert_eq!(pr.get_depth(x, y), i64::MAX);
    }
}

/// The rotation step is a pure function of its arguments, so a fixed
/// sequence of values reproduces a run exactly.
#[test]
fn update_world_with_draws_exact() {
    let mut world = cube_world(TriangleFill::Color);
    world.options.pause_rendering = false;
    world.mesh.rotation = Vec3::new(65536, -131072, 0);
    update_world_with_draws(&mut world, 29, 100, -200, 300);
    assert_eq!(world.mesh.rotation, Vec3::new(65470 + 100, -131072 * 65470 / 65536 - 200, 300));

    let before = world.mesh.rotation;
    update_world_with_draws(&mut world, 30, 500, 500, 500);
    assert_eq!(world.mesh.rotation, before);
}

/// The library's camera validator accepts a working camera and rejects the
/// degenerate ones the renderer's preconditions name.
#[test]
fn camera_ok_matches_preconditions() {
    assert!(camera_ok(Vec3::new(0, 0, -5 * S), Vec3::new(0, 0, 0)));
    // looking at itself
    assert!(!camera_ok(Vec3::new(0, 0, 0), Vec3::new(0, 0, 0)));
    // looking straight up, parallel to the up direction
    assert!(!camera_ok(Vec3::new(0, 0, 0), Vec3::new(0, 5 * S, 0)));
    // a nearly vertical view whose sideways lean rounds away in normalization
    assert!(!camera_ok(Vec3::new(0, 0, 0), Vec3::new(1, 100 * S, 0)));
    // out of bounds
    assert!(!camera_ok(Vec3::new(0x200_0000, 0, 0), Vec3::new(0, 0, 0)));
}

/// With no fill and no wireframe a frame writes nothing at all: the option
/// list offers no other marks, so the screen stays cleared.
#[test]
fn draw_mesh_nofill_writes_nothing() {
    let world = cube_world(TriangleFill::NoFill);
    let mut pr = PixelRenderer::new(40, 30);
    draw_mesh(&mut pr, &world);
    for x in 0..40u32 {
        for y in 0..30u32 {
            assert_eq!(pr.get_pixel(x, y), Color::rgb(0, 0, 0));
            assert_eq!(pr.get_depth(x, y), i64::MAX);
        }
    }
}

/// A filling frame really rasterizes the visible faces: the cube's center
/// pixel carries a written depth, not the cleared one.
#[test]
fn draw_mesh_fill_reaches_depth() {
    let world = cube_world(TriangleFill::Color);
    let mut pr = PixelRenderer::new(120, 90);
    draw_mesh(&mut pr, &world);
    assert!(pr.get_depth(60, 45) < i64::MAX);
    assert!(pr.get_pixel(60, 45) != Color::rgb(0, 0, 0));
}
