//! The scene and its frame driver: options, camera motion, the mesh's
//! decaying random spin, and the per-frame walk that culls, clips,
//! triangulates and draws every face.

use vstd::prelude::*;
use rand::seq::SliceRandom;
use crate::clip::{
    frustum_clip, frustum_planes, lemma_clip_all_near_depth, poly_wf, poly_z_at_least,
    standard_planes, ClipVert, B_UV,
};
use crate::fx::{div_f, fx_mul, lemma_div_f_bound, lemma_mul_bound2};
use crate::mesh::{mesh_wf, Mesh, B_MESH, B_ROT};
use crate::pixel_renderer::{pr_wf, Color, PixelRenderer};
use crate::project::{
    cross_s, depth_of, dot_s, normalized, project_point_to_camera_space,
    project_point_to_screen_space, screen_x_of, screen_y_of, sub_s, up_vector, view_matrix,
    view_z,
};
use crate::raster::{
    color_mul, draw_line, draw_triangle_color, draw_triangle_texture, flat_shaded, on_line_band,
    tex_pixel_color, tri_cell_ok, tri_cell_tex_ok, tri_draws, tri_wf, B_SCR, B_W,
};
use crate::vec::{norm_sq3, ok2, ok3, Vec3, Vec4};

verus! {

/// How triangles are filled, if at all.
#[derive(Debug, PartialEq, Eq, Structural, Clone, Copy)]
pub enum TriangleFill {
    NoFill,
    Color,
    Texture,
}

/// The per-frame rendering options.
#[derive(Debug, PartialEq, Eq, Structural, Clone, Copy)]
pub struct DrawOptions {
    pub draw_wireframe: bool,
    pub triangle_fill: TriangleFill,
    pub backface_culling: bool,
    pub pause_rendering: bool,
}

/// The scene: one mesh, the camera, and the options.
pub struct World {
    pub mesh: Mesh,
    pub camera_location: Vec3,
    pub camera_look_at: Vec3,
    pub options: DrawOptions,
}

/// A camera that can render: bounded, not on its look-at point, and not
/// looking straight up or down.
pub open spec fn camera_wf(cam: Vec3, look: Vec3) -> bool {
    &&& ok3(cam, 0x100_0000)
    &&& ok3(look, 0x100_0000)
    &&& norm_sq3(sub_s(look, cam)) > 0
    &&& norm_sq3(cross_s(up_vector(), view_z(cam, look))) > 0
}

/// Decide whether a camera satisfies the renderer's preconditions: bounded,
/// not on its look-at point, and not looking straight along the up axis.
/// Meant for the input boundary, which must reject moves that would
/// degenerate the view frame.
#[verifier::rlimit(60)]
pub fn camera_ok(cam: Vec3, look: Vec3) -> (r: bool)
    ensures
        r == camera_wf(cam, look),
{
    let b: i64 = 0x100_0000;
    if cam.x < -b || cam.x > b || cam.y < -b || cam.y > b || cam.z < -b || cam.z > b {
        return false;
    }
    if look.x < -b || look.x > b || look.y < -b || look.y > b || look.z < -b || look.z > b {
        return false;
    }
    let d = look.sub(cam);
    if d.x == 0 && d.y == 0 && d.z == 0 {
        proof {
            assert(norm_sq3(sub_s(look, cam)) == 0) by (nonlinear_arith)
                requires
                    sub_s(look, cam).x == 0,
                    sub_s(look, cam).y == 0,
                    sub_s(look, cam).z == 0,
                    norm_sq3(sub_s(look, cam)) == sub_s(look, cam).x * sub_s(look, cam).x + sub_s(
                        look,
                        cam,
                    ).y * sub_s(look, cam).y + sub_s(look, cam).z * sub_s(look, cam).z,
            ;
        }
        return false;
    }
    proof {
        assert(d == sub_s(look, cam));
        assert(norm_sq3(d) > 0) by (nonlinear_arith)
            requires
                norm_sq3(d) == d.x * d.x + d.y * d.y + d.z * d.z,
                d.x != 0 || d.y != 0 || d.z != 0,
        ;
    }
    let z_axis = d.unit_norm();
    let up = Vec3 { x: 0, y: 65536, z: 0 };
    let xa = up.cross(z_axis);
    proof {
        assert(xa == cross_s(up_vector(), view_z(cam, look)));
    }
    if xa.x == 0 && xa.y == 0 && xa.z == 0 {
        proof {
            assert(norm_sq3(xa) == 0) by (nonlinear_arith)
                requires
                    xa.x == 0,
                    xa.y == 0,
                    xa.z == 0,
                    norm_sq3(xa) == xa.x * xa.x + xa.y * xa.y + xa.z * xa.z,
            ;
        }
        return false;
    }
    proof {
        assert(norm_sq3(xa) > 0) by (nonlinear_arith)
            requires
                norm_sq3(xa) == xa.x * xa.x + xa.y * xa.y + xa.z * xa.z,
                xa.x != 0 || xa.y != 0 || xa.z != 0,
        ;
    }
    true
}

/// Relies on rand's `SliceRandom::shuffle`: it permutes the slice in place,
/// so the elements afterwards are the same multiset as before.
#[verifier::external_body]
fn shuffle_indices(order: &mut Vec<usize>)
    ensures
        final(order)@.to_multiset() == old(order)@.to_multiset(),
        final(order)@.len() == old(order)@.len(),
{
    let mut rng = rand::rng();
    order.shuffle(&mut rng);
}

/// Relies on rand's `random_range`: a value drawn from the given non-empty
/// range; nothing more is assumed of the draw.
#[verifier::external_body]
fn random_in_range(lo: i64, hi: i64) -> (r: i64)
    requires
        lo < hi,
    ensures
        lo <= r < hi,
{
    rand::random_range(lo..hi)
}

/// A permutation of in-range values keeps its values in range.
proof fn lemma_perm_in_range(s1: Seq<usize>, s2: Seq<usize>, n: int)
    requires
        s1.to_multiset() == s2.to_multiset(),
        forall|i: int| 0 <= i < s1.len() ==> (#[trigger] s1[i]) < n,
    ensures
        forall|i: int| 0 <= i < s2.len() ==> (#[trigger] s2[i]) < n,
{
    broadcast use vstd::seq_lib::group_to_multiset_ensures;

    assert forall|i: int| 0 <= i < s2.len() implies (#[trigger] s2[i]) < n by {
        assert(s2.contains(s2[i]));
        assert(s2.to_multiset().count(s2[i]) > 0);
        assert(s1.contains(s2[i]));
        let j = choose|j: int| 0 <= j < s1.len() && s1[j] == s2[i];
        assert(s1[j] < n);
    }
}

/// Move the camera toward (or away from) its look-at point by
/// `approach * 10 * delta_t` units: both the camera location and the look-at
/// point are translated by the same vector, so the view direction is kept.
pub fn update_world_approach(world: &mut World, approach: i64, delta_t: i64)
    requires
        camera_wf(old(world).camera_location, old(world).camera_look_at),
        -65536 <= approach <= 65536,
        0 <= delta_t <= 65536,
    ensures
        ({
            let step = div_f(div_f(approach * 655360, 65536) * delta_t, 65536);
            let toward = normalized(sub_s(old(world).camera_look_at, old(world).camera_location));
            let mx = div_f(toward.x * step, 65536);
            let my = div_f(toward.y * step, 65536);
            let mz = div_f(toward.z * step, 65536);
            &&& final(world).camera_location.x == old(world).camera_location.x + mx
            &&& final(world).camera_location.y == old(world).camera_location.y + my
            &&& final(world).camera_location.z == old(world).camera_location.z + mz
            &&& final(world).camera_look_at.x == old(world).camera_look_at.x + mx
            &&& final(world).camera_look_at.y == old(world).camera_look_at.y + my
            &&& final(world).camera_look_at.z == old(world).camera_look_at.z + mz
        }),
        final(world).camera_look_at.x - final(world).camera_location.x == old(
            world,
        ).camera_look_at.x - old(world).camera_location.x,
        final(world).camera_look_at.y - final(world).camera_location.y == old(
            world,
        ).camera_look_at.y - old(world).camera_location.y,
        final(world).camera_look_at.z - final(world).camera_location.z == old(
            world,
        ).camera_look_at.z - old(world).camera_location.z,
        final(world).mesh == old(world).mesh,
        final(world).options == old(world).options,
{
    let toward = world.camera_look_at.sub(world.camera_location).unit_norm();
    proof {
        lemma_mul_bound2(approach as int, 655360, 65536, 655360);
    }
    let s1 = fx_mul(approach, 655360);
    proof {
        lemma_div_f_bound(approach * 655360, 65536, 0xa_0000);
        lemma_mul_bound2(s1 as int, delta_t as int, 0xa_0000, 65536);
    }
    let step = fx_mul(s1, delta_t);
    proof {
        lemma_div_f_bound(s1 * delta_t, 65536, 0xa_0000);
        lemma_mul_bound2(toward.x as int, step as int, 65536, 0xa_0000);
        lemma_mul_bound2(toward.y as int, step as int, 65536, 0xa_0000);
        lemma_mul_bound2(toward.z as int, step as int, 65536, 0xa_0000);
        lemma_div_f_bound(toward.x * step, 65536, 0xa_0000);
        lemma_div_f_bound(toward.y * step, 65536, 0xa_0000);
        lemma_div_f_bound(toward.z * step, 65536, 0xa_0000);
    }
    let move_vec = toward.mul(step);
    world.camera_location = world.camera_location.add(move_vec);
    world.camera_look_at = world.camera_look_at.add(move_vec);
}

/// Swing the look-at point around the camera: the vector from the camera to
/// its look-at point is rotated about the y axis by the yaw angle and about
/// the x axis by the pitch angle, whose fixed-point cosines and sines the
/// caller supplies.
pub fn update_world_rotate(world: &mut World, yaw: (i64, i64), pitch: (i64, i64))
    requires
        camera_wf(old(world).camera_location, old(world).camera_look_at),
        -65536 <= yaw.0 <= 65536 && -65536 <= yaw.1 <= 65536,
        -65536 <= pitch.0 <= 65536 && -65536 <= pitch.1 <= 65536,
    ensures
        ({
            let m = crate::mat::mat_product(
                crate::mat::rot_y_spec(yaw.0, yaw.1),
                crate::mat::rot_x_spec(pitch.0, pitch.1),
            );
            let moved = crate::mat::apply_v3(
                m,
                sub_s(old(world).camera_look_at, old(world).camera_location),
            );
            &&& final(world).camera_look_at.x == old(world).camera_location.x + moved.x
            &&& final(world).camera_look_at.y == old(world).camera_location.y + moved.y
            &&& final(world).camera_look_at.z == old(world).camera_location.z + moved.z
        }),
        final(world).camera_location == old(world).camera_location,
        final(world).mesh == old(world).mesh,
        final(world).options == old(world).options,
{
    let rot_yaw = crate::mat::Mat4::rotate_y(yaw.0, yaw.1);
    let rot_pitch = crate::mat::Mat4::rotate_x(pitch.0, pitch.1);
    let rotated = rot_yaw.mul(rot_pitch);
    let cam_to_look = world.camera_look_at.sub(world.camera_location);
    proof {
        crate::mat::lemma_mul_bound_mat(rot_yaw, rot_pitch, rotated, 65536, 65536, 0x4_0001);
    }
    let moved = rotated.mul_vec3(cam_to_look);
    world.camera_look_at = world.camera_location.add(moved);
}

/// One axis of the rotation's random walk: the prior value decayed by just
/// under one, plus the drawn jitter.
pub open spec fn stepped_rotation(r: Vec3, jx: int, jy: int, jz: int) -> Vec3 {
    Vec3 {
        x: (div_f(r.x * 65470, 65536) + jx) as i64,
        y: (div_f(r.y * 65470, 65536) + jy) as i64,
        z: (div_f(r.z * 65470, 65536) + jz) as i64,
    }
}

/// What the rotation becomes for given draws: stepped when the world is
/// live and the percent draw falls under the three-percent gate, unchanged
/// otherwise.
pub open spec fn rotation_outcome(
    r0: Vec3,
    paused: bool,
    gate: int,
    jx: int,
    jy: int,
    jz: int,
) -> Vec3 {
    if !paused && gate < 30 {
        stepped_rotation(r0, jx, jy, jz)
    } else {
        r0
    }
}

/// Nudge the mesh's accumulated rotation from given draws: when the percent
/// draw falls under the three-percent gate, each axis decays slightly and
/// takes its jitter of up to ten units either way; otherwise, and always in
/// a paused world, nothing changes. This is the whole decision; the
/// randomness is injected, so a fixed sequence reproduces a run exactly.
pub fn update_world_with_draws(world: &mut World, gate: i64, jx: i64, jy: i64, jz: i64)
    requires
        ok3(old(world).mesh.rotation, B_ROT as int),
        0 <= gate < 1000,
        -655360 <= jx <= 655360,
        -655360 <= jy <= 655360,
        -655360 <= jz <= 655360,
    ensures
        ok3(final(world).mesh.rotation, B_ROT as int),
        final(world).mesh.rotation == rotation_outcome(
            old(world).mesh.rotation,
            old(world).options.pause_rendering,
            gate as int,
            jx as int,
            jy as int,
            jz as int,
        ),
        final(world).mesh.vertices == old(world).mesh.vertices,
        final(world).mesh.uvs == old(world).mesh.uvs,
        final(world).mesh.faces == old(world).mesh.faces,
        final(world).mesh.texture == old(world).mesh.texture,
        final(world).camera_location == old(world).camera_location,
        final(world).camera_look_at == old(world).camera_look_at,
        final(world).options == old(world).options,
{
    if world.options.pause_rendering {
        return ;
    }
    if gate < 30 {
        proof {
            lemma_mul_bound2(world.mesh.rotation.x as int, 65470, B_ROT as int, 65470);
            lemma_mul_bound2(world.mesh.rotation.y as int, 65470, B_ROT as int, 65470);
            lemma_mul_bound2(world.mesh.rotation.z as int, 65470, B_ROT as int, 65470);
            lemma_decayed_in_bound(world.mesh.rotation.x as int);
            lemma_decayed_in_bound(world.mesh.rotation.y as int);
            lemma_decayed_in_bound(world.mesh.rotation.z as int);
        }
        let rx = fx_mul(world.mesh.rotation.x, 65470) + jx;
        let ry = fx_mul(world.mesh.rotation.y, 65470) + jy;
        let rz = fx_mul(world.mesh.rotation.z, 65470) + jz;
        world.mesh.rotation = Vec3 { x: rx, y: ry, z: rz };
    }
}

/// Nudge the mesh's accumulated rotation from fresh draws. Whatever the
/// draws return, the new rotation is the decay-and-jitter step of the old
/// one for some in-range draws, it stays inside its bound, and a paused
/// world is left alone.
pub fn update_world(world: &mut World)
    requires
        ok3(old(world).mesh.rotation, B_ROT as int),
    ensures
        ok3(final(world).mesh.rotation, B_ROT as int),
        old(world).options.pause_rendering ==> final(world).mesh.rotation == old(
            world,
        ).mesh.rotation,
        exists|gate: int, jx: int, jy: int, jz: int|
            0 <= gate < 1000 && -655360 <= jx <= 655360 && -655360 <= jy <= 655360 && -655360
                <= jz <= 655360 && final(world).mesh.rotation == #[trigger] rotation_outcome(
                old(world).mesh.rotation,
                old(world).options.pause_rendering,
                gate,
                jx,
                jy,
                jz,
            ),
        final(world).mesh.vertices == old(world).mesh.vertices,
        final(world).mesh.uvs == old(world).mesh.uvs,
        final(world).mesh.faces == old(world).mesh.faces,
        final(world).mesh.texture == old(world).mesh.texture,
        final(world).camera_location == old(world).camera_location,
        final(world).camera_look_at == old(world).camera_look_at,
        final(world).options == old(world).options,
{
    if world.options.pause_rendering {
        proof {
            assert(world.mesh.rotation == rotation_outcome(
                old(world).mesh.rotation,
                old(world).options.pause_rendering,
                0,
                0,
                0,
                0,
            ));
        }
        return ;
    }
    let gate = random_in_range(0, 1000);
    let jx = random_in_range(-655360, 655361);
    let jy = random_in_range(-655360, 655361);
    let jz = random_in_range(-655360, 655361);
    update_world_with_draws(world, gate, jx, jy, jz);
    proof {
        assert(world.mesh.rotation == rotation_outcome(
            old(world).mesh.rotation,
            old(world).options.pause_rendering,
            gate as int,
            jx as int,
            jy as int,
            jz as int,
        ));
    }
}

/// A decayed rotation axis leaves room for the largest jitter.
proof fn lemma_decayed_in_bound(r: int)
    requires
        -(B_ROT as int) <= r <= B_ROT as int,
    ensures
        -(B_ROT as int) + 655361 <= div_f(r * 65470, 65536) <= B_ROT as int - 655361,
{
    assert(-(65470 * (B_ROT as int)) <= r * 65470 <= 65470 * (B_ROT as int)) by (nonlinear_arith)
        requires
            -(B_ROT as int) <= r <= B_ROT as int,
    ;
    lemma_div_f_bound(r * 65470, 65536, 1072660480);
}

/// Rotate every vertex of the mesh about the three axes in turn, by the
/// angles whose fixed-point cosines and sines the caller supplies. A rotated
/// position that would leave the mesh bound is left unrotated, so the mesh
/// stays renderable whatever the angles are. The guard is forced by the
/// fixed-point model: the box is a machine limit, a true rotation carries a
/// corner of an inscribed cube beyond any per-axis bound, and the supplied
/// cosine and sine pairs are not required to be exactly unit, so no fixed
/// headroom makes unconditional rotation sound. The freeze is per vertex
/// and per frame, and acts only at the box edge.
pub fn rotate_mesh(mesh: &mut Mesh, rx: (i64, i64), ry: (i64, i64), rz: (i64, i64))
    requires
        mesh_wf(*old(mesh)),
        -65536 <= rx.0 <= 65536 && -65536 <= rx.1 <= 65536,
        -65536 <= ry.0 <= 65536 && -65536 <= ry.1 <= 65536,
        -65536 <= rz.0 <= 65536 && -65536 <= rz.1 <= 65536,
    ensures
        mesh_wf(*final(mesh)),
        final(mesh).vertices@.len() == old(mesh).vertices@.len(),
        ({
            let m = crate::mat::mat_product(
                crate::mat::rot_x_spec(rx.0, rx.1),
                crate::mat::mat_product(
                    crate::mat::rot_y_spec(ry.0, ry.1),
                    crate::mat::rot_z_spec(rz.0, rz.1),
                ),
            );
            forall|j: int|
                0 <= j < old(mesh).vertices@.len() ==> final(mesh).vertices@[j] == (
                if ok3(crate::mat::apply_v3(m, #[trigger] old(mesh).vertices@[j]), B_MESH as int) {
                    crate::mat::apply_v3(m, old(mesh).vertices@[j])
                } else {
                    old(mesh).vertices@[j]
                })
        }),
        final(mesh).uvs == old(mesh).uvs,
        final(mesh).faces == old(mesh).faces,
        final(mesh).rotation == old(mesh).rotation,
        final(mesh).texture == old(mesh).texture,
{
    let mat_x = crate::mat::Mat4::rotate_x(rx.0, rx.1);
    let mat_y = crate::mat::Mat4::rotate_y(ry.0, ry.1);
    let mat_z = crate::mat::Mat4::rotate_z(rz.0, rz.1);
    let m_yz = mat_y.mul(mat_z);
    proof {
        crate::mat::lemma_mul_bound_mat(mat_y, mat_z, m_yz, 65536, 65536, 0x4_0001);
    }
    let m = mat_x.mul(m_yz);
    proof {
        crate::mat::lemma_mul_bound_mat(mat_x, m_yz, m, 65536, 0x4_0001, 0x10_0005);
    }
    let n = mesh.vertices.len();
    let mut i: usize = 0;
    while i < n
        invariant
            0 <= i <= n,
            n == mesh.vertices@.len(),
            n == old(mesh).vertices@.len(),
            crate::mat::ok_mat(m, 0x7fff_ffff),
            m == crate::mat::mat_product(
                crate::mat::rot_x_spec(rx.0, rx.1),
                crate::mat::mat_product(
                    crate::mat::rot_y_spec(ry.0, ry.1),
                    crate::mat::rot_z_spec(rz.0, rz.1),
                ),
            ),
            forall|j: int| 0 <= j < n ==> ok3(#[trigger] mesh.vertices@[j], B_MESH as int),
            forall|j: int|
                0 <= j < i ==> mesh.vertices@[j] == (
                if ok3(crate::mat::apply_v3(m, #[trigger] old(mesh).vertices@[j]), B_MESH as int) {
                    crate::mat::apply_v3(m, old(mesh).vertices@[j])
                } else {
                    old(mesh).vertices@[j]
                }),
            forall|j: int| i <= j < n ==> mesh.vertices@[j] == #[trigger] old(mesh).vertices@[j],
            mesh.uvs == old(mesh).uvs,
            mesh.faces == old(mesh).faces,
            mesh.rotation == old(mesh).rotation,
            mesh.texture == old(mesh).texture,
            mesh_wf(*mesh),
        decreases n - i,
    {
        let p = mesh.vertices[i];
        let q = m.mul_vec3(p);
        if q.x >= -B_MESH && q.x <= B_MESH && q.y >= -B_MESH && q.y <= B_MESH && q.z >= -B_MESH
            && q.z <= B_MESH {
            mesh.vertices[i] = q;
        }
        i = i + 1;
    }
}

/// The cross product of two short edge vectors is itself short.
proof fn lemma_cross_small(a: Vec3, b: Vec3)
    requires
        ok3(a, 0x20_0000),
        ok3(b, 0x20_0000),
    ensures
        -0x800_0000 <= div_f(a.y * b.z - a.z * b.y, 65536) <= 0x800_0000,
        -0x800_0000 <= div_f(a.z * b.x - a.x * b.z, 65536) <= 0x800_0000,
        -0x800_0000 <= div_f(a.x * b.y - a.y * b.x, 65536) <= 0x800_0000,
{
    lemma_mul_bound2(a.y as int, b.z as int, 0x20_0000, 0x20_0000);
    lemma_mul_bound2(a.z as int, b.y as int, 0x20_0000, 0x20_0000);
    lemma_mul_bound2(a.z as int, b.x as int, 0x20_0000, 0x20_0000);
    lemma_mul_bound2(a.x as int, b.z as int, 0x20_0000, 0x20_0000);
    lemma_mul_bound2(a.x as int, b.y as int, 0x20_0000, 0x20_0000);
    lemma_mul_bound2(a.y as int, b.x as int, 0x20_0000, 0x20_0000);
    lemma_div_f_bound(a.y * b.z - a.z * b.y, 65536, 0x800_0000);
    lemma_div_f_bound(a.z * b.x - a.x * b.z, 65536, 0x800_0000);
    lemma_div_f_bound(a.x * b.y - a.y * b.x, 65536, 0x800_0000);
}

/// Whether a face looks away from the camera: the dot product of its unit
/// normal (from its winding) with the vector toward the camera is not
/// positive.
pub fn backface_culled(va: Vec3, vb: Vec3, vc: Vec3, camera_location: Vec3) -> (r: bool)
    requires
        ok3(va, B_MESH as int),
        ok3(vb, B_MESH as int),
        ok3(vc, B_MESH as int),
        ok3(camera_location, 0x100_0000),
        norm_sq3(cross_s(sub_s(vb, va), sub_s(vc, va))) > 0,
    ensures
        r == (dot_s(
            normalized(cross_s(sub_s(vb, va), sub_s(vc, va))),
            sub_s(camera_location, va),
        ) <= 0),
{
    let e1 = vb.sub(va);
    let e2 = vc.sub(va);
    let cr = e1.cross(e2);
    proof {
        lemma_cross_small(e1, e2);
    }
    let face_normal = cr.unit_norm();
    let to_camera = camera_location.sub(va);
    face_normal.dot(to_camera) <= 0
}

/// The flat-shading intensity of a face: the angle factor of its unit normal
/// against the fixed light direction, remapped from `[-1, 1]` into
/// `[0.4, 1.2]`. The band is enforced by a clamp: a fixed-point unit normal
/// can exceed unit length by the length quantization of very small inputs,
/// and the clamp keeps the shading inside its specified range exactly there,
/// while an in-range angle factor passes through the remap untouched.
pub fn light_intensity(face_normal: Vec3) -> (r: i64)
    requires
        ok3(face_normal, 65536),
    ensures
        26214 <= r <= 78643,
        ({
            let facing = dot_s(face_normal, normalized(light_direction()));
            let raw = div_f((facing + 65536) * 26214, 65536) + 26214;
            r == if raw < 26214 {
                26214int
            } else if raw > 78643 {
                78643int
            } else {
                raw
            }
        }),
{
    let light = Vec3 { x: -6553600, y: 6553600, z: -3276800 };
    let light_unit = light.unit_norm();
    let facing = face_normal.dot(light_unit);
    proof {
        lemma_mul_bound2(facing + 65536, 26214, 0xd000_0000_0000, 26214);
        lemma_div_f_bound((facing + 65536) * 26214, 65536, 0xd000_0000_0000);
    }
    let raw = fx_mul(facing + 65536, 26214) + 26214;
    if raw < 26214 {
        26214
    } else if raw > 78643 {
        78643
    } else {
        raw
    }
}

/// The fixed light direction of the scene.
pub open spec fn light_direction() -> Vec3 {
    Vec3 { x: -6553600i64, y: 6553600, z: -3276800i64 }
}

/// A camera-space point carried to the screen, as a value: what
/// `project_point_to_screen_space` returns for it.
pub open spec fn project_s(w: int, h: int, v: Vec3) -> Vec4 {
    Vec4 {
        x: screen_x_of(w, v) as i64,
        y: screen_y_of(h, v) as i64,
        z: depth_of(v) as i64,
        w: v.z,
    }
}

/// Whether a frame draws the face at all: it has an area, and when culling
/// is on its unit normal faces the camera.
pub open spec fn face_visible(world: World, fi: int) -> bool {
    let f = world.mesh.faces@[fi];
    let va = world.mesh.vertices@[f.a as int];
    let vb = world.mesh.vertices@[f.b as int];
    let vc = world.mesh.vertices@[f.c as int];
    let cr = cross_s(sub_s(vb, va), sub_s(vc, va));
    &&& !(cr.x == 0 && cr.y == 0 && cr.z == 0)
    &&& (world.options.backface_culling ==> dot_s(
        normalized(cr),
        sub_s(world.camera_location, va),
    ) > 0)
}

/// The flat-shading intensity a frame uses for the face: the remapped angle
/// factor of its unit normal against the light, clamped into the shading
/// band of two fifths to six fifths.
pub open spec fn face_intensity(world: World, fi: int) -> int {
    let f = world.mesh.faces@[fi];
    let va = world.mesh.vertices@[f.a as int];
    let vb = world.mesh.vertices@[f.b as int];
    let vc = world.mesh.vertices@[f.c as int];
    let n = normalized(cross_s(sub_s(vb, va), sub_s(vc, va)));
    let raw = div_f((dot_s(n, normalized(light_direction())) + 65536) * 26214, 65536) + 26214;
    if raw < 26214 {
        26214
    } else if raw > 78643 {
        78643
    } else {
        raw
    }
}

/// The face's three vertices carried into camera space, paired with their
/// texture coordinates: what the frame hands to the clipper.
pub open spec fn face_cam_poly(world: World, fi: int) -> Seq<ClipVert> {
    let f = world.mesh.faces@[fi];
    let vm = view_matrix(world.camera_location, world.camera_look_at, up_vector());
    seq![
        ClipVert {
            vert: crate::mat::apply_v3(vm, world.mesh.vertices@[f.a as int]),
            uv: world.mesh.uvs@[f.a_uv as int],
        },
        ClipVert {
            vert: crate::mat::apply_v3(vm, world.mesh.vertices@[f.b as int]),
            uv: world.mesh.uvs@[f.b_uv as int],
        },
        ClipVert {
            vert: crate::mat::apply_v3(vm, world.mesh.vertices@[f.c as int]),
            uv: world.mesh.uvs@[f.c_uv as int],
        },
    ]
}

/// The face's polygon after the frustum: what the frame fan-triangulates.
pub open spec fn face_clip_poly(world: World, fi: int) -> Seq<ClipVert> {
    crate::clip::clip_all(standard_planes(), face_cam_poly(world, fi))
}

/// The fan triangle `t` of face `fi`, projected to a screen of `w` by `h`
/// pixels, is live: the face is drawn, the triangle exists in the clipped
/// polygon's fan, and all three projected corners are in the rasterizer's
/// range.
pub open spec fn fan_tri_live(
    world: World,
    w: int,
    h: int,
    fi: int,
    t: int,
    pa: Vec4,
    pb: Vec4,
    pc: Vec4,
) -> bool {
    let poly = face_clip_poly(world, fi);
    &&& 0 <= fi < world.mesh.faces@.len()
    &&& face_visible(world, fi)
    &&& 1 <= t && t + 1 < poly.len()
    &&& pa == project_s(w, h, poly[0].vert)
    &&& pb == project_s(w, h, poly[t].vert)
    &&& pc == project_s(w, h, poly[t + 1].vert)
    &&& tri_wf(pa) && tri_wf(pb) && tri_wf(pc)
}

/// Whether drawing the frame can leave the color `c` at pixel `(x, y)`: some
/// live fan triangle claims the pixel, and `c` is what that triangle's mode
/// writes there: the face's flat-shaded color, the perspective-correct
/// texture sample, or wireframe white on one of its edges. With no fill and
/// no wireframe a frame writes nothing.
pub open spec fn fan_writes_cell(
    world: World,
    w: int,
    h: int,
    fi: int,
    t: int,
    x: int,
    y: int,
    c: Color,
) -> bool {
    let poly = face_clip_poly(world, fi);
    let pa = project_s(w, h, poly[0].vert);
    let pb = project_s(w, h, poly[t].vert);
    let pc = project_s(w, h, poly[t + 1].vert);
    &&& fan_tri_live(world, w, h, fi, t, pa, pb, pc)
    &&& ({
        ||| (world.options.triangle_fill == TriangleFill::Color && tri_draws(pa, pb, pc, x, y)
            && c == flat_shaded(world.mesh.faces@[fi].color, face_intensity(world, fi)))
        ||| (world.options.triangle_fill == TriangleFill::Texture && tri_draws(pa, pb, pc, x, y)
            && c == tex_pixel_color(
            world.mesh.texture,
            face_intensity(world, fi),
            pa,
            pb,
            pc,
            poly[0].uv,
            poly[t].uv,
            poly[t + 1].uv,
            x,
            y,
        ))
        ||| (world.options.draw_wireframe && (on_line_band(pa, pb, x, y) || on_line_band(
            pb,
            pc,
            x,
            y,
        ) || on_line_band(pc, pa, x, y)) && c == (Color { r: 255, g: 255, b: 255 }))
    })
}

/// One pixel of a finished frame: still the cleared black at the far depth,
/// or a color some live fan triangle writes there.
pub open spec fn frame_cell_ok(world: World, pr1: PixelRenderer, x: int, y: int) -> bool {
    let i = crate::pixel_renderer::pix(pr1, x, y);
    ||| (pr1.color_buffer@[i] == (Color { r: 0, g: 0, b: 0 }) && pr1.z_buffer@[i] == i64::MAX)
    ||| (exists|fi: int, t: int|
        #[trigger] fan_writes_cell(
            world,
            pr1.width as int,
            pr1.height as int,
            fi,
            t,
            x,
            y,
            pr1.color_buffer@[i],
        ))
}

/// Every pixel of the target is accounted for: cleared, or attributable to
/// a live fan triangle of the world.
pub open spec fn frame_ok(world: World, pr1: PixelRenderer) -> bool {
    forall|x: int, y: int|
        0 <= x < pr1.width && 0 <= y < pr1.height ==> #[trigger] frame_cell_ok(world, pr1, x, y)
}

/// In a filling mode, a live fan triangle has been rasterized by the end of
/// the frame: every in-range pixel its fill test covers holds a depth no
/// farther than the triangle's interpolated depth there. The depth test
/// only ever lowers a cell and wireframe strokes never touch the depth
/// buffer, so the mark survives everything drawn later in the frame.
pub open spec fn fan_depth_reached(
    world: World,
    pr1: PixelRenderer,
    fi: int,
    t: int,
    x: int,
    y: int,
) -> bool {
    let poly = face_clip_poly(world, fi);
    let pa = project_s(pr1.width as int, pr1.height as int, poly[0].vert);
    let pb = project_s(pr1.width as int, pr1.height as int, poly[t].vert);
    let pc = project_s(pr1.width as int, pr1.height as int, poly[t + 1].vert);
    (fan_tri_live(world, pr1.width as int, pr1.height as int, fi, t, pa, pb, pc) && 0 <= x
        < pr1.width && 0 <= y < pr1.height && tri_draws(pa, pb, pc, x, y))
        ==> pr1.z_buffer@[crate::pixel_renderer::pix(pr1, x, y)] <= crate::raster::interp_w(
        pa,
        pb,
        pc,
        x * 65536,
        y * 65536,
    )
}

/// The fan triangles of the face at position `oj` of the frame's visiting
/// order have all been rasterized.
pub open spec fn face_done_at(
    world: World,
    pr1: PixelRenderer,
    order: Seq<usize>,
    oj: int,
    t: int,
    x: int,
    y: int,
) -> bool {
    fan_depth_reached(world, pr1, order[oj] as int, t, x, y)
}

/// A rasterized mark survives any later step that never raises a depth
/// cell.
proof fn lemma_depth_reached_mono(
    world: World,
    prev: PixelRenderer,
    cur: PixelRenderer,
    fi: int,
    t: int,
    x: int,
    y: int,
)
    requires
        cur.width == prev.width,
        cur.height == prev.height,
        fan_depth_reached(world, prev, fi, t, x, y),
        0 <= x < prev.width && 0 <= y < prev.height
            ==> cur.z_buffer@[crate::pixel_renderer::pix(prev, x, y)] <= prev.z_buffer@[crate::pixel_renderer::pix(
            prev,
            x,
            y,
        )],
    ensures
        fan_depth_reached(world, cur, fi, t, x, y),
{
    assert(crate::pixel_renderer::pix(cur, x, y) == crate::pixel_renderer::pix(prev, x, y));
}

/// What a depth-tested fill leaves in the depth buffer: covered pixels sit
/// at or below the interpolated depth, and no cell ever rises.
proof fn lemma_fill_z_outcome(
    prev: PixelRenderer,
    cur: PixelRenderer,
    pa: Vec4,
    pb: Vec4,
    pc: Vec4,
    col: Color,
)
    requires
        pr_wf(prev),
        cur.width == prev.width,
        cur.height == prev.height,
        forall|x: int, y: int|
            0 <= x < prev.width && 0 <= y < prev.height ==> tri_cell_ok(
                prev,
                cur,
                pa,
                pb,
                pc,
                col,
                x,
                y,
            ),
    ensures
        forall|x: int, y: int|
            0 <= x < prev.width && 0 <= y < prev.height && tri_draws(pa, pb, pc, x, y)
                ==> cur.z_buffer@[#[trigger] crate::pixel_renderer::pix(prev, x, y)]
                <= crate::raster::interp_w(pa, pb, pc, x * 65536, y * 65536),
        forall|x: int, y: int|
            0 <= x < prev.width && 0 <= y < prev.height
                ==> cur.z_buffer@[#[trigger] crate::pixel_renderer::pix(prev, x, y)]
                <= prev.z_buffer@[crate::pixel_renderer::pix(prev, x, y)],
{
    assert forall|x: int, y: int|
        0 <= x < prev.width && 0 <= y < prev.height implies {
        &&& (tri_draws(pa, pb, pc, x, y)
            ==> cur.z_buffer@[#[trigger] crate::pixel_renderer::pix(prev, x, y)]
            <= crate::raster::interp_w(pa, pb, pc, x * 65536, y * 65536))
        &&& cur.z_buffer@[crate::pixel_renderer::pix(prev, x, y)]
            <= prev.z_buffer@[crate::pixel_renderer::pix(prev, x, y)]
    } by {
        assert(tri_cell_ok(prev, cur, pa, pb, pc, col, x, y));
        crate::pixel_renderer::lemma_pix_bound(x, y, prev.width as int, prev.height as int);
    }
}

/// The textured twin of the fill's depth outcome.
proof fn lemma_tex_z_outcome(
    prev: PixelRenderer,
    cur: PixelRenderer,
    tex: crate::mesh::Texture,
    li: int,
    pa: Vec4,
    pb: Vec4,
    pc: Vec4,
    uva: crate::vec::Vec2,
    uvb: crate::vec::Vec2,
    uvc: crate::vec::Vec2,
)
    requires
        pr_wf(prev),
        cur.width == prev.width,
        cur.height == prev.height,
        forall|x: int, y: int|
            0 <= x < prev.width && 0 <= y < prev.height ==> #[trigger] tri_cell_tex_ok(
                prev,
                cur,
                tex,
                li,
                pa,
                pb,
                pc,
                uva,
                uvb,
                uvc,
                x,
                y,
            ),
    ensures
        forall|x: int, y: int|
            0 <= x < prev.width && 0 <= y < prev.height && tri_draws(pa, pb, pc, x, y)
                ==> cur.z_buffer@[#[trigger] crate::pixel_renderer::pix(prev, x, y)]
                <= crate::raster::interp_w(pa, pb, pc, x * 65536, y * 65536),
        forall|x: int, y: int|
            0 <= x < prev.width && 0 <= y < prev.height
                ==> cur.z_buffer@[#[trigger] crate::pixel_renderer::pix(prev, x, y)]
                <= prev.z_buffer@[crate::pixel_renderer::pix(prev, x, y)],
{
    assert forall|x: int, y: int|
        0 <= x < prev.width && 0 <= y < prev.height implies {
        &&& (tri_draws(pa, pb, pc, x, y)
            ==> cur.z_buffer@[#[trigger] crate::pixel_renderer::pix(prev, x, y)]
            <= crate::raster::interp_w(pa, pb, pc, x * 65536, y * 65536))
        &&& cur.z_buffer@[crate::pixel_renderer::pix(prev, x, y)]
            <= prev.z_buffer@[crate::pixel_renderer::pix(prev, x, y)]
    } by {
        assert(tri_cell_tex_ok(prev, cur, tex, li, pa, pb, pc, uva, uvb, uvc, x, y));
        crate::pixel_renderer::lemma_pix_bound(x, y, prev.width as int, prev.height as int);
    }
}

/// A fill of a live fan triangle rasterizes it: afterwards every covered
/// in-range pixel sits at or below the triangle's interpolated depth.
proof fn lemma_depth_reached_fill(
    world: World,
    prev: PixelRenderer,
    cur: PixelRenderer,
    fi: int,
    t: int,
    pa: Vec4,
    pb: Vec4,
    pc: Vec4,
)
    requires
        pr_wf(cur),
        cur.width == prev.width,
        cur.height == prev.height,
        fan_tri_live(world, cur.width as int, cur.height as int, fi, t, pa, pb, pc),
        forall|x: int, y: int|
            0 <= x < prev.width && 0 <= y < prev.height && tri_draws(pa, pb, pc, x, y)
                ==> cur.z_buffer@[#[trigger] crate::pixel_renderer::pix(prev, x, y)]
                <= crate::raster::interp_w(pa, pb, pc, x * 65536, y * 65536),
    ensures
        forall|x: int, y: int| #[trigger] fan_depth_reached(world, cur, fi, t, x, y),
{
    assert forall|x: int, y: int| #[trigger] fan_depth_reached(world, cur, fi, t, x, y) by {
        if 0 <= x < cur.width && 0 <= y < cur.height && tri_draws(pa, pb, pc, x, y) {
            assert(crate::pixel_renderer::pix(cur, x, y) == crate::pixel_renderer::pix(
                prev,
                x,
                y,
            ));
            assert(cur.z_buffer@[crate::pixel_renderer::pix(prev, x, y)]
                <= crate::raster::interp_w(pa, pb, pc, x * 65536, y * 65536));
        }
    }
}

/// Every fan triangle of the face has been rasterized (vacuously so for a
/// face the frame does not draw).
pub open spec fn face_rasterized(world: World, pr1: PixelRenderer, fi: int) -> bool {
    forall|t: int, x: int, y: int| #[trigger] fan_depth_reached(world, pr1, fi, t, x, y)
}

/// An index present before a permutation is present after it.
proof fn lemma_perm_contains(s1: Seq<usize>, s2: Seq<usize>, v: usize)
    requires
        s1.to_multiset() == s2.to_multiset(),
        s1.contains(v),
    ensures
        s2.contains(v),
{
    broadcast use vstd::seq_lib::group_to_multiset_ensures;

    assert(s1.to_multiset().count(v) > 0);
}

/// A depth-tested flat fill of a live fan triangle keeps every pixel
/// accounted for: pixels it wins take its shaded color, the rest keep their
/// state.
proof fn lemma_frame_step_fill(
    world: World,
    prev: PixelRenderer,
    cur: PixelRenderer,
    fi: int,
    t: int,
    pa: Vec4,
    pb: Vec4,
    pc: Vec4,
    col: Color,
)
    requires
        pr_wf(prev),
        pr_wf(cur),
        cur.width == prev.width,
        cur.height == prev.height,
        frame_ok(world, prev),
        fan_tri_live(world, prev.width as int, prev.height as int, fi, t, pa, pb, pc),
        world.options.triangle_fill == TriangleFill::Color,
        col == flat_shaded(world.mesh.faces@[fi].color, face_intensity(world, fi)),
        forall|x: int, y: int|
            0 <= x < prev.width && 0 <= y < prev.height ==> tri_cell_ok(
                prev,
                cur,
                pa,
                pb,
                pc,
                col,
                x,
                y,
            ),
    ensures
        frame_ok(world, cur),
{
    assert forall|x: int, y: int|
        0 <= x < cur.width && 0 <= y < cur.height implies #[trigger] frame_cell_ok(
        world,
        cur,
        x,
        y,
    ) by {
        assert(frame_cell_ok(world, prev, x, y));
        assert(tri_cell_ok(prev, cur, pa, pb, pc, col, x, y));
        crate::pixel_renderer::lemma_pix_bound(x, y, prev.width as int, prev.height as int);
        let i = crate::pixel_renderer::pix(prev, x, y);
        assert(crate::pixel_renderer::pix(cur, x, y) == i);
        if tri_draws(pa, pb, pc, x, y) && crate::raster::interp_w(pa, pb, pc, x * 65536, y * 65536)
            < prev.z_buffer@[i] {
            assert(fan_writes_cell(
                world,
                cur.width as int,
                cur.height as int,
                fi,
                t,
                x,
                y,
                cur.color_buffer@[i],
            ));
        } else {
            assert(cur.color_buffer@[i] == prev.color_buffer@[i] && cur.z_buffer@[i]
                == prev.z_buffer@[i]);
        }
    }
}

/// A depth-tested textured fill of a live fan triangle keeps every pixel
/// accounted for.
proof fn lemma_frame_step_texture(
    world: World,
    prev: PixelRenderer,
    cur: PixelRenderer,
    fi: int,
    t: int,
    pa: Vec4,
    pb: Vec4,
    pc: Vec4,
    li: int,
)
    requires
        pr_wf(prev),
        pr_wf(cur),
        cur.width == prev.width,
        cur.height == prev.height,
        frame_ok(world, prev),
        fan_tri_live(world, prev.width as int, prev.height as int, fi, t, pa, pb, pc),
        world.options.triangle_fill == TriangleFill::Texture,
        li == face_intensity(world, fi),
        forall|x: int, y: int|
            0 <= x < prev.width && 0 <= y < prev.height ==> #[trigger] tri_cell_tex_ok(
                prev,
                cur,
                world.mesh.texture,
                li,
                pa,
                pb,
                pc,
                face_clip_poly(world, fi)[0].uv,
                face_clip_poly(world, fi)[t].uv,
                face_clip_poly(world, fi)[t + 1].uv,
                x,
                y,
            ),
    ensures
        frame_ok(world, cur),
{
    assert forall|x: int, y: int|
        0 <= x < cur.width && 0 <= y < cur.height implies #[trigger] frame_cell_ok(
        world,
        cur,
        x,
        y,
    ) by {
        assert(frame_cell_ok(world, prev, x, y));
        assert(tri_cell_tex_ok(
            prev,
            cur,
            world.mesh.texture,
            li,
            pa,
            pb,
            pc,
            face_clip_poly(world, fi)[0].uv,
            face_clip_poly(world, fi)[t].uv,
            face_clip_poly(world, fi)[t + 1].uv,
            x,
            y,
        ));
        crate::pixel_renderer::lemma_pix_bound(x, y, prev.width as int, prev.height as int);
        let i = crate::pixel_renderer::pix(prev, x, y);
        assert(crate::pixel_renderer::pix(cur, x, y) == i);
        if tri_draws(pa, pb, pc, x, y) && crate::raster::interp_w(pa, pb, pc, x * 65536, y * 65536)
            < prev.z_buffer@[i] {
            assert(fan_writes_cell(
                world,
                cur.width as int,
                cur.height as int,
                fi,
                t,
                x,
                y,
                cur.color_buffer@[i],
            ));
        } else {
            assert(cur.color_buffer@[i] == prev.color_buffer@[i] && cur.z_buffer@[i]
                == prev.z_buffer@[i]);
        }
    }
}

/// One wireframe stroke along an edge of a live fan triangle keeps every
/// pixel accounted for: pixels it paints are white and on the edge's band.
proof fn lemma_frame_step_line(
    world: World,
    prev: PixelRenderer,
    cur: PixelRenderer,
    fi: int,
    t: int,
    pa: Vec4,
    pb: Vec4,
    pc: Vec4,
    ea: Vec4,
    eb: Vec4,
)
    requires
        pr_wf(prev),
        pr_wf(cur),
        cur.width == prev.width,
        cur.height == prev.height,
        cur.z_buffer@ == prev.z_buffer@,
        frame_ok(world, prev),
        fan_tri_live(world, prev.width as int, prev.height as int, fi, t, pa, pb, pc),
        world.options.draw_wireframe,
        (ea == pa && eb == pb) || (ea == pb && eb == pc) || (ea == pc && eb == pa),
        forall|x: int, y: int|
            0 <= x < prev.width && 0 <= y < prev.height ==> crate::raster::line_cell_ok(
                prev,
                cur,
                ea,
                eb,
                Color { r: 255, g: 255, b: 255 },
                x,
                y,
            ),
    ensures
        frame_ok(world, cur),
{
    assert forall|x: int, y: int|
        0 <= x < cur.width && 0 <= y < cur.height implies #[trigger] frame_cell_ok(
        world,
        cur,
        x,
        y,
    ) by {
        assert(frame_cell_ok(world, prev, x, y));
        assert(crate::raster::line_cell_ok(
            prev,
            cur,
            ea,
            eb,
            Color { r: 255, g: 255, b: 255 },
            x,
            y,
        ));
        crate::pixel_renderer::lemma_pix_bound(x, y, prev.width as int, prev.height as int);
        let i = crate::pixel_renderer::pix(prev, x, y);
        assert(crate::pixel_renderer::pix(cur, x, y) == i);
        if cur.color_buffer@[i] == prev.color_buffer@[i] {
        } else {
            assert(cur.color_buffer@[i] == (Color { r: 255, g: 255, b: 255 }) && on_line_band(
                ea,
                eb,
                x,
                y,
            ));
            assert(fan_writes_cell(
                world,
                cur.width as int,
                cur.height as int,
                fi,
                t,
                x,
                y,
                cur.color_buffer@[i],
            ));
        }
    }
}

/// Render one frame of the mesh into the target: clear, then for each face
/// in a randomized order, cull back faces if asked, carry the face into
/// camera space, clip it against the frustum, fan-triangulate the clipped
/// polygon, and fill and outline each screen triangle as the options say.
/// Afterwards every pixel is accounted for both ways. Nothing wrong: a
/// pixel holds the cleared black at the far depth, or a color that some
/// live fan triangle writes there under the chosen mode; a culled or
/// degenerate face writes nothing. And nothing missing: in a filling mode
/// every face is rasterized — each of the n-2 fan triangles of its clipped
/// polygon has marked every pixel it covers at or below its interpolated
/// depth, a mark the rest of the frame can only deepen. The shuffle visits
/// each face exactly once (its contract keeps the index multiset), and the
/// order changes nothing that the depth test does not already decide; it
/// only varies which of two exactly tied writes lands first. Wireframe
/// strokes ignore the depth buffer by design, so their pixels carry no
/// frame-stable mark: a later face may legitimately paint over them.
pub fn draw_mesh(pixel_renderer: &mut PixelRenderer, world: &World)
    requires
        pr_wf(*old(pixel_renderer)),
        1 <= old(pixel_renderer).width <= 4096,
        1 <= old(pixel_renderer).height <= 4096,
        mesh_wf(world.mesh),
        camera_wf(world.camera_location, world.camera_look_at),
    ensures
        pr_wf(*final(pixel_renderer)),
        final(pixel_renderer).width == old(pixel_renderer).width,
        final(pixel_renderer).height == old(pixel_renderer).height,
        frame_ok(*world, *final(pixel_renderer)),
        world.options.triangle_fill != TriangleFill::NoFill ==> forall|fi: int|
            #[trigger] face_rasterized(*world, *final(pixel_renderer), fi),
{
    let width = pixel_renderer.width;
    let height = pixel_renderer.height;
    pixel_renderer.clear_pixels(Color { r: 0, g: 0, b: 0 });
    proof {
        assert forall|x: int, y: int|
            0 <= x < pixel_renderer.width && 0 <= y < pixel_renderer.height
            implies #[trigger] frame_cell_ok(*world, *pixel_renderer, x, y) by {
            crate::pixel_renderer::lemma_pix_bound(x, y, width as int, height as int);
        }
    }
    let clip_planes = frustum_planes();
    let n = world.mesh.faces.len();
    let mut order: Vec<usize> = Vec::new();
    let mut i: usize = 0;
    while i < n
        invariant
            0 <= i <= n,
            order@.len() == i,
            forall|j: int| 0 <= j < i ==> (#[trigger] order@[j]) == j,
        decreases n - i,
    {
        order.push(i);
        i = i + 1;
    }
    let ghost pre_shuffle = order@;
    shuffle_indices(&mut order);
    proof {
        assert forall|j: int| 0 <= j < pre_shuffle.len() implies (#[trigger] pre_shuffle[j])
            < n by {
        }
        lemma_perm_in_range(pre_shuffle, order@, n as int);
    }
    let mut fi: usize = 0;
    while fi < order.len()
        invariant
            pr_wf(*pixel_renderer),
            pixel_renderer.width == width,
            pixel_renderer.height == height,
            1 <= width <= 4096,
            1 <= height <= 4096,
            mesh_wf(world.mesh),
            camera_wf(world.camera_location, world.camera_look_at),
            n == world.mesh.faces@.len(),
            order@.len() == n,
            pre_shuffle.len() == n,
            forall|j: int| 0 <= j < n ==> (#[trigger] pre_shuffle[j]) == j,
            pre_shuffle.to_multiset() == order@.to_multiset(),
            forall|j: int| 0 <= j < order@.len() ==> (#[trigger] order@[j]) < n,
            clip_planes@ == standard_planes(),
            clip_planes@.len() == 6,
            forall|j: int| 0 <= j < 6 ==> crate::clip::plane_wf(#[trigger] clip_planes@[j]),
            clip_planes@[0] == (crate::clip::ClipPlane {
                point: Vec3 { x: 0, y: 0, z: 65536 },
                norm: Vec3 { x: 0, y: 0, z: 65536 },
            }),
            frame_ok(*world, *pixel_renderer),
            world.options.triangle_fill != TriangleFill::NoFill ==> forall|
                oj: int,
                t: int,
                x: int,
                y: int,
            |
                0 <= oj < fi ==> #[trigger] face_done_at(
                    *world,
                    *pixel_renderer,
                    order@,
                    oj,
                    t,
                    x,
                    y,
                ),
        decreases order@.len() - fi,
    {
        let face = world.mesh.faces[order[fi]];
        let ghost fidx: int = order@[fi as int] as int;
        let vert_a = world.mesh.vertices[face.a];
        let vert_b = world.mesh.vertices[face.b];
        let vert_c = world.mesh.vertices[face.c];
        let e1 = vert_b.sub(vert_a);
        let e2 = vert_c.sub(vert_a);
        let cr = e1.cross(e2);
        proof {
            lemma_cross_small(e1, e2);
            assert(e1 == sub_s(vert_b, vert_a) && e2 == sub_s(vert_c, vert_a));
            assert(cr == cross_s(sub_s(vert_b, vert_a), sub_s(vert_c, vert_a)));
        }
        // a face with no area has no normal and is skipped, so degenerate
        // geometry never reaches the shading arithmetic
        if cr.x != 0 || cr.y != 0 || cr.z != 0 {
            proof {
                assert(norm_sq3(cr) > 0) by (nonlinear_arith)
                    requires
                        norm_sq3(cr) == cr.x * cr.x + cr.y * cr.y + cr.z * cr.z,
                        cr.x != 0 || cr.y != 0 || cr.z != 0,
                ;
            }
            let face_normal = cr.unit_norm();
            proof {
                assert(face_normal == normalized(cr));
            }
            let culled = if world.options.backface_culling {
                backface_culled(vert_a, vert_b, vert_c, world.camera_location)
            } else {
                false
            };
            if !culled {
                proof {
                    assert(face_visible(*world, fidx));
                }
                let uv_a = world.mesh.uvs[face.a_uv];
                let uv_b = world.mesh.uvs[face.b_uv];
                let uv_c = world.mesh.uvs[face.c_uv];
                let mut polygons: Vec<ClipVert> = Vec::new();
                polygons.push(
                    ClipVert::new(
                        project_point_to_camera_space(
                            vert_a,
                            world.camera_location,
                            world.camera_look_at,
                        ),
                        uv_a,
                    ),
                );
                polygons.push(
                    ClipVert::new(
                        project_point_to_camera_space(
                            vert_b,
                            world.camera_location,
                            world.camera_look_at,
                        ),
                        uv_b,
                    ),
                );
                polygons.push(
                    ClipVert::new(
                        project_point_to_camera_space(
                            vert_c,
                            world.camera_location,
                            world.camera_look_at,
                        ),
                        uv_c,
                    ),
                );
                let ghost pre_clip = polygons@;
                proof {
                    assert(pre_clip =~= face_cam_poly(*world, fidx));
                }
                frustum_clip(&mut polygons, &clip_planes);
                proof {
                    lemma_clip_all_near_depth(clip_planes@, pre_clip);
                    assert(polygons@ == face_clip_poly(*world, fidx));
                }
                let li = light_intensity(face_normal);
                proof {
                    assert(li == face_intensity(*world, fidx));
                }
                let fan_end = polygons.len();
                if fan_end >= 3 {
                    let mut ti: usize = 1;
                    while ti < fan_end - 1
                        invariant
                            pr_wf(*pixel_renderer),
                            pixel_renderer.width == width,
                            pixel_renderer.height == height,
                            1 <= width <= 4096,
                            1 <= height <= 4096,
                            mesh_wf(world.mesh),
                            poly_wf(polygons@),
                            poly_z_at_least(polygons@, 65529),
                            26214 <= li <= 78643,
                            1 <= ti <= fan_end - 1,
                            3 <= fan_end == polygons@.len(),
                            ok2(uv_a, B_UV as int),
                            ok2(uv_b, B_UV as int),
                            ok2(uv_c, B_UV as int),
                            frame_ok(*world, *pixel_renderer),
                            polygons@ == face_clip_poly(*world, fidx),
                            0 <= fidx < world.mesh.faces@.len(),
                            face_visible(*world, fidx),
                            li == face_intensity(*world, fidx),
                            face == world.mesh.faces@[fidx],
                            0 <= fi < order@.len(),
                            fidx == order@[fi as int] as int,
                            world.options.triangle_fill != TriangleFill::NoFill ==> forall|
                                oj: int,
                                t: int,
                                x: int,
                                y: int,
                            |
                                0 <= oj < fi ==> #[trigger] face_done_at(
                                    *world,
                                    *pixel_renderer,
                                    order@,
                                    oj,
                                    t,
                                    x,
                                    y,
                                ),
                            world.options.triangle_fill != TriangleFill::NoFill ==> forall|
                                t2: int,
                                x: int,
                                y: int,
                            |
                                1 <= t2 < ti ==> #[trigger] fan_depth_reached(
                                    *world,
                                    *pixel_renderer,
                                    fidx,
                                    t2,
                                    x,
                                    y,
                                ),
                        decreases fan_end - ti,
                    {
                        let cv_a = polygons[0];
                        let cv_b = polygons[ti];
                        let cv_c = polygons[ti + 1];
                        let pa = project_point_to_screen_space(width, height, cv_a.vert);
                        let pb = project_point_to_screen_space(width, height, cv_b.vert);
                        let pc = project_point_to_screen_space(width, height, cv_c.vert);
                        proof {
                            assert(pa == project_s(
                                width as int,
                                height as int,
                                face_clip_poly(*world, fidx)[0].vert,
                            ));
                            assert(pb == project_s(
                                width as int,
                                height as int,
                                face_clip_poly(*world, fidx)[ti as int].vert,
                            ));
                            assert(pc == project_s(
                                width as int,
                                height as int,
                                face_clip_poly(*world, fidx)[ti as int + 1].vert,
                            ));
                        }
                        // clipped geometry always lands inside these bounds; the
                        // guard keeps the promise independent of that fact
                        if in_raster_range(&pa) && in_raster_range(&pb) && in_raster_range(&pc) {
                            proof {
                                assert(fan_tri_live(
                                    *world,
                                    width as int,
                                    height as int,
                                    fidx,
                                    ti as int,
                                    pa,
                                    pb,
                                    pc,
                                ));
                            }
                            if world.options.triangle_fill == TriangleFill::Color {
                                let ghost prev = *pixel_renderer;
                                let shaded = color_mul(face.color, li);
                                draw_triangle_color(pixel_renderer, shaded, pa, pb, pc);
                                proof {
                                    lemma_frame_step_fill(
                                        *world,
                                        prev,
                                        *pixel_renderer,
                                        fidx,
                                        ti as int,
                                        pa,
                                        pb,
                                        pc,
                                        shaded,
                                    );
                                    lemma_fill_z_outcome(
                                        prev,
                                        *pixel_renderer,
                                        pa,
                                        pb,
                                        pc,
                                        shaded,
                                    );
                                    lemma_depth_reached_fill(
                                        *world,
                                        prev,
                                        *pixel_renderer,
                                        fidx,
                                        ti as int,
                                        pa,
                                        pb,
                                        pc,
                                    );
                                    lemma_carry_liveness(
                                        *world,
                                        prev,
                                        *pixel_renderer,
                                        order@,
                                        fi as int,
                                        fidx,
                                        ti as int,
                                    );
                                }
                            } else if world.options.triangle_fill == TriangleFill::Texture {
                                let ghost prev = *pixel_renderer;
                                draw_triangle_texture(
                                    pixel_renderer,
                                    &world.mesh,
                                    li,
                                    pa,
                                    pb,
                                    pc,
                                    cv_a.uv,
                                    cv_b.uv,
                                    cv_c.uv,
                                );
                                proof {
                                    lemma_frame_step_texture(
                                        *world,
                                        prev,
                                        *pixel_renderer,
                                        fidx,
                                        ti as int,
                                        pa,
                                        pb,
                                        pc,
                                        li as int,
                                    );
                                    lemma_tex_z_outcome(
                                        prev,
                                        *pixel_renderer,
                                        world.mesh.texture,
                                        li as int,
                                        pa,
                                        pb,
                                        pc,
                                        cv_a.uv,
                                        cv_b.uv,
                                        cv_c.uv,
                                    );
                                    lemma_depth_reached_fill(
                                        *world,
                                        prev,
                                        *pixel_renderer,
                                        fidx,
                                        ti as int,
                                        pa,
                                        pb,
                                        pc,
                                    );
                                    lemma_carry_liveness(
                                        *world,
                                        prev,
                                        *pixel_renderer,
                                        order@,
                                        fi as int,
                                        fidx,
                                        ti as int,
                                    );
                                }
                            }
                            if world.options.draw_wireframe {
                                let white = Color { r: 255, g: 255, b: 255 };
                                let ghost prev1 = *pixel_renderer;
                                draw_line(pixel_renderer, white, pa, pb);
                                proof {
                                    lemma_frame_step_line(
                                        *world,
                                        prev1,
                                        *pixel_renderer,
                                        fidx,
                                        ti as int,
                                        pa,
                                        pb,
                                        pc,
                                        pa,
                                        pb,
                                    );
                                    if world.options.triangle_fill != TriangleFill::NoFill {
                                        lemma_carry_liveness_keep_z(
                                            *world,
                                            prev1,
                                            *pixel_renderer,
                                            order@,
                                            fi as int,
                                            fidx,
                                            ti as int,
                                        );
                                    }
                                }
                                let ghost prev2 = *pixel_renderer;
                                draw_line(pixel_renderer, white, pb, pc);
                                proof {
                                    lemma_frame_step_line(
                                        *world,
                                        prev2,
                                        *pixel_renderer,
                                        fidx,
                                        ti as int,
                                        pa,
                                        pb,
                                        pc,
                                        pb,
                                        pc,
                                    );
                                    if world.options.triangle_fill != TriangleFill::NoFill {
                                        lemma_carry_liveness_keep_z(
                                            *world,
                                            prev2,
                                            *pixel_renderer,
                                            order@,
                                            fi as int,
                                            fidx,
                                            ti as int,
                                        );
                                    }
                                }
                                let ghost prev3 = *pixel_renderer;
                                draw_line(pixel_renderer, white, pc, pa);
                                proof {
                                    lemma_frame_step_line(
                                        *world,
                                        prev3,
                                        *pixel_renderer,
                                        fidx,
                                        ti as int,
                                        pa,
                                        pb,
                                        pc,
                                        pc,
                                        pa,
                                    );
                                    if world.options.triangle_fill != TriangleFill::NoFill {
                                        lemma_carry_liveness_keep_z(
                                            *world,
                                            prev3,
                                            *pixel_renderer,
                                            order@,
                                            fi as int,
                                            fidx,
                                            ti as int,
                                        );
                                    }
                                }
                            }
                            proof {
                                if world.options.triangle_fill != TriangleFill::NoFill {
                                    assert forall|t2: int, x: int, y: int|
                                        1 <= t2 < ti + 1 implies #[trigger] fan_depth_reached(
                                        *world,
                                        *pixel_renderer,
                                        fidx,
                                        t2,
                                        x,
                                        y,
                                    ) by {
                                        if t2 == ti as int {
                                            assert(fan_depth_reached(
                                                *world,
                                                *pixel_renderer,
                                                fidx,
                                                ti as int,
                                                x,
                                                y,
                                            ));
                                        }
                                    }
                                }
                            }
                        } else {
                            proof {
                                if world.options.triangle_fill != TriangleFill::NoFill {
                                    assert forall|x: int, y: int| #[trigger] fan_depth_reached(
                                        *world,
                                        *pixel_renderer,
                                        fidx,
                                        ti as int,
                                        x,
                                        y,
                                    ) by {
                                        assert(!(tri_wf(pa) && tri_wf(pb) && tri_wf(pc)));
                                        assert(!fan_tri_live(
                                            *world,
                                            width as int,
                                            height as int,
                                            fidx,
                                            ti as int,
                                            pa,
                                            pb,
                                            pc,
                                        ));
                                    }
                                }
                            }
                        }
                        ti = ti + 1;
                    }
                }
                proof {
                    if world.options.triangle_fill != TriangleFill::NoFill {
                        assert forall|t: int, x: int, y: int| #[trigger] fan_depth_reached(
                            *world,
                            *pixel_renderer,
                            fidx,
                            t,
                            x,
                            y,
                        ) by {
                            if 1 <= t && t + 1 < polygons@.len() {
                                assert(fan_depth_reached(*world, *pixel_renderer, fidx, t, x, y));
                            } else {
                                assert(!(1 <= t && t + 1 < face_clip_poly(*world, fidx).len()));
                            }
                        }
                        assert(face_rasterized(*world, *pixel_renderer, fidx));
                    }
                }
            } else {
                proof {
                    if world.options.triangle_fill != TriangleFill::NoFill {
                        lemma_invisible_face_rasterized(*world, *pixel_renderer, fidx);
                    }
                }
            }
        } else {
            proof {
                if world.options.triangle_fill != TriangleFill::NoFill {
                    assert(!face_visible(*world, fidx));
                    lemma_invisible_face_rasterized(*world, *pixel_renderer, fidx);
                }
            }
        }
        proof {
            if world.options.triangle_fill != TriangleFill::NoFill {
                assert(face_rasterized(*world, *pixel_renderer, fidx));
                assert forall|oj: int, t: int, x: int, y: int|
                    0 <= oj < fi + 1 implies #[trigger] face_done_at(
                    *world,
                    *pixel_renderer,
                    order@,
                    oj,
                    t,
                    x,
                    y,
                ) by {
                    if oj == fi as int {
                        assert(fan_depth_reached(*world, *pixel_renderer, fidx, t, x, y));
                    } else {
                        assert(face_done_at(*world, *pixel_renderer, order@, oj, t, x, y));
                    }
                }
            }
        }
        fi = fi + 1;
    }
    proof {
        if world.options.triangle_fill != TriangleFill::NoFill {
            assert forall|f0: int| #[trigger] face_rasterized(
                *world,
                *pixel_renderer,
                f0,
            ) by {
                assert forall|t: int, x: int, y: int| #[trigger] fan_depth_reached(
                    *world,
                    *pixel_renderer,
                    f0,
                    t,
                    x,
                    y,
                ) by {
                    if 0 <= f0 < n {
                        assert(pre_shuffle[f0] == f0 as usize);
                        assert(pre_shuffle.contains(f0 as usize));
                        lemma_perm_contains(pre_shuffle, order@, f0 as usize);
                        let oj = choose|oj: int|
                            0 <= oj < order@.len() && order@[oj] == f0 as usize;
                        assert(face_done_at(*world, *pixel_renderer, order@, oj, t, x, y));
                    } else {
                        assert(!(0 <= f0 < world.mesh.faces@.len()));
                    }
                }
            }
        }
    }
}

/// A face the frame does not draw has no live fan triangles, so it counts
/// as rasterized vacuously.
proof fn lemma_invisible_face_rasterized(world: World, pr1: PixelRenderer, fi: int)
    requires
        !face_visible(world, fi) || !(0 <= fi < world.mesh.faces@.len()),
    ensures
        face_rasterized(world, pr1, fi),
{
    assert forall|t: int, x: int, y: int| #[trigger] fan_depth_reached(world, pr1, fi, t, x, y) by {
    }
}

/// One write step keeps every already-rasterized triangle rasterized, given
/// that no depth cell rose.
proof fn lemma_carry_liveness(
    world: World,
    prev: PixelRenderer,
    cur: PixelRenderer,
    order: Seq<usize>,
    fi: int,
    fidx: int,
    ti: int,
)
    requires
        cur.width == prev.width,
        cur.height == prev.height,
        forall|x: int, y: int|
            0 <= x < prev.width && 0 <= y < prev.height
                ==> cur.z_buffer@[#[trigger] crate::pixel_renderer::pix(prev, x, y)]
                <= prev.z_buffer@[crate::pixel_renderer::pix(prev, x, y)],
        forall|oj: int, t: int, x: int, y: int|
            0 <= oj < fi ==> #[trigger] face_done_at(world, prev, order, oj, t, x, y),
        forall|t2: int, x: int, y: int|
            1 <= t2 < ti ==> #[trigger] fan_depth_reached(world, prev, fidx, t2, x, y),
    ensures
        forall|oj: int, t: int, x: int, y: int|
            0 <= oj < fi ==> #[trigger] face_done_at(world, cur, order, oj, t, x, y),
        forall|t2: int, x: int, y: int|
            1 <= t2 < ti ==> #[trigger] fan_depth_reached(world, cur, fidx, t2, x, y),
{
    assert forall|oj: int, t: int, x: int, y: int|
        0 <= oj < fi implies #[trigger] face_done_at(world, cur, order, oj, t, x, y) by {
        assert(face_done_at(world, prev, order, oj, t, x, y));
        lemma_depth_reached_mono(world, prev, cur, order[oj] as int, t, x, y);
    }
    assert forall|t2: int, x: int, y: int|
        1 <= t2 < ti implies #[trigger] fan_depth_reached(world, cur, fidx, t2, x, y) by {
        assert(fan_depth_reached(world, prev, fidx, t2, x, y));
        lemma_depth_reached_mono(world, prev, cur, fidx, t2, x, y);
    }
}

/// The stroke variant of the carry step: the depth buffer is untouched, and
/// the just-filled triangle's mark survives as well.
proof fn lemma_carry_liveness_keep_z(
    world: World,
    prev: PixelRenderer,
    cur: PixelRenderer,
    order: Seq<usize>,
    fi: int,
    fidx: int,
    ti: int,
)
    requires
        cur.width == prev.width,
        cur.height == prev.height,
        cur.z_buffer@ == prev.z_buffer@,
        forall|oj: int, t: int, x: int, y: int|
            0 <= oj < fi ==> #[trigger] face_done_at(world, prev, order, oj, t, x, y),
        forall|t2: int, x: int, y: int|
            1 <= t2 < ti ==> #[trigger] fan_depth_reached(world, prev, fidx, t2, x, y),
        forall|x: int, y: int| #[trigger] fan_depth_reached(world, prev, fidx, ti, x, y),
    ensures
        forall|oj: int, t: int, x: int, y: int|
            0 <= oj < fi ==> #[trigger] face_done_at(world, cur, order, oj, t, x, y),
        forall|t2: int, x: int, y: int|
            1 <= t2 < ti ==> #[trigger] fan_depth_reached(world, cur, fidx, t2, x, y),
        forall|x: int, y: int| #[trigger] fan_depth_reached(world, cur, fidx, ti, x, y),
{
    assert forall|oj: int, t: int, x: int, y: int|
        0 <= oj < fi implies #[trigger] face_done_at(world, cur, order, oj, t, x, y) by {
        assert(face_done_at(world, prev, order, oj, t, x, y));
        lemma_depth_reached_mono(world, prev, cur, order[oj] as int, t, x, y);
    }
    assert forall|t2: int, x: int, y: int|
        1 <= t2 < ti implies #[trigger] fan_depth_reached(world, cur, fidx, t2, x, y) by {
        assert(fan_depth_reached(world, prev, fidx, t2, x, y));
        lemma_depth_reached_mono(world, prev, cur, fidx, t2, x, y);
    }
    assert forall|x: int, y: int| #[trigger] fan_depth_reached(world, cur, fidx, ti, x, y) by {
        assert(fan_depth_reached(world, prev, fidx, ti, x, y));
        lemma_depth_reached_mono(world, prev, cur, fidx, ti, x, y);
    }
}

/// Whether a projected vertex is inside the rasterizer's working range.
fn in_raster_range(v: &Vec4) -> (r: bool)
    ensures
        r == tri_wf(*v),
{
    v.x >= -B_SCR && v.x <= B_SCR && v.y >= -B_SCR && v.y <= B_SCR && v.z >= -B_SCR && v.z <= B_SCR
        && v.w >= 1 && v.w <= B_W
}

} // verus!
