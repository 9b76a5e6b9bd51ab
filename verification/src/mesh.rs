//! Meshes, faces and textures as the renderer consumes them, and the
//! validator that the loading boundary runs before the renderer may assume
//! a mesh is well formed.

use vstd::prelude::*;
use crate::pixel_renderer::Color;
use crate::vec::{ok2, ok3, Vec2, Vec3};

verus! {

/// One triangular face: three vertex indices, three texture-coordinate
/// indices, and a flat fallback color.
#[derive(Clone, Copy, PartialEq, Eq, Structural, Debug)]
pub struct Face {
    pub a: usize,
    pub b: usize,
    pub c: usize,
    pub a_uv: usize,
    pub b_uv: usize,
    pub c_uv: usize,
    pub color: Color,
}

impl Face {
    /// A face with the default light-grey flat color.
    pub fn new(a: usize, b: usize, c: usize, a_uv: usize, b_uv: usize, c_uv: usize) -> (r: Face)
        ensures
            r.a == a,
            r.b == b,
            r.c == c,
            r.a_uv == a_uv,
            r.b_uv == b_uv,
            r.c_uv == c_uv,
            r.color == (Color { r: 200, g: 200, b: 200 }),
    {
        Face { a, b, c, a_uv, b_uv, c_uv, color: Color { r: 200, g: 200, b: 200 } }
    }
}

/// A texture image: a row-major grid of colors, read-only to the renderer.
pub struct Texture {
    pub width: u32,
    pub height: u32,
    pub texels: Vec<Color>,
}

/// A usable texture: at least one pixel each way, one stored color per
/// texel.
pub open spec fn tex_wf(t: Texture) -> bool {
    &&& t.width >= 1
    &&& t.height >= 1
    &&& t.width * t.height <= 0xffff_ffff
    &&& t.texels@.len() == t.width * t.height
}

impl Texture {
    /// The color of one texel.
    pub fn get_pixel(&self, x: u32, y: u32) -> (c: Color)
        requires
            tex_wf(*self),
            x < self.width,
            y < self.height,
        ensures
            c == self.texels@[y * self.width + x],
    {
        proof {
            crate::pixel_renderer::lemma_pix_bound(
                x as int,
                y as int,
                self.width as int,
                self.height as int,
            );
        }
        let i: usize = (y as usize) * (self.width as usize) + (x as usize);
        self.texels[i]
    }

    /// A one-texel texture of the given color, the smallest usable one.
    pub fn solid(color: Color) -> (t: Texture)
        ensures
            tex_wf(t),
            t.width == 1,
            t.height == 1,
            t.texels@[0] == color,
    {
        let mut texels: Vec<Color> = Vec::new();
        texels.push(color);
        Texture { width: 1, height: 1, texels }
    }
}

/// Model-space coordinates of mesh vertices keep within this bound.
pub const B_MESH: i64 = 0x10_0000;

/// Rotation state (accumulated Euler angles) keeps within this bound; the
/// decaying random walk that updates it stays inside.
pub const B_ROT: i64 = 0x4000_0000;

/// A mesh: vertex positions, texture coordinates, faces whose indices are in
/// range, an accumulated rotation, and the texture it is drawn with.
pub struct Mesh {
    pub vertices: Vec<Vec3>,
    pub uvs: Vec<Vec2>,
    pub faces: Vec<Face>,
    pub rotation: Vec3,
    pub texture: Texture,
}

/// A renderable mesh: every face index lands in its array, every coordinate
/// is bounded, and the texture is usable.
pub open spec fn mesh_wf(m: Mesh) -> bool {
    &&& forall|i: int|
        0 <= i < m.faces@.len() ==> {
            let f = #[trigger] m.faces@[i];
            &&& f.a < m.vertices@.len()
            &&& f.b < m.vertices@.len()
            &&& f.c < m.vertices@.len()
            &&& f.a_uv < m.uvs@.len()
            &&& f.b_uv < m.uvs@.len()
            &&& f.c_uv < m.uvs@.len()
        }
    &&& forall|i: int| 0 <= i < m.vertices@.len() ==> ok3(#[trigger] m.vertices@[i], B_MESH as int)
    &&& forall|i: int| 0 <= i < m.uvs@.len() ==> ok2(#[trigger] m.uvs@[i], 0x20_0000)
    &&& ok3(m.rotation, B_ROT as int)
    &&& tex_wf(m.texture)
}

/// Decide whether a mesh is renderable: all face indices in range, all
/// coordinates bounded, the texture usable. Meant for the loading boundary,
/// where malformed input must be rejected before the renderer assumes
/// validity.
pub fn check_mesh(m: &Mesh) -> (r: bool)
    ensures
        r == mesh_wf(*m),
{
    let nv = m.vertices.len();
    let nu = m.uvs.len();
    let mut i: usize = 0;
    while i < m.faces.len()
        invariant
            0 <= i <= m.faces@.len(),
            nv == m.vertices@.len(),
            nu == m.uvs@.len(),
            forall|j: int|
                0 <= j < i ==> {
                    let f = #[trigger] m.faces@[j];
                    &&& f.a < nv
                    &&& f.b < nv
                    &&& f.c < nv
                    &&& f.a_uv < nu
                    &&& f.b_uv < nu
                    &&& f.c_uv < nu
                },
        decreases m.faces@.len() - i,
    {
        let f = m.faces[i];
        if f.a >= nv || f.b >= nv || f.c >= nv || f.a_uv >= nu || f.b_uv >= nu || f.c_uv >= nu {
            return false;
        }
        i = i + 1;
    }
    let mut i: usize = 0;
    while i < m.vertices.len()
        invariant
            0 <= i <= m.vertices@.len(),
            forall|j: int| 0 <= j < i ==> ok3(#[trigger] m.vertices@[j], B_MESH as int),
        decreases m.vertices@.len() - i,
    {
        let v = m.vertices[i];
        if v.x < -B_MESH || v.x > B_MESH || v.y < -B_MESH || v.y > B_MESH || v.z < -B_MESH || v.z
            > B_MESH {
            return false;
        }
        i = i + 1;
    }
    let mut i: usize = 0;
    while i < m.uvs.len()
        invariant
            0 <= i <= m.uvs@.len(),
            forall|j: int| 0 <= j < i ==> ok2(#[trigger] m.uvs@[j], 0x20_0000),
        decreases m.uvs@.len() - i,
    {
        let v = m.uvs[i];
        if v.x < -0x20_0000 || v.x > 0x20_0000 || v.y < -0x20_0000 || v.y > 0x20_0000 {
            return false;
        }
        i = i + 1;
    }
    if m.rotation.x < -B_ROT || m.rotation.x > B_ROT || m.rotation.y < -B_ROT || m.rotation.y
        > B_ROT || m.rotation.z < -B_ROT || m.rotation.z > B_ROT {
        return false;
    }
    if m.texture.width < 1 || m.texture.height < 1 {
        return false;
    }
    proof {
        crate::fx::lemma_mul_bound2(
            m.texture.width as int,
            m.texture.height as int,
            0xffff_ffff,
            0xffff_ffff,
        );
    }
    let wh: u64 = (m.texture.width as u64) * (m.texture.height as u64);
    if wh > 0xffff_ffff {
        return false;
    }
    if (m.texture.texels.len() as u64) != wh {
        return false;
    }
    true
}

} // verus!
