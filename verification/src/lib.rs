pub mod fx;
pub mod vec;
pub mod mat;
pub mod mesh;
pub mod pixel_renderer;
pub mod clip;
pub mod raster;
pub mod project;
pub mod world;

pub use clip::{
    frustum_clip, frustum_planes, in_plane, intersection, ClipPlane, ClipVert, CLIP_EPS, Z_FAR,
    Z_NEAR,
};
pub use project::{
    camera_view_matrix, project_point_to_camera_space, project_point_to_screen_space,
    unproject_point_from_screen_space,
};
pub use raster::{
    color_mul, cross_edge, draw_line, draw_triangle_color, draw_triangle_texture, interpolate_uv,
    min_max,
};
pub use world::{
    backface_culled, camera_ok, draw_mesh, light_intensity, rotate_mesh, update_world,
    update_world_approach, update_world_rotate, DrawOptions, TriangleFill, World,
};

use vstd::prelude::*;

verus! {

} // verus!
