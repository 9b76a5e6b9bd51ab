use graphics_from_scratch::mat::Mat4;
use graphics_from_scratch::vec::{Vec3, Vec4};

const S: i64 = 65536;

#[test]
fn test_mat4_get_set() {
    let mut mat = Mat4::zero();
    mat.set(2, 3, 9 * S / 2);
    assert_eq!(mat.get(2, 3), 9 * S / 2);
    assert_eq!(mat.get(2, 2), 0);

    let b = Mat4::new(
        2 * S, S, 2 * S, 0,
        2 * S, S, S, S,
        S, 3 * S, 2 * S, S,
        3 * S, S, 2 * S, 3 * S,
    );

    assert_eq!(b.get(2, 1), 3 * S);
    assert_eq!(b.get(0, 3), 0);
}

#[test]
fn test_mat4_simple_ops_add_sub_f32_mul() {
    let a = Mat4::identity();

    assert_eq!(a.mul_s(2 * S), a.add(a));

    let mut b = Mat4::new(
        2 * S, S, 2 * S, 0,
        2 * S, S, S, S,
        S, 3 * S, 2 * S, S,
        3 * S, S, 2 * S, 3 * S,
    );

    assert_eq!(b.get(2, 1), 3 * S);
    assert_eq!(b.get(0, 3), 0);
    assert_eq!(b, b.sub(b).add(b));
    assert_eq!(Mat4::zero(), b.sub(b));

    let mut c = b.clone();

    c = c.sub(b);

    assert_eq!(c, Mat4::zero());

    let mut c = b.clone();

    c = c.add(b);
    b = b.mul_s(2 * S);

    assert_eq!(c, b);
}

#[test]
fn test_mat4_mat4_mul() {
    let a = Mat4::new(
        3 * S, S, 2 * S, 2 * S,
        3 * S, S, 2 * S, 3 * S,
        2 * S, 0, S, 3 * S,
        S, S, 0, S,
    );
    let b = Mat4::new(
        S, 2 * S, S, 0,
        0, 2 * S, 2 * S, 3 * S,
        3 * S, 3 * S, 0, S,
        0, 0, 2 * S, 2 * S,
    );
    let c = Mat4::new(
        9 * S, 14 * S, 9 * S, 9 * S,
        9 * S, 14 * S, 11 * S, 11 * S,
        5 * S, 7 * S, 8 * S, 7 * S,
        S, 4 * S, 5 * S, 5 * S,
    );

    assert_eq!(a.mul(b), c);
}

#[test]
fn test_mat4_vec4_mul() {
    let a = Mat4::new(
        3 * S, S, 2 * S, 2 * S,
        3 * S, S, 2 * S, 3 * S,
        2 * S, 0, S, 3 * S,
        S, S, 0, S,
    );
    let b = Vec4::new(S, 0, 3 * S, S);
    assert_eq!(a.mul_vec4(b), Vec4::new(11 * S, 12 * S, 8 * S, 2 * S));

    let a = Mat4::new(
        S, 0, 0, 2 * S,
        0, S, 0, 3 * S,
        0, 0, S, 3 * S,
        0, 0, 0, S,
    );
    let b = Vec4::new(S, 0, 3 * S, S);
    assert_eq!(a.mul_vec4(b), Vec4::new(3 * S, 3 * S, 6 * S, S));
}

#[test]
fn test_mat4_vec3_mul() {
    let a = Mat4::new(
        3 * S, S, 2 * S, 2 * S,
        3 * S, S, 2 * S, 3 * S,
        2 * S, 0, S, 3 * S,
        S, S, 0, S,
    );
    let b = Vec3::new(S, 0, 3 * S);
    assert_eq!(a.mul_vec3(b), Vec3::new(11 * S, 12 * S, 8 * S));

    let a = Mat4::new(
        S, 0, 0, 2 * S,
        0, S, 0, 3 * S,
        0, 0, S, 3 * S,
        0, 0, 0, S,
    );
    let b = Vec3::new(S, 0, 3 * S);
    assert_eq!(a.mul_vec3(b), Vec3::new(3 * S, 3 * S, 6 * S));
}

#[test]
fn test_mat4_transpose() {
    let a = Mat4::new(
        S, 0, 0, 2 * S, 0, S, 0, 3 * S, 0, 0, S, 3 * S, 0, 0, 0, S,
    );
    let b = Mat4::new(
        S, 0, 0, 0, 0, S, 0, 0, 0, 0, S, 0, 2 * S, 3 * S, 3 * S, S,
    );
    assert_eq!(a.transpose(), b);
}
