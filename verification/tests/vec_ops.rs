use graphics_from_scratch::vec::{Vec2, Vec3, Vec4};

const S: i64 = 65536;

#[test]
fn test_vec_len() {
    let v2 = Vec2::new(3 * S, 4 * S);
    let v3_1 = Vec3::new(3 * S, 4 * S, 0);
    let v3_2 = Vec3::new(3 * S, 0, 4 * S);
    let v3_3 = Vec3::new(163840, 419430, 196608);

    assert_eq!(v2.len(), 5 * S);
    assert_eq!(v3_1.len(), 5 * S);
    assert_eq!(v3_2.len(), 5 * S);
    assert_eq!(v3_3.len(), 491344);

    assert_eq!(Vec4::new(3 * S, 4 * S, 0, 0).len(), 5 * S);
    assert_eq!(Vec4::new(0, 0, 4 * S, 3 * S).len(), 5 * S);
}

#[test]
fn test_vec_add_sub() {
    let mut a = Vec2::new(S, 2 * S);
    let b = Vec2::new(3 * S, 4 * S);
    let mut c = Vec3::new(S, 2 * S, 3 * S);
    let d = Vec3::new(4 * S, 5 * S, 6 * S);
    let e = Vec3::new(0, 0, 0);

    assert_eq!(a.add(b), Vec2::new(4 * S, 6 * S));
    assert_eq!(a.sub(b), Vec2::new(-2 * S, -2 * S));
    assert_eq!(c.add(d), Vec3::new(5 * S, 7 * S, 9 * S));
    assert_eq!(c.sub(d), Vec3::new(-3 * S, -3 * S, -3 * S));
    assert_eq!(d.sub(e), d);

    a = a.add(b);
    c = c.add(d);

    assert_eq!(a, Vec2::new(4 * S, 6 * S));
    assert_eq!(c, Vec3::new(5 * S, 7 * S, 9 * S));

    a = a.sub(b);
    c = c.sub(d);

    assert_eq!(a, Vec2::new(S, 2 * S));
    assert_eq!(c, Vec3::new(S, 2 * S, 3 * S));

    let mut f = Vec4::new(S, 2 * S, 3 * S, S);
    let g = Vec4::new(4 * S, 5 * S, 6 * S, 2 * S);
    let h = Vec4::new(0, 0, 0, 0);

    assert_eq!(f.add(g), Vec4::new(5 * S, 7 * S, 9 * S, 3 * S));
    assert_eq!(f.sub(g), Vec4::new(-3 * S, -3 * S, -3 * S, -S));
    assert_eq!(g.sub(h), g);

    f = f.add(g);

    assert_eq!(f, Vec4::new(5 * S, 7 * S, 9 * S, 3 * S));

    f = f.sub(g);

    assert_eq!(f, Vec4::new(S, 2 * S, 3 * S, S));
}

#[test]
fn test_vec_mul_div() {
    let half3 = 3 * S / 2;
    let mut a = Vec2::new(S, 2 * S);
    let mut b = Vec3::new(S, 2 * S, 3 * S);
    let mut c = Vec3::new(0, 0, 0);

    assert_eq!(a.mul(half3), Vec2::new(half3, 3 * S));
    assert_eq!(b.mul(half3), Vec3::new(half3, 3 * S, 9 * S / 2));
    assert_eq!(c.mul(half3), Vec3::new(0, 0, 0));
    assert_eq!(a.mul(half3).div(half3), Vec2::new(S, 2 * S));
    assert_eq!(b.mul(half3).div(half3), Vec3::new(S, 2 * S, 3 * S));
    assert_eq!(c.mul(half3).div(half3), Vec3::new(0, 0, 0));

    a = a.mul(2 * S);
    b = b.mul(2 * S);
    c = c.mul(2 * S);

    assert_eq!(a, Vec2::new(2 * S, 4 * S));
    assert_eq!(b, Vec3::new(2 * S, 4 * S, 6 * S));
    assert_eq!(c, Vec3::new(0, 0, 0));

    a = a.div(2 * S);
    b = b.div(2 * S);
    c = c.div(2 * S);

    assert_eq!(a, Vec2::new(S, 2 * S));
    assert_eq!(b, Vec3::new(S, 2 * S, 3 * S));
    assert_eq!(c, Vec3::new(0, 0, 0));

    let mut d = Vec4::new(S, 2 * S, 3 * S, 4 * S);
    let mut e = Vec4::new(0, 0, 0, 0);

    assert_eq!(d.mul(half3), Vec4::new(half3, 3 * S, 9 * S / 2, 6 * S));
    assert_eq!(e.mul(half3), Vec4::new(0, 0, 0, 0));
    assert_eq!(d.mul(half3).div(half3), Vec4::new(S, 2 * S, 3 * S, 4 * S));
    assert_eq!(e.mul(half3).div(half3), Vec4::new(0, 0, 0, 0));

    d = d.mul(2 * S);
    e = e.mul(2 * S);

    assert_eq!(d, Vec4::new(2 * S, 4 * S, 6 * S, 8 * S));
    assert_eq!(e, Vec4::new(0, 0, 0, 0));

    d = d.div(2 * S);
    e = e.div(2 * S);

    assert_eq!(d, Vec4::new(S, 2 * S, 3 * S, 4 * S));
    assert_eq!(e, Vec4::new(0, 0, 0, 0));
}

#[test]
fn test_vec2_cross_z() {
    let a = Vec2::new(S, 0);
    let b = Vec2::new(0, S);

    assert_eq!(a.cross_z(b), S);
    assert_eq!(b.cross_z(a), -S);

    let a = Vec2::new(S, 0);
    let b = Vec2::new(2 * S, 2 * S);

    assert_eq!(a.cross_z(b), 2 * S);
    assert_eq!(b.cross_z(a), -2 * S);
}

#[test]
fn test_vec3_cross() {
    let a = Vec3::new(S, 0, 0);
    let b = Vec3::new(0, S, 0);

    assert_eq!(a.cross(b), Vec3::new(0, 0, S));

    let a = Vec3::new(3 * S / 2, 5 * S / 2, -S);
    let b = Vec3::new(2 * S, -3 * S, 4 * S);

    assert_eq!(a.cross(b), Vec3::new(7 * S, -8 * S, -19 * S / 2));

    let a = Vec3::new(S, 0, 0);
    let b = Vec3::new(2 * S, 2 * S, 0);

    assert_eq!(a.cross(b), Vec3::new(0, 0, 2 * S));
    assert_eq!(b.cross(a), Vec3::new(0, 0, -2 * S));
}

#[test]
fn test_vec_dot() {
    assert_eq!(Vec2::new(S, 0).dot(Vec2::new(0, S)), 0);
    assert_eq!(Vec2::new(S, S).dot(Vec2::new(0, S)), S);
    assert_eq!(Vec2::new(2 * S, S).dot(Vec2::new(0, S)), S);

    assert_eq!(Vec3::new(S, 0, 0).dot(Vec3::new(0, S, 0)), 0);
    assert_eq!(Vec3::new(S, S, S).dot(Vec3::new(0, S, S)), 2 * S);
    assert_eq!(Vec3::new(0, 0, 4 * S).dot(Vec3::new(0, 0, 5 * S)), 20 * S);

    assert_eq!(Vec4::new(S, 0, 0, S).dot(Vec4::new(0, S, 0, 0)), 0);
    assert_eq!(Vec4::new(S, S, S, S).dot(Vec4::new(0, S, S, S)), 3 * S);
    assert_eq!(Vec4::new(0, 0, 4 * S, S).dot(Vec4::new(0, 0, 5 * S, 2 * S)), 22 * S);
}

#[test]
fn test_vec_unit_norm() {
    assert_eq!(Vec2::new(S, 0).unit_norm(), Vec2::new(S, 0));
    assert_eq!(Vec2::new(2 * S, 0).unit_norm(), Vec2::new(S, 0));
    assert_eq!(Vec2::new(2 * S, 2 * S).unit_norm(), Vec2::new(46341, 46341));

    assert_eq!(Vec3::new(S, 0, 0).unit_norm(), Vec3::new(S, 0, 0));
    assert_eq!(Vec3::new(2 * S, 0, 0).unit_norm(), Vec3::new(S, 0, 0));
    assert_eq!(Vec3::new(2 * S, 2 * S, 0).unit_norm(), Vec3::new(46341, 46341, 0));
    assert_eq!(Vec3::new(0, 0, S).unit_norm(), Vec3::new(0, 0, S));
    assert_eq!(Vec3::new(2 * S, 2 * S, S).unit_norm(), Vec3::new(43690, 43690, 21845));

    assert_eq!(Vec4::new(0, 0, 0, S).unit_norm(), Vec4::new(0, 0, 0, S));
    assert_eq!(Vec4::new(0, 0, 0, 2 * S).unit_norm(), Vec4::new(0, 0, 0, S));
    assert_eq!(Vec4::new(0, 0, 2 * S, 2 * S).unit_norm(), Vec4::new(0, 0, 46341, 46341));
    assert_eq!(Vec4::new(0, 2 * S, 2 * S, S).unit_norm(), Vec4::new(0, 43690, 43690, 21845));
}
