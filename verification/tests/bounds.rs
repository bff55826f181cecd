use pathtrace::bounds::Bounds3;
use pathtrace::vec3::{Vec3, Vec3Axis};

fn bx(min: (i32, i32, i32), max: (i32, i32, i32)) -> Bounds3 {
    Bounds3::new(Vec3::new(min.0, min.1, min.2), Vec3::new(max.0, max.1, max.2))
}

fn same(a: &Bounds3, b: &Bounds3) -> bool {
    a.pmin.0 == b.pmin.0
        && a.pmin.1 == b.pmin.1
        && a.pmin.2 == b.pmin.2
        && a.pmax.0 == b.pmax.0
        && a.pmax.1 == b.pmax.1
        && a.pmax.2 == b.pmax.2
}

#[test]
fn union_is_commutative_and_idempotent() {
    let a = bx((0, 0, 0), (2, 3, 4));
    let b = bx((-1, 1, 2), (1, 5, 3));
    let ab = Bounds3::union(&a, &b);
    let ba = Bounds3::union(&b, &a);
    assert!(same(&ab, &ba));
    assert!(same(&ab, &bx((-1, 0, 0), (2, 5, 4))));
    assert!(same(&Bounds3::union(&a, &a), &a));
}

#[test]
fn union_encloses_both_operands() {
    let a = bx((10, -7, 3), (12, -2, 9));
    let b = bx((-4, -1, 5), (11, 6, 6));
    let u = Bounds3::union(&a, &b);
    for o in [a, b] {
        assert!(u.pmin.x() <= o.pmin.x() && o.pmax.x() <= u.pmax.x());
        assert!(u.pmin.y() <= o.pmin.y() && o.pmax.y() <= u.pmax.y());
        assert!(u.pmin.z() <= o.pmin.z() && o.pmax.z() <= u.pmax.z());
    }
}

#[test]
fn union_with_a_point() {
    let a = bx((0, 0, 0), (2, 2, 2));
    let u = a.union_vec(&Vec3::new(5, -1, 1));
    assert!(same(&u, &bx((0, -1, 0), (5, 2, 2))));
    let inside = a.union_vec(&Vec3::new(1, 1, 1));
    assert!(same(&inside, &a));
}

#[test]
fn diagonal_and_surface_area() {
    let a = bx((1, 2, 3), (3, 5, 7));
    let d = a.diagonal();
    assert_eq!((d.x(), d.y(), d.z()), (2, 3, 4));
    // 2 * (2*3 + 2*4 + 3*4)
    assert_eq!(a.surface_area(), 52);
}

#[test]
fn arithmetic_at_the_limits_of_the_grid() {
    let a = bx((i32::MIN, i32::MIN, i32::MIN), (i32::MAX, i32::MAX, i32::MAX));
    let d = a.diagonal();
    assert_eq!(d.x(), 4294967295);
    assert_eq!(a.surface_area(), 6 * 4294967295i128 * 4294967295i128);
    let c = a.centroid();
    assert_eq!((c.x(), c.y(), c.z()), (-1, -1, -1));
}

#[test]
fn maximum_extent_and_its_ties() {
    assert!(matches!(bx((0, 0, 0), (5, 1, 1)).maximum_extent(), Vec3Axis::X));
    assert!(matches!(bx((0, 0, 0), (1, 5, 1)).maximum_extent(), Vec3Axis::Y));
    assert!(matches!(bx((0, 0, 0), (1, 1, 5)).maximum_extent(), Vec3Axis::Z));
    // x ties with y: x is not strictly longest, y is longer than z
    assert!(matches!(bx((0, 0, 0), (5, 5, 1)).maximum_extent(), Vec3Axis::Y));
    // all equal
    assert!(matches!(bx((0, 0, 0), (2, 2, 2)).maximum_extent(), Vec3Axis::Z));
    // x ties with z
    assert!(matches!(bx((0, 0, 0), (5, 1, 5)).maximum_extent(), Vec3Axis::Z));
}

#[test]
fn centroid_rounds_towards_the_lower_corner() {
    let c = bx((0, 0, -3), (4, 5, 0)).centroid();
    assert_eq!((c.x(), c.y(), c.z()), (2, 2, -2));
}

#[test]
fn axis_access() {
    let mut v = Vec3::new(1, 2, 3);
    assert_eq!(v.get_axis(Vec3Axis::Y), 2);
    v.set_axis(Vec3Axis::Z, 9);
    assert_eq!((v.x(), v.y(), v.z()), (1, 2, 9));
    assert_eq!(Vec3Axis::X.to_index(), 0);
    assert_eq!(Vec3Axis::Z.to_index(), 2);
}

#[test]
fn products_of_grid_vectors() {
    let a = Vec3::new(1, 2, 3);
    let b = Vec3::new(-4, 5, 6);
    assert_eq!(a.dot(b), 24);
    let c = a.cross(b);
    assert_eq!((c.x(), c.y(), c.z()), (-3, -18, 13));
    assert_eq!(a.cross(a).x(), 0);
    assert_eq!(a.squared_length(), 14);
    let far = Vec3::new(i32::MIN, i32::MIN, i32::MIN);
    assert_eq!(far.squared_length(), 3 * (1i128 << 62));
    let e = Vec3::new(1, 0, 0).cross(Vec3::new(0, 1, 0));
    assert_eq!((e.x(), e.y(), e.z()), (0, 0, 1));
}
