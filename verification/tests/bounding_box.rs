use raytracer::bounding_box::{union_range, AABB};
use raytracer::ray::Ray;
use raytracer::scalar::Scalar;
use raytracer::vector::Vec3;

fn s(x: f32) -> Scalar {
    Scalar::from_bits(x.to_bits())
}

fn f(x: Scalar) -> f32 {
    f32::from_bits(x.to_bits())
}

fn v(x: f32, y: f32, z: f32) -> Vec3 {
    Vec3::new(s(x), s(y), s(z))
}

fn bx(lo: [f32; 3], hi: [f32; 3]) -> AABB {
    AABB::new(v(lo[0], lo[1], lo[2]), v(hi[0], hi[1], hi[2]))
}

fn arr(p: Vec3) -> [f32; 3] {
    [f(p.x), f(p.y), f(p.z)]
}

fn along(plane: Scalar, origin: Scalar, inverse: Scalar) -> Scalar {
    s((f(plane) - f(origin)) * f(inverse))
}

fn ray(o: [f32; 3], d: [f32; 3]) -> Ray {
    let len = (d[0] * d[0] + d[1] * d[1] + d[2] * d[2]).sqrt();
    Ray::new(
        v(o[0], o[1], o[2]),
        v(d[0], d[1], d[2]),
        v(d[0] / len, d[1] / len, d[2] / len),
        v(1.0 / d[0], 1.0 / d[1], 1.0 / d[2]),
    )
}

#[test]
fn default_is_the_empty_box() {
    let e = AABB::default();
    assert_eq!(arr(e.min()), [f32::INFINITY; 3]);
    assert_eq!(arr(e.max()), [f32::NEG_INFINITY; 3]);
}

#[test]
fn accessors_and_index() {
    let b = bx([1.0, 2.0, 3.0], [4.0, 5.0, 6.0]);
    assert_eq!(arr(b.min()), [1.0, 2.0, 3.0]);
    assert_eq!(arr(b.max()), [4.0, 5.0, 6.0]);
    assert_eq!(arr(*b.index(0)), [1.0, 2.0, 3.0]);
    assert_eq!(arr(*b.index(1)), [4.0, 5.0, 6.0]);
    assert_eq!(arr(*b.index(7)), [4.0, 5.0, 6.0]);
}

#[test]
fn extend_box_takes_least_and_greatest() {
    let a = bx([0.0, -1.0, 2.0], [1.0, 1.0, 3.0]);
    let b = bx([-2.0, 0.0, 2.5], [0.5, 4.0, 2.75]);
    let u = a.extend_box(&b);
    assert_eq!(arr(u.min()), [-2.0, -1.0, 2.0]);
    assert_eq!(arr(u.max()), [1.0, 4.0, 3.0]);
    let w = b.extend_box(&a);
    assert_eq!(arr(w.min()), arr(u.min()));
    assert_eq!(arr(w.max()), arr(u.max()));
}

#[test]
fn extend_box_contains_all_corners_of_both() {
    let a = bx([0.0, -1.0, 2.0], [1.0, 1.0, 3.0]);
    let b = bx([-2.0, 0.0, 2.5], [0.5, 4.0, 2.75]);
    let u = a.extend_box(&b);
    for source in [a, b] {
        for c in 0..8 {
            let p = [
                if c & 4 == 0 { f(source.min.x) } else { f(source.max.x) },
                if c & 2 == 0 { f(source.min.y) } else { f(source.max.y) },
                if c & 1 == 0 { f(source.min.z) } else { f(source.max.z) },
            ];
            let lo = arr(u.min());
            let hi = arr(u.max());
            for k in 0..3 {
                assert!(lo[k] <= p[k] && p[k] <= hi[k]);
            }
        }
    }
}

#[test]
fn empty_box_is_neutral_for_union() {
    let a = bx([0.0, -1.0, 2.0], [1.0, 1.0, 3.0]);
    let u = AABB::default().extend_box(&a);
    assert_eq!(arr(u.min()), arr(a.min()));
    assert_eq!(arr(u.max()), arr(a.max()));
    let w = a.extend_box(&AABB::default());
    assert_eq!(arr(w.min()), arr(a.min()));
    assert_eq!(arr(w.max()), arr(a.max()));
    let e = AABB::default().extend_box(&AABB::default());
    assert_eq!(arr(e.min()), [f32::INFINITY; 3]);
}

#[test]
fn union_range_folds_in_order() {
    let boxes = vec![
        bx([0.0, 0.0, 0.0], [1.0, 1.0, 1.0]),
        bx([5.0, 5.0, 5.0], [6.0, 6.0, 6.0]),
        bx([-3.0, 0.0, 0.0], [-2.0, 1.0, 1.0]),
    ];
    let objects = vec![2, 0, 1];
    let firsts = union_range(&boxes, &objects, 0, 2);
    assert_eq!(arr(firsts.min()), [-3.0, 0.0, 0.0]);
    assert_eq!(arr(firsts.max()), [1.0, 1.0, 1.0]);
    let none = union_range(&boxes, &objects, 1, 1);
    assert_eq!(arr(none.min()), [f32::INFINITY; 3]);
    let all = union_range(&boxes, &objects, 0, 3);
    assert_eq!(arr(all.max()), [6.0, 6.0, 6.0]);
}

#[test]
fn max_axis_is_the_widest() {
    assert_eq!(AABB::max_axis(&v(3.0, 2.0, 1.0)), 0);
    assert_eq!(AABB::max_axis(&v(1.0, 3.0, 2.0)), 1);
    assert_eq!(AABB::max_axis(&v(1.0, 2.0, 3.0)), 2);
    // the widest axis wins even where the middle one is the narrowest
    assert_eq!(AABB::max_axis(&v(5.0, 1.0, 3.0)), 0);
    assert_eq!(AABB::max_axis(&v(3.0, 1.0, 5.0)), 2);
}

#[test]
fn max_axis_ties_go_to_the_first() {
    assert_eq!(AABB::max_axis(&v(2.0, 2.0, 2.0)), 0);
    assert_eq!(AABB::max_axis(&v(1.0, 2.0, 2.0)), 1);
    assert_eq!(AABB::max_axis(&v(2.0, 1.0, 2.0)), 0);
    assert_eq!(AABB::max_axis(&v(0.0, -0.0, 0.0)), 0);
}

#[test]
fn max_axis_without_numbers_is_the_last() {
    assert_eq!(AABB::max_axis(&v(f32::NAN, f32::NAN, f32::NAN)), 2);
    assert_eq!(AABB::max_axis(&v(f32::NAN, 2.0, 1.0)), 1);
}

#[test]
fn overlap_narrows_axis_by_axis() {
    let t_min = s(0.0);
    let t_max = s(100.0);
    assert!(AABB::overlap(&v(1.0, 2.0, 3.0), &v(10.0, 9.0, 8.0), t_min, t_max));
    // the y slab ends before the x slab starts
    assert!(!AABB::overlap(&v(5.0, 1.0, 1.0), &v(10.0, 4.0, 8.0), t_min, t_max));
    // the box lies behind t_max
    assert!(!AABB::overlap(&v(1.0, 2.0, 3.0), &v(10.0, 9.0, 8.0), t_min, s(2.5)));
    // the box lies before t_min
    assert!(!AABB::overlap(&v(1.0, 2.0, 3.0), &v(10.0, 9.0, 8.0), s(20.0), t_max));
}

#[test]
fn overlap_rejects_an_interval_of_one_point() {
    assert!(!AABB::overlap(&v(1.0, 1.0, 1.0), &v(1.0, 5.0, 5.0), s(0.0), s(10.0)));
    assert!(!AABB::overlap(&v(1.0, 1.0, 1.0), &v(5.0, 5.0, 5.0), s(0.0), s(1.0)));
}

#[test]
fn overlap_ignores_crossings_that_are_not_numbers() {
    let nan = f32::NAN;
    assert!(AABB::overlap(&v(nan, 2.0, 3.0), &v(nan, 9.0, 8.0), s(0.0), s(100.0)));
    assert!(AABB::overlap(&v(nan, nan, nan), &v(nan, nan, nan), s(0.0), s(100.0)));
    assert!(!AABB::overlap(&v(nan, nan, nan), &v(nan, nan, nan), s(1.0), s(1.0)));
}

#[test]
fn hit_through_the_box() {
    let b = bx([-1.0, -1.0, -6.0], [1.0, 1.0, -4.0]);
    let r = ray([0.0, 0.0, 0.0], [0.1, 0.1, -1.0]);
    assert!(b.hit(&r, s(0.001), s(f32::MAX), &along));
    assert!(!b.hit(&r, s(0.001), s(3.0), &along));
    assert!(!b.hit(&r, s(7.0), s(f32::MAX), &along));
    let away = ray([0.0, 0.0, 0.0], [0.1, 0.1, 1.0]);
    assert!(!b.hit(&away, s(0.001), s(f32::MAX), &along));
    let beside = ray([5.0, 0.0, 0.0], [0.01, 0.01, -1.0]);
    assert!(!b.hit(&beside, s(0.001), s(f32::MAX), &along));
}

#[test]
fn hit_with_negative_direction_uses_the_far_corner_first() {
    let b = bx([-1.0, -1.0, -1.0], [1.0, 1.0, 1.0]);
    let r = ray([5.0, 5.0, 5.0], [-1.0, -1.0, -1.0]);
    assert_eq!((r.sign_x, r.sign_y, r.sign_z), (1, 1, 1));
    assert!(b.hit(&r, s(0.001), s(f32::MAX), &along));
    assert!(!b.hit(&r, s(0.001), s(3.9), &along));
    assert!(b.hit(&r, s(0.001), s(4.1), &along));
}

#[test]
fn hit_tolerates_a_direction_along_an_axis() {
    let b = bx([-1.0, -1.0, -6.0], [1.0, 1.0, -4.0]);
    let inside = ray([0.5, 0.5, 0.0], [0.0, 0.0, -1.0]);
    assert!(b.hit(&inside, s(0.001), s(f32::MAX), &along));
    let outside = ray([2.0, 0.5, 0.0], [0.0, 0.0, -1.0]);
    assert!(!b.hit(&outside, s(0.001), s(f32::MAX), &along));
    // on the plane of a face the crossing is not a number and cuts nothing
    let grazing = ray([1.0, 0.5, 0.0], [0.0, 0.0, -1.0]);
    assert!(b.hit(&grazing, s(0.001), s(f32::MAX), &along));
}
