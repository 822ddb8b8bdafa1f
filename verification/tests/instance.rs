use raytracer::bounding_box::AABB;
use raytracer::hit::HitRecord;
use raytracer::instance::{Rotate, Translate};
use raytracer::medium::Constant;
use raytracer::ray::Ray;
use raytracer::renderer::get_pixel_color;
use raytracer::scalar::Scalar;
use raytracer::vector::Vec3;

fn s(x: f32) -> Scalar {
    Scalar::from_bits(x.to_bits())
}

fn f(x: Scalar) -> f32 {
    f32::from_bits(x.to_bits())
}

fn v(x: f32, y: f32, z: f32) -> Vec3 {
    Vec3::new(s(x), s(y), s(z))
}

fn arr(p: Vec3) -> [f32; 3] {
    [f(p.x), f(p.y), f(p.z)]
}

fn bx(lo: [f32; 3], hi: [f32; 3]) -> AABB {
    AABB::new(v(lo[0], lo[1], lo[2]), v(hi[0], hi[1], hi[2]))
}

fn ray(o: [f32; 3], d: [f32; 3]) -> Ray {
    let len = (d[0] * d[0] + d[1] * d[1] + d[2] * d[2]).sqrt();
    Ray::new(
        v(o[0], o[1], o[2]),
        v(d[0], d[1], d[2]),
        v(d[0] / len, d[1] / len, d[2] / len),
        v(1.0 / d[0], 1.0 / d[1], 1.0 / d[2]),
    )
}

fn shift(p: Vec3, o: Vec3) -> Vec3 {
    v(f(p.x) + f(o.x), f(p.y) + f(o.y), f(p.z) + f(o.z))
}

// a wall at z = -5 that faces +z, in the frame of the primitive
fn wall(r: Ray, t_min: Scalar, t_max: Scalar) -> Option<HitRecord> {
    let t = (-5.0 - f(r.ori.z)) / f(r.dir.z);
    if t < f(t_min) || t > f(t_max) {
        return None;
    }
    let p = v(f(r.ori.x) + t * f(r.dir.x), f(r.ori.y) + t * f(r.dir.y), -5.0);
    Some(HitRecord { p, n: v(0.0, 0.0, 1.0), t: s(t), u: s(0.5), v: s(0.5), m: 6, front_face: true })
}

#[test]
fn translated_box_is_the_box_moved() {
    let t = Translate::new(v(1.0, 2.0, 3.0));
    let b = t.bounding_box(Some(bx([0.0, 0.0, 0.0], [1.0, 1.0, 1.0])), &shift).unwrap();
    assert_eq!(arr(b.min()), [1.0, 2.0, 3.0]);
    assert_eq!(arr(b.max()), [2.0, 3.0, 4.0]);
    assert!(t.bounding_box(None, &shift).is_none());
}

#[test]
fn translated_hit_is_moved_back() {
    let t = Translate::new(v(0.0, 0.0, -2.0));
    let moved = |r: Ray, o: Vec3| ray(
        [f(r.ori.x) - f(o.x), f(r.ori.y) - f(o.y), f(r.ori.z) - f(o.z)],
        arr(r.dir),
    );
    let back = |h: HitRecord, r: Ray, o: Vec3| {
        let dot = f(r.dir.x) * f(h.n.x) + f(r.dir.y) * f(h.n.y) + f(r.dir.z) * f(h.n.z);
        (shift(h.p, o), s(dot))
    };
    let r = ray([0.5, 0.0, 0.0], [0.0, 0.0, -1.0]);
    let h = t.hit(&r, s(0.001), s(f32::MAX), &moved, &wall, &back).unwrap();
    assert_eq!(f(h.t), 7.0);
    assert_eq!(arr(h.p), [0.5, 0.0, -7.0]);
    assert_eq!(arr(h.n), [0.0, 0.0, 1.0]);
    assert!(h.front_face);
    assert_eq!(h.m, 6);
    assert!(t.hit(&r, s(0.001), s(6.0), &moved, &wall, &back).is_none());
    let behind = ray([0.5, 0.0, -20.0], [0.0, 0.0, 1.0]);
    let g = t.hit(&behind, s(0.001), s(f32::MAX), &moved, &wall, &back).unwrap();
    assert_eq!(f(g.n.z), -1.0);
    assert!(!g.front_face);
}

fn quarter_turn(b: AABB, far_x: bool, far_y: bool, far_z: bool) -> Vec3 {
    let x = if far_x { f(b.max.x) } else { f(b.min.x) };
    let y = if far_y { f(b.max.y) } else { f(b.min.y) };
    let z = if far_z { f(b.max.z) } else { f(b.min.z) };
    // sine 1, cosine 0
    v(z, y, -x)
}

#[test]
fn rotated_box_is_around_the_turned_corners() {
    let r = Rotate::new(s(1.0), s(0.0), Some(bx([1.0, 2.0, 3.0], [4.0, 5.0, 7.0])), &quarter_turn);
    let b = r.bounding_box().unwrap();
    assert_eq!(arr(b.min()), [3.0, 2.0, -4.0]);
    assert_eq!(arr(b.max()), [7.0, 5.0, -1.0]);
    assert_eq!((f(r.sin_theta), f(r.cos_theta)), (1.0, 0.0));
}

#[test]
fn rotated_primitive_without_a_box_has_none() {
    let r = Rotate::new(s(1.0), s(0.0), None, &quarter_turn);
    assert!(r.bounding_box().is_none());
}

#[test]
fn rotation_asks_for_the_corners_in_order() {
    let order = std::cell::RefCell::new(Vec::new());
    let note = |_b: AABB, x: bool, y: bool, z: bool| {
        order.borrow_mut().push((x, y, z));
        v(0.0, 0.0, 0.0)
    };
    let _ = Rotate::new(s(0.0), s(1.0), Some(bx([0.0, 0.0, 0.0], [1.0, 1.0, 1.0])), &note);
    assert_eq!(
        order.into_inner(),
        vec![
            (false, false, false),
            (false, false, true),
            (false, true, false),
            (false, true, true),
            (true, false, false),
            (true, false, true),
            (true, true, false),
            (true, true, true),
        ]
    );
}

#[test]
fn rotated_hit_is_turned_back() {
    let rot = Rotate::new(s(0.0), s(1.0), None, &quarter_turn);
    let turned = |r: Ray, _s: Scalar, _c: Scalar| r;
    let back = |h: HitRecord, r: Ray, _s: Scalar, _c: Scalar| {
        let n = v(0.0, 0.6, 0.8);
        let dot = f(r.dir.y) * 0.6 + f(r.dir.z) * 0.8;
        (v(9.0, 9.0, 9.0), n, s(dot))
    };
    let r = ray([0.0, 0.0, 0.0], [0.0, 0.0, -1.0]);
    let h = rot.hit(&r, s(0.001), s(f32::MAX), &turned, &wall, &back).unwrap();
    assert_eq!(arr(h.p), [9.0, 9.0, 9.0]);
    assert_eq!(arr(h.n), [0.0, 0.6, 0.8]);
    assert!(h.front_face);
    assert_eq!((f(h.t), h.m), (5.0, 6));
    assert!(rot.hit(&r, s(0.001), s(1.0), &turned, &wall, &back).is_none());
}

#[test]
fn medium_span_is_cut_to_the_interval() {
    let (from, to) = Constant::span(s(2.0), s(8.0), s(0.001), s(100.0)).unwrap();
    assert_eq!((f(from), f(to)), (2.0, 8.0));
    let (from, to) = Constant::span(s(2.0), s(8.0), s(3.0), s(5.0)).unwrap();
    assert_eq!((f(from), f(to)), (3.0, 5.0));
    let (from, to) = Constant::span(s(-4.0), s(8.0), s(-10.0), s(100.0)).unwrap();
    assert_eq!((f(from), f(to)), (0.0, 8.0));
}

#[test]
fn medium_span_that_is_closed_off_is_none() {
    assert!(Constant::span(s(2.0), s(8.0), s(9.0), s(100.0)).is_none());
    assert!(Constant::span(s(2.0), s(8.0), s(0.001), s(1.0)).is_none());
    assert!(Constant::span(s(2.0), s(8.0), s(8.0), s(100.0)).is_none());
    assert!(Constant::span(s(5.0), s(5.0), s(0.001), s(100.0)).is_none());
}

// a slab between z = -4 and z = -6
fn slab(r: Ray, t_min: Scalar, t_max: Scalar) -> Option<HitRecord> {
    for z in [-4.0f32, -6.0] {
        let t = (z - f(r.ori.z)) / f(r.dir.z);
        if t >= f(t_min) && t <= f(t_max) {
            let p = v(f(r.ori.x), f(r.ori.y), z);
            return Some(HitRecord { p, n: v(0.0, 0.0, 1.0), t: s(t), u: s(0.0), v: s(0.0), m: 0, front_face: true });
        }
    }
    None
}

fn nudge(t: Scalar) -> Scalar {
    s(f(t) + 0.0001)
}

#[test]
fn medium_scatters_inside_the_boundary() {
    let c = Constant::new(3, s(-1.0 / 0.5));
    let r = ray([0.0, 0.0, 0.0], [0.0, 0.0, -1.0]);
    let halfway = |r: Ray, from: Scalar, to: Scalar, d: Scalar| {
        assert_eq!(f(d), -2.0);
        let t = 0.5 * (f(from) + f(to));
        Some((s(t), v(f(r.ori.x), f(r.ori.y), f(r.ori.z) - t)))
    };
    let h = c.hit(&r, s(0.001), s(f32::MAX), &slab, &nudge, &halfway).unwrap();
    assert_eq!(f(h.t), 5.0);
    assert_eq!(arr(h.p), [0.0, 0.0, -5.0]);
    assert_eq!(arr(h.n), [1.0, 0.0, 0.0]);
    assert!(h.front_face);
    assert_eq!((f(h.u), f(h.v), h.m), (0.0, 0.0, 3));
    let clipped = c.hit(&r, s(0.001), s(5.0), &slab, &nudge, &halfway).unwrap();
    assert_eq!(f(clipped.t), 4.5);
}

#[test]
fn medium_lets_the_ray_through() {
    let c = Constant::new(3, s(-2.0));
    let r = ray([0.0, 0.0, 0.0], [0.0, 0.0, -1.0]);
    let through = |_r: Ray, _from: Scalar, _to: Scalar, _d: Scalar| None;
    assert!(c.hit(&r, s(0.001), s(f32::MAX), &slab, &nudge, &through).is_none());
    let never = |_r: Ray, _from: Scalar, _to: Scalar, _d: Scalar| -> Option<(Scalar, Vec3)> {
        panic!("a ray that misses the boundary does not travel inside")
    };
    let away = ray([0.0, 0.0, -10.0], [0.0, 0.0, -1.0]);
    assert!(c.hit(&away, s(0.001), s(f32::MAX), &slab, &nudge, &never).is_none());
    // the medium lies beyond the interval
    assert!(c.hit(&r, s(0.001), s(3.0), &slab, &nudge, &never).is_none());
}

fn plus(a: Vec3, b: Vec3) -> Vec3 {
    v(f(a.x) + f(b.x), f(a.y) + f(b.y), f(a.z) + f(b.z))
}

fn average(sum: Vec3, n: u16) -> Vec3 {
    v(f(sum.x) / n as f32, f(sum.y) / n as f32, f(sum.z) / n as f32)
}

#[test]
fn pixel_is_the_mean_of_its_samples() {
    let estimate = |k: u16| v(k as f32, 1.0, 2.0 * k as f32);
    assert_eq!(arr(get_pixel_color(5, &estimate, &plus, &average)), [2.0, 1.0, 4.0]);
    assert_eq!(arr(get_pixel_color(1, &estimate, &plus, &average)), [0.0, 1.0, 0.0]);
}

#[test]
fn pixel_discards_samples_that_are_not_numbers() {
    let estimate = |k: u16| if k % 2 == 1 { v(f32::NAN, 100.0, 100.0) } else { v(k as f32, 1.0, 3.0) };
    // kept: 0, 2, 4
    assert_eq!(arr(get_pixel_color(6, &estimate, &plus, &average)), [2.0, 1.0, 3.0]);
    let last = |k: u16| if k == 2 { v(1.0, 1.0, f32::NAN) } else { v(4.0, 6.0, 8.0) };
    assert_eq!(arr(get_pixel_color(3, &last, &plus, &average)), [4.0, 6.0, 8.0]);
    let infinite = |_k: u16| v(f32::INFINITY, 1.0, 1.0);
    assert_eq!(f(get_pixel_color(2, &infinite, &plus, &average).x), f32::INFINITY);
}

#[test]
fn pixel_without_usable_samples_is_black() {
    let bad = |_k: u16| v(f32::NAN, f32::NAN, f32::NAN);
    assert_eq!(arr(get_pixel_color(4, &bad, &plus, &average)), [0.0, 0.0, 0.0]);
    let never = |_k: u16| -> Vec3 { panic!("no sample was asked for") };
    assert_eq!(arr(get_pixel_color(0, &never, &plus, &average)), [0.0, 0.0, 0.0]);
}

#[test]
fn medium_is_passed_when_the_scattering_lies_beyond_it() {
    assert!(Constant::gets_through(s(3.0), s(2.0)));
    assert!(!Constant::gets_through(s(2.0), s(2.0)));
    assert!(!Constant::gets_through(s(1.0), s(2.0)));
    assert!(!Constant::gets_through(s(f32::NAN), s(2.0)));
    assert!(Constant::gets_through(s(f32::INFINITY), s(2.0)));
}
