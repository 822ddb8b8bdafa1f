use raytracer::bounding_box::AABB;
use raytracer::hit::{random_int, scan, HitRecord, MissingBox, Surface, World};
use raytracer::ray::Ray;
use raytracer::scalar::Scalar;
use raytracer::vector::Vec3;

fn s(x: f32) -> Scalar {
    Scalar::from_bits(x.to_bits())
}

fn f(x: Scalar) -> f32 {
    f32::from_bits(x.to_bits())
}

fn v(x: f32, y: f32, z: f32) -> Vec3 {
    Vec3::new(s(x), s(y), s(z))
}

fn arr(p: Vec3) -> [f32; 3] {
    [f(p.x), f(p.y), f(p.z)]
}

fn bx(lo: [f32; 3], hi: [f32; 3]) -> AABB {
    AABB::new(v(lo[0], lo[1], lo[2]), v(hi[0], hi[1], hi[2]))
}

fn ray() -> Ray {
    Ray::new(v(0.0, 0.0, 0.0), v(0.0, 0.0, -1.0), v(0.0, 0.0, -1.0), v(f32::INFINITY, f32::INFINITY, -1.0))
}

fn record(t: f32, m: usize) -> HitRecord {
    HitRecord { p: v(0.0, 0.0, -t), n: v(0.0, 0.0, 1.0), t: s(t), u: s(0.0), v: s(0.0), m, front_face: true }
}

// a test in which primitive i is hit at ts[i], if at all
fn table(ts: Vec<Option<f32>>) -> impl Fn(usize, Ray, Scalar, Scalar) -> Option<HitRecord> {
    move |i: usize, _r: Ray, t_min: Scalar, t_max: Scalar| match ts[i] {
        Some(t) if t >= f(t_min) && t <= f(t_max) => Some(record(t, i)),
        _ => None,
    }
}

#[test]
fn face_normal_is_kept_against_the_ray() {
    let mut h = record(1.0, 0);
    h.front_face = false;
    let on = v(0.0, 0.6, 0.8);
    h.set_face_normal(s(-0.5), &on);
    assert!(h.front_face);
    assert_eq!(arr(h.n), [0.0, 0.6, 0.8]);
    assert_eq!(f(h.t), 1.0);
    assert_eq!(h.m, 0);
}

#[test]
fn face_normal_is_flipped_along_the_ray() {
    let mut h = record(1.0, 3);
    let on = v(0.0, 0.6, -0.8);
    h.set_face_normal(s(0.5), &on);
    assert!(!h.front_face);
    assert_eq!(h.n.x.to_bits(), (-0.0f32).to_bits());
    assert_eq!(f(h.n.y), -0.6);
    assert_eq!(f(h.n.z), 0.8);
}

#[test]
fn face_normal_at_a_right_angle_counts_as_back() {
    let mut h = record(1.0, 3);
    h.set_face_normal(s(0.0), &v(1.0, 0.0, 0.0));
    assert!(!h.front_face);
    assert_eq!(f(h.n.x), -1.0);
    let mut g = record(1.0, 3);
    g.set_face_normal(s(f32::NAN), &v(1.0, 0.0, 0.0));
    assert!(!g.front_face);
}

#[test]
fn new_record_turns_the_normal() {
    let at = Surface { p: v(1.0, 2.0, 3.0), u: s(0.25), v: s(0.75), dot: s(-1.0) };
    let h = HitRecord::new(s(4.0), at, &v(0.0, 1.0, 0.0), 9);
    assert_eq!(arr(h.p), [1.0, 2.0, 3.0]);
    assert_eq!(arr(h.n), [0.0, 1.0, 0.0]);
    assert_eq!((f(h.t), f(h.u), f(h.v), h.m, h.front_face), (4.0, 0.25, 0.75, 9, true));
    let back = Surface { p: v(1.0, 2.0, 3.0), u: s(0.25), v: s(0.75), dot: s(1.0) };
    let g = HitRecord::new(s(4.0), back, &v(0.0, 1.0, 0.0), 9);
    assert_eq!(f(g.n.y), -1.0);
    assert!(!g.front_face);
}

#[test]
fn carry_replaces_point_and_normal_only() {
    let h = record(2.0, 5);
    let c = h.carry(v(9.0, 9.0, 9.0), &v(1.0, 0.0, 0.0), s(2.0));
    assert_eq!(arr(c.p), [9.0, 9.0, 9.0]);
    assert_eq!(f(c.n.x), -1.0);
    assert!(!c.front_face);
    assert_eq!((f(c.t), c.m), (2.0, 5));
}

#[test]
fn new_world_is_empty() {
    let w = World::new();
    assert_eq!(w.objects.len(), 0);
    let b = w.bounding_box().unwrap();
    assert_eq!(arr(b.min()), [f32::INFINITY; 3]);
    assert_eq!(arr(b.max()), [f32::NEG_INFINITY; 3]);
}

#[test]
fn push_numbers_the_primitives_and_grows_the_box() {
    let mut w = World::new();
    assert_eq!(w.push(Some(bx([0.0, 0.0, 0.0], [1.0, 1.0, 1.0]))), Ok(0));
    assert_eq!(w.push(Some(bx([-2.0, 0.5, 0.0], [0.0, 3.0, 0.5]))), Ok(1));
    assert_eq!(w.objects, vec![0, 1]);
    let b = w.bounding_box().unwrap();
    assert_eq!(arr(b.min()), [-2.0, 0.0, 0.0]);
    assert_eq!(arr(b.max()), [1.0, 3.0, 1.0]);
}

#[test]
fn push_without_a_box_is_refused() {
    let mut w = World::new();
    assert_eq!(w.push(Some(bx([0.0, 0.0, 0.0], [1.0, 1.0, 1.0]))), Ok(0));
    assert_eq!(w.push(None), Err(MissingBox));
    assert_eq!(w.objects, vec![0]);
    assert_eq!(w.boxes.len(), 1);
    assert_eq!(arr(w.bounding_box().unwrap().max()), [1.0, 1.0, 1.0]);
}

fn world_of(n: usize) -> World {
    let mut w = World::new();
    for _ in 0..n {
        assert!(w.push(Some(bx([0.0, 0.0, 0.0], [1.0, 1.0, 1.0]))).is_ok());
    }
    w
}

#[test]
fn world_hit_is_the_closest() {
    let w = world_of(5);
    let test = table(vec![Some(7.0), None, Some(3.0), Some(5.0), Some(9.0)]);
    let h = w.hit(&ray(), s(0.001), s(f32::MAX), &test).unwrap();
    assert_eq!(f(h.t), 3.0);
    assert_eq!(h.m, 2);
}

#[test]
fn world_hit_keeps_to_the_interval() {
    let w = world_of(3);
    let test = table(vec![Some(7.0), Some(3.0), Some(5.0)]);
    assert!(w.hit(&ray(), s(0.001), s(2.0), &test).is_none());
    let h = w.hit(&ray(), s(4.0), s(6.0), &test).unwrap();
    assert_eq!(h.m, 2);
    let edge = w.hit(&ray(), s(0.001), s(3.0), &test).unwrap();
    assert_eq!(edge.m, 1);
}

#[test]
fn world_hit_of_equal_parameters_is_the_later_one() {
    let w = world_of(3);
    let test = table(vec![Some(4.0), Some(4.0), Some(6.0)]);
    let h = w.hit(&ray(), s(0.001), s(f32::MAX), &test).unwrap();
    assert_eq!(h.m, 1);
}

#[test]
fn empty_world_is_missed() {
    let w = World::new();
    let test = table(vec![]);
    assert!(w.hit(&ray(), s(0.001), s(f32::MAX), &test).is_none());
}

#[test]
fn scan_continues_from_what_was_found() {
    let objects = vec![2, 0, 1];
    let test = table(vec![Some(7.0), Some(1.0), Some(3.0)]);
    let (found, bound) = scan(&objects, 0, 2, &ray(), s(0.001), Some(record(5.0, 8)), s(5.0), &test);
    // primitive 2 at 3 undercuts 5, primitive 0 at 7 does not
    assert_eq!(found.unwrap().m, 2);
    assert_eq!(f(bound), 3.0);
    let (same, still) = scan(&objects, 1, 1, &ray(), s(0.001), Some(record(5.0, 8)), s(5.0), &test);
    assert_eq!(same.unwrap().m, 8);
    assert_eq!(f(still), 5.0);
}

#[test]
fn random_direction_of_empty_world_is_the_x_axis() {
    let w = World::new();
    let sample = |_i: usize, _o: Vec3| v(9.0, 9.0, 9.0);
    assert_eq!(arr(w.random(v(0.0, 0.0, 0.0), &sample)), [1.0, 0.0, 0.0]);
}

#[test]
fn random_direction_comes_from_a_primitive() {
    let w = world_of(4);
    let sample = |i: usize, o: Vec3| v(i as f32, f(o.y), 0.0);
    let mut seen = [false; 4];
    for _ in 0..400 {
        let d = w.random(v(0.0, 2.0, 0.0), &sample);
        assert_eq!(f(d.y), 2.0);
        let i = f(d.x) as usize;
        assert!(i < 4);
        seen[i] = true;
    }
    assert!(seen.iter().all(|&b| b));
}

#[test]
fn random_int_stays_in_range() {
    let mut low = false;
    let mut high = false;
    for _ in 0..2000 {
        let r = random_int(3, 6);
        assert!(r >= 3 && r <= 6);
        low |= r == 3;
        high |= r == 6;
    }
    assert!(low && high);
    assert_eq!(random_int(5, 5), 5);
    let any = random_int(0, u32::MAX);
    assert!(any <= u32::MAX);
}

#[test]
fn flipped_record_shows_the_other_side() {
    let h = record(2.0, 5);
    let g = h.flip_face();
    assert!(!g.front_face);
    assert!(g.flip_face().front_face);
    assert_eq!((f(g.t), g.m), (2.0, 5));
    assert_eq!(arr(g.n), arr(h.n));
    assert_eq!(arr(g.p), arr(h.p));
}

#[test]
fn density_of_a_list_is_the_mean_of_its_primitives() {
    let w = world_of(4);
    let density = |i: usize, o: Vec3, d: Vec3| s(i as f32 + f(o.x) + f(d.y));
    let plus = |a: Scalar, b: Scalar| s(f(a) + f(b));
    let over = |sum: Scalar, n: usize| s(f(sum) / n as f32);
    // (0 + 1 + 2 + 3 + 4 * (10 + 0.5)) / 4
    let d = w.pdf_value(v(10.0, 0.0, 0.0), v(0.0, 0.5, 0.0), &density, &plus, &over);
    assert_eq!(f(d), 12.0);
}

#[test]
fn density_of_an_empty_list_is_not_a_number() {
    let w = World::new();
    let density = |_i: usize, _o: Vec3, _d: Vec3| s(1.0);
    let plus = |a: Scalar, b: Scalar| s(f(a) + f(b));
    let over = |sum: Scalar, n: usize| s(f(sum) / n as f32);
    assert!(f(w.pdf_value(v(0.0, 0.0, 0.0), v(0.0, 0.0, 1.0), &density, &plus, &over)).is_nan());
}
