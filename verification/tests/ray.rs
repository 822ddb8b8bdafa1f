use raytracer::hit::HitRecord;
use raytracer::material::ScatterRecord;
use raytracer::pdf::{Onb, Pdf};
use raytracer::ray::{Ray, Sample};
use raytracer::scalar::Scalar;
use raytracer::vector::Vec3;

fn s(x: f32) -> Scalar {
    Scalar::from_bits(x.to_bits())
}

fn f(x: Scalar) -> f32 {
    f32::from_bits(x.to_bits())
}

fn v(x: f32, y: f32, z: f32) -> Vec3 {
    Vec3::new(s(x), s(y), s(z))
}

fn arr(p: Vec3) -> [f32; 3] {
    [f(p.x), f(p.y), f(p.z)]
}

fn ray(o: [f32; 3], d: [f32; 3]) -> Ray {
    let len = (d[0] * d[0] + d[1] * d[1] + d[2] * d[2]).sqrt();
    Ray::new(
        v(o[0], o[1], o[2]),
        v(d[0], d[1], d[2]),
        v(d[0] / len, d[1] / len, d[2] / len),
        v(1.0 / d[0], 1.0 / d[1], 1.0 / d[2]),
    )
}

fn record(m: usize) -> HitRecord {
    HitRecord { p: v(0.0, 0.0, -1.0), n: v(0.0, 0.0, 1.0), t: s(1.0), u: s(0.0), v: s(0.0), m, front_face: true }
}

// a scene in which every ray hits a surface of the material that its x
// origin names; a material of 0 stands for a miss
fn trace(r: Ray, t_min: Scalar, t_max: Scalar) -> Option<HitRecord> {
    assert_eq!(f(t_min), 0.001);
    assert_eq!(f(t_max), f32::MAX);
    let m = f(r.ori.x) as usize;
    if m == 0 {
        None
    } else {
        Some(record(m))
    }
}

fn emitted(h: HitRecord) -> Vec3 {
    if h.m == 1 {
        v(4.0, 4.0, 4.0)
    } else {
        v(0.25, 0.25, 0.25)
    }
}

// material 1: a light; 2: a mirror towards a light; 3: a mirror towards
// itself; 4: a medium towards a light; 5: a diffuse surface towards a
// light; 6: a mirror towards a miss
fn scatter(_r: Ray, h: HitRecord) -> Option<ScatterRecord> {
    let half = v(0.5, 0.5, 0.5);
    match h.m {
        2 => Some(ScatterRecord::Specular { attenuation: half, specular_ray: ray([1.0, 0.0, 0.0], [0.0, 1.0, 0.0]) }),
        3 => Some(ScatterRecord::Specular { attenuation: half, specular_ray: ray([3.0, 0.0, 0.0], [0.0, 1.0, 0.0]) }),
        4 => Some(ScatterRecord::Isotropic { attenuation: half, scattered_ray: ray([1.0, 0.0, 0.0], [0.0, 1.0, 0.0]) }),
        5 => Some(ScatterRecord::Scatter {
            attenuation: half,
            pdf: Pdf::cosine_pdf(Onb::new(v(1.0, 0.0, 0.0), v(0.0, 1.0, 0.0), v(0.0, 0.0, 1.0))),
        }),
        6 => Some(ScatterRecord::Specular { attenuation: half, specular_ray: ray([0.0, 0.0, 0.0], [0.0, 1.0, 0.0]) }),
        _ => None,
    }
}

fn sample(h: HitRecord, pdf: Pdf) -> Sample {
    // the integrator hands over the mixture of the lights and the material's own strategy
    match pdf {
        Pdf::Mixture { p, q } => {
            match *p {
                Pdf::Hittable { origin, hittable } => {
                    assert_eq!(hittable, 77);
                    assert_eq!(arr(origin), arr(h.p));
                }
                _ => panic!("the first part samples the lights"),
            }
            assert!(matches!(*q, Pdf::Cosine { .. }));
        }
        _ => panic!("not a mixture"),
    }
    Sample { scattered: ray([1.0, 0.0, 0.0], [0.0, 1.0, 0.0]), pdf_value: s(0.5), scattering_pdf: s(0.125) }
}

fn combine(own: Option<Vec3>, attenuation: Vec3, incoming: Vec3, densities: Option<(Scalar, Scalar)>) -> Vec3 {
    let a = arr(attenuation);
    let i = arr(incoming);
    let mut out = [a[0] * i[0], a[1] * i[1], a[2] * i[2]];
    if let Some((scattering, drawn)) = densities {
        for k in 0..3 {
            out[k] = out[k] * f(scattering) / f(drawn);
        }
    }
    if let Some(e) = own {
        let e = arr(e);
        for k in 0..3 {
            out[k] += e[k];
        }
    }
    v(out[0], out[1], out[2])
}

fn color(from: usize, depth: u8) -> [f32; 3] {
    let background = v(0.1, 0.2, 0.3);
    let r = ray([from as f32, 0.0, 0.0], [0.0, 0.0, -1.0]);
    arr(r.color(&background, 77, depth, &trace, &emitted, &scatter, &sample, &combine))
}

#[test]
fn new_ray_takes_the_signs_of_its_direction() {
    let r = ray([1.0, 2.0, 3.0], [1.0, -2.0, 0.0]);
    assert_eq!((r.sign_x, r.sign_y, r.sign_z), (0, 1, 0));
    let n = ray([1.0, 2.0, 3.0], [-1.0, 2.0, -0.5]);
    assert_eq!((n.sign_x, n.sign_y, n.sign_z), (1, 0, 1));
    let z = ray([0.0, 0.0, 0.0], [-0.0, f32::NAN, 1.0]);
    assert_eq!((z.sign_x, z.sign_y, z.sign_z), (0, 0, 0));
    assert_eq!(arr(r.ori), [1.0, 2.0, 3.0]);
    assert_eq!(arr(r.dir), [1.0, -2.0, 0.0]);
    assert_eq!(f(r.inv_dir.y), -0.5);
}

#[test]
fn no_bounce_left_is_black() {
    for from in 0..7 {
        let c = color(from, 0);
        assert_eq!(c, [0.0, 0.0, 0.0]);
    }
}

#[test]
fn a_miss_is_the_background_at_any_depth() {
    for depth in 1..=50 {
        assert_eq!(color(0, depth), [0.1, 0.2, 0.3]);
    }
    assert_eq!(color(0, 255), [0.1, 0.2, 0.3]);
}

#[test]
fn a_surface_that_does_not_scatter_shows_its_emission() {
    assert_eq!(color(1, 1), [4.0, 4.0, 4.0]);
    assert_eq!(color(1, 50), [4.0, 4.0, 4.0]);
}

#[test]
fn a_specular_bounce_takes_what_comes_in_alone() {
    assert_eq!(color(2, 2), [2.0, 2.0, 2.0]);
    // with one bounce the light behind the mirror is out of reach
    assert_eq!(color(2, 1), [0.0, 0.0, 0.0]);
    assert_eq!(color(6, 2), [0.05, 0.1, 0.15]);
}

#[test]
fn a_bounce_inside_a_medium_adds_the_emission() {
    assert_eq!(color(4, 2), [2.25, 2.25, 2.25]);
    assert_eq!(color(4, 1), [0.25, 0.25, 0.25]);
}

#[test]
fn a_diffuse_bounce_weighs_by_the_densities() {
    // 0.25 + 0.5 * 4 * 0.125 / 0.5
    assert_eq!(color(5, 2), [0.75, 0.75, 0.75]);
    assert_eq!(color(5, 1), [0.25, 0.25, 0.25]);
}

#[test]
fn depth_bounds_the_bounces() {
    // a mirror that faces itself halves nothing for ever: after ten
    // bounces the budget is used up
    assert_eq!(color(3, 10), [0.0, 0.0, 0.0]);
    assert_eq!(color(3, 255), [0.0, 0.0, 0.0]);
}
