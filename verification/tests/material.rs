use raytracer::material::{clamp_cosine, Dielectric, DiffuseLight, Isotropic, Lambertian, Metal, ScatterRecord};
use raytracer::pdf::{Onb, Pdf};
use raytracer::ray::Ray;
use raytracer::scalar::Scalar;
use raytracer::vector::Vec3;

fn s(x: f32) -> Scalar {
    Scalar::from_bits(x.to_bits())
}

fn f(x: Scalar) -> f32 {
    f32::from_bits(x.to_bits())
}

fn v(x: f32, y: f32, z: f32) -> Vec3 {
    Vec3::new(s(x), s(y), s(z))
}

fn arr(p: Vec3) -> [f32; 3] {
    [f(p.x), f(p.y), f(p.z)]
}

fn ray(o: [f32; 3], d: [f32; 3]) -> Ray {
    let len = (d[0] * d[0] + d[1] * d[1] + d[2] * d[2]).sqrt();
    Ray::new(
        v(o[0], o[1], o[2]),
        v(d[0], d[1], d[2]),
        v(d[0] / len, d[1] / len, d[2] / len),
        v(1.0 / d[0], 1.0 / d[1], 1.0 / d[2]),
    )
}

fn over_pi(c: Scalar) -> Scalar {
    s(f(c) / std::f32::consts::PI)
}

#[test]
fn cosine_is_clamped_at_zero() {
    assert_eq!(f(clamp_cosine(s(0.5))), 0.5);
    assert_eq!(f(clamp_cosine(s(1.0))), 1.0);
    assert_eq!(f(clamp_cosine(s(-0.5))), 0.0);
    assert_eq!(f(clamp_cosine(s(f32::NAN))), 0.0);
    assert_eq!(f(clamp_cosine(s(0.0))), 0.0);
}

#[test]
fn lambertian_always_scatters_with_cosine_density() {
    let m = Lambertian::new(4);
    assert_eq!(m.albedo, 4);
    let uvw = Onb::new(v(1.0, 0.0, 0.0), v(0.0, 1.0, 0.0), v(0.0, 0.0, 1.0));
    match m.scatter(v(0.5, 0.6, 0.7), uvw) {
        Some(ScatterRecord::Scatter { attenuation, pdf: Pdf::Cosine { uvw } }) => {
            assert_eq!(arr(attenuation), [0.5, 0.6, 0.7]);
            assert_eq!(arr(uvw.w), [0.0, 0.0, 1.0]);
            assert_eq!(arr(uvw.u), [1.0, 0.0, 0.0]);
        }
        _ => panic!("a diffuse surface scatters diffusely"),
    }
}

#[test]
fn lambertian_density_at_normal_incidence_is_one_over_pi() {
    let m = Lambertian::new(0);
    assert_eq!(f(m.scattering_pdf(s(1.0), &over_pi)), 1.0 / std::f32::consts::PI);
}

#[test]
fn lambertian_density_below_the_surface_is_zero() {
    let m = Lambertian::new(0);
    assert_eq!(f(m.scattering_pdf(s(-0.3), &over_pi)), 0.0);
    assert_eq!(f(m.scattering_pdf(s(0.5), &over_pi)), 0.5 / std::f32::consts::PI);
}

#[test]
fn metal_scatters_specularly() {
    let m = Metal::new(2, s(0.25));
    assert_eq!((m.albedo, f(m.fuzz)), (2, 0.25));
    let r = ray([1.0, 2.0, 3.0], [0.0, 1.0, 0.0]);
    match m.scatter(v(0.8, 0.6, 0.2), r) {
        Some(ScatterRecord::Specular { attenuation, specular_ray }) => {
            assert_eq!(arr(attenuation), [0.8, 0.6, 0.2]);
            assert_eq!(arr(specular_ray.ori), [1.0, 2.0, 3.0]);
            assert_eq!(arr(specular_ray.dir), [0.0, 1.0, 0.0]);
        }
        _ => panic!("a mirror scatters specularly"),
    }
}

#[test]
fn dielectric_ratio_depends_on_the_side() {
    let m = Dielectric::new(s(1.5));
    assert_eq!(f(m.refraction_index), 1.5);
    assert_eq!(f(m.refraction_ratio(true, s(1.0 / 1.5))), 1.0 / 1.5);
    assert_eq!(f(m.refraction_ratio(false, s(1.0 / 1.5))), 1.5);
}

#[test]
fn dielectric_reflects_when_it_cannot_refract() {
    assert!(Dielectric::reflects(s(1.2), s(0.0), s(0.99)));
    assert!(!Dielectric::reflects(s(1.0), s(0.0), s(0.99)));
    assert!(!Dielectric::reflects(s(0.7), s(0.1), s(0.5)));
}

#[test]
fn dielectric_reflects_when_the_draw_falls_under_the_reflectance() {
    assert!(Dielectric::reflects(s(0.7), s(0.6), s(0.5)));
    assert!(!Dielectric::reflects(s(0.7), s(0.5), s(0.5)));
    assert!(!Dielectric::reflects(s(0.7), s(0.0), s(0.0)));
}

#[test]
fn dielectric_absorbs_nothing() {
    let m = Dielectric::new(s(1.5));
    let r = ray([0.0, 0.0, 0.0], [0.0, 0.0, -1.0]);
    match m.scatter(r) {
        Some(ScatterRecord::Specular { attenuation, specular_ray }) => {
            assert_eq!(arr(attenuation), [1.0, 1.0, 1.0]);
            assert_eq!(arr(specular_ray.dir), [0.0, 0.0, -1.0]);
        }
        _ => panic!("a clear material scatters specularly"),
    }
}

#[test]
fn dielectric_index_matched_is_a_no_op() {
    // an index of 1 gives the ratio 1 on both sides; at normal incidence
    // the reflectance is 0 and no draw falls under it, so the ray is
    // refracted, and refraction with ratio 1 leaves the direction alone
    let m = Dielectric::new(s(1.0));
    for front in [true, false] {
        let ratio = f(m.refraction_ratio(front, s(1.0 / 1.0)));
        assert_eq!(ratio, 1.0);
        let unit = [0.0f32, 0.0, -1.0];
        let n = [0.0f32, 0.0, 1.0];
        let cos_theta = -(unit[0] * n[0] + unit[1] * n[1] + unit[2] * n[2]);
        let sin_theta = f32::max(1.0 - cos_theta * cos_theta, 0.0).sqrt();
        let r0 = ((1.0 - ratio) / (1.0 + ratio)).powi(2);
        let reflectance = r0 + (1.0 - r0) * (1.0 - cos_theta).powi(5);
        for drawn in [0.0f32, 0.3, 0.999] {
            assert!(!Dielectric::reflects(s(ratio * sin_theta), s(reflectance), s(drawn)));
        }
        let perp = [
            ratio * (unit[0] + cos_theta * n[0]),
            ratio * (unit[1] + cos_theta * n[1]),
            ratio * (unit[2] + cos_theta * n[2]),
        ];
        let len2 = perp[0] * perp[0] + perp[1] * perp[1] + perp[2] * perp[2];
        let k = (1.0 - len2).abs().sqrt();
        let out = [perp[0] - n[0] * k, perp[1] - n[1] * k, perp[2] - n[2] * k];
        assert_eq!(out, unit);
    }
}

#[test]
fn light_emits_to_the_front_only() {
    let m = DiffuseLight::new(3);
    let texture = |t: usize| v(t as f32, 7.0, 7.0);
    assert_eq!(arr(m.emitted(true, &texture)), [3.0, 7.0, 7.0]);
    let dark = m.emitted(false, &texture);
    assert_eq!((dark.x.to_bits(), dark.y.to_bits(), dark.z.to_bits()), (0, 0, 0));
    assert!(m.scatter().is_none());
}

#[test]
fn isotropic_scatters_inside_the_medium() {
    let m = Isotropic::new(1);
    assert_eq!(m.albedo, 1);
    let r = ray([1.0, 2.0, 3.0], [0.3, 0.4, 0.5]);
    match m.scatter(v(0.9, 0.9, 0.9), r) {
        Some(ScatterRecord::Isotropic { attenuation, scattered_ray }) => {
            assert_eq!(arr(attenuation), [0.9, 0.9, 0.9]);
            assert_eq!(arr(scattered_ray.dir), [0.3, 0.4, 0.5]);
        }
        _ => panic!("a medium scatters evenly"),
    }
}
