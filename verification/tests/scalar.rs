use raytracer::scalar::Scalar;
use raytracer::vector::Vec3;

fn s(x: f32) -> Scalar {
    Scalar::from_bits(x.to_bits())
}

fn f(x: Scalar) -> f32 {
    f32::from_bits(x.to_bits())
}

fn samples() -> Vec<f32> {
    vec![
        0.0,
        -0.0,
        1.0,
        -1.0,
        0.9,
        0.001,
        -0.001,
        1.5e-45,
        -1.5e-45,
        3.25,
        -3.25,
        1.0e30,
        -1.0e30,
        f32::MAX,
        f32::MIN,
        f32::MIN_POSITIVE,
        f32::INFINITY,
        f32::NEG_INFINITY,
        f32::NAN,
        -f32::NAN,
    ]
}

#[test]
fn bits_round_trip() {
    for x in samples() {
        assert_eq!(s(x).to_bits(), x.to_bits());
    }
}

#[test]
fn comparisons_are_those_of_the_numbers() {
    for a in samples() {
        for b in samples() {
            assert_eq!(s(a).lt(s(b)), a < b, "{} < {}", a, b);
            assert_eq!(s(a).le(s(b)), a <= b, "{} <= {}", a, b);
            assert_eq!(s(a).gt(s(b)), a > b, "{} > {}", a, b);
            assert_eq!(s(a).ge(s(b)), a >= b, "{} >= {}", a, b);
        }
    }
}

#[test]
fn min_and_max_are_those_of_the_numbers() {
    for a in samples() {
        for b in samples() {
            let lo = f(s(a).min(s(b)));
            let hi = f(s(a).max(s(b)));
            if a.is_nan() && b.is_nan() {
                assert!(lo.is_nan() && hi.is_nan());
            } else {
                assert_eq!(lo, a.min(b), "min({}, {})", a, b);
                assert_eq!(hi, a.max(b), "max({}, {})", a, b);
            }
        }
    }
}

#[test]
fn min_keeps_the_first_of_two_equal_numbers() {
    assert_eq!(s(-0.0).min(s(0.0)).to_bits(), (-0.0f32).to_bits());
    assert_eq!(s(0.0).min(s(-0.0)).to_bits(), 0.0f32.to_bits());
    assert_eq!(s(-0.0).max(s(0.0)).to_bits(), (-0.0f32).to_bits());
}

#[test]
fn not_a_number_yields_to_the_other() {
    assert_eq!(f(s(f32::NAN).min(s(2.0))), 2.0);
    assert_eq!(f(s(2.0).min(s(f32::NAN))), 2.0);
    assert_eq!(f(s(f32::NAN).max(s(-2.0))), -2.0);
    assert_eq!(f(s(-2.0).max(s(f32::NAN))), -2.0);
}

#[test]
fn nan_is_recognised() {
    for a in samples() {
        assert_eq!(s(a).nan(), a.is_nan());
    }
}

#[test]
fn neg_and_abs_are_exact() {
    for a in samples() {
        assert_eq!(s(a).neg().to_bits(), (-a).to_bits());
        assert_eq!(s(a).abs().to_bits(), a.abs().to_bits());
    }
}

#[test]
fn sort_key_orders_as_the_numbers_and_files_nan_last() {
    for a in samples() {
        for b in samples() {
            if !a.is_nan() && !b.is_nan() {
                assert_eq!(s(a).sort_key() < s(b).sort_key(), a < b);
                assert_eq!(s(a).sort_key() == s(b).sort_key(), a == b);
            }
        }
        if !a.is_nan() {
            assert!(s(a).sort_key() < s(f32::NAN).sort_key());
        }
    }
    assert_eq!(s(f32::NAN).sort_key(), 0x8000_0000);
    assert_eq!(s(1.0).sort_key(), 0x3f80_0000);
    assert_eq!(s(-1.0).sort_key(), -0x3f80_0000);
    assert_eq!(s(f32::INFINITY).sort_key(), 0x7f80_0000);
}

#[test]
fn constants_are_the_numbers_they_name() {
    assert_eq!(f(Scalar::zero()), 0.0);
    assert_eq!(f(Scalar::one()), 1.0);
    assert_eq!(f(Scalar::infinity()), f32::INFINITY);
    assert_eq!(f(Scalar::neg_infinity()), f32::NEG_INFINITY);
    assert_eq!(raytracer::ray::NEAREST_HIT_BITS, 0.001f32.to_bits());
    assert_eq!(raytracer::ray::FARTHEST_HIT_BITS, f32::MAX.to_bits());
    assert_eq!(raytracer::pdf::NEARLY_PARALLEL_BITS, 0.9f32.to_bits());
}

#[test]
fn vector_basics() {
    let v = Vec3::new(s(1.0), s(-2.0), s(0.0));
    assert_eq!(f(v.get(0)), 1.0);
    assert_eq!(f(v.get(1)), -2.0);
    assert_eq!(f(v.get(2)), 0.0);
    let n = v.neg();
    assert_eq!(f(n.x), -1.0);
    assert_eq!(f(n.y), 2.0);
    assert_eq!(n.z.to_bits(), (-0.0f32).to_bits());
    assert!(!v.has_nan());
    assert!(Vec3::new(s(1.0), s(f32::NAN), s(0.0)).has_nan());
    let z = Vec3::zeros();
    assert_eq!((z.x.to_bits(), z.y.to_bits(), z.z.to_bits()), (0, 0, 0));
    let o = Vec3::ones();
    assert_eq!((f(o.x), f(o.y), f(o.z)), (1.0, 1.0, 1.0));
    let x = Vec3::unit_x();
    assert_eq!((f(x.x), f(x.y), f(x.z)), (1.0, 0.0, 0.0));
    let y = Vec3::unit_y();
    assert_eq!((f(y.x), f(y.y), f(y.z)), (0.0, 1.0, 0.0));
    let zz = Vec3::unit_z();
    assert_eq!((f(zz.x), f(zz.y), f(zz.z)), (0.0, 0.0, 1.0));
}
