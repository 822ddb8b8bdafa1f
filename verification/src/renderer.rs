//! The estimate for one pixel: the mean of the samples that are numbers.
use crate::vector::Vec3;
use vstd::prelude::*;

verus! {

/// Whether `sum` and `count` may come out of the first `n` samples: a sample
/// with a component that is not a number is left out, and every other one is
/// added to the sum and counted.
pub open spec fn gathered<F: Fn(u16) -> Vec3, A: Fn(Vec3, Vec3) -> Vec3>(
    n: nat,
    estimate: &F,
    plus: &A,
    sum: Vec3,
    count: nat,
) -> bool
    decreases n,
{
    if n == 0 {
        sum == Vec3::spec_zeros() && count == 0
    } else {
        exists|sample: Vec3| #[trigger]
            estimate.ensures(((n - 1) as u16,), sample) && if sample@.is_real() {
                count >= 1 && exists|before: Vec3|
                    gathered((n - 1) as nat, estimate, plus, before, (count - 1) as nat) && #[trigger] plus.ensures(
                        (before, sample),
                        sum,
                    )
            } else {
                gathered((n - 1) as nat, estimate, plus, sum, count)
            }
    }
}

/// The colour of a pixel from `samples_per_pixel` samples.
///
/// `estimate(k)` is asked for sample `k`, `plus` for the sum of two colours
/// and `average(sum, count)` for the sum over the count. Samples with a
/// component that is not a number are discarded; the count is that of the
/// samples kept, and 1 if none was kept.
pub fn get_pixel_color<F: Fn(u16) -> Vec3, A: Fn(Vec3, Vec3) -> Vec3, D: Fn(Vec3, u16) -> Vec3>(
    samples_per_pixel: u16,
    estimate: &F,
    plus: &A,
    average: &D,
) -> (pixel: Vec3)
    requires
        forall|k: u16| #[trigger] estimate.requires((k,)),
        forall|a: Vec3, b: Vec3| #[trigger] plus.requires((a, b)),
        forall|s: Vec3, n: u16| #[trigger] average.requires((s, n)),
    ensures
        exists|sum: Vec3, count: nat|
            #![trigger gathered(samples_per_pixel as nat, estimate, plus, sum, count)]
            gathered(samples_per_pixel as nat, estimate, plus, sum, count) && count <= samples_per_pixel
                && average.ensures(
                (sum, if count == 0 {
                    1u16
                } else {
                    count as u16
                }),
                pixel,
            ),
{
    let mut color = Vec3::zeros();
    let mut kept: u16 = 0;
    let mut k: u16 = 0;
    while k < samples_per_pixel
        invariant
            k <= samples_per_pixel,
            kept <= k,
            forall|i: u16| #[trigger] estimate.requires((i,)),
            forall|a: Vec3, b: Vec3| #[trigger] plus.requires((a, b)),
            gathered(k as nat, estimate, plus, color, kept as nat),
        decreases samples_per_pixel - k,
    {
        let sample = estimate(k);
        let ghost before = color;
        if !sample.has_nan() {
            color = plus(color, sample);
            kept += 1;
        }
        k += 1;
        proof {
            assert(estimate.ensures(((k - 1) as u16,), sample));
            if sample@.is_real() {
                assert(plus.ensures((before, sample), color));
                assert(gathered((k - 1) as nat, estimate, plus, before, (kept - 1) as nat));
            } else {
                assert(gathered((k - 1) as nat, estimate, plus, before, kept as nat));
            }
            assert(gathered(k as nat, estimate, plus, color, kept as nat));
        }
    }
    let count: u16 = if kept == 0 {
        1
    } else {
        kept
    };
    average(color, count)
}

} // verus!
