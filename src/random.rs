use vstd::prelude::*;

verus! {

/// The session's random number generator, seeded once by its owner.
#[verifier::external_type_specification]
#[verifier::external_body]
pub struct ExStdRng(rand::rngs::StdRng);

/// Relies on rand's `Bernoulli::from_ratio(num, den)` and its `sample`: a
/// coin that shows `true` with probability `num / den`. A numerator of zero
/// never gives `true`; a numerator equal to the denominator always does.
#[verifier::external_body]
pub(crate) fn toss(rng: &mut rand::rngs::StdRng, num: u32, den: u32) -> (r: bool)
    requires
        0 < den,
        num <= den,
    ensures
        num == 0 ==> !r,
        num == den ==> r,
{
    match rand::distributions::Bernoulli::from_ratio(num, den) {
        Ok(coin) => rand::distributions::Distribution::sample(&coin, rng),
        Err(_) => false,
    }
}

/// Relies on rand's `Rng::gen_range(lo..hi)`: a value drawn uniformly from
/// the half-open range, which must not be empty.
#[verifier::external_body]
pub(crate) fn draw_between(rng: &mut rand::rngs::StdRng, lo: i64, hi: i64) -> (r: i64)
    requires
        lo < hi,
    ensures
        lo <= r < hi,
{
    rand::Rng::gen_range(rng, lo..hi)
}

} // verus!
