//! The random choices of a test, drawn from the generator of the `rand` crate.

use vstd::prelude::*;
use rand::rngs::ThreadRng;
use rand::Rng;
use rand::seq::IndexedRandom;

verus! {

/// The thread-local generator of `rand`.
#[verifier::external_type_specification]
#[verifier::external_body]
pub struct ExThreadRng(ThreadRng);

/// `rand::rng`: a handle on the generator of the current thread. Nothing is
/// stated of it.
#[verifier::external_body]
pub(crate) fn thread_rng() -> ThreadRng {
    rand::rng()
}

/// `Rng::random_ratio`: `true` with probability `numerator / denominator`.
/// As its documentation says, the result is always `false` when the numerator
/// is zero and always `true` when it equals the denominator; it panics when the
/// denominator is zero or smaller than the numerator, which `requires` rules out.
/// Which value comes otherwise is left open.
#[verifier::external_body]
pub(crate) fn random_ratio(rng: &mut ThreadRng, numerator: u32, denominator: u32) -> (r: bool)
    requires
        0 < denominator,
        numerator <= denominator,
    ensures
        numerator == 0 ==> !r,
        numerator == denominator ==> r,
{
    rng.random_ratio(numerator, denominator)
}

/// `Rng::random_range` over `0..bound`: a number below `bound`, which must not
/// be zero (an empty range panics). Which number comes is left open.
#[verifier::external_body]
pub(crate) fn random_below(rng: &mut ThreadRng, bound: u32) -> (r: u32)
    requires
        0 < bound,
    ensures
        r < bound,
{
    rng.random_range(0..bound)
}

/// `IndexedRandom::choose`: one element of the slice, or `None` when it is
/// empty. Which element comes is left open.
#[verifier::external_body]
pub(crate) fn choose_item<'a, T>(items: &'a [T], rng: &mut ThreadRng) -> (r: Option<&'a T>)
    ensures
        r is None <==> items@.len() == 0,
        r matches Some(w) ==> exists|i: int| 0 <= i < items@.len() && items@[i] == *w,
{
    items.choose(rng)
}

} // verus!
