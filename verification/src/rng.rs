//! The random draws that generation is made of.

use rand::seq::IteratorRandom;
use rand::seq::SliceRandom;
use rand::Rng;
use vstd::prelude::*;
use vstd::std_specs::hash::builds_valid_hashers;

verus! {

/// Draws a value of `T` from `rand`'s standard distribution (`Rng::gen`).
/// Nothing is claimed of the value beyond its type.
#[verifier::external_body]
pub(crate) fn random<T>() -> (r: T) where
    rand::distributions::Standard: rand::distributions::Distribution<T>,
 {
    rand::thread_rng().gen::<T>()
}

/// Draws an integer from `[lo, hi)` (`Rng::gen_range`), which panics on an
/// empty range.
#[verifier::external_body]
pub(crate) fn uniform(lo: i128, hi: i128) -> (r: i128)
    requires
        lo < hi,
    ensures
        lo <= r < hi,
{
    rand::thread_rng().gen_range(lo, hi)
}

/// Picks one item of a non-empty slice (`SliceRandom::choose`, which gives
/// nothing only for an empty slice).
#[verifier::external_body]
pub(crate) fn pick<T>(items: &[T]) -> (r: &T)
    requires
        items@.len() > 0,
    ensures
        items@.contains(*r),
{
    items.choose(&mut rand::thread_rng()).unwrap()
}

/// Picks one key of a map that has any (`IteratorRandom::choose` over
/// `HashMap::keys`, which gives nothing only for an empty map).
#[verifier::external_body]
pub(crate) fn pick_key<V, S>(map: &std::collections::HashMap<usize, V, S>) -> (key: usize)
    requires
        builds_valid_hashers::<S>(),
        exists|k: usize| map@.contains_key(k),
    ensures
        map@.contains_key(key),
{
    *map.keys().choose(&mut rand::thread_rng()).unwrap()
}

/// Draws `true` with probability `numerator / denominator`
/// (`Rng::gen_ratio`), which panics where that is no probability. The
/// outcome is certain at both ends.
#[verifier::external_body]
pub(crate) fn random_ratio(numerator: u32, denominator: u32) -> (r: bool)
    requires
        numerator <= denominator,
        denominator > 0,
    ensures
        numerator == denominator ==> r,
        numerator == 0 ==> !r,
{
    rand::thread_rng().gen_ratio(numerator, denominator)
}

/// The letters and digits of ASCII.
pub open spec fn is_alnum(c: char) -> bool {
    ('0' <= c && c <= '9') || ('a' <= c && c <= 'z') || ('A' <= c && c <= 'Z')
}

/// Draws `len` characters from `rand`'s standard distribution
/// (`Rng::sample_iter` over `Standard`) and strings them together.
#[verifier::external_body]
pub(crate) fn random_text(len: usize) -> (s: String)
    ensures
        s@.len() == len,
{
    rand::thread_rng().sample_iter::<char, _>(rand::distributions::Standard).take(len).collect()
}

/// Draws `len` characters from `rand`'s `Alphanumeric` distribution
/// (`Rng::sample_iter`), which yields ASCII letters and digits only, and
/// strings them together.
#[verifier::external_body]
pub(crate) fn random_alnum(len: usize) -> (s: String)
    ensures
        s@.len() == len,
        forall|i: int| 0 <= i < len ==> is_alnum(#[trigger] s@[i]),
{
    rand::thread_rng().sample_iter(rand::distributions::Alphanumeric).take(len).collect()
}

} // verus!
