use vstd::prelude::*;
use rand::Rng;

verus! {

/// A number drawn uniformly from `low..high` by the thread-local generator
/// of the `rand` crate (`thread_rng().gen_range(low..high)`). Its contract
/// claims only that the number lies in that range; `gen_range` panics on an
/// empty range, which `requires` rules out.
#[verifier::external_body]
pub(crate) fn random_in_range(low: i32, high: i32) -> (r: i32)
    requires
        low < high,
    ensures
        low <= r < high,
{
    rand::thread_rng().gen_range(low..high)
}

/// A `u32` drawn by `rand::random`. Nothing is claimed of its value.
#[verifier::external_body]
pub(crate) fn random_u32() -> u32 {
    rand::random::<u32>()
}

/// An `i64` drawn by `rand::random`. Nothing is claimed of its value.
#[verifier::external_body]
pub(crate) fn random_i64() -> i64 {
    rand::random::<i64>()
}

} // verus!
