//! The engine's source of chance: thin calls into the `rand` crate.
//!
//! Nothing in the library depends on which values come back, beyond the
//! ranges stated here.

use vstd::prelude::*;

verus! {

/// `rand::random::<u32>()`: some 32-bit word; nothing is promised of its value.
#[verifier::external_body]
pub(crate) fn random_u32() -> (r: u32) {
    rand::random::<u32>()
}

/// `Rng::gen_range` on the thread's generator, over the inclusive range
/// `low..=high`. The crate documents that the value lies in the range and that
/// the call panics on an empty one, which `requires` leaves out.
#[verifier::external_body]
pub(crate) fn random_between(low: i64, high: i64) -> (r: i64)
    requires
        low <= high,
    ensures
        low <= r <= high,
{
    rand::Rng::gen_range(&mut rand::thread_rng(), low..=high)
}

/// Some 16-bit word: the low half of a random 32-bit word.
pub(crate) fn random_u16() -> (r: u16) {
    (random_u32() % 0x1_0000) as u16
}

/// Some byte: the low byte of a random 32-bit word.
pub(crate) fn random_u8() -> (r: u8) {
    (random_u32() % 0x100) as u8
}

} // verus!
