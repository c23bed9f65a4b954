use vstd::prelude::*;

verus! {

/// Relies on `rand::thread_rng` and `Rng::gen::<u64>`: a fresh random
/// 64-bit value from the thread-local generator. Nothing is known of the
/// value, so nothing is promised of it.
#[verifier::external_body]
pub(crate) fn fresh_secret() -> (r: u64) {
    rand::Rng::gen::<u64>(&mut rand::thread_rng())
}

} // verus!
