//! Random bytes, from the `rand` crate.

use vstd::prelude::*;
use rand::Rng;

verus! {

/// `rand::rngs::ThreadRng`, carried as an opaque handle.
#[verifier::external_type_specification]
#[verifier::external_body]
pub struct ExThreadRng(rand::rngs::ThreadRng);

/// `rand::thread_rng`: a handle to the generator of the current thread,
/// which the system seeds on first use. Nothing is claimed of it. It panics
/// only where the system has no entropy to seed it with.
#[verifier::external_body]
pub(crate) fn thread_rng() -> rand::rngs::ThreadRng {
    rand::thread_rng()
}

/// `rand::Rng::gen` for a byte: the next draw from `rng`. Any byte may come
/// out, so nothing is claimed of the result. The generator seeds itself anew
/// after every 64 KiB it has given out, and the call panics where the system
/// then has no entropy for it.
#[verifier::external_body]
pub(crate) fn next_byte(rng: &mut rand::rngs::ThreadRng) -> u8 {
    rng.gen()
}

} // verus!
