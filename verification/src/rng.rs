//! The one source of randomness: fresh identifiers for sessions, requests
//! and handles.

use vstd::prelude::*;

verus! {

/// Relies on rand::random, which draws from the thread-local generator.
/// Nothing is assumed of which value comes back: every caller is verified
/// for every possible draw.
#[verifier::external_body]
pub(crate) fn random_u64() -> u64 {
    rand::random::<u64>()
}

} // verus!
