//! The wall clock, read once wherever a default timestamp is needed.

use vstd::prelude::*;

verus! {

/// Relies on std::time::SystemTime::now and duration_since: the seconds since
/// the Unix epoch at the time of the call; nothing is promised of the value.
#[verifier::external_body]
pub fn now_secs() -> u64 {
    match std::time::SystemTime::now().duration_since(std::time::SystemTime::UNIX_EPOCH) {
        Ok(d) => d.as_secs(),
        Err(_) => 0,
    }
}

} // verus!
