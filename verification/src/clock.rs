//! The wall clock, read only to stamp outgoing events.

use vstd::prelude::*;

verus! {

/// Relies on std::time::SystemTime::now (read through duration_since and
/// as_secs): the wall clock as whole seconds since the Unix epoch, or 0 for a
/// clock set before the epoch. Nothing is promised of the value.
#[verifier::external_body]
pub(crate) fn now_unix_secs() -> u64 {
    match std::time::SystemTime::now().duration_since(std::time::UNIX_EPOCH) {
        Ok(d) => d.as_secs(),
        Err(_) => 0,
    }
}

} // verus!
