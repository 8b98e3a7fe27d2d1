//! The one place where the crate reads the wall clock.

use vstd::prelude::*;

verus! {

/// Relies on chrono::Utc::now: the current time as seconds since the Unix
/// epoch. Nothing is assumed of the value returned.
#[verifier::external_body]
pub(crate) fn now_epoch_seconds() -> i64 {
    chrono::Utc::now().timestamp()
}

} // verus!
