//! The time of day, as the documents record it.

use vstd::prelude::*;

verus! {

/// `chrono::Utc::now` followed by `timestamp`: the seconds that have passed
/// since the start of 1970, by the system clock.  Nothing is said about the
/// number.  The call ends the program where the clock is set before 1970.
#[verifier::external_body]
pub(crate) fn current_timestamp() -> i64 {
    chrono::Utc::now().timestamp()
}

} // verus!
