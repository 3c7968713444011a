//! Small shared helpers.

use vstd::prelude::*;

verus! {

/// Current wall-clock time in whole seconds since the Unix epoch;
/// zero when the clock reads before the epoch.
pub fn now() -> u64 {
    match crate::time::clock_unix_seconds() {
        None => 0,
        Some(d) => d,
    }
}

} // verus!
