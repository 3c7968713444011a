//! Wall-clock time as whole seconds since the Unix epoch.

use vstd::prelude::*;

verus! {

/// Seconds since the Unix epoch. Reading the clock is inherently
/// nondeterministic, so nothing relates two reads; all record logic
/// takes timestamps as plain values.
#[derive(Clone, Copy, Debug, PartialEq, Eq, Structural)]
pub struct UnixTimestamp(u64);

/// Relies on std's SystemTime for the wall clock: seconds of the
/// duration from the Unix epoch to now, or nothing when the clock
/// reads before the epoch. No two calls are related.
#[verifier::external_body]
pub(crate) fn clock_unix_seconds() -> (r: Option<u64>)
{
    let d = std::time::SystemTime::now().duration_since(std::time::UNIX_EPOCH).ok()?;
    Some(d.as_secs())
}

impl UnixTimestamp {
    /// Current wall-clock time, or nothing when the clock reads
    /// before the epoch.
    pub fn now() -> (r: Option<UnixTimestamp>)
    {
        match clock_unix_seconds() {
            Some(s) => Some(UnixTimestamp::from_seconds(s)),
            None => None,
        }
    }

    pub fn from_seconds(s: u64) -> (t: UnixTimestamp)
        ensures
            t.spec_seconds() == s,
    {
        UnixTimestamp(s)
    }

    pub closed spec fn spec_seconds(self) -> u64 {
        self.0
    }

    pub fn seconds(&self) -> (s: u64)
        ensures
            s == self.spec_seconds(),
    {
        self.0
    }
}

} // verus!
