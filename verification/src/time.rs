use vstd::prelude::*;
use std::time::Duration;

verus! {

/// The number of nanoseconds that a `Duration` holds, as `Duration::as_nanos`
/// reports it.
pub uninterp spec fn nanos_of(d: Duration) -> u128;

/// Calls `Duration::from_secs`; its documentation says that the result is
/// `secs` whole seconds, which is `secs * 10^9` nanoseconds.
#[verifier::external_body]
pub(crate) fn duration_from_secs(secs: u64) -> (d: Duration)
    ensures
        nanos_of(d) == secs * 1_000_000_000,
{
    Duration::from_secs(secs)
}

/// Calls `Duration::from_millis`; its documentation says that the result is
/// `millis` milliseconds, which is `millis * 10^6` nanoseconds.
#[verifier::external_body]
pub(crate) fn duration_from_millis(millis: u64) -> (d: Duration)
    ensures
        nanos_of(d) == millis * 1_000_000,
{
    Duration::from_millis(millis)
}

/// Calls `Duration::as_nanos`, whose result the name `nanos_of` stands for.
#[verifier::external_body]
pub(crate) fn duration_as_nanos(d: Duration) -> (n: u128)
    ensures
        n == nanos_of(d),
{
    d.as_nanos()
}

} // verus!
