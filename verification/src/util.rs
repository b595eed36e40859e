pub mod png;

use vstd::prelude::*;

verus! {

/// Whole hours contained in `secs` seconds.
pub fn to_rem_hours(secs: u16) -> (hours: u16)
    ensures
        hours == secs / 3600,
{
    secs / 60 / 60
}

/// Minutes left over after removing whole hours from `secs` seconds.
pub fn to_rem_min(secs: u16) -> (minutes: u16)
    ensures
        minutes == (secs / 60) % 60,
{
    secs / 60 % 60
}

/// Seconds left over after removing whole minutes from `secs` seconds.
pub fn to_rem_sec(secs: u16) -> (seconds: u16)
    ensures
        seconds == secs % 60,
{
    secs % 60
}

/// A number of seconds is recovered from its hours, minutes and seconds:
/// `to_rem_hours(s) * 3600 + to_rem_min(s) * 60 + to_rem_sec(s) == s`, where
/// minutes and seconds stay below 60 and hours never exceed 18 (a `u16`
/// holds at most 65535 seconds).
pub proof fn lemma_time_parts_recompose(secs: u16)
    ensures
        (secs / 3600) * 3600 + ((secs / 60) % 60) * 60 + secs % 60 == secs,
        (secs / 60) % 60 < 60,
        secs % 60 < 60,
        secs / 3600 <= 18,
{
    let s = secs as int;
    assert(s == 60 * (s / 60) + s % 60) by (nonlinear_arith);
    assert(s / 60 == 60 * ((s / 60) / 60) + (s / 60) % 60) by (nonlinear_arith);
    assert((s / 60) / 60 == s / 3600) by (nonlinear_arith)
        requires s >= 0;
    assert(s / 3600 <= 18) by (nonlinear_arith)
        requires 0 <= s <= 65535;
}

} // verus!
