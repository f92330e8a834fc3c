//! Points in time: `std::time::SystemTime` and `chrono`'s local clock.

use vstd::prelude::*;
use std::time::{Duration, SystemTime, UNIX_EPOCH};

verus! {

#[verifier::external_type_specification]
#[verifier::external_body]
pub struct ExSystemTime(SystemTime);

/// Calls `SystemTime::now`; the current time depends on the machine's clock, so
/// nothing is claimed of it.
#[verifier::external_body]
pub(crate) fn system_now() -> SystemTime {
    SystemTime::now()
}

/// Calls `SystemTime::duration_since(UNIX_EPOCH)`: the time elapsed since the
/// Unix epoch, or `None` for a time before it. `SystemTime` and `Duration`
/// are opaque to the verifier, so nothing is claimed of the value.
#[verifier::external_body]
pub(crate) fn since_epoch(t: &SystemTime) -> Option<Duration> {
    t.duration_since(UNIX_EPOCH).ok()
}

/// Calls `Duration::as_secs`: the whole seconds of `d`. `Duration` is opaque
/// to the verifier, so nothing is claimed of the number.
#[verifier::external_body]
pub(crate) fn whole_seconds(d: &Duration) -> u64 {
    d.as_secs()
}

/// The whole seconds from the Unix epoch to `t`, or `None` for a time before it.
pub(crate) fn seconds_since_epoch(t: &SystemTime) -> Option<u64> {
    match since_epoch(t) {
        Some(d) => Some(whole_seconds(&d)),
        None => None,
    }
}

/// The current time in whole seconds since the Unix epoch, or 0 if the clock
/// reads an earlier time.
pub(crate) fn now_seconds() -> u64 {
    match seconds_since_epoch(&system_now()) {
        Some(s) => s,
        None => 0,
    }
}

/// A strftime pattern made of literal characters and the items `%Y` (year),
/// `%m` (month), `%d` (day), `%H` (hour), `%M` (minute) and `%S` (second),
/// all of which `chrono` formats for any local date and time.
pub open spec fn plain_time_format(s: Seq<char>) -> bool
    decreases s.len(),
{
    if s.len() == 0 {
        true
    } else if s[0] == '%' {
        &&& s.len() >= 2
        &&& (s[1] == 'Y' || s[1] == 'm' || s[1] == 'd' || s[1] == 'H' || s[1] == 'M' || s[1] == 'S')
        &&& plain_time_format(s.skip(2))
    } else {
        plain_time_format(s.skip(1))
    }
}

/// Calls `chrono::Local::now().format(format).to_string()`: the current local
/// date and time laid out by `format`. It depends on the clock and the
/// machine's time zone, so nothing is claimed of it; the format is limited to
/// items that always format, so that `to_string` cannot fail.
#[verifier::external_body]
pub(crate) fn local_time_text(format: &str) -> String
    requires
        plain_time_format(format@),
{
    chrono::Local::now().format(format).to_string()
}

} // verus!
