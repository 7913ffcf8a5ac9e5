//! Readings of the system clock, and the local date of a moment. What the
//! clock reads depends on the moment of the call, so nothing is claimed of
//! its value.

use vstd::prelude::*;

use crate::config::is_digit;

verus! {

/// The last second (2 days before the end of year 9999, UTC) up to which the
/// local date, at most a day away from the UTC date, has a four-digit year.
pub const LAST_DATED_SECS: u64 = 253402128000;

/// The last second (2 days before the end of year 262142, UTC, the last date
/// chrono represents) whose local date is read; later clock readings are
/// outside chrono's range.
pub const LAST_CLOCK_SECS: u64 = 8210266703999;

/// A date as `YYYYMMDD`: eight decimal digits.
pub open spec fn is_date_text(s: Seq<char>) -> bool {
    s.len() == 8 && forall|i: int| 0 <= i < 8 ==> is_digit(#[trigger] s[i])
}

/// Seconds since the Unix epoch, read with `SystemTime::now` and
/// `duration_since(UNIX_EPOCH)`; `None` when the clock reads before the epoch.
/// Nothing is claimed of the value.
#[verifier::external_body]
pub(crate) fn unix_time_secs() -> (now: Option<u64>) {
    match std::time::SystemTime::now().duration_since(std::time::UNIX_EPOCH) {
        Ok(elapsed) => Some(elapsed.as_secs()),
        Err(_) => None,
    }
}

/// Seconds since the Unix epoch; a clock before the epoch reads as 0.
pub(crate) fn clock_secs() -> (now: u64) {
    match unix_time_secs() {
        Some(secs) => secs,
        None => 0,
    }
}

/// The local date of the moment `secs` seconds after the epoch, as
/// `chrono::Local.timestamp_opt(secs, 0)` formatted with `%Y%m%d`. Claimed:
/// `timestamp_opt` gives a single date-time for every second in chrono's
/// range (it maps the UTC date-time into the local zone), and up to
/// `LAST_DATED_SECS` the year has four digits, which `%Y` prints zero-padded,
/// as `%m` and `%d` print two, so the text is eight digits (later years are
/// printed with a sign and more digits). Which date it is depends on the
/// machine's time zone and is not claimed.
#[verifier::external_body]
pub(crate) fn local_date_at(secs: u64) -> (date: Option<String>)
    requires
        secs <= LAST_CLOCK_SECS,
    ensures
        date is Some,
        date matches Some(d) ==> (secs <= LAST_DATED_SECS ==> is_date_text(d@)),
{
    match chrono::TimeZone::timestamp_opt(&chrono::Local, secs as i64, 0) {
        chrono::MappedLocalTime::Single(moment) => Some(moment.format("%Y%m%d").to_string()),
        chrono::MappedLocalTime::Ambiguous(_, _) => None,
        chrono::MappedLocalTime::None => None,
    }
}

/// Today's local date (`YYYYMMDD` up to year 9999); `None` when the clock
/// reads before the epoch, where chrono's clock fails, or after
/// `LAST_CLOCK_SECS`, where chrono has no date.
pub(crate) fn today_date() -> (date: Option<String>) {
    match unix_time_secs() {
        Some(secs) => {
            if secs <= LAST_CLOCK_SECS {
                local_date_at(secs)
            } else {
                None
            }
        },
        None => None,
    }
}

} // verus!
