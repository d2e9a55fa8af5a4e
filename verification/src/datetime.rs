//! Calendar dates and instants, read and written with `chrono`.
use vstd::prelude::*;
use chrono::Datelike;
use chrono::TimeZone;
use std::fmt::Write;

verus! {

/// A day of the proleptic Gregorian calendar.
#[derive(PartialEq, Eq, Structural, Clone, Copy, Debug)]
pub struct CalendarDate {
    pub year: i32,
    pub month: u32,
    pub day: u32,
}

/// The instant (seconds since the Unix epoch and nanoseconds) that
/// `DateTime::parse_from_rfc3339` reads from a text, if it accepts it.
pub uninterp spec fn rfc3339_instant(s: Seq<char>) -> Option<(i64, u32)>;

/// Whether `DateTime::from_timestamp(secs, nanos)` gives a `DateTime`:
/// the second lies between the first second of year -262143 and the last
/// second of year 262142, and the nanoseconds stay under a second, or
/// under two seconds within the last second of a minute (a leap second).
pub open spec fn utc_instant_exists(secs: i64, nanos: u32) -> bool {
    &&& -8334601228800 <= secs <= 8210266876799
    &&& nanos < 2_000_000_000
    &&& (nanos < 1_000_000_000 || (secs as int) % 60 == 59)
}

/// `chrono::DateTime::parse_from_rfc3339`, the parsed value taken as its
/// instant (`timestamp`, `timestamp_subsec_nanos`). The result is a
/// function of the text alone; which texts are accepted is not restated.
/// An instant read this way is one `DateTime::from_timestamp` takes back,
/// the round trip that `timestamp`'s documentation shows. The year is read
/// as exactly four digits and the offset is under a day, so the instant
/// lies between a day before year 0 and a day after year 9999.
#[verifier::external_body]
pub(crate) fn parse_rfc3339(s: &str) -> (r: Option<(i64, u32)>)
    ensures
        r == rfc3339_instant(s@),
        r matches Some((secs, nanos)) ==> utc_instant_exists(secs, nanos),
        r matches Some((secs, nanos)) ==> -62167305600 <= secs <= 253402387200,
{
    match chrono::DateTime::parse_from_rfc3339(s) {
        Ok(dt) => Some((dt.timestamp(), dt.timestamp_subsec_nanos())),
        Err(_) => None,
    }
}

/// The instant that `DateTime::parse_from_str` reads from a text with a
/// strftime-like format, if it accepts it.
pub uninterp spec fn formatted_instant(s: Seq<char>, fmt: Seq<char>) -> Option<(i64, u32)>;

/// `chrono::DateTime::parse_from_str(s, fmt)`, the parsed value taken as
/// its instant. The result is a function of the two texts alone. An
/// instant read this way is one `DateTime::from_timestamp` takes back, the
/// round trip that `timestamp`'s documentation shows.
#[verifier::external_body]
pub(crate) fn parse_formatted(s: &str, fmt: &str) -> (r: Option<(i64, u32)>)
    ensures
        r == formatted_instant(s@, fmt@),
        r matches Some((secs, nanos)) ==> utc_instant_exists(secs, nanos),
{
    match chrono::DateTime::parse_from_str(s, fmt) {
        Ok(dt) => Some((dt.timestamp(), dt.timestamp_subsec_nanos())),
        Err(_) => None,
    }
}

/// The number of days from 1970-01-01 to a day of the proleptic Gregorian
/// calendar, negative before it (the days-from-civil count: March-based
/// years grouped in eras of 400 years).
pub open spec fn days_from_civil(d: CalendarDate) -> int {
    let m = d.month as int;
    let y = if m <= 2 { d.year - 1 } else { d.year as int };
    let era = y / 400;
    let yoe = y % 400;
    let mp = if m > 2 { m - 3 } else { m + 9 };
    let doy = (153 * mp + 2) / 5 + d.day - 1;
    let doe = yoe * 365 + yoe / 4 - yoe / 100 + doy;
    era * 146097 + doe - 719468
}

/// Whether a day is the UTC day of an instant (seconds since the epoch),
/// the day before it or the day after it.
pub open spec fn within_a_day_of_utc(d: CalendarDate, secs: int) -> bool {
    -1 <= days_from_civil(d) - secs / 86400 <= 1
}

/// Whether an instant is one `from_timestamp` takes and lies at least a day
/// inside its range, so that its local time, whatever the zone, stays in
/// `chrono`'s range too.
pub open spec fn local_day_in_range(secs: i64, nanos: u32) -> bool {
    &&& utc_instant_exists(secs, nanos)
    &&& -8334601142400 <= secs <= 8210266790399
}

/// Whether `r` is an answer that `local_date` gives for the instant: the
/// day that the machine's zone makes of exactly that instant, not one
/// chosen otherwise.
pub open(crate) spec fn chrono_local_day(secs: i64, nanos: u32, r: Option<CalendarDate>) -> bool {
    call_ensures(local_date, (secs, nanos), r)
}

/// The calendar day, in the time zone of the machine, of an instant:
/// `DateTime::from_timestamp`, the zone's offset at that instant
/// (`Local.offset_from_utc_datetime`), then `checked_add_offset` and the
/// date. The offset depends on the machine, so which of three days comes
/// back is not claimed: a `FixedOffset` is under a day either way
/// (`FixedOffset::east_opt`), and `checked_add_offset` moves the UTC date
/// by at most one day, so the result is the UTC day of the instant, the day
/// before or the day after. `None` comes back where `from_timestamp`
/// refuses the instant, or where the local time would leave `chrono`'s
/// range, which can only happen within a day of either end of it.
/// Where `chrono` cannot read the machine's time zone it uses UTC. Left
/// unsaid: `Local` unwraps the zone's offset, so zone data that gives an
/// offset of a day or more, or no local time type, makes it panic; no
/// real zone does.
#[verifier::external_body]
pub(crate) fn local_date(secs: i64, nanos: u32) -> (r: Option<CalendarDate>)
    ensures
        r is Some ==> utc_instant_exists(secs, nanos),
        local_day_in_range(secs, nanos) ==> r is Some,
        r matches Some(d) ==> 1 <= d.month <= 12 && 1 <= d.day <= 31 && within_a_day_of_utc(d, secs as int),
{
    match chrono::DateTime::from_timestamp(secs, nanos) {
        Some(dt) => {
            let utc = dt.naive_utc();
            let offset = chrono::Local.offset_from_utc_datetime(&utc);
            match utc.checked_add_offset(offset) {
                Some(t) => Some(CalendarDate { year: t.year(), month: t.month(), day: t.day() }),
                None => None,
            }
        },
        None => None,
    }
}

/// The text that `chrono` writes for an instant in UTC with a strftime-like
/// format, if the instant is in `chrono`'s range and the format is valid.
pub uninterp spec fn utc_text(secs: i64, nanos: u32, fmt: Seq<char>) -> Option<Seq<char>>;

/// `DateTime::<Utc>::from_timestamp(secs, nanos)` written with
/// `format(fmt)`; `None` where the instant is out of range or the format
/// fails. The result is a function of the arguments alone.
#[verifier::external_body]
pub(crate) fn format_utc(secs: i64, nanos: u32, fmt: &str) -> (r: Option<String>)
    ensures
        match r {
            Some(t) => utc_text(secs, nanos, fmt@) == Some(t@),
            None => utc_text(secs, nanos, fmt@) is None,
        },
{
    match chrono::DateTime::from_timestamp(secs, nanos) {
        Some(dt) => {
            let mut out = String::new();
            match write!(out, "{}", dt.format(fmt)) {
                Ok(()) => Some(out),
                Err(_) => None,
            }
        },
        None => None,
    }
}


} // verus!
