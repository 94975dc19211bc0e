//! Local wall-clock date-times and the calendar rules they obey.

use vstd::prelude::*;
use chrono::{Datelike, Timelike, TimeZone};

verus! {

/// A local wall-clock date and time, broken into its calendar fields.
#[derive(Debug, Clone, Copy, PartialEq, Eq, Structural)]
pub struct LocalDateTime {
    pub year: i32,
    pub month: u32,
    pub day: u32,
    pub hour: u32,
    pub minute: u32,
    pub second: u32,
}

/// What reading calendar fields out of a piece of text comes to.
#[derive(Debug, Clone, Copy, PartialEq, Eq, Structural)]
pub enum FieldsOutcome {
    /// A byte offset where the text is cut falls inside a character, so the text
    /// cannot have the expected shape.
    SplitChar,
    /// The text does not have the expected shape.
    NoMatch,
    /// The fields read from the text (not yet checked against the calendar).
    Fields(LocalDateTime),
}

/// Smallest year of the supported proleptic Gregorian range.
pub const MIN_YEAR: i32 = -262143;

/// Largest year of the supported proleptic Gregorian range.
pub const MAX_YEAR: i32 = 262142;

/// Whether `year` is a leap year of the proleptic Gregorian calendar.
pub open spec fn is_leap_year(year: int) -> bool {
    (year % 4 == 0 && year % 100 != 0) || year % 400 == 0
}

/// Number of days of `month` (1..=12) in `year`.
pub open spec fn days_in_month(year: int, month: int) -> int {
    if month == 2 {
        if is_leap_year(year) { 29 } else { 28 }
    } else if month == 4 || month == 6 || month == 9 || month == 11 {
        30
    } else {
        31
    }
}

/// The fields name an existing calendar day and a time of day
/// (without leap seconds), inside the supported year range.
pub open spec fn valid_civil(year: int, month: int, day: int, hour: int, minute: int, second: int) -> bool {
    &&& MIN_YEAR <= year <= MAX_YEAR
    &&& 1 <= month <= 12
    &&& 1 <= day <= days_in_month(year, month)
    &&& 0 <= hour < 24
    &&& 0 <= minute < 60
    &&& 0 <= second < 60
}

impl LocalDateTime {
    /// The fields form a valid calendar date and time.
    pub open spec fn is_valid(self) -> bool {
        valid_civil(
            self.year as int,
            self.month as int,
            self.day as int,
            self.hour as int,
            self.minute as int,
            self.second as int,
        )
    }

    /// Month, day and time-of-day fields lie in their usual ranges.
    pub open spec fn fields_in_range(self) -> bool {
        &&& 1 <= self.month <= 12
        &&& 1 <= self.day <= 31
        &&& self.hour < 24
        &&& self.minute < 60
        &&& self.second < 60
    }
}

/// Builds the date-time with the given fields, as a value of this type.
pub open spec fn civil(year: i32, month: u32, day: u32, hour: u32, minute: u32, second: u32) -> LocalDateTime {
    LocalDateTime { year, month, day, hour, minute, second }
}

/// Seconds of a Unix timestamp that name a day inside the supported year range:
/// the day count since 0001-01-01 (day 1) of the timestamp's UTC day lies
/// between that of -262143-01-01 and that of 262142-12-31.
pub open spec fn unix_seconds_in_range(secs: int) -> bool {
    let days_from_ce = secs / 86400 + 719163;
    -95746129 <= days_from_ce <= 95745399
}

/// Days from 1970-01-01 to the given day of the proleptic Gregorian calendar.
pub open spec fn days_from_civil(year: int, month: int, day: int) -> int {
    let y = if month <= 2 { year - 1 } else { year };
    let era = y / 400;
    let yoe = y - era * 400;
    let mp = if month > 2 { month - 3 } else { month + 9 };
    let doy = (153 * mp + 2) / 5 + day - 1;
    let doe = yoe * 365 + yoe / 4 - yoe / 100 + doy;
    era * 146097 + doe - 719468
}

/// The Unix seconds that the fields of `t` name when read as UTC.
pub open spec fn civil_seconds(t: LocalDateTime) -> int {
    days_from_civil(t.year as int, t.month as int, t.day as int) * 86400 + t.hour * 3600 + t.minute * 60
        + t.second
}

/// `t` is the wall-clock time of the Unix time `secs` in a time zone whose offset from
/// UTC is less than a day.
pub open spec fn local_time_of(t: LocalDateTime, secs: int) -> bool {
    -86400 < civil_seconds(t) - secs < 86400
}

/// A moment as the library keeps it: its wall-clock fields in the machine's time zone
/// and its Unix seconds (the instant, whatever the zone).
#[derive(Debug, Clone, Copy, PartialEq, Eq, Structural)]
pub struct CaptureTime {
    /// The local calendar fields.
    pub local: LocalDateTime,
    /// Seconds since 1970-01-01 00:00:00 UTC.
    pub unix_secs: i64,
}

/// Resolves wall-clock fields in the machine's local time zone.
///
/// Calls `chrono::Local.with_ymd_and_hms(..).single()` and takes the fields and
/// `timestamp()` of the result. The contract states that a result carries exactly the
/// given fields, at an instant less than a day from them read as UTC (chrono's
/// `FixedOffset` is bounded so), and that invalid calendar fields give `None`. Whether
/// valid fields that fall into a daylight-saving gap or overlap give `None`, and which
/// offset applies, depend on the machine's time zone and are left unsaid.
#[verifier::external_body]
pub(crate) fn local_from_civil(
    year: i32,
    month: u32,
    day: u32,
    hour: u32,
    minute: u32,
    second: u32,
) -> (r: Option<CaptureTime>)
    ensures
        r matches Some(t) ==> t.local == civil(year, month, day, hour, minute, second) && local_time_of(
            t.local,
            t.unix_secs as int,
        ),
        !valid_civil(year as int, month as int, day as int, hour as int, minute as int, second as int)
            ==> r is None,
{
    chrono::Local.with_ymd_and_hms(year, month, day, hour, minute, second).single().map(
        |dt| CaptureTime {
            local: LocalDateTime {
                year: dt.year(),
                month: dt.month(),
                day: dt.day(),
                hour: dt.hour(),
                minute: dt.minute(),
                second: dt.second(),
            },
            unix_secs: dt.timestamp(),
        },
    )
}

/// Converts a Unix timestamp (UTC seconds) into the local moment.
///
/// Calls `chrono::DateTime::from_timestamp(secs, 0)` and converts the result with
/// `with_timezone(&chrono::Local)`, taking its fields and `timestamp()`. The contract
/// states when chrono accepts the timestamp, that the instant is `secs` (chrono's
/// `timestamp` gives back what `from_timestamp` took), that the fields lie in their
/// usual ranges and that they are the wall-clock time of `secs` at an offset of less
/// than a day; which offset the machine's time zone applies is left unsaid.
#[verifier::external_body]
pub(crate) fn local_from_unix_seconds(secs: i64) -> (r: Option<CaptureTime>)
    ensures
        r is Some <==> unix_seconds_in_range(secs as int),
        r matches Some(t) ==> t.unix_secs == secs && t.local.fields_in_range() && local_time_of(
            t.local,
            secs as int,
        ),
{
    chrono::DateTime::from_timestamp(secs, 0).map(|utc| utc.with_timezone(&chrono::Local)).map(
        |dt| CaptureTime {
            local: LocalDateTime {
                year: dt.year(),
                month: dt.month(),
                day: dt.day(),
                hour: dt.hour(),
                minute: dt.minute(),
                second: dt.second(),
            },
            unix_secs: dt.timestamp(),
        },
    )
}

} // verus!
