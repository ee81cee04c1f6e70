//! Timestamps and the two encodings in which the payload stores them.
//!
//! Older payloads write a timestamp as UTC text, `YYYY-MM-DDTHH:MM:SSZ`.
//! Newer ones write base64 of a little-endian 64-bit count of seconds since
//! 0001-01-01T00:00:00.

use crate::encoding::{base64_decode, base64_decoded, i64_from_le_bytes, le_i64};
use crate::error::IntegrityError;
use chrono::{Datelike, NaiveDate, NaiveDateTime, TimeDelta, Timelike};
use vstd::prelude::*;

verus! {

/// `ParseError` of `chrono`: why a text does not fit a pattern.
#[verifier::external_type_specification]
#[verifier::external_body]
pub struct ExParseError(chrono::format::ParseError);

/// A calendar date and time of day, without a time zone.
///
/// The fields are those of the proleptic Gregorian calendar. A leap second is
/// written as second 59 with a `nanosecond` of a thousand million or more.
#[derive(Clone, Copy, Debug, PartialEq, Eq, Structural)]
pub struct Timestamp {
    pub year: i32,
    pub month: u32,
    pub day: u32,
    pub hour: u32,
    pub minute: u32,
    pub second: u32,
    pub nanosecond: u32,
}

impl View for Timestamp {
    type V = Timestamp;

    open spec fn view(&self) -> Timestamp {
        *self
    }
}

/// What parsing `text` against the pattern `%Y-%m-%dT%H:%M:%SZ` gives:
/// the date and time where the text fits the pattern, `None` where it does not.
pub uninterp spec fn utc_text_parsed(text: Seq<char>) -> Option<Timestamp>;

/// The instant that lies `seconds` after `base`, or `None` where `base` is no
/// instant of the calendar or the calendar cannot represent the sum.
pub uninterp spec fn instant_after(base: Timestamp, seconds: int) -> Option<Timestamp>;

/// The instant from which the payload counts seconds: midnight of
/// 0001-01-01.
pub open spec fn epoch() -> Timestamp {
    Timestamp { year: 1, month: 1, day: 1, hour: 0, minute: 0, second: 0, nanosecond: 0 }
}

/// The value of a decimal digit.
pub open spec fn digit_value(c: char) -> int {
    c as int - '0' as int
}

/// The number written by the `count` digits of `text` that start at `at`.
pub open spec fn digits_value(text: Seq<char>, at: int, count: nat) -> int
    decreases count,
{
    if count == 0 {
        0
    } else {
        digits_value(text, at, (count - 1) as nat) * 10 + digit_value(text[at + count - 1])
    }
}

/// Whether the `count` characters of `text` that start at `at` are digits.
pub open spec fn digits_at(text: Seq<char>, at: int, count: int) -> bool {
    forall|i: int| at <= i < at + count ==> '0' <= #[trigger] text[i] <= '9'
}

/// Whether `year` has a 29th of February in the proleptic Gregorian calendar.
pub open spec fn is_leap_year(year: int) -> bool {
    year % 4 == 0 && (year % 100 != 0 || year % 400 == 0)
}

/// The number of days of a month.
pub open spec fn days_in_month(year: int, month: int) -> int {
    if month == 2 {
        if is_leap_year(year) {
            29
        } else {
            28
        }
    } else if month == 4 || month == 6 || month == 9 || month == 11 {
        30
    } else {
        31
    }
}

/// The date and time that text of the shape `YYYY-MM-DDTHH:MM:SSZ` spells.
pub open spec fn utc_text_fields(text: Seq<char>) -> Timestamp {
    Timestamp {
        year: digits_value(text, 0, 4) as i32,
        month: digits_value(text, 5, 2) as u32,
        day: digits_value(text, 8, 2) as u32,
        hour: digits_value(text, 11, 2) as u32,
        minute: digits_value(text, 14, 2) as u32,
        second: digits_value(text, 17, 2) as u32,
        nanosecond: 0,
    }
}

/// Text of exactly the shape `YYYY-MM-DDTHH:MM:SSZ`: four, two, two, two, two
/// and two digits between the fixed separators, spelling a day that exists
/// and a time of day up to 23:59:59.
pub open spec fn is_utc_text(text: Seq<char>) -> bool {
    &&& text.len() == 20
    &&& digits_at(text, 0, 4)
    &&& text[4] == '-'
    &&& digits_at(text, 5, 2)
    &&& text[7] == '-'
    &&& digits_at(text, 8, 2)
    &&& text[10] == 'T'
    &&& digits_at(text, 11, 2)
    &&& text[13] == ':'
    &&& digits_at(text, 14, 2)
    &&& text[16] == ':'
    &&& digits_at(text, 17, 2)
    &&& text[19] == 'Z'
    &&& 1 <= digits_value(text, 5, 2) <= 12
    &&& 1 <= digits_value(text, 8, 2) <= days_in_month(
        digits_value(text, 0, 4),
        digits_value(text, 5, 2),
    )
    &&& digits_value(text, 11, 2) <= 23
    &&& digits_value(text, 14, 2) <= 59
    &&& digits_value(text, 17, 2) <= 59
}

/// The fields of a parser's answer, with the reason for a failure set aside.
pub open spec fn parsed_view(parsed: Result<Timestamp, chrono::format::ParseError>) -> Option<
    Timestamp,
> {
    match parsed {
        Ok(t) => Some(t),
        Err(_) => None,
    }
}

/// `NaiveDateTime::parse_from_str` of `chrono`, with the pattern
/// `%Y-%m-%dT%H:%M:%SZ`, its answer handed out field by field. The answer
/// depends on the text alone. Text that is exactly of the shape
/// `YYYY-MM-DDTHH:MM:SSZ` and spells an existing day and time parses to the
/// fields it spells.
#[verifier::external_body]
pub(crate) fn parse_utc_text(text: &str) -> (parsed: Result<Timestamp, chrono::format::ParseError>)
    ensures
        parsed_view(parsed) == utc_text_parsed(text@),
        is_utc_text(text@) ==> parsed_view(parsed) == Some(utc_text_fields(text@)),
{
    let t = NaiveDateTime::parse_from_str(text, "%Y-%m-%dT%H:%M:%SZ")?;
    Ok(
        Timestamp {
            year: t.year(),
            month: t.month(),
            day: t.day(),
            hour: t.hour(),
            minute: t.minute(),
            second: t.second(),
            nanosecond: t.nanosecond(),
        },
    )
}

/// An instant of the years 0 to 9999 that is no leap second: an existing day
/// and a time of day up to 23:59:59, with a fraction below one second.
pub open spec fn is_plain_instant(instant: Timestamp) -> bool {
    &&& 0 <= instant.year <= 9999
    &&& 1 <= instant.month <= 12
    &&& 1 <= instant.day <= days_in_month(instant.year as int, instant.month as int)
    &&& instant.hour <= 23
    &&& instant.minute <= 59
    &&& instant.second <= 59
    &&& instant.nanosecond < 1_000_000_000
}

/// `NaiveDateTime::checked_add_signed` of `chrono`, applied to `base` and a
/// span of `seconds` whole seconds. `base` goes in through
/// `NaiveDate::from_ymd_opt` and `and_hms_nano_opt`, the span through
/// `TimeDelta::try_seconds`, and the sum comes out field by field. `None`
/// where `base`, the span or the sum is out of the calendar's range. The
/// answer depends on `base` and `seconds` alone, and a span of zero seconds
/// leaves a plain instant where it is.
#[verifier::external_body]
pub(crate) fn plus_seconds(base: Timestamp, seconds: i64) -> (instant: Option<Timestamp>)
    ensures
        instant == instant_after(base, seconds as int),
        seconds == 0 && is_plain_instant(base) ==> instant == Some(base),
{
    let start = NaiveDate::from_ymd_opt(base.year, base.month, base.day)?
        .and_hms_nano_opt(base.hour, base.minute, base.second, base.nanosecond)?;
    let t = start.checked_add_signed(TimeDelta::try_seconds(seconds)?)?;
    Some(
        Timestamp {
            year: t.year(),
            month: t.month(),
            day: t.day(),
            hour: t.hour(),
            minute: t.minute(),
            second: t.second(),
            nanosecond: t.nanosecond(),
        },
    )
}

/// The instant that lies `seconds` after the epoch. A count of zero is the
/// epoch itself.
pub open spec fn instant_after_epoch(seconds: int) -> Option<Timestamp> {
    if seconds == 0 {
        Some(epoch())
    } else {
        instant_after(epoch(), seconds)
    }
}

/// The epoch.
pub fn the_epoch() -> (instant: Timestamp)
    ensures
        instant == epoch(),
{
    Timestamp { year: 1, month: 1, day: 1, hour: 0, minute: 0, second: 0, nanosecond: 0 }
}

/// The timestamp that decoded bytes stand for: the instant that many seconds
/// after the epoch, 0001-01-01T00:00:00, as the first eight bytes count. Fewer than eight
/// bytes, or a count that leads out of the calendar, is a decode error.
pub open spec fn timestamp_of_bytes(bytes: Seq<u8>) -> Result<Timestamp, IntegrityError> {
    if bytes.len() < 8 {
        Err(IntegrityError::Decode)
    } else {
        match instant_after_epoch(le_i64(bytes)) {
            Some(instant) => Ok(instant),
            None => Err(IntegrityError::Decode),
        }
    }
}

/// The timestamp that `text` stands for.
///
/// Text of exactly the shape `YYYY-MM-DDTHH:MM:SSZ` stands for the date and
/// time it spells. Other text may still fit the pattern in the parser's
/// eyes, and then stands for what the parser reads. All that is left has to be
/// base64, and stands for what its bytes count in seconds.
pub open spec fn timestamp_of(text: Seq<char>) -> Result<Timestamp, IntegrityError> {
    if is_utc_text(text) {
        Ok(utc_text_fields(text))
    } else {
        match utc_text_parsed(text) {
            Some(instant) => Ok(instant),
            None => match base64_decoded(text) {
                Some(bytes) => timestamp_of_bytes(bytes),
                None => Err(IntegrityError::Decode),
            },
        }
    }
}

/// Reads a timestamp from a decoded count of seconds since 0001-01-01T00:00:00.
pub fn timestamp_from_bytes(bytes: &[u8]) -> (decoded: Result<Timestamp, IntegrityError>)
    ensures
        decoded == timestamp_of_bytes(bytes@),
{
    if bytes.len() < 8 {
        return Err(IntegrityError::Decode);
    }
    match plus_seconds(the_epoch(), i64_from_le_bytes(bytes)) {
        Some(instant) => Ok(instant),
        None => Err(IntegrityError::Decode),
    }
}

/// Reads a timestamp in either of its two encodings.
///
/// Text that parses as `YYYY-MM-DDTHH:MM:SSZ` is taken as such. Anything else
/// has to be base64 of at least eight bytes.
pub fn parse_xml_timestamp(text: &str) -> (decoded: Result<Timestamp, IntegrityError>)
    ensures
        decoded == timestamp_of(text@),
        is_utc_text(text@) ==> decoded == Ok::<Timestamp, IntegrityError>(utc_text_fields(text@)),
{
    match parse_utc_text(text) {
        Ok(instant) => Ok(instant),
        Err(_) => match base64_decode(text) {
            Ok(bytes) => timestamp_from_bytes(bytes.as_slice()),
            Err(_) => Err(IntegrityError::Decode),
        },
    }
}

} // verus!
