//! Timestamps written as a count of seconds are read back.

use crate::encoding::{base64_decoded, i64_le_bytes, lemma_i64_le_round_trip};
use crate::error::IntegrityError;
use crate::time::{
    digits_value, epoch, instant_after_epoch, is_utc_text, timestamp_of, timestamp_of_bytes,
    utc_text_fields, utc_text_parsed, Timestamp,
};
use vstd::prelude::*;

verus! {

/// The instant `seconds` after 0001-01-01T00:00:00 as a decode result.
pub open spec fn instant_or_error(seconds: int) -> Result<Timestamp, IntegrityError> {
    match instant_after_epoch(seconds) {
        Some(instant) => Ok(instant),
        None => Err(IntegrityError::Decode),
    }
}

/// A count of seconds that is written as eight little-endian bytes is read
/// back as the instant that many seconds after 0001-01-01T00:00:00, whatever
/// bytes follow the eight.
pub proof fn lemma_seconds_are_recovered(seconds: i64, rest: Seq<u8>)
    ensures
        timestamp_of_bytes(i64_le_bytes(seconds) + rest) == instant_or_error(seconds as int),
{
    lemma_i64_le_round_trip(seconds, rest);
}

/// A count of zero seconds is read back as the epoch itself, midnight of
/// 0001-01-01.
pub proof fn lemma_zero_seconds_are_the_epoch(rest: Seq<u8>)
    ensures
        timestamp_of_bytes(i64_le_bytes(0) + rest) == Ok::<Timestamp, IntegrityError>(epoch()),
        epoch() == (Timestamp {
            year: 1,
            month: 1,
            day: 1,
            hour: 0,
            minute: 0,
            second: 0,
            nanosecond: 0,
        }),
{
    lemma_i64_le_round_trip(0, rest);
}

/// Text that is base64 of a count of seconds, written as eight little-endian
/// bytes, decodes to the instant that many seconds after
/// 0001-01-01T00:00:00. The text must not at the same time read as UTC text,
/// which takes precedence.
pub proof fn lemma_encoded_seconds_are_recovered(text: Seq<char>, seconds: i64)
    requires
        base64_decoded(text) == Some(i64_le_bytes(seconds)),
        utc_text_parsed(text) is None,
        !is_utc_text(text),
    ensures
        timestamp_of(text) == instant_or_error(seconds as int),
{
    lemma_i64_le_round_trip(seconds, Seq::empty());
}

/// Every text of the shape `YYYY-MM-DDTHH:MM:SSZ` that spells an existing
/// day and a time of day decodes to exactly the date and time it spells.
pub proof fn lemma_utc_text_is_read(text: Seq<char>)
    requires
        is_utc_text(text),
    ensures
        timestamp_of(text) == Ok::<Timestamp, IntegrityError>(utc_text_fields(text)),
        utc_text_fields(text).nanosecond == 0,
        0 <= utc_text_fields(text).year <= 9999,
        1 <= utc_text_fields(text).month <= 12,
        1 <= utc_text_fields(text).day <= 31,
        utc_text_fields(text).hour <= 23,
        utc_text_fields(text).minute <= 59,
        utc_text_fields(text).second <= 59,
{
    reveal_with_fuel(digits_value, 5);
    assert('0' <= text[0] <= '9' && '0' <= text[1] <= '9' && '0' <= text[2] <= '9' && '0'
        <= text[3] <= '9');
}

} // verus!
