//! The time of a post, as the stream writes it.

use chrono::format::ParseError;
use chrono::{TimeZone, Utc};
use vstd::prelude::*;

verus! {

/// The error with which chrono turns a text down.
#[verifier::external_type_specification]
#[verifier::external_body]
pub struct ExParseError(chrono::format::ParseError);

/// How the stream writes the time of a post: weekday, month, day, time of
/// day, offset from UTC and year, as in `Sat Sep 19 00:00:00 +0000 2020`.
pub const FORMAT: &'static str = "%a %b %e %T %z %Y";

/// A text that is no time of a post.
#[derive(Debug)]
pub struct InvalidDate {
    pub cause: ParseError,
}

/// The instant, in whole seconds since the start of 1970 in UTC, that
/// chrono reads out of `text` under `format` in the time zone UTC, if it
/// reads one.
pub uninterp spec fn instant_read(text: Seq<char>, format: Seq<char>) -> Option<i64>;

/// Calls `TimeZone::datetime_from_str` of chrono on `Utc` and takes the
/// `timestamp` of the date it gives. What is claimed: the outcome depends
/// on the two texts alone, so it has a name.
#[verifier::external_body]
#[allow(deprecated)]
fn read_instant(text: &str, format: &str) -> (read: Result<i64, ParseError>)
    ensures
        match read {
            Ok(instant) => instant_read(text@, format@) == Some(instant),
            Err(_) => instant_read(text@, format@).is_none(),
        },
{
    match Utc.datetime_from_str(text, format) {
        Ok(date) => Ok(date.timestamp()),
        Err(error) => Err(error),
    }
}

/// What a reading of a text comes to: the instant read, or the error as a
/// text that is no date.
pub fn instant_or_invalid(read: Result<i64, ParseError>) -> (parsed: Result<i64, InvalidDate>)
    ensures
        match read {
            Ok(instant) => parsed == Ok::<i64, InvalidDate>(instant),
            Err(cause) => parsed == Err::<i64, InvalidDate>(InvalidDate { cause }),
        },
{
    match read {
        Ok(instant) => Ok(instant),
        Err(cause) => Err(InvalidDate { cause }),
    }
}

/// Reads the time of a post.
pub fn datefmt_de(text: &str) -> (parsed: Result<i64, InvalidDate>)
    ensures
        match parsed {
            Ok(instant) => instant_read(text@, FORMAT@) == Some(instant),
            Err(_) => instant_read(text@, FORMAT@).is_none(),
        },
{
    instant_or_invalid(read_instant(text, FORMAT))
}

} // verus!
