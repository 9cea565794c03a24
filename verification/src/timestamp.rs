//! Points in time as the service reports them.

use crate::error::DecodeError;
use vstd::prelude::*;

verus! {

/// The form in which the service writes a date: `YYYY-MM-DD HH:MM:SS`, with
/// no time zone, meant as UTC.
pub const TIMESTAMP_FORMAT: &'static str = "%Y-%m-%d %H:%M:%S";

/// A point in time, in UTC: whole seconds since the Unix epoch, not counting
/// leap seconds, and the nanoseconds past that second. In a leap second the
/// nanoseconds run from one billion up.
#[derive(Clone, Copy, Debug, PartialEq, Eq, Hash, Structural)]
pub struct Timestamp {
    pub seconds: i64,
    pub nanoseconds: u32,
}

/// chrono's `ParseError`, the reason why a text was rejected. It is carried
/// from the parse to the caller and looked into nowhere.
#[verifier::external_type_specification]
#[verifier::external_body]
pub struct ExParseError(chrono::ParseError);

/// What chrono reads out of `text` under the format string `format`, taken
/// as UTC: the seconds since the Unix epoch and the nanoseconds past that
/// second, or `None` where chrono rejects the text.
pub uninterp spec fn chrono_utc_instant(text: Seq<char>, format: Seq<char>) -> Option<(i64, u32)>;

/// Calls chrono's `NaiveDateTime::parse_from_str(text, format)`. On success
/// the date and time are taken as UTC (`and_utc`) and handed back as two
/// integers, `timestamp()` and `timestamp_subsec_nanos()`. The contract says
/// nothing of how chrono reads a text: it gives the outcome the name
/// `chrono_utc_instant`, which claims that the outcome depends on the two
/// strings alone, and that the call fails exactly where that name is `None`.
#[verifier::external_body]
fn parse_naive_utc(text: &str, format: &str) -> (parsed: Result<(i64, u32), chrono::ParseError>)
    ensures
        match parsed {
            Ok(instant) => chrono_utc_instant(text@, format@) == Some(instant),
            Err(_) => chrono_utc_instant(text@, format@) is None,
        },
{
    match chrono::NaiveDateTime::parse_from_str(text, format) {
        Ok(naive) => Ok((naive.and_utc().timestamp(), naive.and_utc().timestamp_subsec_nanos())),
        Err(error) => Err(error),
    }
}

impl Timestamp {
    /// The point in time that `text` denotes in the service's date form, or
    /// `None` if it is not of that form.
    pub open spec fn parsed(text: Seq<char>) -> Option<Timestamp> {
        match chrono_utc_instant(text, TIMESTAMP_FORMAT@) {
            Some(instant) => Some(Timestamp { seconds: instant.0, nanoseconds: instant.1 }),
            None => None,
        }
    }

    /// Reads a date of the service.
    pub fn parse(text: &str) -> (timestamp: Result<Timestamp, DecodeError>)
        ensures
            timestamp == match Timestamp::parsed(text@) {
                Some(t) => Ok::<Timestamp, DecodeError>(t),
                None => Err(DecodeError::MalformedTimestamp),
            },
    {
        match parse_naive_utc(text, TIMESTAMP_FORMAT) {
            Ok(instant) => Ok(Timestamp { seconds: instant.0, nanoseconds: instant.1 }),
            Err(_) => Err(DecodeError::MalformedTimestamp),
        }
    }
}

} // verus!
