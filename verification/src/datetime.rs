use chrono::{Datelike, Timelike};
use vstd::prelude::*;

verus! {

/// A calendar date and wall-clock time without a time zone, held as its
/// plain components (the nanosecond part exceeds 999_999_999 only for a
/// leap second).
#[derive(Clone, Copy, Debug, PartialEq, Eq, Structural)]
pub struct DateTime {
    pub year: i32,
    pub month: u32,
    pub day: u32,
    pub hour: u32,
    pub minute: u32,
    pub second: u32,
    pub nanosecond: u32,
}


#[verifier::external_type_specification]
#[verifier::external_body]
pub struct ExChronoParseError(chrono::format::ParseError);

/// The date and time that `chrono::NaiveDateTime::parse_from_str` reads from
/// a text under a format, or `None` where it refuses the text.
pub uninterp spec fn spec_parse_datetime(text: Seq<char>, format: Seq<char>) -> Option<DateTime>;

/// Calls `chrono::NaiveDateTime::parse_from_str(text, format)` and hands
/// back the components of the date and time it reads. Stated: the outcome
/// is a function of the text and the format alone (chrono's parser reads no
/// clock, locale or environment); what that function is, chrono's format
/// rules say and the contract leaves to the name `spec_parse_datetime`.
#[verifier::external_body]
fn chrono_parse_from_str(text: &str, format: &str) -> (res: Result<DateTime, chrono::format::ParseError>)
    ensures
        match res {
            Ok(d) => spec_parse_datetime(text@, format@) == Some(d),
            Err(_) => spec_parse_datetime(text@, format@) is None,
        },
{
    match chrono::NaiveDateTime::parse_from_str(text, format) {
        Ok(d) => Ok(DateTime {
            year: d.year(),
            month: d.month(),
            day: d.day(),
            hour: d.hour(),
            minute: d.minute(),
            second: d.second(),
            nanosecond: d.nanosecond(),
        }),
        Err(e) => Err(e),
    }
}

/// Reads a date and time from `text` under the chrono `format`; `None`
/// where the text does not fit the format or names no valid date and time.
pub fn parse_datetime(text: &str, format: &str) -> (res: Option<DateTime>)
    ensures
        res == spec_parse_datetime(text@, format@),
{
    match chrono_parse_from_str(text, format) {
        Ok(d) => Some(d),
        Err(_) => None,
    }
}
} // verus!
