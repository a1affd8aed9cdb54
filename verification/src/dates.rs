//! Reading dates with chrono.

use chrono::{NaiveDateTime, ParseError};
use vstd::prelude::*;

verus! {

/// chrono's `NaiveDateTime`, a date and a time of day without a time zone.
/// Its fields are not read: a value is carried from where it was parsed to
/// the header that holds it.
#[verifier::external_type_specification]
#[verifier::external_body]
pub struct ExNaiveDateTime(NaiveDateTime);

/// chrono's `ParseError`, the error of a text that is no date. Its fields
/// are not read.
#[verifier::external_type_specification]
#[verifier::external_body]
pub struct ExParseError(ParseError);

/// The date and time that chrono reads out of `text` under `format`, or
/// `None` where it reads none.
pub uninterp spec fn parsed_date_time(text: Seq<char>, format: Seq<char>) -> Option<NaiveDateTime>;

/// chrono's `NaiveDateTime::parse_from_str`. What it returns depends on the
/// two strings alone: the date and time on success, an error where `text`
/// does not fit `format` or `format` is no format.
#[verifier::external_body]
pub(crate) fn parse_date_time(text: &str, format: &str) -> (parsed: Result<
    NaiveDateTime,
    ParseError,
>)
    ensures
        match parsed {
            Ok(date) => parsed_date_time(text@, format@) == Some(date),
            Err(_) => parsed_date_time(text@, format@) is None,
        },
{
    NaiveDateTime::parse_from_str(text, format)
}

} // verus!
