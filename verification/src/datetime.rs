//! Date/time text, parsed and printed by `chrono`.
//!
//! The library stores a date/time as milliseconds since the UNIX epoch. The
//! textual profile is `chrono`'s: nothing here depends on a locale or on the
//! machine's time zone.
use vstd::prelude::*;
use crate::error::Error;

verus! {

/// `chrono::ParseError`: why `chrono` rejected a text. Nothing is known of
/// it but that it is one.
#[verifier::external_type_specification]
#[verifier::external_body]
pub struct ExParseError(chrono::ParseError);

/// The milliseconds since the epoch that `chrono` reads from a date and time
/// without a zone, or `None` where it rejects the text.
pub uninterp spec fn naive_datetime_millis(text: Seq<char>) -> Option<i64>;

/// The milliseconds since the epoch that `chrono` reads from a date and time
/// with an offset, or `None` where it rejects the text.
pub uninterp spec fn utc_datetime_millis(text: Seq<char>) -> Option<i64>;

/// The text `chrono` prints for a date and time without a zone, or `None`
/// where the milliseconds are outside the range `chrono` can represent.
pub uninterp spec fn naive_datetime_text(millis: i64) -> Option<Seq<char>>;

/// The text `chrono` prints for a UTC date and time, or `None` where the
/// milliseconds are outside the range `chrono` can represent.
pub uninterp spec fn utc_datetime_text(millis: i64) -> Option<Seq<char>>;

/// Calls `str::parse::<chrono::NaiveDateTime>` and converts the date with
/// `NaiveDateTime::and_utc` and `DateTime::timestamp_millis`. The contract
/// only gives the outcome its name: it is a function of the text alone.
#[verifier::external_body]
fn parse_naive(text: &str) -> (r: core::result::Result<i64, chrono::ParseError>)
    ensures
        r is Ok <==> naive_datetime_millis(text@) is Some,
        r matches Ok(millis) ==> naive_datetime_millis(text@) == Some(millis),
{
    match text.parse::<chrono::NaiveDateTime>() {
        Ok(date) => Ok(date.and_utc().timestamp_millis()),
        Err(e) => Err(e),
    }
}

/// Calls `str::parse::<chrono::DateTime<chrono::Utc>>` and converts the date
/// with `DateTime::timestamp_millis`. The contract only gives the outcome
/// its name: it is a function of the text alone.
#[verifier::external_body]
fn parse_utc(text: &str) -> (r: core::result::Result<i64, chrono::ParseError>)
    ensures
        r is Ok <==> utc_datetime_millis(text@) is Some,
        r matches Ok(millis) ==> utc_datetime_millis(text@) == Some(millis),
{
    match text.parse::<chrono::DateTime<chrono::Utc>>() {
        Ok(date) => Ok(date.timestamp_millis()),
        Err(e) => Err(e),
    }
}

/// Calls `chrono::DateTime::from_timestamp_millis` and prints the date,
/// without its zone, with `chrono`'s `Debug` implementation for
/// `NaiveDateTime`, the form that `chrono` documents as parseable. The
/// contract only gives the outcome its name.
#[verifier::external_body]
fn print_naive(millis: i64) -> (r: Option<String>)
    ensures
        r is Some <==> naive_datetime_text(millis) is Some,
        r matches Some(text) ==> naive_datetime_text(millis) == Some(text@),
{
    match chrono::DateTime::from_timestamp_millis(millis) {
        Some(date) => Some(format!("{:?}", date.naive_utc())),
        None => None,
    }
}

/// Calls `chrono::DateTime::from_timestamp_millis` and prints the date with
/// `chrono`'s `Debug` implementation for `DateTime<Utc>`. The contract only
/// gives the outcome its name.
#[verifier::external_body]
fn print_utc(millis: i64) -> (r: Option<String>)
    ensures
        r is Some <==> utc_datetime_text(millis) is Some,
        r matches Some(text) ==> utc_datetime_text(millis) == Some(text@),
{
    match chrono::DateTime::from_timestamp_millis(millis) {
        Some(date) => Some(format!("{:?}", date)),
        None => None,
    }
}

/// The two textual forms of a date/time column.
#[derive(Clone, Copy, Debug, PartialEq, Eq, Structural)]
pub enum DateTimeForm {
    /// A date and time without a zone, such as `2015-09-18T23:56:04`.
    Naive,
    /// A date and time in UTC, such as `2015-09-18T23:56:04Z`.
    Utc,
}

impl DateTimeForm {
    /// The milliseconds that the text stands for in this form.
    pub open spec fn millis_of(self, text: Seq<char>) -> Option<i64> {
        match self {
            DateTimeForm::Naive => naive_datetime_millis(text),
            DateTimeForm::Utc => utc_datetime_millis(text),
        }
    }

    /// The text that stands for the milliseconds in this form.
    pub open spec fn text_of(self, millis: i64) -> Option<Seq<char>> {
        match self {
            DateTimeForm::Naive => naive_datetime_text(millis),
            DateTimeForm::Utc => utc_datetime_text(millis),
        }
    }

    /// Reads a date/time; malformed text is an `EncodingError`.
    pub fn parse(self, text: &str) -> (r: core::result::Result<i64, Error>)
        ensures
            r == match self.millis_of(text@) {
                Some(millis) => Ok::<i64, Error>(millis),
                None => Err(Error::EncodingError),
            },
    {
        let parsed = match self {
            DateTimeForm::Naive => parse_naive(text),
            DateTimeForm::Utc => parse_utc(text),
        };
        match parsed {
            Ok(millis) => Ok(millis),
            Err(_) => Err(Error::EncodingError),
        }
    }

    /// Prints a date/time; milliseconds that no date stands for are an
    /// `EncodingError`.
    pub fn print(self, millis: i64) -> (r: core::result::Result<String, Error>)
        ensures
            match self.text_of(millis) {
                Some(text) => r is Ok && r.unwrap()@ == text,
                None => r == Err::<String, Error>(Error::EncodingError),
            },
    {
        let printed = match self {
            DateTimeForm::Naive => print_naive(millis),
            DateTimeForm::Utc => print_utc(millis),
        };
        match printed {
            Some(text) => Ok(text),
            None => Err(Error::EncodingError),
        }
    }
}

} // verus!
