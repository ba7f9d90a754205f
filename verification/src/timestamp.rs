//! Creation times: RFC 3339 text to Unix seconds.

use vstd::prelude::*;

use crate::error::StatsError;

verus! {

/// The error with which `chrono` refuses a text. Nothing is said of what it
/// holds.
#[verifier::external_type_specification]
#[verifier::external_body]
pub struct ExParseError(chrono::ParseError);

/// The Unix time in whole seconds that `text` denotes when read as an
/// RFC 3339 date-and-time, or `None` where `text` is no such timestamp.
pub uninterp spec fn rfc3339_seconds(text: Seq<char>) -> Option<int>;

/// Calls `chrono::DateTime::parse_from_rfc3339` and, on success, reads the
/// moment's `timestamp()`. The contract only gives that outcome its name,
/// `rfc3339_seconds`: the parser accepts exactly the texts for which the name
/// is `Some`, and the seconds it reports are the named ones.
#[verifier::external_body]
fn parse_rfc3339(text: &str) -> (parsed: Result<i64, chrono::ParseError>)
    ensures
        match parsed {
            Ok(seconds) => rfc3339_seconds(text@) == Some(seconds as int),
            Err(_) => rfc3339_seconds(text@) is None,
        },
{
    match chrono::DateTime::parse_from_rfc3339(text) {
        Ok(moment) => Ok(moment.timestamp()),
        Err(refusal) => Err(refusal),
    }
}

/// What a `created_at` field says: the seconds it denotes, or `None` where
/// the field is absent or malformed.
pub open spec fn created_at_seconds(created_at: Option<String>) -> Option<int> {
    match created_at {
        Some(text) => rfc3339_seconds(text@),
        None => None,
    }
}

/// Reads a pull request's `created_at` field.
///
/// Succeeds exactly on a present, well-formed RFC 3339 timestamp and then
/// returns its Unix seconds; every other field is a `MalformedTimestamp`.
pub fn created_seconds(created_at: &Option<String>) -> (seconds: Result<i64, StatsError>)
    ensures
        match seconds {
            Ok(at) => created_at_seconds(*created_at) == Some(at as int),
            Err(e) => e == StatsError::MalformedTimestamp && created_at_seconds(*created_at) is None,
        },
{
    match created_at {
        None => Err(StatsError::MalformedTimestamp),
        Some(text) => match parse_rfc3339(text.as_str()) {
            Ok(at) => Ok(at),
            Err(_) => Err(StatsError::MalformedTimestamp),
        },
    }
}

} // verus!
