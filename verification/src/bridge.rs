//! The library's trusted boundary: thin wrappers around the outside crates
//! that parse amounts, dates and ledger documents, with the contracts the
//! verified code builds on.

use vstd::prelude::*;
use chrono::Datelike;

verus! {

/// What rust_decimal's string parser returns for a given string: the decimal's
/// mantissa and scale, or nothing when the string does not parse.
pub uninterp spec fn parsed_decimal(s: Seq<char>) -> Option<(int, int)>;

/// Relies on rust_decimal's `Decimal::from_str`: the result depends on the
/// characters alone, a parsed decimal's mantissa fits in 96 bits, and its
/// scale is between 0 and 28 inclusive.
#[verifier::external_body]
pub(crate) fn parse_decimal_str(value: &str) -> (r: Option<(i128, u32)>)
    ensures
        r is Some <==> parsed_decimal(value@) is Some,
        r matches Some(p) ==> parsed_decimal(value@) == Some((p.0 as int, p.1 as int)),
        r matches Some(p) ==> -0x1000000000000000000000000i128 < p.0
            < 0x1000000000000000000000000i128,
        r matches Some(p) ==> p.1 <= 28,
{
    match value.parse::<rust_decimal::Decimal>() {
        Ok(d) => Some((d.mantissa(), d.scale())),
        Err(_) => None,
    }
}

/// What chrono's `NaiveDate::parse_from_str` returns for a given string and
/// format: the date's year, month and day, or nothing when parsing fails.
pub uninterp spec fn parsed_date(s: Seq<char>, fmt: Seq<char>) -> Option<(int, int, int)>;

/// Relies on chrono's `NaiveDate::parse_from_str` and the `Datelike` accessors:
/// the result depends on the two strings alone, `month` is between 1 and 12,
/// and `day` is between 1 and 31.
#[verifier::external_body]
pub(crate) fn parse_date_str(value: &str, fmt: &str) -> (r: Option<(i32, u32, u32)>)
    ensures
        r is Some <==> parsed_date(value@, fmt@) is Some,
        r matches Some(p) ==> parsed_date(value@, fmt@) == Some(
            (p.0 as int, p.1 as int, p.2 as int),
        ),
        r matches Some(p) ==> 1 <= p.1 <= 12 && 1 <= p.2 <= 31,
{
    match chrono::NaiveDate::parse_from_str(value, fmt) {
        Ok(d) => Some((d.year(), d.month(), d.day())),
        Err(_) => None,
    }
}

#[verifier::external_type_specification]
#[verifier::external_body]
pub struct ExLedger(ledger_parser::Ledger);

/// Whether ledger_parser accepts a ledger document's text.
pub uninterp spec fn ledger_parse_ok(s: Seq<char>) -> bool;

/// Relies on `ledger_parser::parse`: whether a document parses depends on its
/// text alone; a failure carries the parser's message.
#[verifier::external_body]
pub(crate) fn parse_ledger_text(input: &str) -> (r: Result<ledger_parser::Ledger, String>)
    ensures
        r is Ok <==> ledger_parse_ok(input@),
{
    match ledger_parser::parse(input) {
        Ok(ledger) => Ok(ledger),
        Err(ledger_parser::ParseError::String(msg)) => Err(msg),
    }
}

/// Relies on std's `FromIterator` impl for `String`: collecting characters
/// yields a string holding exactly those characters.
#[verifier::external_body]
pub(crate) fn string_from_chars(chars: &Vec<char>) -> (r: String)
    ensures
        r@ == chars@,
{
    chars.iter().collect()
}

} // verus!
