//! The messages of the errors.

use crate::decimal::{number_error_text, NumberError};
use vstd::prelude::*;
use vstd::string::*;

verus! {

/// The text `s` as the standard `Debug` formatting of a string writes it:
/// between double quotes, with the characters that need it escaped.
pub uninterp spec fn debug_text(s: Seq<char>) -> Seq<char>;

/// Calls the standard library's `Debug` formatting of `str`, through
/// `format!("{:?}", s)`. The contract is believed, not proved. It claims only
/// that the result depends on the characters of `s` and on nothing else:
/// what the result is goes by the name `debug_text` and is stated nowhere.
#[verifier::external_body]
pub(crate) fn debug_string(s: &str) -> (r: String)
    ensures
        r@ == debug_text(s@),
{
    format!("{:?}", s)
}

/// The message for a part of a version that is not a number: which part,
/// the quoted text it was read from, and why it is no number.
pub open spec fn failure_text(part: Seq<char>, quoted: Seq<char>, source: NumberError) -> Seq<
    char,
> {
    "Failed to parse "@ + part + " from "@ + quoted + ": "@ + number_error_text(source)
}

/// Puts the message for a part that is not a number together. `quoted` is
/// the text it was read from, already in quotes.
pub fn failure_message(part: &str, quoted: &str, source: NumberError) -> (r: String)
    ensures
        r@ == failure_text(part@, quoted@, source),
{
    let mut out = String::from_str("Failed to parse ");
    out.append(part);
    out.append(" from ");
    out.append(quoted);
    out.append(": ");
    out.append(source.as_str());
    out
}

/// The message for a text with too many tokens to be a triple; `quoted` is
/// that text in quotes.
pub open spec fn shape_text(quoted: Seq<char>) -> Seq<char> {
    "Failed to parse version string "@ + quoted
        + ": string must be in format <major>[.minor][.patch]"@
}

/// Puts the message for a text with too many tokens together. `quoted` is
/// that text, already in quotes.
pub fn shape_message(quoted: &str) -> (r: String)
    ensures
        r@ == shape_text(quoted@),
{
    let mut out = String::from_str("Failed to parse version string ");
    out.append(quoted);
    out.append(": string must be in format <major>[.minor][.patch]");
    out
}

} // verus!
