//! Unicode character classes as std defines them. The full Unicode tables are
//! not restated here; each class is a named property of the character, with
//! its documented meaning on ASCII characters stated exactly.
use vstd::prelude::*;

verus! {

/// An ASCII letter.
pub open spec fn ascii_letter(c: char) -> bool {
    ('a' <= c && c <= 'z') || ('A' <= c && c <= 'Z')
}

/// An ASCII decimal digit.
pub open spec fn ascii_digit(c: char) -> bool {
    '0' <= c && c <= '9'
}

/// The ASCII whitespace characters that std's `char::is_whitespace` accepts:
/// space, tab, line feed, vertical tab, form feed and carriage return.
pub open spec fn ascii_white(c: char) -> bool {
    c == ' ' || c == '\t' || c == '\n' || c == '\x0B' || c == '\x0C' || c == '\r'
}

/// Whether `c` has the Unicode `Alphabetic` property (`char::is_alphabetic`).
pub uninterp spec fn alphabetic(c: char) -> bool;

/// Whether `c` is alphabetic or numeric (`char::is_alphanumeric`).
pub uninterp spec fn alphanumeric(c: char) -> bool;

/// Whether `c` has the Unicode `White_Space` property (`char::is_whitespace`).
pub uninterp spec fn whitespace(c: char) -> bool;

/// `char::is_alphabetic` of std. Its result is named [`alphabetic`]; on ASCII
/// characters it is true exactly for the letters, as its documentation
/// states.
#[verifier::external_body]
pub(crate) fn is_alphabetic(c: char) -> (r: bool)
    ensures
        r == alphabetic(c),
        (c as u32) < 128 ==> (r <==> ascii_letter(c)),
{
    c.is_alphabetic()
}

/// `char::is_alphanumeric` of std (alphabetic or numeric). Its result is
/// named [`alphanumeric`]; on ASCII characters it is true exactly for the
/// letters and the decimal digits.
#[verifier::external_body]
pub(crate) fn is_alphanumeric(c: char) -> (r: bool)
    ensures
        r == alphanumeric(c),
        (c as u32) < 128 ==> (r <==> (ascii_letter(c) || ascii_digit(c))),
{
    c.is_alphanumeric()
}

/// `char::is_whitespace` of std. Its result is named [`whitespace`]; on
/// ASCII characters it is true exactly for [`ascii_white`], as the Unicode
/// `White_Space` property gives.
#[verifier::external_body]
pub(crate) fn is_whitespace(c: char) -> (r: bool)
    ensures
        r == whitespace(c),
        (c as u32) < 128 ==> (r <==> ascii_white(c)),
{
    c.is_whitespace()
}

} // verus!
