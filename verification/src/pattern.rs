//! Input checks of the virtual machine editors that go by a pattern: the RTC start date
//! and the SMBIOS UUID.
use vstd::prelude::*;
use crate::text::str_chars;

verus! {

// ---------------------------------------------------------------------------
// Regular expressions
// ---------------------------------------------------------------------------

/// Whether `regex::Regex::new` accepts `pattern`.
pub uninterp spec fn regex_compiles(pattern: Seq<char>) -> bool;

/// Whether the regular expression `pattern` matches somewhere in `text`
/// (`regex::Regex::is_match`).
pub uninterp spec fn regex_matches(pattern: Seq<char>, text: Seq<char>) -> bool;

/// Compiles `pattern` with `regex::Regex::new` and, where it compiles, asks
/// `Regex::is_match` about `text`. The contract claims that the call gives `None` exactly
/// when the pattern does not compile, and otherwise the outcome of the match, both being
/// functions of the pattern and the text alone; which patterns compile and what they match
/// is left to the regex crate's syntax and is not stated here.
#[verifier::external_body]
fn regex_is_match(pattern: &str, text: &str) -> (r: Option<bool>)
    ensures
        r is Some <==> regex_compiles(pattern@),
        r matches Some(b) ==> b == regex_matches(pattern@, text@),
{
    match regex::Regex::new(pattern) {
        Ok(re) => Some(re.is_match(text)),
        Err(_) => None,
    }
}

// ---------------------------------------------------------------------------
// RTC start date
// ---------------------------------------------------------------------------

/// Accepted values of the RTC start date: `now`, a date, or a date and a time.
pub const STARTDATE_PATTERN: &'static str = "^(now|\\d{4}-\\d{1,2}-\\d{1,2}(T\\d{1,2}:\\d{1,2}:\\d{1,2})?)$";

/// The hint shown for a start date that does not fit.
pub const STARTDATE_HINT: &'static str = "Format: \"now\" or \"2006-06-17T16:01:21\" or \"2006-06-17\"";

/// The verdict on a start date from the outcome of matching it against
/// [`STARTDATE_PATTERN`]: accepted only on a match.
pub fn startdate_verdict(matched: Option<bool>) -> (r: Result<(), String>)
    ensures
        r is Ok <==> matched == Some(true),
        r matches Err(m) ==> m@ == STARTDATE_HINT@,
{
    match matched {
        Some(true) => Ok(()),
        _ => Err(STARTDATE_HINT.to_string()),
    }
}

/// Checks an RTC start date against [`STARTDATE_PATTERN`].
pub fn validate_startdate(value: &str) -> (r: Result<(), String>)
    ensures
        r is Ok <==> regex_compiles(STARTDATE_PATTERN@) && regex_matches(
            STARTDATE_PATTERN@,
            value@,
        ),
        r matches Err(m) ==> m@ == STARTDATE_HINT@,
{
    let matched = regex_is_match(STARTDATE_PATTERN, value);
    startdate_verdict(matched)
}

// ---------------------------------------------------------------------------
// SMBIOS UUID
// ---------------------------------------------------------------------------

/// A hexadecimal digit, in either case.
pub open spec fn is_hex_digit(c: char) -> bool {
    ('0' <= c && c <= '9') || ('a' <= c && c <= 'f') || ('A' <= c && c <= 'F')
}

/// Where a UUID has its dashes: `xxxxxxxx-xxxx-xxxx-xxxx-xxxxxxxxxxxx`.
pub open spec fn is_uuid_dash_position(i: int) -> bool {
    i == 8 || i == 13 || i == 18 || i == 23
}

/// Text of the form `xxxxxxxx-xxxx-xxxx-xxxx-xxxxxxxxxxxx` with `x` a hexadecimal digit.
pub open spec fn is_uuid_text(s: Seq<char>) -> bool {
    &&& s.len() == 36
    &&& forall|i: int|
        0 <= i < 36 ==> if is_uuid_dash_position(i) {
            s[i] == '-'
        } else {
            is_hex_digit(#[trigger] s[i])
        }
}

/// The hint shown for a UUID that does not fit.
pub const UUID_HINT: &'static str = "Format: xxxxxxxx-xxxx-xxxx-xxxx-xxxxxxxxxxxx (where x is 0-9 or a-f or A-F)";

/// Whether `value` is a UUID as the SMBIOS settings take it.
pub fn is_smbios_uuid(value: &str) -> (r: bool)
    ensures
        r == is_uuid_text(value@),
{
    let chars = str_chars(value);
    if chars.len() != 36 {
        return false;
    }
    let mut i: usize = 0;
    while i < 36
        invariant
            chars@ == value@,
            chars.len() == 36,
            i <= 36,
            forall|j: int|
                0 <= j < i ==> if is_uuid_dash_position(j) {
                    chars@[j] == '-'
                } else {
                    is_hex_digit(#[trigger] chars@[j])
                },
        decreases 36 - i,
    {
        let c = chars[i];
        let ok = if i == 8 || i == 13 || i == 18 || i == 23 {
            c == '-'
        } else {
            ('0' <= c && c <= '9') || ('a' <= c && c <= 'f') || ('A' <= c && c <= 'F')
        };
        if !ok {
            assert(!is_uuid_text(value@)) by {
                if is_uuid_dash_position(i as int) {
                } else {
                    assert(!is_hex_digit(chars@[i as int]));
                }
            }
            return false;
        }
        i = i + 1;
    }
    true
}

/// Checks the SMBIOS UUID field.
pub fn validate_smbios_uuid(value: &str) -> (r: Result<(), String>)
    ensures
        r is Ok <==> is_uuid_text(value@),
        r matches Err(m) ==> m@ == UUID_HINT@,
{
    if is_smbios_uuid(value) {
        Ok(())
    } else {
        Err(UUID_HINT.to_string())
    }
}

} // verus!
