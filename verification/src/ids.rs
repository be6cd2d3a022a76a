//! Random identifiers.

use vstd::prelude::*;
use vstd::string::*;

use crate::text::lower;

verus! {

/// `c` is one of `0`–`9`, `a`–`f`.
pub open spec fn hex_digit(c: char) -> bool {
    ('0' <= c && c <= '9') || ('a' <= c && c <= 'f')
}

pub open spec fn all_hex(s: Seq<char>) -> bool {
    forall|i: int| 0 <= i < s.len() ==> hex_digit(#[trigger] s[i])
}

/// `uuid::Uuid::new_v4` in its simple form. The claim: 32 small hexadecimal digits.
/// Which ones is left to chance.
#[verifier::external_body]
pub(crate) fn random_hex() -> (r: String)
    ensures
        r@.len() == 32,
        all_hex(r@),
{
    uuid::Uuid::new_v4().simple().to_string()
}

/// Hexadecimal digits in groups of 8, 4, 4, 4 and 12, with a hyphen between groups.
pub open spec fn uuid_shape(s: Seq<char>) -> bool {
    &&& s.len() == 36
    &&& forall|i: int|
        0 <= i < 36 ==> if i == 8 || i == 13 || i == 18 || i == 23 {
            #[trigger] s[i] == '-'
        } else {
            hex_digit(s[i])
        }
}

/// `uuid::Uuid::new_v4` as `to_string` writes it. The claim: its shape. Which digits
/// it has is left to chance.
#[verifier::external_body]
pub(crate) fn random_uuid() -> (r: String)
    ensures
        uuid_shape(r@),
{
    uuid::Uuid::new_v4().to_string()
}

/// Hexadecimal digits in five groups, with a hyphen between groups.
pub open spec fn hyphenated(s: Seq<char>) -> bool {
    uuid_shape(lower(s))
}

/// A text that stands for a UUID: digits alone or in groups, the latter also in braces
/// or behind `urn:uuid:`. Small and capital letters are the same.
pub open spec fn uuid_text(s: Seq<char>) -> bool {
    ||| s.len() == 32 && all_hex(lower(s))
    ||| hyphenated(s)
    ||| s.len() == 38 && s[0] == '{' && s[37] == '}' && hyphenated(s.subrange(1, 37))
    ||| s.len() == 45 && lower(s.take(9)) == "urn:uuid:"@ && hyphenated(s.skip(9))
}

/// `uuid::Uuid::parse_str`. The claim: it succeeds on the texts that [`uuid_text`]
/// describes, and on no others.
#[verifier::external_body]
pub(crate) fn is_uuid(text: &str) -> (r: bool)
    ensures
        r == uuid_text(text@),
{
    uuid::Uuid::parse_str(text).is_ok()
}

} // verus!
