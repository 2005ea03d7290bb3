//! UUIDs as 128-bit numbers, and their text form.

use vstd::prelude::*;
use vstd::arithmetic::power2::pow2;

use crate::auth::hex_digit;

verus! {

/// The `k`-th hex digit of `u`, counted from the most significant one.
pub open spec fn uuid_digit(u: u128, k: int) -> char {
    hex_digit(((u as nat / pow2((4 * (31 - k)) as nat)) % 16) as u8)
}

/// Canonical text of a UUID: 32 lowercase hex digits, most significant
/// first, in groups of 8, 4, 4, 4 and 12 joined by `-`.
pub open spec fn hyphenated(u: u128) -> Seq<char> {
    Seq::new(
        36,
        |i: int|
            if i == 8 || i == 13 || i == 18 || i == 23 {
                '-'
            } else if i < 8 {
                uuid_digit(u, i)
            } else if i < 13 {
                uuid_digit(u, i - 1)
            } else if i < 18 {
                uuid_digit(u, i - 2)
            } else if i < 23 {
                uuid_digit(u, i - 3)
            } else {
                uuid_digit(u, i - 4)
            },
    )
}

/// Simple text of a UUID: its 32 lowercase hex digits, most significant
/// first, without separators.
pub open spec fn simple_text(u: u128) -> Seq<char> {
    Seq::new(32, |k: int| uuid_digit(u, k))
}

/// What `uuid::Uuid::parse_str` reads from a text, as a number; `None`
/// where it reports an error.
pub uninterp spec fn parsed_uuid(s: Seq<char>) -> Option<u128>;

/// Relies on `uuid::Uuid::parse_str` and `Uuid::as_u128`: the result depends
/// on the text alone, and the hyphenated and the simple lowercase forms of a
/// UUID read back as that UUID.
#[verifier::external_body]
pub(crate) fn parse_uuid(s: &str) -> (r: Option<u128>)
    ensures
        r == parsed_uuid(s@),
        forall|u: u128| #[trigger] hyphenated(u) == s@ ==> r == Some(u),
        forall|u: u128| #[trigger] simple_text(u) == s@ ==> r == Some(u),
{
    uuid::Uuid::parse_str(s).ok().map(|u| u.as_u128())
}

/// Relies on `uuid::Uuid::from_u128` (big-endian) and the lowercase
/// hyphenated form of `Uuid`'s `to_string`.
#[verifier::external_body]
pub(crate) fn uuid_text(u: u128) -> (r: String)
    ensures
        r@ == hyphenated(u),
{
    uuid::Uuid::from_u128(u).hyphenated().to_string()
}

} // verus!
