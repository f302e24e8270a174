use vstd::prelude::*;

use vstd::arithmetic::power::pow;

verus! {

/// The identifier, if any, that a cookie's text spells.
pub uninterp spec fn parsed_token(s: Seq<char>) -> Option<u128>;

/// The lower-case hexadecimal digit of `n`, for `0 <= n < 16`.
pub open spec fn hex_digit(n: int) -> char {
    seq!['0', '1', '2', '3', '4', '5', '6', '7', '8', '9', 'a', 'b', 'c', 'd', 'e', 'f'][n]
}

/// Whether position `i` of an identifier's hyphenated text holds a hyphen.
pub open spec fn is_hyphen_at(i: int) -> bool {
    i == 8 || i == 13 || i == 18 || i == 23
}

/// How many hyphens stand before position `i` of the hyphenated text.
pub open spec fn hyphens_before(i: int) -> int {
    if i <= 8 {
        0
    } else if i <= 13 {
        1
    } else if i <= 18 {
        2
    } else if i <= 23 {
        3
    } else {
        4
    }
}

/// The canonical text of an identifier: its 32 hexadecimal digits, most
/// significant first, in groups of 8, 4, 4, 4 and 12 joined by hyphens.
pub open spec fn token_text(id: u128) -> Seq<char> {
    Seq::new(
        36,
        |i: int|
            if is_hyphen_at(i) {
                '-'
            } else {
                hex_digit((id as int / pow(16, (31 - (i - hyphens_before(i))) as nat)) % 16)
            },
    )
}

/// Relies on uuid::Uuid::new_v4: a fresh random version-4 identifier, read as
/// a 128-bit integer. Nothing is promised of its value.
#[verifier::external_body]
pub(crate) fn random_token() -> (r: u128) {
    uuid::Uuid::new_v4().as_u128()
}

/// Relies on uuid::Uuid::parse_str: whether text is an identifier, and which,
/// depends on the text alone; empty text is no identifier.
#[verifier::external_body]
pub(crate) fn parse_token(s: &str) -> (r: Option<u128>)
    ensures
        r == parsed_token(s@),
        s@.len() == 0 ==> r is None,
{
    match uuid::Uuid::parse_str(s) {
        Ok(u) => Some(u.as_u128()),
        Err(_) => None,
    }
}

/// Relies on uuid::Uuid's Display, which writes the hyphenated lower-case
/// form, and on uuid::Uuid::parse_str, which reads that form back to the
/// same identifier.
#[verifier::external_body]
pub(crate) fn format_token(id: u128) -> (r: String)
    ensures
        r@ == token_text(id),
        parsed_token(r@) == Some(id),
{
    uuid::Uuid::from_u128(id).to_string()
}

} // verus!
