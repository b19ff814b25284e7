//! User, group and message identifiers: 128-bit values, written in the
//! hyphenated hexadecimal form.
use vstd::prelude::*;

verus! {

/// The lowercase hexadecimal digit of `d`, for `0 <= d < 16`.
pub open spec fn hex_char(d: int) -> char {
    if 0 <= d < 16 {
        seq!['0', '1', '2', '3', '4', '5', '6', '7', '8', '9', 'a', 'b', 'c', 'd', 'e', 'f'][d]
    } else {
        '0'
    }
}

/// The lowest `n` hexadecimal digits of `x`, most significant first.
pub open spec fn hex_digits(x: nat, n: nat) -> Seq<char>
    decreases n,
{
    if n == 0 {
        Seq::empty()
    } else {
        hex_digits(x / 16, (n - 1) as nat).push(hex_char((x % 16) as int))
    }
}

/// The 8-4-4-4-12 hyphenated form of an identifier, most significant digit
/// first.
pub open spec fn hyphenated(id: u128) -> Seq<char> {
    let h = hex_digits(id as nat, 32);
    h.subrange(0, 8) + seq!['-'] + h.subrange(8, 12) + seq!['-'] + h.subrange(12, 16) + seq![
        '-',
    ] + h.subrange(16, 20) + seq!['-'] + h.subrange(20, 32)
}

/// What `uuid::Uuid::parse_str` reads from a text, as a 128-bit value.
pub uninterp spec fn parsed_uuid(text: Seq<char>) -> Option<u128>;

/// Relies on `uuid::Uuid::from_u128` and the `Display` of `Uuid`: the
/// hyphenated lowercase form, most significant byte first.
#[verifier::external_body]
pub(crate) fn uuid_text(id: u128) -> (r: String)
    ensures
        r@ == hyphenated(id),
{
    uuid::Uuid::from_u128(id).to_string()
}

/// Relies on `uuid::Uuid::parse_str`: the identifier a text spells, if any.
#[verifier::external_body]
pub(crate) fn parse_uuid(text: &str) -> (r: Option<u128>)
    ensures
        r == parsed_uuid(text@),
{
    uuid::Uuid::parse_str(text).ok().map(|u| u.as_u128())
}

/// Relies on `uuid::Uuid::new_v4`: a random identifier.
#[verifier::external_body]
pub(crate) fn fresh_uuid() -> (r: u128) {
    uuid::Uuid::new_v4().as_u128()
}

} // verus!
