//! Execution identifiers: UUIDs, held as their 128-bit values.

use vstd::prelude::*;

verus! {

/// The version-5 UUID of `name` in `namespace` (SHA-1 based), as `Uuid::new_v5` makes it.
pub uninterp spec fn uuid_v5(namespace: u128, name: Seq<u8>) -> u128;

/// The lower-case hexadecimal digit for `d`, below 16.
pub open spec fn hex_char(d: u128) -> char {
    if d < 10 {
        (d + 48) as char
    } else {
        (d + 87) as char
    }
}

/// The 32 lower-case hexadecimal digits of `id`, most significant first.
pub open spec fn uuid_hex(id: u128) -> Seq<char> {
    Seq::new(32, |i: int| hex_char((id >> ((124 - 4 * i) as u128)) & 0xfu128))
}

/// The hyphenated lower-case text of a UUID, as `Uuid`'s `Display` writes it:
/// its hexadecimal digits in groups of 8, 4, 4, 4 and 12, joined by `-`.
pub open spec fn uuid_text(id: u128) -> Seq<char> {
    let h = uuid_hex(id);
    h.subrange(0, 8) + seq!['-'] + h.subrange(8, 12) + seq!['-'] + h.subrange(12, 16) + seq!['-']
        + h.subrange(16, 20) + seq!['-'] + h.subrange(20, 32)
}

/// What `Uuid::parse_str` makes of `text`.
pub uninterp spec fn uuid_parse(text: Seq<char>) -> Option<u128>;

/// Whether `id` is marked as a version-5 UUID of the RFC 4122 variant: its
/// version nibble is 5 and its variant bits are `10`.
pub open spec fn is_v5(id: u128) -> bool {
    (id >> 76u128) & 0xfu128 == 5 && (id >> 62u128) & 3u128 == 2
}

/// Calls `Uuid::new_v5`: the result is the named function of the namespace and
/// the name, and `Builder::from_sha1_bytes` marks it as version 5 of the
/// RFC 4122 variant.
#[verifier::external_body]
pub(crate) fn new_v5(namespace: u128, name: &[u8]) -> (r: u128)
    ensures
        r == uuid_v5(namespace, name@),
        is_v5(r),
{
    uuid::Uuid::new_v5(&uuid::Uuid::from_u128(namespace), name).as_u128()
}

/// Calls `Uuid::new_v4`: a random UUID. Nothing is stated of its value.
#[verifier::external_body]
pub(crate) fn new_v4() -> (r: u128) {
    uuid::Uuid::new_v4().as_u128()
}

/// Calls `Uuid::to_string`: the hyphenated lower-case text of `id`, which
/// `Uuid::parse_str` reads back as `id`.
#[verifier::external_body]
pub(crate) fn uuid_to_string(id: u128) -> (r: String)
    ensures
        r@ == uuid_text(id),
        uuid_parse(r@) == Some(id),
{
    uuid::Uuid::from_u128(id).to_string()
}

/// Calls `Uuid::parse_str`: the UUID `text` spells in one of its formats, if any.
#[verifier::external_body]
pub(crate) fn parse_uuid(text: &str) -> (r: Option<u128>)
    ensures
        r == uuid_parse(text@),
{
    match uuid::Uuid::parse_str(text) {
        Ok(id) => Some(id.as_u128()),
        Err(_) => None,
    }
}

} // verus!
