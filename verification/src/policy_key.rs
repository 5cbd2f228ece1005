//! The key that policy signatures are checked with, and the texts of ids.

use crate::endpoint::hex_digits;
use vstd::prelude::*;

verus! {

/// Whether a character is a hexadecimal digit of either case.
pub open spec fn is_hex(c: char) -> bool {
    ('0' <= c && c <= '9') || ('a' <= c && c <= 'f') || ('A' <= c && c <= 'F')
}

/// The value of a hexadecimal digit.
pub open spec fn hex_value(c: char) -> int {
    if c <= '9' {
        c as int - '0' as int
    } else if c <= 'F' {
        c as int - 'A' as int + 10
    } else {
        c as int - 'a' as int + 10
    }
}

/// The bytes that a text of hexadecimal digit pairs stands for.
pub open spec fn unhexed(s: Seq<char>) -> Option<Seq<u8>> {
    if s.len() % 2 == 0 && forall|i: int| 0 <= i < s.len() ==> is_hex(#[trigger] s[i]) {
        Some(
            Seq::new(
                s.len() / 2,
                |i: int| (16 * hex_value(s[2 * i]) + hex_value(s[2 * i + 1])) as u8,
            ),
        )
    } else {
        None
    }
}

/// Whether `VerifyingKey::from_bytes` takes these 32 bytes: they are the
/// compressed form of a point of the curve.
pub uninterp spec fn is_curve_point(key: Seq<u8>) -> bool;

/// The hyphenated text of a UUID: its 32 lower-case hexadecimal digits in
/// groups of 8, 4, 4, 4 and 12.
pub open spec fn uuid_hyphenated(id: u128) -> Seq<char> {
    let h = hex_digits(id as nat, 32);
    h.subrange(0, 8) + seq!['-'] + h.subrange(8, 12) + seq!['-'] + h.subrange(12, 16) + seq!['-']
        + h.subrange(16, 20) + seq!['-'] + h.subrange(20, 32)
}

/// Calls `hex::decode`: the bytes of a text made of pairs of hexadecimal
/// digits of either case, and nothing for any other text.
#[verifier::external_body]
fn hex_decode(s: &str) -> (r: Option<Vec<u8>>)
    ensures
        r is Some <==> unhexed(s@) is Some,
        r matches Some(v) ==> unhexed(s@) == Some(v@),
{
    hex::decode(s).ok()
}

/// Calls `ed25519_dalek::VerifyingKey::from_bytes`, whose outcome depends on
/// the 32 bytes alone.
#[verifier::external_body]
fn point_decodes(key: &[u8]) -> (r: bool)
    requires
        key@.len() == 32,
    ensures
        r == is_curve_point(key@),
{
    match key.try_into() {
        Ok(bytes) => ed25519_dalek::VerifyingKey::from_bytes(bytes).is_ok(),
        Err(_) => false,
    }
}

/// Calls `Uuid::to_string`, which writes the hyphenated form in lower case.
#[verifier::external_body]
pub(crate) fn uuid_text(id: u128) -> (r: String)
    ensures
        r@ == uuid_hyphenated(id),
{
    uuid::Uuid::from_u128(id).to_string()
}

/// The key that a configured text gives: 32 bytes in hexadecimal that are a
/// point of the curve.
pub open spec fn policy_key(hex_key: Option<Seq<char>>) -> Option<Seq<u8>> {
    match hex_key {
        Some(s) => match unhexed(s) {
            Some(key) => if key.len() == 32 && is_curve_point(key) {
                Some(key)
            } else {
                None
            },
            None => None,
        },
        None => None,
    }
}

/// The characters of an optional borrowed text.
pub open spec fn opt_str(o: Option<&str>) -> Option<Seq<char>> {
    match o {
        Some(s) => Some(s@),
        None => None,
    }
}

/// The bytes of the policy key, where the configured text is one.
pub fn parse_policy_vk(hex_key: Option<&str>) -> (r: Option<Vec<u8>>)
    ensures
        r is Some <==> policy_key(opt_str(hex_key)) is Some,
        r matches Some(key) ==> policy_key(opt_str(hex_key)) == Some(key@),
{
    let hex = match hex_key {
        Some(hex) => hex,
        None => {
            return None;
        },
    };
    match hex_decode(hex) {
        Some(key) => {
            let is_point = key.len() == 32 && point_decodes(key.as_slice());
            accept_key(key, is_point)
        },
        None => None,
    }
}

/// Takes decoded bytes as a key when there are 32 of them and they are a
/// point of the curve.
pub fn accept_key(key: Vec<u8>, is_point: bool) -> (r: Option<Vec<u8>>)
    ensures
        r == if key@.len() == 32 && is_point {
            Some(key)
        } else {
            None
        },
{
    if key.len() == 32 && is_point {
        Some(key)
    } else {
        None
    }
}

/// The text says which network is missing.
pub open spec fn missing_network(id: u128) -> Seq<char> {
    "network "@ + uuid_hyphenated(id) + " not in snapshot"@
}

} // verus!
