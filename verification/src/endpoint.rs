//! Endpoint identities: the 32 bytes of a public key.

use crate::text::join2;
use iroh_base::PublicKey;
use vstd::prelude::*;

verus! {

/// A public key as two 128-bit halves, most significant byte first.
#[derive(Clone, Copy, Debug, PartialEq, Eq, Structural)]
pub struct EndpointId {
    pub hi: u128,
    pub lo: u128,
}

/// The lower-case hexadecimal digit for a value below 16.
pub open spec fn hex_digit(d: int) -> char {
    if d < 10 {
        (48 + d) as char
    } else {
        (87 + d) as char
    }
}

/// The last `width` hexadecimal digits of a number.
pub open spec fn hex_digits(n: nat, width: nat) -> Seq<char>
    decreases width,
{
    if width == 0 {
        Seq::empty()
    } else {
        hex_digits(n / 16, (width - 1) as nat).push(hex_digit((n % 16) as int))
    }
}

/// The key that `PublicKey::from_str` reads from a text, as its two halves.
pub uninterp spec fn key_of_text(s: Seq<char>) -> Option<(u128, u128)>;

/// The identity that a text names.
pub open spec fn endpoint_of(s: Seq<char>) -> Option<EndpointId> {
    match key_of_text(s) {
        Some(k) => Some(EndpointId { hi: k.0, lo: k.1 }),
        None => None,
    }
}

/// Calls `PublicKey::from_str`, which takes the hexadecimal or base-32 form of
/// a key that lies on the curve. The outcome depends on the text alone. A text
/// of 64 characters is taken only in lower-case hexadecimal, so it is then the
/// text that the key is written as.
#[verifier::external_body]
fn parse_key(s: &str) -> (r: Option<(u128, u128)>)
    ensures
        r == key_of_text(s@),
        r matches Some(k) ==> s@.len() == 64 ==> s@ == hex_digits(k.0 as nat, 32) + hex_digits(
            k.1 as nat,
            32,
        ),
{
    let key: PublicKey = s.parse().ok()?;
    let (hi, lo) = key.as_bytes().split_at(16);
    Some((u128::from_be_bytes(hi.try_into().ok()?), u128::from_be_bytes(lo.try_into().ok()?)))
}

fn hex_char_text(d: u8) -> (r: &'static str)
    requires
        d < 16,
    ensures
        r@ == seq![hex_digit(d as int)],
{
    proof {
        reveal_strlit("0");
        reveal_strlit("1");
        reveal_strlit("2");
        reveal_strlit("3");
        reveal_strlit("4");
        reveal_strlit("5");
        reveal_strlit("6");
        reveal_strlit("7");
        reveal_strlit("8");
        reveal_strlit("9");
        reveal_strlit("a");
        reveal_strlit("b");
        reveal_strlit("c");
        reveal_strlit("d");
        reveal_strlit("e");
        reveal_strlit("f");
    }
    let r = match d {
        0 => "0",
        1 => "1",
        2 => "2",
        3 => "3",
        4 => "4",
        5 => "5",
        6 => "6",
        7 => "7",
        8 => "8",
        9 => "9",
        10 => "a",
        11 => "b",
        12 => "c",
        13 => "d",
        14 => "e",
        _ => "f",
    };
    proof {
        assert(r@ =~= seq![hex_digit(d as int)]);
    }
    r
}

fn hex_half(n: u128) -> (r: String)
    ensures
        r@ == hex_digits(n as nat, 32),
{
    let mut rest: u128 = n;
    let mut out = String::new();
    let mut left: usize = 32;
    while left > 0
        invariant
            left <= 32,
            hex_digits(n as nat, 32) == hex_digits(rest as nat, left as nat) + out@,
        decreases left,
    {
        let digit = hex_char_text((rest % 16) as u8);
        let ghost before = out@;
        out = join2(digit, out.as_str());
        proof {
            assert(hex_digits(rest as nat, left as nat) == hex_digits(
                rest as nat / 16,
                (left - 1) as nat,
            ).push(hex_digit((rest % 16) as int)));
            assert(hex_digits(rest as nat / 16, (left - 1) as nat).push(
                hex_digit((rest % 16) as int),
            ) + before =~= hex_digits(rest as nat / 16, (left - 1) as nat) + out@);
        }
        rest = rest / 16;
        left = left - 1;
    }
    proof {
        assert(hex_digits(rest as nat, 0) =~= Seq::<char>::empty());
        assert(Seq::<char>::empty() + out@ =~= out@);
    }
    out
}

impl EndpointId {
    /// The 64 hexadecimal digits of the key.
    pub open spec fn hex(self) -> Seq<char> {
        hex_digits(self.hi as nat, 32) + hex_digits(self.lo as nat, 32)
    }

    /// The key as one number: keys are ordered as their bytes are.
    pub open spec fn rank(self) -> int {
        self.hi * 0x1_0000_0000_0000_0000_0000_0000_0000_0000 + self.lo
    }

    /// Reads an identity from its text, `None` when the text names no key.
    pub fn parse(s: &str) -> (r: Option<EndpointId>)
        ensures
            r == endpoint_of(s@),
            r matches Some(id) ==> s@.len() == 64 ==> id.hex() == s@,
    {
        match parse_key(s) {
            Some(k) => Some(EndpointId { hi: k.0, lo: k.1 }),
            None => None,
        }
    }

    /// The canonical text: 64 lower-case hexadecimal digits.
    pub fn to_hex(&self) -> (r: String)
        ensures
            r@ == self.hex(),
    {
        let hi = hex_half(self.hi);
        let lo = hex_half(self.lo);
        join2(hi.as_str(), lo.as_str())
    }

    /// Whether this key comes before the other in byte order.
    pub fn is_below(&self, other: &EndpointId) -> (r: bool)
        ensures
            r == (self.rank() < other.rank()),
    {
        self.hi < other.hi || (self.hi == other.hi && self.lo < other.lo)
    }
}

/// Distinct keys have distinct ranks.
pub proof fn law_rank_is_injective(a: EndpointId, b: EndpointId)
    requires
        a.rank() == b.rank(),
    ensures
        a == b,
{
}

} // verus!
