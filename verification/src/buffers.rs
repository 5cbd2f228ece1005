//! The byte containers of the `bytes` crate, with their contents as sequences.

use bytes::{BufMut, Bytes, BytesMut};
use vstd::prelude::*;

verus! {

#[verifier::external_type_specification]
#[verifier::external_body]
pub struct ExBytes(bytes::Bytes);

#[verifier::external_type_specification]
#[verifier::external_body]
pub struct ExBytesMut(bytes::BytesMut);

/// What a `Bytes` holds.
pub uninterp spec fn bytes_of(b: Bytes) -> Seq<u8>;

/// What has been written to a `BytesMut`.
pub uninterp spec fn written(b: BytesMut) -> Seq<u8>;

/// The big-endian form of `n` in `width` bytes.
pub open spec fn be(n: nat, width: nat) -> Seq<u8>
    decreases width,
{
    if width == 0 {
        Seq::empty()
    } else {
        be(n / 256, (width - 1) as nat).push((n % 256) as u8)
    }
}

/// The number that big-endian bytes stand for.
pub open spec fn from_be(s: Seq<u8>) -> nat
    decreases s.len(),
{
    if s.len() == 0 {
        0
    } else {
        from_be(s.drop_last()) * 256 + s.last() as nat
    }
}

/// The first number that does not fit in `width` bytes.
pub open spec fn be_limit(width: nat) -> nat
    decreases width,
{
    if width == 0 {
        1
    } else {
        256 * be_limit((width - 1) as nat)
    }
}

/// Writing a number that fits and reading it back gives the number.
pub proof fn lemma_be_round_trip(n: nat, width: nat)
    requires
        n < be_limit(width),
    ensures
        be(n, width).len() == width,
        from_be(be(n, width)) == n,
    decreases width,
{
    if width > 0 {
        let w = (width - 1) as nat;
        lemma_be_round_trip(n / 256, w);
        assert(be(n, width).drop_last() =~= be(n / 256, w));
    }
}

/// A big-endian form has the width that was asked for.
pub proof fn lemma_be_len(n: nat, width: nat)
    ensures
        be(n, width).len() == width,
    decreases width,
{
    if width > 0 {
        lemma_be_len(n / 256, (width - 1) as nat);
    }
}

/// What `width` bytes can hold.
pub proof fn lemma_be_limits()
    ensures
        be_limit(2) == 0x1_0000,
        be_limit(4) == 0x1_0000_0000,
        be_limit(16) == 0x1_0000_0000_0000_0000_0000_0000_0000_0000,
{
    reveal_with_fuel(be_limit, 17);
}

proof fn lemma_from_be_bound(s: Seq<u8>)
    ensures
        from_be(s) < be_limit(s.len()),
    decreases s.len(),
{
    if s.len() > 0 {
        lemma_from_be_bound(s.drop_last());
    }
}

/// Calls `BytesMut::with_capacity`: a buffer that nothing has been written to.
#[verifier::external_body]
pub(crate) fn buf_with_capacity(capacity: usize) -> (r: BytesMut)
    requires
        capacity <= isize::MAX,
    ensures
        written(r) == Seq::<u8>::empty(),
{
    BytesMut::with_capacity(capacity)
}

/// Calls `BufMut::put_u8`, which appends the byte.
#[verifier::external_body]
pub(crate) fn put_u8(buf: &mut BytesMut, n: u8)
    requires
        written(*old(buf)).len() + 1 <= isize::MAX,
    ensures
        written(*final(buf)) == written(*old(buf)).push(n),
{
    buf.put_u8(n);
}

/// Calls `BufMut::put_u16`, which appends the number in big-endian order.
#[verifier::external_body]
pub(crate) fn put_u16(buf: &mut BytesMut, n: u16)
    requires
        written(*old(buf)).len() + 2 <= isize::MAX,
    ensures
        written(*final(buf)) == written(*old(buf)) + be(n as nat, 2),
{
    buf.put_u16(n);
}

/// Calls `BufMut::put_u32`, which appends the number in big-endian order.
#[verifier::external_body]
pub(crate) fn put_u32(buf: &mut BytesMut, n: u32)
    requires
        written(*old(buf)).len() + 4 <= isize::MAX,
    ensures
        written(*final(buf)) == written(*old(buf)) + be(n as nat, 4),
{
    buf.put_u32(n);
}

/// Calls `BufMut::put_slice`, which appends the bytes.
#[verifier::external_body]
pub(crate) fn put_slice(buf: &mut BytesMut, src: &[u8])
    requires
        written(*old(buf)).len() + src@.len() <= isize::MAX,
    ensures
        written(*final(buf)) == written(*old(buf)) + src@,
{
    buf.put_slice(src);
}

/// Calls `BytesMut::extend_from_slice`, which appends the bytes.
#[verifier::external_body]
pub(crate) fn extend_from_slice(buf: &mut BytesMut, src: &[u8])
    requires
        written(*old(buf)).len() + src@.len() <= isize::MAX,
    ensures
        written(*final(buf)) == written(*old(buf)) + src@,
{
    buf.extend_from_slice(src);
}

/// Calls `BytesMut::len`: how many bytes have been written.
#[verifier::external_body]
pub(crate) fn buf_len(buf: &BytesMut) -> (r: usize)
    ensures
        r == written(*buf).len(),
{
    buf.len()
}

/// Calls `BytesMut::freeze`, which keeps the bytes that were written.
#[verifier::external_body]
pub(crate) fn freeze(buf: BytesMut) -> (r: Bytes)
    ensures
        bytes_of(r) == written(buf),
{
    buf.freeze()
}

/// Calls `Bytes::copy_from_slice`, which holds a copy of the slice.
#[verifier::external_body]
pub(crate) fn bytes_copy(src: &[u8]) -> (r: Bytes)
    ensures
        bytes_of(r) == src@,
{
    Bytes::copy_from_slice(src)
}

/// Calls `Bytes::deref`: the held bytes as a slice.
#[verifier::external_body]
pub(crate) fn bytes_slice(b: &Bytes) -> (r: &[u8])
    ensures
        r@ == bytes_of(*b),
{
    b
}

/// The sixteen big-endian bytes of an identifier.
pub fn id_bytes(id: u128) -> (r: Vec<u8>)
    ensures
        r@ == be(id as nat, 16),
{
    let mut out: Vec<u8> = Vec::new();
    let mut shift: u32 = 16;
    let mut digits: Vec<u8> = Vec::new();
    let mut rest: u128 = id;
    // Collect the bytes from the least significant one, then turn them round.
    while shift > 0
        invariant
            shift <= 16,
            digits@.len() == 16 - shift,
            be(id as nat, 16) == be(rest as nat, shift as nat) + digits@.reverse(),
        decreases shift,
    {
        proof {
            assert(be(rest as nat, shift as nat) == be(
                rest as nat / 256,
                (shift - 1) as nat,
            ).push((rest % 256) as u8));
        }
        let ghost before = digits@;
        digits.push((rest % 256) as u8);
        proof {
            assert(digits@.reverse() =~= seq![(rest % 256) as u8] + before.reverse());
            assert(be(rest as nat / 256, (shift - 1) as nat).push((rest % 256) as u8)
                + before.reverse() =~= be(rest as nat / 256, (shift - 1) as nat)
                + digits@.reverse());
        }
        rest = rest / 256;
        shift = shift - 1;
    }
    let mut i: usize = 16;
    while i > 0
        invariant
            i <= 16,
            digits@.len() == 16,
            out@ =~= digits@.reverse().take(16 - i),
        decreases i,
    {
        out.push(digits[i - 1]);
        i = i - 1;
    }
    proof {
        assert(be(rest as nat, 0) =~= Seq::<u8>::empty());
        assert(out@ =~= digits@.reverse());
    }
    out
}

/// The number in `width` big-endian bytes of `buf` from `from` on.
pub fn read_be(buf: &[u8], from: usize, width: usize) -> (r: u128)
    requires
        width <= 16,
        from + width <= buf@.len(),
    ensures
        r == from_be(buf@.subrange(from as int, from + width)),
        r < be_limit(width as nat),
{
    let mut n: u128 = 0;
    let mut i: usize = 0;
    let available: usize = buf.len();
    proof {
        lemma_be_limits();
    }
    while i < width
        invariant
            i <= width <= 16,
            from + width <= buf@.len(),
            buf@.len() == available,
            n == from_be(buf@.subrange(from as int, from + i)),
            be_limit(16) == 0x1_0000_0000_0000_0000_0000_0000_0000_0000,
        decreases width - i,
    {
        proof {
            let s = buf@.subrange(from as int, from + i + 1);
            assert(s.drop_last() =~= buf@.subrange(from as int, from + i));
            lemma_from_be_bound(s);
            lemma_limit_mono(s.len(), 16);
        }
        n = n * 256 + buf[from + i] as u128;
        i = i + 1;
    }
    proof {
        lemma_from_be_bound(buf@.subrange(from as int, from + width));
    }
    n
}

proof fn lemma_limit_mono(a: nat, b: nat)
    requires
        a <= b,
    ensures
        be_limit(a) <= be_limit(b),
    decreases b,
{
    if a < b {
        lemma_limit_mono(a, (b - 1) as nat);
    }
}

} // verus!
