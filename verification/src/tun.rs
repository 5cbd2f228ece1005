//! Sizes and buffers of the tunnel interface.

use vstd::prelude::*;

verus! {

/// How many packets wait to be written to the interface.
pub const TUN_WRITE_QUEUE: usize = 64;

/// How many packets are read in one go where reads can be tried.
pub const WINDOWS_BURST: usize = 32;

/// An error of the operating system.
#[verifier::external_type_specification]
#[verifier::external_body]
pub struct ExIoError(std::io::Error);

/// Whether a burst goes on after an attempt: only a packet that is not empty
/// keeps it going.
pub open spec fn keeps_going<E>(a: Result<usize, E>) -> bool {
    a matches Ok(n) && n > 0
}

/// How many packets a burst takes of a row of attempts, at most `max`.
pub open spec fn burst<E>(attempts: Seq<Result<usize, E>>, max: nat) -> nat
    decreases max,
{
    if max == 0 || attempts.len() == 0 || !keeps_going(attempts[0]) {
        0
    } else {
        1 + burst(attempts.drop_first(), (max - 1) as nat)
    }
}

/// Counts the packets that a burst takes of a row of attempts.
pub fn burst_len<E>(attempts: &[Result<usize, E>], max: usize) -> (r: usize)
    ensures
        r == burst(attempts@, max as nat),
{
    let mut n: usize = 0;
    proof {
        assert(attempts@.skip(0) =~= attempts@);
    }
    while n < max && n < attempts.len()
        invariant
            n <= max,
            n <= attempts@.len(),
            burst(attempts@, max as nat) == n + burst(attempts@.skip(n as int), (max - n) as nat),
        decreases max - n,
    {
        let ghost rest = attempts@.skip(n as int);
        proof {
            assert(rest.len() > 0);
            assert(rest[0] == attempts@[n as int]);
            assert(rest.drop_first() =~= attempts@.skip(n + 1));
        }
        match &attempts[n] {
            Ok(len) => if *len == 0 {
                return n;
            },
            Err(_) => {
                return n;
            },
        }
        n = n + 1;
    }
    n
}

/// Some call of a reader came to this.
pub open spec fn comes_from<F: FnMut() -> std::io::Result<usize>>(
    out: std::io::Result<usize>,
) -> bool {
    exists|f: F| #[trigger] call_ensures(f, (), out)
}

/// A burst made these reads, one after the other, and took `n` packets: every
/// read but the last gave one, and it stopped short of `max` only on a read that
/// gave none.
pub open spec fn tally<E>(outs: Seq<Result<usize, E>>, max: nat, n: nat) -> bool {
    &&& n == burst(outs, max)
    &&& n <= max
    &&& outs.len() == if n < max {
        n + 1
    } else {
        n
    }
    &&& forall|i: int| 0 <= i < n ==> keeps_going(#[trigger] outs[i])
    &&& n < max ==> !keeps_going(outs[n as int])
}

proof fn lemma_burst<E>(outs: Seq<Result<usize, E>>, max: nat, n: nat)
    requires
        n <= max,
        n <= outs.len(),
        forall|i: int| 0 <= i < n ==> keeps_going(#[trigger] outs[i]),
        n == max || n == outs.len() || !keeps_going(outs[n as int]),
    ensures
        burst(outs, max) == n,
    decreases n,
{
    if n > 0 {
        let rest = outs.drop_first();
        assert(keeps_going(outs[0]));
        assert forall|i: int| 0 <= i < n - 1 implies keeps_going(#[trigger] rest[i]) by {
            assert(rest[i] == outs[i + 1]);
        }
        if n < outs.len() {
            assert(rest[n - 1] == outs[n as int]);
        }
        lemma_burst(rest, (max - 1) as nat, (n - 1) as nat);
    }
}

/// Reads packets until there is none or `max` were read, and counts them.
pub fn drain_ready_burst<F>(max: usize, try_recv: F) -> (r: usize) where
    F: FnMut() -> std::io::Result<usize>,

    requires
        call_requires(try_recv, ()),
        forall|f: F| #[trigger] call_requires(f, ()),
    ensures
        exists|outs: Seq<std::io::Result<usize>>| #[trigger]
            tally(outs, max as nat, r as nat) && forall|i: int|
                0 <= i < outs.len() ==> comes_from::<F>(#[trigger] outs[i]),
{
    let mut try_recv = try_recv;
    let ghost mut outs: Seq<std::io::Result<usize>> = Seq::empty();
    let mut n: usize = 0;
    while n < max
        invariant
            n <= max,
            forall|f: F| #[trigger] call_requires(f, ()),
            outs.len() == n,
            forall|i: int| 0 <= i < n ==> keeps_going(#[trigger] outs[i]),
            forall|i: int|
                0 <= i < outs.len() ==> comes_from::<F>(#[trigger] outs[i]),
        decreases max - n,
    {
        let ghost reader = try_recv;
        let out = try_recv();
        let ghost before = outs;
        proof {
            outs = outs.push(out);
            assert forall|i: int| 0 <= i < outs.len() implies comes_from::<F>(
                #[trigger] outs[i],
            ) by {
                if i < n {
                    assert(outs[i] == before[i]);
                } else {
                    assert(outs[i] == out);
                    assert(call_ensures(reader, (), out));
                }
            }
            assert forall|i: int| 0 <= i < n implies keeps_going(#[trigger] outs[i]) by {
                assert(outs[i] == before[i]);
            }
        }
        let more = match &out {
            Ok(len) => *len > 0,
            Err(_) => false,
        };
        if !more {
            proof {
                lemma_burst(outs, max as nat, n as nat);
                assert(tally(outs, max as nat, n as nat));
            }
            return n;
        }
        n = n + 1;
    }
    proof {
        lemma_burst(outs, max as nat, n as nat);
        assert(tally(outs, max as nat, n as nat));
    }
    n
}

/// A buffer for one packet, which always shows its whole length.
#[derive(Debug)]
pub struct RecvSlot {
    buf: Vec<u8>,
}

impl View for RecvSlot {
    type V = Seq<u8>;

    closed spec fn view(&self) -> Seq<u8> {
        self.buf@
    }
}

fn zeros(len: usize) -> (r: Vec<u8>)
    ensures
        r@ == Seq::new(len as nat, |i: int| 0u8),
{
    let mut v: Vec<u8> = Vec::new();
    while v.len() < len
        invariant
            v@.len() <= len,
            v@ =~= Seq::new(v@.len(), |i: int| 0u8),
        decreases len - v@.len(),
    {
        v.push(0);
    }
    v
}

impl RecvSlot {
    /// A buffer of `cap` zero bytes.
    pub fn with_capacity(cap: usize) -> (r: RecvSlot)
        ensures
            r@ == Seq::new(cap as nat, |i: int| 0u8),
    {
        RecvSlot { buf: zeros(cap) }
    }

    /// The whole buffer, whatever was read into it.
    pub fn as_ref(&self) -> (r: &[u8])
        ensures
            r@ == self@,
    {
        self.buf.as_slice()
    }

    /// The whole buffer, to read into.
    pub fn as_mut(&mut self) -> (r: &mut [u8])
        ensures
            r@ == old(self)@,
            final(self)@ == final(r)@,
    {
        self.buf.as_mut_slice()
    }
}

/// Reads `tun_rs::VIRTIO_NET_HDR_LEN`: the size of `VirtioNetHdr`, a C struct
/// of two one-byte and four two-byte fields.
#[verifier::external_body]
fn virtio_header_len() -> (r: usize)
    ensures
        r == 10,
{
    tun_rs::VIRTIO_NET_HDR_LEN
}

/// A packet behind an empty virtio header, as Linux takes it.
pub fn stage_virtio(pkt: &[u8]) -> (r: Vec<u8>)
    ensures
        r@ == Seq::new(10, |i: int| 0u8) + pkt@,
{
    let mut buf = zeros(virtio_header_len());
    buf.extend_from_slice(pkt);
    proof {
        assert(buf@ =~= Seq::new(10, |i: int| 0u8) + pkt@);
    }
    buf
}

/// The size of the buffer that packets are read into: the interface's packets
/// fit, 1280 bytes at least, with room to spare.
pub fn reader_buffer_len(mtu: u16) -> (r: usize)
    ensures
        r == (if mtu > 1280 {
            mtu as int
        } else {
            1280
        }) + 256,
{
    let len: usize = mtu as usize;
    if len > 1280 {
        len + 256
    } else {
        1280 + 256
    }
}

/// The addresses that the interface is set up with: the first with the
/// network's prefix, each other one on its own. Without an address there is no
/// interface.
pub fn tun_addresses(addrs: &[u32], prefix: u8) -> (r: Option<Vec<(u32, u8)>>)
    ensures
        r is Some <==> addrs@.len() > 0,
        r matches Some(v) ==> v@ == Seq::new(
            addrs@.len(),
            |i: int|
                (
                    addrs@[i],
                    if i == 0 {
                        prefix
                    } else {
                        32u8
                    },
                ),
        ),
{
    if addrs.len() == 0 {
        return None;
    }
    let mut out: Vec<(u32, u8)> = Vec::new();
    let mut i: usize = 0;
    let ghost all = Seq::new(
        addrs@.len(),
        |i: int|
            (
                addrs@[i],
                if i == 0 {
                    prefix
                } else {
                    32u8
                },
            ),
    );
    while i < addrs.len()
        invariant
            i <= addrs@.len(),
            all == Seq::new(
                addrs@.len(),
                |i: int|
                    (
                        addrs@[i],
                        if i == 0 {
                            prefix
                        } else {
                            32u8
                        },
                    ),
            ),
            out@ =~= all.take(i as int),
        decreases addrs@.len() - i,
    {
        if i == 0 {
            out.push((addrs[i], prefix));
        } else {
            out.push((addrs[i], 32));
        }
        i = i + 1;
    }
    proof {
        assert(all.take(i as int) =~= all);
    }
    Some(out)
}

} // verus!
