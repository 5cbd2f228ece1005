//! IPv4 addresses and networks.
//!
//! An address is its 32-bit number, most significant octet first, so that
//! `10.7.0.5` is `0x0a07_0005`.

use crate::text::{decimal, join3, u64_text};
use vstd::arithmetic::power2::{lemma2_to64, lemma_pow2_pos, lemma_pow2_strictly_increases, pow2};
use vstd::bits::lemma_u64_shl_is_mul;
use vstd::prelude::*;

verus! {

/// How many addresses a prefix of this length leaves open.
pub open spec fn block_size(len: u8) -> nat {
    pow2((32 - len) as nat)
}

/// The first address of the block of the given prefix length that holds `addr`.
pub open spec fn block_start(addr: u32, len: u8) -> int {
    addr - (addr as int) % (block_size(len) as int)
}

/// The two addresses agree on the first `len` bits.
pub open spec fn same_block(a: u32, b: u32, len: u8) -> bool {
    (a as int) / (block_size(len) as int) == (b as int) / (block_size(len) as int)
}

/// Octet `i` of an address, counted from the most significant.
pub open spec fn octet(ip: u32, i: int) -> int {
    if i == 0 {
        ip as int / 0x100_0000
    } else if i == 1 {
        ip as int / 0x1_0000 % 0x100
    } else if i == 2 {
        ip as int / 0x100 % 0x100
    } else {
        ip as int % 0x100
    }
}

/// The dotted decimal text of an address.
pub open spec fn dotted(ip: u32) -> Seq<char> {
    decimal(octet(ip, 0) as nat) + "."@ + decimal(octet(ip, 1) as nat) + "."@ + decimal(
        octet(ip, 2) as nat,
    ) + "."@ + decimal(octet(ip, 3) as nat)
}

/// `224.0.0.0/4`.
pub open spec fn multicast(ip: u32) -> bool {
    224 <= octet(ip, 0) <= 239
}

/// `255.255.255.255`.
pub open spec fn broadcast_all(ip: u32) -> bool {
    ip == 0xffff_ffff
}

/// `127.0.0.0/8`.
pub open spec fn loopback(ip: u32) -> bool {
    octet(ip, 0) == 127
}

/// `169.254.0.0/16`.
pub open spec fn link_local(ip: u32) -> bool {
    octet(ip, 0) == 169 && octet(ip, 1) == 254
}

/// `0.0.0.0`.
pub open spec fn unspecified(ip: u32) -> bool {
    ip == 0
}

/// `10.0.0.0/8`, `172.16.0.0/12` or `192.168.0.0/16`.
pub open spec fn private_lan(ip: u32) -> bool {
    ||| octet(ip, 0) == 10
    ||| octet(ip, 0) == 172 && 16 <= octet(ip, 1) <= 31
    ||| octet(ip, 0) == 192 && octet(ip, 1) == 168
}

/// The address made of four octets.
pub fn ipv4(a: u8, b: u8, c: u8, d: u8) -> (r: u32)
    ensures
        r == a * 0x100_0000 + b * 0x1_0000 + c * 0x100 + d,
        octet(r, 0) == a,
        octet(r, 1) == b,
        octet(r, 2) == c,
        octet(r, 3) == d,
{
    let high: u32 = a as u32 * 0x100 + b as u32;
    let upper: u32 = high * 0x100 + c as u32;
    let r: u32 = upper * 0x100 + d as u32;
    assert(r as int / 0x100 == upper && r as int % 0x100 == d);
    assert(upper as int / 0x100 == high && upper as int % 0x100 == c);
    assert(high as int / 0x100 == a && high as int % 0x100 == b);
    assert(r as int / 0x1_0000 == high);
    assert(r as int / 0x100_0000 == a);
    r
}

/// Whether the address is a multicast group.
pub fn is_multicast(ip: u32) -> (r: bool)
    ensures
        r == multicast(ip),
{
    let first: u32 = ip / 0x100_0000;
    224 <= first && first <= 239
}

/// Whether the address is the limited broadcast address.
pub fn is_broadcast(ip: u32) -> (r: bool)
    ensures
        r == broadcast_all(ip),
{
    ip == 0xffff_ffff
}

/// Loopback, link-local, broadcast and unspecified addresses never leave the machine.
pub fn is_mesh_or_link_local(ip: u32) -> (r: bool)
    ensures
        r == (loopback(ip) || link_local(ip) || broadcast_all(ip) || unspecified(ip)),
{
    ip / 0x100_0000 == 127 || ip / 0x1_0000 == 169 * 0x100 + 254 || ip == 0xffff_ffff || ip == 0
}

/// Whether the address belongs to one of the private LAN ranges.
pub fn is_rfc1918(ip: u32) -> (r: bool)
    ensures
        r == private_lan(ip),
{
    let first: u32 = ip / 0x100_0000;
    let second: u32 = ip / 0x1_0000 % 0x100;
    first == 10 || (first == 172 && 16 <= second && second <= 31) || (first == 192 && second == 168)
}

/// The dotted decimal text of an address.
pub fn ipv4_text(ip: u32) -> (r: String)
    ensures
        r@ == dotted(ip),
{
    let a = u64_text((ip / 0x100_0000) as u64);
    let b = u64_text((ip / 0x1_0000 % 0x100) as u64);
    let c = u64_text((ip / 0x100 % 0x100) as u64);
    let d = u64_text((ip % 0x100) as u64);
    let mut out = join3(a.as_str(), ".", b.as_str());
    out.append(".");
    out.append(c.as_str());
    out.append(".");
    out.append(d.as_str());
    out
}

/// An IPv4 network: an address and a prefix length of at most 32 bits. The
/// address may carry host bits.
#[derive(Clone, Copy, Debug, PartialEq, Eq, Structural)]
pub struct Ipv4Net {
    addr: u32,
    len: u8,
}

proof fn lemma_block_bounds(len: u8)
    requires
        len <= 32,
    ensures
        1 <= block_size(len) <= 0x1_0000_0000,
{
    lemma_pow2_pos((32 - len) as nat);
    lemma2_to64();
    if len > 0 {
        lemma_pow2_strictly_increases((32 - len) as nat, 32);
    }
}

/// Two addresses lie in one block exactly when the second lies between the
/// block's first address and its last.
pub proof fn lemma_block_range(addr: u32, ip: u32, len: u8)
    requires
        len <= 32,
    ensures
        same_block(addr, ip, len) <==> block_start(addr, len) <= ip <= block_start(addr, len)
            + block_size(len) - 1,
        0 <= block_start(addr, len),
        block_start(addr, len) + block_size(len) - 1 <= 0xffff_ffff,
{
    lemma_block_bounds(len);
    let n = block_size(len) as int;
    let a = addr as int;
    let b = ip as int;
    assert(a == n * (a / n) + a % n && 0 <= a % n < n) by (nonlinear_arith)
        requires
            n >= 1,
    ;
    assert(b == n * (b / n) + b % n && 0 <= b % n < n) by (nonlinear_arith)
        requires
            n >= 1,
    ;
    let q = a / n;
    let p = b / n;
    if p == q {
    } else if p < q {
        assert(n * p + n <= n * q) by (nonlinear_arith)
            requires
                p < q,
                n >= 1,
        ;
    } else {
        assert(n * q + n <= n * p) by (nonlinear_arith)
            requires
                q < p,
                n >= 1,
        ;
    }
    // The block size divides 2^32, so the last block ends at the last address.
    vstd::arithmetic::power2::lemma_pow2_adds((32 - len) as nat, len as nat);
    lemma2_to64();
    let m = pow2(len as nat) as int;
    assert(n * m == 0x1_0000_0000);
    if q >= m {
        assert(n * q >= n * m) by (nonlinear_arith)
            requires
                q >= m,
                n >= 1,
        ;
        assert(false);
    }
    assert(n * q + n <= n * m) by (nonlinear_arith)
        requires
            q < m,
            n >= 1,
    ;
    assert(n * q >= 0) by (nonlinear_arith)
        requires
            q >= 0,
            n >= 1,
    ;
}

impl Ipv4Net {
    #[verifier::type_invariant]
    spec fn inv(self) -> bool {
        self.len <= 32
    }

    /// The address as it was given, host bits kept.
    pub closed spec fn base(self) -> u32 {
        self.addr
    }

    /// The prefix length.
    pub closed spec fn bits(self) -> u8 {
        self.len
    }

    /// The network holds the address.
    pub open spec fn holds(self, ip: u32) -> bool {
        same_block(self.base(), ip, self.bits())
    }

    /// The first address of the network.
    pub open spec fn first(self) -> int {
        block_start(self.base(), self.bits())
    }

    /// The last address of the network.
    pub open spec fn last(self) -> int {
        self.first() + block_size(self.bits()) - 1
    }

    /// The text `address/length`.
    pub open spec fn cidr_text(self) -> Seq<char> {
        dotted(self.base()) + "/"@ + decimal(self.bits() as nat)
    }

    /// A network, unless the prefix is longer than an address.
    pub fn new(addr: u32, len: u8) -> (r: Option<Ipv4Net>)
        ensures
            r is Some <==> len <= 32,
            r matches Some(n) ==> n.base() == addr && n.bits() == len,
    {
        if len <= 32 {
            Some(Ipv4Net { addr, len })
        } else {
            None
        }
    }

    /// The network that holds one address alone.
    pub fn host(addr: u32) -> (r: Ipv4Net)
        ensures
            r.base() == addr,
            r.bits() == 32,
    {
        Ipv4Net { addr, len: 32 }
    }

    /// The address as it was given.
    pub fn addr(&self) -> (r: u32)
        ensures
            r == self.base(),
    {
        self.addr
    }

    /// The prefix length.
    pub fn prefix_len(&self) -> (r: u8)
        ensures
            r == self.bits(),
            r <= 32,
    {
        proof {
            use_type_invariant(self);
        }
        self.len
    }

    fn block(&self) -> (r: u64)
        ensures
            r == block_size(self.bits()),
            1 <= r <= 0x1_0000_0000,
            self.bits() <= 32,
    {
        proof {
            use_type_invariant(self);
            lemma_block_bounds(self.len);
            lemma_u64_shl_is_mul(1, (32 - self.len) as u64);
        }
        1u64 << ((32 - self.len) as u64)
    }

    /// The first address of the network.
    pub fn network(&self) -> (r: u32)
        ensures
            r == self.first(),
    {
        let n: u64 = self.block();
        proof {
            lemma_block_range(self.addr, self.addr, self.len);
        }
        self.addr - (self.addr as u64 % n) as u32
    }

    /// The last address of the network.
    pub fn broadcast(&self) -> (r: u32)
        ensures
            r == self.last(),
    {
        let n: u64 = self.block();
        proof {
            lemma_block_range(self.addr, self.addr, self.len);
        }
        let start: u32 = self.network();
        (start as u64 + n - 1) as u32
    }

    /// Whether the network holds the address.
    pub fn contains(&self, ip: u32) -> (r: bool)
        ensures
            r == self.holds(ip),
    {
        let n: u64 = self.block();
        self.addr as u64 / n == ip as u64 / n
    }

    /// The network with its host bits cleared.
    pub fn trunc(&self) -> (r: Ipv4Net)
        ensures
            r.base() == self.first(),
            r.bits() == self.bits(),
    {
        proof {
            use_type_invariant(self);
        }
        Ipv4Net { addr: self.network(), len: self.len }
    }

    /// The text `address/length`.
    pub fn to_text(&self) -> (r: String)
        ensures
            r@ == self.cidr_text(),
    {
        let a = ipv4_text(self.addr);
        let n = u64_text(self.len as u64);
        join3(a.as_str(), "/", n.as_str())
    }
}

/// Two networks are the same when address and prefix length agree.
pub broadcast proof fn lemma_net_eq(a: Ipv4Net, b: Ipv4Net)
    ensures
        (#[trigger] a.base() == #[trigger] b.base() && a.bits() == b.bits()) ==> a == b,
{
}

/// Whether two networks share an address.
pub fn cidr_overlaps(a: &Ipv4Net, b: &Ipv4Net) -> (r: bool)
    ensures
        r <==> (exists|ip: u32| #[trigger] a.holds(ip) && b.holds(ip)),
{
    let r = a.contains(b.network()) || a.contains(b.broadcast()) || b.contains(a.network())
        || b.contains(a.broadcast());
    proof {
        use_type_invariant(a);
        use_type_invariant(b);
        let b0 = b.first() as u32;
        let b1 = b.last() as u32;
        let a0 = a.first() as u32;
        let a1 = a.last() as u32;
        lemma_block_bounds(a.bits());
        lemma_block_bounds(b.bits());
        lemma_block_range(a.base(), b0, a.bits());
        lemma_block_range(a.base(), b1, a.bits());
        lemma_block_range(a.base(), a0, a.bits());
        lemma_block_range(a.base(), a1, a.bits());
        lemma_block_range(b.base(), a0, b.bits());
        lemma_block_range(b.base(), a1, b.bits());
        lemma_block_range(b.base(), b0, b.bits());
        lemma_block_range(b.base(), b1, b.bits());
        if r {
            if a.holds(b0) {
                assert(a.holds(b0) && b.holds(b0));
            } else if a.holds(b1) {
                assert(a.holds(b1) && b.holds(b1));
            } else if b.holds(a0) {
                assert(a.holds(a0) && b.holds(a0));
            } else {
                assert(a.holds(a1) && b.holds(a1));
            }
        }
        if exists|ip: u32| #[trigger] a.holds(ip) && b.holds(ip) {
            let ip = choose|ip: u32| #[trigger] a.holds(ip) && b.holds(ip);
            lemma_block_range(a.base(), ip, a.bits());
            lemma_block_range(b.base(), ip, b.bits());
            assert(r);
        }
    }
    r
}

/// The ranges of special addresses, by their first and last address.
pub proof fn law_special_addresses(ip: u32)
    ensures
        multicast(ip) <==> 0xe000_0000 <= ip <= 0xefff_ffff,
        broadcast_all(ip) <==> ip == 0xffff_ffff,
        loopback(ip) <==> 0x7f00_0000 <= ip <= 0x7fff_ffff,
        link_local(ip) <==> 0xa9fe_0000 <= ip <= 0xa9fe_ffff,
        unspecified(ip) <==> ip == 0,
        private_lan(ip) <==> 0x0a00_0000 <= ip <= 0x0aff_ffff || 0xac10_0000 <= ip <= 0xac1f_ffff
            || 0xc0a8_0000 <= ip <= 0xc0a8_ffff,
{
}

/// A network of `len` bits holds the addresses from a multiple of 2^(32 - len)
/// on, as many as that, and its own base is among them.
pub proof fn law_network_is_a_block(net: Ipv4Net, ip: u32)
    requires
        net.bits() <= 32,
    ensures
        ({
            let size = pow2((32 - net.bits()) as nat) as int;
            let first = (net.base() as int / size) * size;
            &&& net.holds(ip) <==> first <= ip < first + size
            &&& first <= net.base() < first + size
            &&& net.first() == first
            &&& net.last() == first + size - 1
        }),
{
    let size = pow2((32 - net.bits()) as nat) as int;
    lemma_block_range(net.base(), ip, net.bits());
    lemma_block_range(net.base(), net.base(), net.bits());
    lemma_block_bounds(net.bits());
    let b = net.base() as int;
    assert((b / size) * size == b - b % size) by (nonlinear_arith)
        requires
            size >= 1,
    ;
}

} // verus!
