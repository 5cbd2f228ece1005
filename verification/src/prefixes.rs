//! Longest-prefix matching over the `prefix-trie` crate's map.

use crate::net::{block_start, Ipv4Net};
use prefix_trie::PrefixMap;
use vstd::prelude::*;

verus! {

#[verifier::external_type_specification]
#[verifier::external_body]
#[verifier::reject_recursive_types(P)]
#[verifier::reject_recursive_types(T)]
pub struct ExPrefixMap<P, T>(prefix_trie::PrefixMap<P, T>);

/// What a prefix map holds: a number for each network, a network being its
/// first address and its prefix length.
pub uninterp spec fn prefix_entries(m: PrefixMap<(u32, u8), usize>) -> Map<(u32, u8), usize>;

/// The key of the network of length `len` around an address.
pub open spec fn net_key(addr: u32, len: u8) -> (u32, u8) {
    (block_start(addr, len) as u32, len)
}

/// The length of the longest network of at most `len` bits in `m` that holds `ip`.
pub open spec fn longest_match<V>(m: Map<(u32, u8), V>, ip: u32, len: u8) -> Option<u8>
    decreases len,
{
    if m.contains_key(net_key(ip, len)) {
        Some(len)
    } else if len == 0 {
        None
    } else {
        longest_match(m, ip, (len - 1) as u8)
    }
}

/// Calls `PrefixMap::new`: an empty map.
#[verifier::external_body]
fn trie_new() -> (m: PrefixMap<(u32, u8), usize>)
    ensures
        (prefix_entries(m) == Map::<(u32, u8), usize>::empty()),
{
    PrefixMap::new()
}

/// Calls `PrefixMap::contains_key`, which ignores the host bits of the prefix.
#[verifier::external_body]
fn trie_contains(m: &PrefixMap<(u32, u8), usize>, addr: u32, len: u8) -> (r: bool)
    requires
        len <= 32,
    ensures
        r == prefix_entries(*m).contains_key(net_key(addr, len)),
{
    m.contains_key(&(addr, len))
}

/// Calls `PrefixMap::insert`, which keeps the value under the prefix without its host bits.
#[verifier::external_body]
fn trie_insert(m: &mut PrefixMap<(u32, u8), usize>, addr: u32, len: u8, value: usize)
    requires
        len <= 32,
    ensures
        prefix_entries(*final(m)) == prefix_entries(*old(m)).insert(net_key(addr, len), value),
{
    m.insert((addr, len), value);
}

/// Calls `PrefixMap::get_lpm` on a single address: the longest prefix in the
/// map that holds it, and the value kept there.
#[verifier::external_body]
fn trie_lpm(m: &PrefixMap<(u32, u8), usize>, ip: u32) -> (r: Option<(u8, usize)>)
    ensures
        r is Some <==> longest_match(prefix_entries(*m), ip, 32) is Some,
        r matches Some(x) ==> longest_match(prefix_entries(*m), ip, 32) == Some(x.0)
            && prefix_entries(*m)[net_key(ip, x.0)] == x.1,
{
    m.get_lpm(&(ip, 32)).map(|hit| (hit.0.1, *hit.1))
}

/// The match is a network of the map that holds the address, and no longer one does.
pub proof fn lemma_longest_match<V>(m: Map<(u32, u8), V>, ip: u32, len: u8)
    ensures
        longest_match(m, ip, len) matches Some(l) ==> l <= len && m.contains_key(net_key(ip, l))
            && forall|k: u8| l < k <= len ==> !#[trigger] m.contains_key(net_key(ip, k)),
        longest_match(m, ip, len) is None ==> forall|k: u8|
            k <= len ==> !#[trigger] m.contains_key(net_key(ip, k)),
    decreases len,
{
    if !m.contains_key(net_key(ip, len)) && len > 0 {
        lemma_longest_match(m, ip, (len - 1) as u8);
    }
}

/// A map from networks to numbers that finds the longest network around an address.
pub struct NetIndex {
    trie: PrefixMap<(u32, u8), usize>,
}

impl NetIndex {
    /// The numbers by network.
    pub closed spec fn entries(self) -> Map<(u32, u8), usize> {
        prefix_entries(self.trie)
    }

    pub fn new() -> (r: NetIndex)
        ensures
            (r.entries() == Map::<(u32, u8), usize>::empty()),
    {
        NetIndex { trie: trie_new() }
    }

    pub fn contains(&self, net: &Ipv4Net) -> (r: bool)
        ensures
            r == self.entries().contains_key(net_key(net.base(), net.bits())),
    {
        trie_contains(&self.trie, net.addr(), net.prefix_len())
    }

    pub fn insert(&mut self, net: &Ipv4Net, value: usize)
        ensures
            final(self).entries() == old(self).entries().insert(
                net_key(net.base(), net.bits()),
                value,
            ),
    {
        trie_insert(&mut self.trie, net.addr(), net.prefix_len(), value);
    }

    pub fn longest(&self, ip: u32) -> (r: Option<(u8, usize)>)
        ensures
            r is Some <==> longest_match(self.entries(), ip, 32) is Some,
            r matches Some(x) ==> longest_match(self.entries(), ip, 32) == Some(x.0)
                && self.entries().contains_key(net_key(ip, x.0)) && self.entries()[net_key(
                ip,
                x.0,
            )] == x.1,
    {
        proof {
            lemma_longest_match(self.entries(), ip, 32);
        }
        trie_lpm(&self.trie, ip)
    }
}

} // verus!
