//! Laws of what the tables answer, stated on what they hold.

use crate::endpoint::{endpoint_of, EndpointId};
use crate::lookup::{
    answering, answers_to, dns_a, dns_ptr, dns_txt, host_peer, host_route, member_at,
    member_with_key, mesh_name, offers_address, route_of, source_ok, wildcard_for,
};
use crate::net::{law_special_addresses, Ipv4Net};
use crate::prefixes::{lemma_longest_match, net_key};
use crate::routing_laws::{
    dotless, lemma_bare_mesh_name, lemma_lower_dotless, lemma_place_bounds, plain_name,
};
use crate::table_laws::{comes_before, law_every_network_is_entered, stands_for};
use crate::tables::{built, byte_len, member_place, HostView, PeerView, SliceView, TableModel};
use crate::text::lower;
use vstd::prelude::*;

verus! {

/// An address that a packet can be sent to: neither a multicast group
/// (`224.0.0.0/4`) nor the limited broadcast.
pub open spec fn one_receiver(ip: u32) -> bool {
    !(0xe000_0000 <= ip <= 0xefff_ffff) && ip != 0xffff_ffff
}

/// An address that the exit node may get: none of the machine's own, and none
/// of a private range where the LAN is left alone.
pub open spec fn leaves_the_machine(ip: u32, lan_alone: bool) -> bool {
    &&& one_receiver(ip)
    &&& ip != 0
    &&& !(0x7f00_0000 <= ip <= 0x7fff_ffff)
    &&& !(0xa9fe_0000 <= ip <= 0xa9fe_ffff)
    &&& lan_alone ==> !(0x0a00_0000 <= ip <= 0x0aff_ffff) && !(0xac10_0000 <= ip <= 0xac1f_ffff)
        && !(0xc0a8_0000 <= ip <= 0xc0a8_ffff)
}

/// A packet for the address of a peer of any network goes to that peer, where
/// no peer before it has the address.
pub proof fn law_packets_for_peers_reach_them(slices: Seq<(u128, SliceView)>, n: int, i: int)
    requires
        0 <= n < slices.len(),
        0 <= i < slices[n].1.peers.len(),
        endpoint_of(slices[n].1.peers[i].endpoint_id) is Some,
        one_receiver(slices[n].1.peers[i].ip),
        forall|m: int, j: int|
            0 <= m < slices.len() && 0 <= j < slices[m].1.peers.len() && comes_before(m, j, n, i)
                && endpoint_of((#[trigger] slices[m].1.peers[j]).endpoint_id) is Some
                ==> slices[m].1.peers[j].ip != slices[n].1.peers[i].ip,
    ensures
        route_of(built(slices), slices[n].1.peers[i].ip) matches Some(v) && stands_for(
            slices[n].1.peers[i],
            slices[n].0,
            slices[n].1.network_name,
            v,
        ),
{
    law_every_network_is_entered(slices, n, i);
    law_special_addresses(slices[n].1.peers[i].ip);
}

/// Where a packet for an address goes: to the owner of the address; else
/// through the gateway of the longest network around it; else to the exit node,
/// if it may. A network of everything is no reason to send private addresses
/// away where the LAN is left alone.
pub proof fn law_where_packets_go(t: TableModel, ip: u32, len: u8)
    ensures
        !one_receiver(ip) ==> route_of(t, ip) is None,
        one_receiver(ip) && t.by_ip.contains_key(ip) ==> route_of(t, ip) == Some(t.by_ip[ip]),
        one_receiver(ip) && !t.by_ip.contains_key(ip) && 0 < len <= 32 && t.subnets.contains_key(
            net_key(ip, len),
        ) && (forall|k: u8| len < k <= 32 ==> !#[trigger] t.subnets.contains_key(net_key(ip, k)))
            ==> route_of(t, ip) == Some(t.subnets[net_key(ip, len)]),
        one_receiver(ip) && !t.by_ip.contains_key(ip) && (forall|k: u8|
            0 < k <= 32 ==> !#[trigger] t.subnets.contains_key(net_key(ip, k)))
            && t.subnets.contains_key(net_key(ip, 0)) ==> (if t.allow_local_lan && (0x0a00_0000
            <= ip <= 0x0aff_ffff || 0xac10_0000 <= ip <= 0xac1f_ffff || 0xc0a8_0000 <= ip
            <= 0xc0a8_ffff) {
            route_of(t, ip) is None
        } else {
            route_of(t, ip) == Some(t.subnets[net_key(ip, 0)])
        }),
        one_receiver(ip) && !t.by_ip.contains_key(ip) && (forall|k: u8|
            k <= 32 ==> !#[trigger] t.subnets.contains_key(net_key(ip, k))) ==> (
        if leaves_the_machine(ip, t.allow_local_lan) {
            route_of(t, ip) == t.exit_node
        } else {
            route_of(t, ip) is None
        }),
{
    law_special_addresses(ip);
    lemma_longest_match(t.subnets, ip, 32);
}

/// The first member of a network at an address may send from it, and no other
/// endpoint may. From an address that no member of the network has, the
/// endpoint may send that packets for it go to in this network, and no other.
pub proof fn law_who_may_send(
    t: TableModel,
    network_id: u128,
    src: u32,
    endpoint: EndpointId,
    k: int,
)
    ensures
        0 <= k < t.members.len() && t.members[k].network_id == network_id && t.members[k].ip == src
            && (forall|j: int|
            0 <= j < k ==> (#[trigger] t.members[j]).network_id != network_id || t.members[j].ip
                != src) ==> (source_ok(t, network_id, src, endpoint) <==> t.members[k].endpoint
            == endpoint) && member_at(t, network_id, src) == Some(t.members[k]),
        (forall|j: int|
            0 <= j < t.members.len() ==> (#[trigger] t.members[j]).network_id != network_id
                || t.members[j].ip != src) ==> (source_ok(t, network_id, src, endpoint) <==> (
        route_of(t, src) matches Some(via) && via.endpoint == endpoint && via.network_id
            == network_id)) && member_at(t, network_id, src) is None,
{
    lemma_place_bounds(t.members, network_id, src);
    let at = member_place(t.members, network_id, src);
    if at < t.members.len() {
        assert(t.members[at].network_id == network_id);
    }
}

/// A key is looked up among the members of one network: the first with the key
/// is found, and none where no member has it.
pub proof fn law_keys_are_found_in_their_network(
    members: Seq<PeerView>,
    network_id: u128,
    hex: Seq<char>,
    k: int,
)
    ensures
        0 <= k < members.len() && members[k].network_id == network_id && members[k].endpoint_hex
            == hex && (forall|j: int|
            0 <= j < k ==> (#[trigger] members[j]).network_id != network_id
                || members[j].endpoint_hex != hex) ==> member_with_key(members, network_id, hex)
            == Some(members[k]),
        (forall|j: int|
            0 <= j < members.len() ==> (#[trigger] members[j]).network_id != network_id
                || members[j].endpoint_hex != hex) ==> member_with_key(members, network_id, hex)
            is None,
    decreases members.len(),
{
    if members.len() > 0 {
        let rest = members.skip(1);
        law_keys_are_found_in_their_network(rest, network_id, hex, k - 1);
        assert(forall|j: int| 0 <= j < rest.len() ==> #[trigger] rest[j] == members[j + 1]);
        if 0 < k < members.len() {
            assert(rest[k - 1] == members[k]);
            if forall|j: int|
                0 <= j < k ==> (#[trigger] members[j]).network_id != network_id
                    || members[j].endpoint_hex != hex {
                assert(members[0].network_id != network_id || members[0].endpoint_hex != hex);
                assert forall|j: int| 0 <= j < k - 1 implies (#[trigger] rest[j]).network_id
                    != network_id || rest[j].endpoint_hex != hex by {
                    assert(rest[j] == members[j + 1]);
                }
            }
        }
        if forall|j: int|
            0 <= j < members.len() ==> (#[trigger] members[j]).network_id != network_id
                || members[j].endpoint_hex != hex {
            assert(members[0].network_id != network_id || members[0].endpoint_hex != hex);
        }
    }
}

/// A host name is under a suffix: it is the suffix, or ends in a dot and the
/// suffix.
pub open spec fn is_under(host: Seq<char>, suffix: Seq<char>) -> bool {
    host == suffix || exists|front: Seq<char>| host == #[trigger] (front + "."@) + suffix
}

proof fn lemma_under(host: Seq<char>, suffix: Seq<char>)
    ensures
        crate::lookup::under_wildcard(host, suffix) <==> is_under(host, suffix),
{
    reveal_strlit(".");
    if suffix.is_suffix_of(host) {
        let rest = host.take(host.len() - suffix.len());
        assert(host =~= rest + suffix);
        if rest.len() > 0 && rest.last() == '.' {
            let front = rest.drop_last();
            assert(rest =~= front + "."@);
            assert(host == (front + "."@) + suffix);
        }
    }
    if exists|front: Seq<char>| host == #[trigger] (front + "."@) + suffix {
        let front = choose|front: Seq<char>| host == #[trigger] (front + "."@) + suffix;
        assert(suffix =~= host.subrange(host.len() - suffix.len(), host.len() as int));
        assert(host.take(host.len() - suffix.len()) =~= front + "."@);
        assert((front + "."@).last() == '.');
    }
}

proof fn lemma_wildcard_for(w: Seq<HostView>, host: Seq<char>)
    ensures
        wildcard_for(w, host) matches Some(v) ==> exists|i: int|
            0 <= i < w.len() && #[trigger] w[i] == v && is_under(host, v.hostname) && forall|j: int|
                0 <= j < i ==> !is_under(host, (#[trigger] w[j]).hostname),
        wildcard_for(w, host) is None ==> forall|i: int|
            0 <= i < w.len() ==> !is_under(host, (#[trigger] w[i]).hostname),
    decreases w.len(),
{
    if w.len() > 0 {
        lemma_under(host, w[0].hostname);
        let rest = w.skip(1);
        assert(forall|j: int| 0 <= j < rest.len() ==> #[trigger] rest[j] == w[j + 1]);
        if !is_under(host, w[0].hostname) {
            lemma_wildcard_for(rest, host);
            if let Some(v) = wildcard_for(rest, host) {
                let i = choose|i: int|
                    0 <= i < rest.len() && #[trigger] rest[i] == v && is_under(host, v.hostname)
                        && forall|j: int|
                        0 <= j < i ==> !is_under(host, (#[trigger] rest[j]).hostname);
                assert(w[i + 1] == v);
                assert forall|j: int| 0 <= j < i + 1 implies !is_under(
                    host,
                    (#[trigger] w[j]).hostname,
                ) by {
                    if j > 0 {
                        assert(rest[j - 1] == w[j]);
                    }
                }
            } else {
                assert forall|i: int| 0 <= i < w.len() implies !is_under(
                    host,
                    (#[trigger] w[i]).hostname,
                ) by {
                    if i > 0 {
                        assert(rest[i - 1] == w[i]);
                    }
                }
            }
        } else {
            assert(w[0].hostname == w[0].hostname);
        }
    }
}

/// The route for a host name, whatever its case: the exact one where there is
/// one; else a wildcard that the name is under, of which no other one that it
/// is under has a longer suffix; and none where it is under none.
pub proof fn law_longest_wildcard_wins(t: TableModel, host: Seq<char>)
    requires
        forall|i: int, j: int|
            0 <= i < j < t.wildcards.len() ==> byte_len((#[trigger] t.wildcards[i]).hostname)
                >= byte_len((#[trigger] t.wildcards[j]).hostname),
    ensures
        t.hostname_exact.contains_key(lower(host)) ==> host_route(t, host) == Some(
            t.hostname_exact[lower(host)],
        ),
        !t.hostname_exact.contains_key(lower(host)) ==> {
            &&& host_route(t, host) is Some <==> exists|i: int|
                0 <= i < t.wildcards.len() && is_under(
                    lower(host),
                    (#[trigger] t.wildcards[i]).hostname,
                )
            &&& host_route(t, host) matches Some(v) ==> t.wildcards.contains(v) && is_under(
                lower(host),
                v.hostname,
            ) && forall|i: int|
                0 <= i < t.wildcards.len() && is_under(
                    lower(host),
                    (#[trigger] t.wildcards[i]).hostname,
                ) ==> byte_len(t.wildcards[i].hostname) <= byte_len(v.hostname)
        },
{
    let w = t.wildcards;
    lemma_wildcard_for(w, lower(host));
    if !t.hostname_exact.contains_key(lower(host)) {
        if let Some(v) = host_route(t, host) {
            let x = choose|x: int|
                0 <= x < w.len() && #[trigger] w[x] == v && is_under(lower(host), v.hostname)
                    && forall|j: int|
                    0 <= j < x ==> !is_under(lower(host), (#[trigger] w[j]).hostname);
            assert forall|i: int|
                0 <= i < w.len() && is_under(lower(host), (#[trigger] w[i]).hostname) implies byte_len(
                w[i].hostname,
            ) <= byte_len(v.hostname) by {
                if x < i {
                    assert(byte_len(w[x].hostname) >= byte_len(w[i].hostname));
                }
            }
        }
    }
}

/// A host name leads to the member that is called so, whatever the case; else
/// to the one that its route goes through.
pub proof fn law_host_names_lead_to_members(t: TableModel, host: Seq<char>)
    ensures
        t.by_hostname.contains_key(lower(host)) ==> host_peer(t, host) == Some(
            t.by_hostname[lower(host)],
        ),
        !t.by_hostname.contains_key(lower(host)) && t.hostname_exact.contains_key(lower(host))
            ==> host_peer(t, host) == Some(t.hostname_exact[lower(host)].peer),
        !t.by_hostname.contains_key(lower(host)) && !t.hostname_exact.contains_key(lower(host))
            && (forall|i: int|
            0 <= i < t.wildcards.len() ==> !is_under(
                lower(host),
                (#[trigger] t.wildcards[i]).hostname,
            )) ==> host_peer(t, host) is None,
{
    lemma_wildcard_for(t.wildcards, lower(host));
}

proof fn lemma_first_answer(members: Seq<PeerView>, bare: Seq<char>, k: int)
    requires
        0 <= k < members.len(),
        answers_to(members[k], bare),
        forall|j: int| 0 <= j < k ==> !answers_to(#[trigger] members[j], bare),
    ensures
        answering(members, bare) == Some(members[k]),
    decreases members.len(),
{
    if k > 0 {
        assert(!answers_to(members[0], bare));
        let rest = members.skip(1);
        assert forall|j: int| 0 <= j < k - 1 implies !answers_to(#[trigger] rest[j], bare) by {
            assert(rest[j] == members[j + 1]);
        }
        lemma_first_answer(rest, bare, k - 1);
    }
}

/// A member is asked for by its name: its host name, alone or with its
/// network's, and the suffix of names behind it.
pub open spec fn full_name(p: PeerView, suffix: Seq<char>, with_network: bool) -> Seq<char> {
    if with_network && p.network_name.len() > 0 {
        lower(p.hostname) + "."@ + p.network_name + "."@ + suffix
    } else {
        lower(p.hostname) + "."@ + suffix
    }
}

/// A member's full name, with its network's or without, gives its address and
/// its SSH host key, where no member before it has such a name.
pub proof fn law_members_are_found_by_name(t: TableModel, k: int, with_network: bool)
    requires
        0 <= k < t.members.len(),
        t.members[k].hostname.len() > 0,
        dotless(t.members[k].hostname),
        plain_name(t.members[k].network_name),
        plain_name(t.dns_suffix),
        forall|j: int|
            0 <= j < k ==> (#[trigger] t.members[j]).hostname.len() == 0 || (dotless(
                t.members[j].hostname,
            ) && plain_name(t.members[j].network_name) && lower(t.members[j].hostname) != lower(
                t.members[k].hostname,
            )),
    ensures
        dns_a(t, full_name(t.members[k], t.dns_suffix, with_network)) == Some(t.members[k].ip),
        dns_txt(t, full_name(t.members[k], t.dns_suffix, with_network))
            == t.members[k].ssh_host_key,
{
    reveal_strlit(".");
    let p = t.members[k];
    let q = PeerView {
        network_name: if with_network {
            p.network_name
        } else {
            Seq::empty()
        },
        ..p
    };
    lemma_lower_empty();
    lemma_bare_mesh_name(q, t.dns_suffix);
    let bare = mesh_name(q);
    assert(full_name(p, t.dns_suffix, with_network) == bare + "."@ + t.dns_suffix);
    assert(answers_to(p, bare));
    lemma_lower_dotless(p.hostname);
    assert forall|j: int| 0 <= j < k implies !answers_to(#[trigger] t.members[j], bare) by {
        let o = t.members[j];
        if o.hostname.len() > 0 {
            lemma_lower_dotless(o.hostname);
            let a = lower(p.hostname);
            let b = lower(o.hostname);
            if bare == b || bare == mesh_name(o) {
                // Both names begin with a host name that ends at the first dot.
                lemma_same_front(a, bare, b);
            }
        }
    }
    lemma_first_answer(t.members, bare, k);
}

proof fn lemma_lower_empty()
    ensures
        lower(Seq::<char>::empty()) == Seq::<char>::empty(),
{
    assert(lower(Seq::<char>::empty()) =~= Seq::<char>::empty());
}

/// Two texts without dots that a name begins with, up to its end or a dot, are
/// one and the same.
proof fn lemma_same_front(a: Seq<char>, name: Seq<char>, b: Seq<char>)
    requires
        dotless(a),
        dotless(b),
        a.len() <= name.len() && b.len() <= name.len(),
        forall|i: int| 0 <= i < a.len() ==> #[trigger] name[i] == a[i],
        forall|i: int| 0 <= i < b.len() ==> #[trigger] name[i] == b[i],
        a.len() < name.len() ==> name[a.len() as int] == '.',
        b.len() < name.len() ==> name[b.len() as int] == '.',
    ensures
        a == b,
{
    if a.len() < b.len() {
        assert(b[a.len() as int] == name[a.len() as int]);
        assert(b.contains('.'));
    }
    if b.len() < a.len() {
        assert(a[b.len() as int] == name[b.len() as int]);
        assert(a.contains('.'));
    }
    assert(a =~= b) by {
        assert forall|i: int| 0 <= i < a.len() implies a[i] == b[i] by {
            assert(name[i] == a[i]);
        }
    }
}

/// An address has a name exactly when a member with a host name has it: the
/// host name in lower case, the network's name where it has one, and the
/// suffix.
pub proof fn law_addresses_have_names(t: TableModel, ip: u32)
    ensures
        dns_ptr(t, ip) is Some <==> t.by_ip.contains_key(ip) && t.by_ip[ip].hostname.len() > 0,
        dns_ptr(t, ip) is Some ==> dns_ptr(t, ip)->0 == full_name(t.by_ip[ip], t.dns_suffix, true),
{
}

/// An address is one that this node offers exactly when it shares the leading
/// bits of a network that it offers.
pub proof fn law_offered_addresses(nets: Seq<Ipv4Net>, ip: u32)
    requires
        forall|i: int| 0 <= i < nets.len() ==> (#[trigger] nets[i]).bits() <= 32,
    ensures
        offers_address(nets, ip) <==> exists|i: int|
            0 <= i < nets.len() && (#[trigger] nets[i]).first() <= ip <= nets[i].last(),
{
    assert forall|i: int| 0 <= i < nets.len() implies ((#[trigger] nets[i]).holds(ip)
        <==> nets[i].first() <= ip <= nets[i].last()) by {
        crate::net::law_network_is_a_block(nets[i], ip);
    }
}

} // verus!
