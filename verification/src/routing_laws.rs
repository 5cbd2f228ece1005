//! Laws of the tables that are built from a node's networks.

use crate::endpoint::endpoint_of;
use crate::lookup::{answering, answers_to, bare_name, dns_a, dns_ptr, member_at, mesh_name};
use crate::membership::{HostnameRouteView, PeerEntryView, SubnetRouteView};
use crate::routing::{ascending, without_slice};
use crate::tables::{
    add_hostname_routes, add_nets, add_peers, add_slice, add_subnets, built, byte_len, choose_exit,
    exit_offers, host_key, known_peer, lemma_wildcard_place, member_place, upsert, wildcard_place, HostView,
    PeerView, SliceView, TableModel,
};
use crate::text::{lower, trim_end_of};
use vstd::prelude::*;

verus! {

/// A list of wildcard routes with the longest suffixes first.
pub open spec fn longest_first(w: Seq<HostView>) -> bool {
    forall|i: int, j: int|
        0 <= i < j < w.len() ==> byte_len((#[trigger] w[i]).hostname) >= byte_len(
            (#[trigger] w[j]).hostname,
        )
}

/// No two members share network and address.
pub open spec fn members_distinct(m: Seq<PeerView>) -> bool {
    forall|i: int, j: int|
        0 <= i < j < m.len() ==> (#[trigger] m[i]).network_id != (#[trigger] m[j]).network_id
            || m[i].ip != m[j].ip
}

/// Whatever `a` says of addresses, keys, networks and the exit, `b` says too.
pub open spec fn extends(a: TableModel, b: TableModel) -> bool {
    &&& forall|ip: u32| #[trigger]
        a.by_ip.contains_key(ip) ==> b.by_ip.contains_key(ip) && b.by_ip[ip] == a.by_ip[ip]
    &&& forall|k: Seq<char>| #[trigger]
        a.by_endpoint.contains_key(k) ==> b.by_endpoint.contains_key(k) && b.by_endpoint[k]
            == a.by_endpoint[k]
    &&& forall|k: (u32, u8)| #[trigger]
        a.subnets.contains_key(k) ==> b.subnets.contains_key(k) && b.subnets[k] == a.subnets[k]
    &&& a.exit_node is Some ==> b.exit_node == a.exit_node && b.allow_local_lan
        == a.allow_local_lan
}

pub proof fn lemma_place_bounds(m: Seq<PeerView>, n: u128, ip: u32)
    ensures
        0 <= member_place(m, n, ip) <= m.len(),
        forall|i: int|
            0 <= i < member_place(m, n, ip) ==> (#[trigger] m[i]).network_id != n || m[i].ip != ip,
        member_place(m, n, ip) < m.len() ==> m[member_place(m, n, ip)].network_id == n
            && m[member_place(m, n, ip)].ip == ip,
    decreases m.len(),
{
    if m.len() > 0 && !(m[0].network_id == n && m[0].ip == ip) {
        let rest = m.skip(1);
        lemma_place_bounds(rest, n, ip);
        assert forall|i: int| 0 <= i < member_place(m, n, ip) implies (#[trigger] m[i]).network_id
            != n || m[i].ip != ip by {
            if i > 0 {
                assert(rest[i - 1] == m[i]);
            }
        }
    }
}

pub proof fn lemma_upsert(m: Seq<PeerView>, p: PeerView)
    requires
        members_distinct(m),
    ensures
        members_distinct(upsert(m, p)),
        upsert(m, p).contains(p),
        forall|i: int|
            0 <= i < upsert(m, p).len() ==> #[trigger] upsert(m, p)[i] == p || m.contains(
                upsert(m, p)[i],
            ),
        forall|i: int|
            0 <= i < m.len() && ((#[trigger] m[i]).network_id != p.network_id || m[i].ip != p.ip)
                ==> upsert(m, p).contains(m[i]),
{
    lemma_place_bounds(m, p.network_id, p.ip);
    let at = member_place(m, p.network_id, p.ip);
    let u = upsert(m, p);
    if at < m.len() {
        assert(u[at] == p);
        assert forall|i: int| 0 <= i < m.len() && ((#[trigger] m[i]).network_id != p.network_id
            || m[i].ip != p.ip) implies u.contains(m[i]) by {
            assert(u[i] == m[i]);
        }
        assert forall|i: int, j: int| 0 <= i < j < u.len() implies (#[trigger] u[i]).network_id != (
        #[trigger] u[j]).network_id || u[i].ip != u[j].ip by {
            assert(m[i].network_id != m[j].network_id || m[i].ip != m[j].ip);
        }
        assert forall|i: int| 0 <= i < u.len() implies #[trigger] u[i] == p || m.contains(u[i]) by {
            if i != at {
                assert(m[i] == u[i]);
            }
        }
    } else {
        assert(u[m.len() as int] == p);
        assert forall|i: int| 0 <= i < m.len() && ((#[trigger] m[i]).network_id != p.network_id
            || m[i].ip != p.ip) implies u.contains(m[i]) by {
            assert(u[i] == m[i]);
        }
        assert forall|i: int| 0 <= i < u.len() implies #[trigger] u[i] == p || m.contains(u[i]) by {
            if i < m.len() {
                assert(m[i] == u[i]);
            }
        }
    }
}

/// Every member belongs to a network of the list.
pub open spec fn members_of(m: Seq<PeerView>, ids: Set<u128>) -> bool {
    forall|i: int| 0 <= i < m.len() ==> ids.contains((#[trigger] m[i]).network_id)
}

pub proof fn lemma_add_peers(
    t: TableModel,
    peers: Seq<PeerEntryView>,
    network_id: u128,
    name: Seq<char>,
    ids: Set<u128>,
)
    requires
        members_distinct(t.members),
        members_of(t.members, ids),
        ids.contains(network_id),
    ensures
        ({
            let r = add_peers(t, peers, network_id, name).0;
            &&& members_distinct(r.members)
            &&& members_of(r.members, ids)
            &&& extends(t, r)
            &&& r.wildcards == t.wildcards
            &&& r.subnets == t.subnets
            &&& r.advertised == t.advertised
            &&& r.hostname_exact == t.hostname_exact
            &&& r.advertised_hostnames == t.advertised_hostnames
            &&& r.exit_node == t.exit_node
            &&& r.allow_local_lan == t.allow_local_lan
            &&& r.dns_suffix == t.dns_suffix
            &&& r.network_name == t.network_name
        }),
    decreases peers.len(),
{
    if peers.len() > 0 {
        lemma_add_peers(t, peers.drop_last(), network_id, name, ids);
        let before = add_peers(t, peers.drop_last(), network_id, name);
        let p = peers.last();
        if let Some(id) = endpoint_of(p.endpoint_id) {
            let info = known_peer(p, id, network_id, name);
            lemma_upsert(before.0.members, info);
            let r = add_peers(t, peers, network_id, name).0;
            assert forall|i: int| 0 <= i < r.members.len() implies ids.contains(
                (#[trigger] r.members[i]).network_id,
            ) by {
                if r.members[i] != info {
                    let j = choose|j: int|
                        0 <= j < before.0.members.len() && before.0.members[j] == r.members[i];
                    assert(ids.contains(before.0.members[j].network_id));
                }
            }
        }
    }
}

pub proof fn lemma_add_subnets(
    t: TableModel,
    local: Map<Seq<char>, PeerView>,
    routes: Seq<SubnetRouteView>,
    network_id: u128,
    s: SliceView,
)
    ensures
        ({
            let r = add_subnets(t, local, routes, network_id, s);
            &&& r.members == t.members
            &&& r.wildcards == t.wildcards
            &&& r.by_endpoint == t.by_endpoint
            &&& r.by_hostname == t.by_hostname
            &&& r.by_ip == t.by_ip
            &&& r.exit_node == t.exit_node
            &&& r.allow_local_lan == t.allow_local_lan
            &&& r.dns_suffix == t.dns_suffix
            &&& r.network_name == t.network_name
            &&& r.hostname_exact == t.hostname_exact
            &&& r.advertised_hostnames == t.advertised_hostnames
            &&& extends(t, r)
        }),
    decreases routes.len(),
{
    if routes.len() > 0 {
        lemma_add_subnets(t, local, routes.drop_last(), network_id, s);
    }
}

pub proof fn lemma_add_nets(
    m: Map<(u32, u8), PeerView>,
    nets: Seq<crate::net::Ipv4Net>,
    p: PeerView,
)
    ensures
        forall|k: (u32, u8)| #[trigger]
            m.contains_key(k) ==> add_nets(m, nets, p).contains_key(k) && add_nets(m, nets, p)[k]
                == m[k],
    decreases nets.len(),
{
    if nets.len() > 0 {
        lemma_add_nets(m, nets.drop_last(), p);
    }
}

proof fn lemma_insert_longest_first(w: Seq<HostView>, h: HostView)
    requires
        longest_first(w),
    ensures
        longest_first(w.insert(wildcard_place(w, byte_len(h.hostname)), h)),
{
    let n = byte_len(h.hostname);
    lemma_wildcard_place(w, n);
    let at = wildcard_place(w, n);
    let r = w.insert(at, h);
    assert forall|i: int, j: int| 0 <= i < j < r.len() implies byte_len((#[trigger] r[i]).hostname)
        >= byte_len((#[trigger] r[j]).hostname) by {
        let a = if i < at {
            i
        } else {
            i - 1
        };
        let b = if j < at {
            j
        } else {
            j - 1
        };
        if i != at {
            assert(r[i] == w[a]);
        }
        if j != at {
            assert(r[j] == w[b]);
        }
        if i == at {
            assert(byte_len(w[at].hostname) < n);
            if b > at {
                assert(byte_len(w[at].hostname) >= byte_len(w[b].hostname));
            }
        }
    }
}

pub proof fn lemma_add_hostname_routes(
    t: TableModel,
    local: Map<Seq<char>, PeerView>,
    routes: Seq<HostnameRouteView>,
    network_id: u128,
    s: SliceView,
)
    requires
        longest_first(t.wildcards),
    ensures
        ({
            let r = add_hostname_routes(t, local, routes, network_id, s);
            &&& longest_first(r.wildcards)
            &&& r.members == t.members
            &&& r.by_endpoint == t.by_endpoint
            &&& r.by_hostname == t.by_hostname
            &&& r.by_ip == t.by_ip
            &&& r.subnets == t.subnets
            &&& r.advertised == t.advertised
            &&& r.exit_node == t.exit_node
            &&& r.allow_local_lan == t.allow_local_lan
            &&& r.dns_suffix == t.dns_suffix
            &&& r.network_name == t.network_name
        }),
    decreases routes.len(),
{
    if routes.len() > 0 {
        lemma_add_hostname_routes(t, local, routes.drop_last(), network_id, s);
        let before = add_hostname_routes(t, local, routes.drop_last(), network_id, s);
        let r = routes.last();
        let p = crate::tables::via_peer(
            local,
            r.via_endpoint_id,
            r.via_ip,
            network_id,
            s.network_name,
        );
        if let Some(peer) = p {
            lemma_insert_longest_first(
                before.wildcards,
                HostView {
                    peer,
                    is_wildcard: r.is_wildcard,
                    target_ip: r.target_ip,
                    hostname: lower(r.hostname),
                },
            );
        }
    }
}

pub proof fn lemma_add_slice(t: TableModel, network_id: u128, s: SliceView, ids: Set<u128>)
    requires
        members_distinct(t.members),
        members_of(t.members, ids),
        longest_first(t.wildcards),
        ids.contains(network_id),
    ensures
        ({
            let r = add_slice(t, network_id, s);
            &&& members_distinct(r.members)
            &&& members_of(r.members, ids)
            &&& longest_first(r.wildcards)
            &&& extends(t, r)
        }),
{
    let named = TableModel {
        network_name: if t.network_name.len() == 0 {
            s.network_name
        } else {
            t.network_name
        },
        dns_suffix: s.dns_suffix,
        ..t
    };
    lemma_add_peers(named, s.peers, network_id, s.network_name, ids);
    let peered = add_peers(named, s.peers, network_id, s.network_name);
    lemma_add_subnets(peered.0, peered.1, s.subnet_routes, network_id, s);
    let routed = add_subnets(peered.0, peered.1, s.subnet_routes, network_id, s);
    let offered = TableModel {
        advertised: routed.advertised + exit_offers(s.exit_nodes, s.self_endpoint_id),
        ..routed
    };
    let with_exit = choose_exit(offered, peered.1, network_id, s);
    assert(extends(offered, with_exit)) by {
        if let Some(id) = s.profile.exit_node_endpoint_id {
            let at = crate::tables::exit_place(s.exit_nodes, id);
            if at < s.exit_nodes.len() {
                let e = s.exit_nodes[at];
                if let Some(p) = crate::tables::via_peer(
                    peered.1,
                    e.endpoint_id,
                    e.via_ip,
                    network_id,
                    s.network_name,
                ) {
                    lemma_add_nets(offered.subnets, e.allowed_cidrs, p);
                }
            }
        }
    }
    lemma_add_hostname_routes(with_exit, peered.1, s.hostname_routes, network_id, s);
    let r = add_slice(t, network_id, s);
    assert(extends(t, named));
    lemma_extends_chain(t, named, peered.0);
    assert(extends(peered.0, offered));
    lemma_extends_chain(t, peered.0, offered);
    assert(extends(with_exit, r));
    lemma_extends_chain(t, offered, with_exit);
    lemma_extends_chain(t, with_exit, r);
}

pub proof fn lemma_extends_chain(a: TableModel, b: TableModel, c: TableModel)
    requires
        extends(a, b),
        extends(b, c),
    ensures
        extends(a, c),
{
    assert forall|ip: u32| #[trigger] a.by_ip.contains_key(ip) implies c.by_ip.contains_key(ip)
        && c.by_ip[ip] == a.by_ip[ip] by {
        assert(b.by_ip.contains_key(ip));
    }
    assert forall|k: Seq<char>| #[trigger] a.by_endpoint.contains_key(k) implies c.by_endpoint.contains_key(
    k) && c.by_endpoint[k] == a.by_endpoint[k] by {
        assert(b.by_endpoint.contains_key(k));
    }
    assert forall|k: (u32, u8)| #[trigger] a.subnets.contains_key(k) implies c.subnets.contains_key(k)
        && c.subnets[k] == a.subnets[k] by {
        assert(b.subnets.contains_key(k));
    }
}

/// The identifiers of a list of networks.
pub open spec fn network_ids(slices: Seq<(u128, SliceView)>) -> Set<u128> {
    Set::new(|id: u128| exists|i: int| 0 <= i < slices.len() && (#[trigger] slices[i]).0 == id)
}

pub proof fn lemma_built(slices: Seq<(u128, SliceView)>, ids: Set<u128>)
    requires
        forall|i: int| 0 <= i < slices.len() ==> ids.contains((#[trigger] slices[i]).0),
    ensures
        members_distinct(built(slices).members),
        members_of(built(slices).members, ids),
        longest_first(built(slices).wildcards),
    decreases slices.len(),
{
    if slices.len() > 0 {
        let front = slices.drop_last();
        assert forall|i: int| 0 <= i < front.len() implies ids.contains((#[trigger] front[i]).0) by {
            assert(front[i] == slices[i]);
        }
        lemma_built(front, ids);
        assert(ids.contains(slices[slices.len() - 1].0));
        lemma_add_slice(built(front), slices.last().0, slices.last().1, ids);
    }
}

/// Among wildcard routes the longer suffix always comes first.
pub proof fn law_wildcards_longest_first(slices: Seq<(u128, SliceView)>)
    ensures
        longest_first(built(slices).wildcards),
{
    lemma_built(slices, Set::full());
}

/// An address of a network belongs to one member.
pub proof fn law_one_member_per_network_address(slices: Seq<(u128, SliceView)>)
    ensures
        members_distinct(built(slices).members),
{
    lemma_built(slices, Set::full());
}

/// What the networks so far have claimed stays with them when a network joins:
/// addresses, keys, remote networks and the exit node.
pub proof fn law_first_claim_is_kept(slices: Seq<(u128, SliceView)>, id: u128, s: SliceView)
    ensures
        extends(built(slices), built(slices.push((id, s)))),
{
    lemma_built(slices, Set::full());
    let all = slices.push((id, s));
    assert(all.drop_last() =~= slices);
    lemma_add_slice(built(slices), id, s, Set::full());
}

/// Once a network is removed, none of its members is left in the tables.
pub proof fn law_removed_network_has_no_members(
    slices: Seq<(u128, SliceView)>,
    id: u128,
    ip: u32,
)
    requires
        ascending(slices),
    ensures
        member_at(built(without_slice(slices, id)), id, ip) is None,
{
    let rest = without_slice(slices, id);
    crate::routing::law_removed_network_is_gone(slices, id);
    let ids = network_ids(rest);
    assert forall|i: int| 0 <= i < rest.len() implies ids.contains((#[trigger] rest[i]).0) by {}
    lemma_built(rest, ids);
    let m = built(rest).members;
    lemma_place_bounds(m, id, ip);
    let at = member_place(m, id, ip);
    if at < m.len() {
        assert(ids.contains(m[at].network_id));
        let i = choose|i: int| 0 <= i < rest.len() && (#[trigger] rest[i]).0 == id;
        crate::routing::lemma_known_place(rest, id, i);
        assert(false);
    }
}

proof fn lemma_listed_peer(
    t: TableModel,
    peers: Seq<PeerEntryView>,
    network_id: u128,
    name: Seq<char>,
    i: int,
)
    requires
        members_distinct(t.members),
        0 <= i < peers.len(),
        endpoint_of(peers[i].endpoint_id) is Some,
    ensures
        ({
            let r = add_peers(t, peers, network_id, name).0;
            let id = endpoint_of(peers[i].endpoint_id)->0;
            &&& r.by_endpoint.contains_key(id.hex())
            &&& r.by_ip.contains_key(peers[i].ip)
            &&& exists|k: int|
                0 <= k < r.members.len() && (#[trigger] r.members[k]).network_id == network_id
                    && r.members[k].ip == peers[i].ip
        }),
    decreases peers.len(),
{
    let front = peers.drop_last();
    let before = add_peers(t, front, network_id, name).0;
    let r = add_peers(t, peers, network_id, name).0;
    lemma_add_peers(t, front, network_id, name, Set::full());
    let last = peers.last();
    if i == peers.len() - 1 {
        let id = endpoint_of(last.endpoint_id)->0;
        let info = known_peer(last, id, network_id, name);
        lemma_upsert(before.members, info);
        let k = choose|k: int| 0 <= k < r.members.len() && r.members[k] == info;
        assert(r.members[k].network_id == network_id);
    } else {
        assert(front[i] == peers[i]);
        lemma_listed_peer(t, front, network_id, name, i);
        let k = choose|k: int|
            0 <= k < before.members.len() && (#[trigger] before.members[k]).network_id == network_id
                && before.members[k].ip == peers[i].ip;
        if let Some(id) = endpoint_of(last.endpoint_id) {
            let info = known_peer(last, id, network_id, name);
            lemma_upsert(before.members, info);
            if info.ip == peers[i].ip {
                let x = choose|x: int| 0 <= x < r.members.len() && r.members[x] == info;
                assert(r.members[x].network_id == network_id);
            } else {
                assert(r.members.contains(before.members[k]));
                let x = choose|x: int| 0 <= x < r.members.len() && r.members[x] == before.members[k];
                assert(r.members[x].network_id == network_id);
            }
        } else {
            assert(r.members[k].network_id == network_id);
        }
    }
}

/// Every peer of a network whose key can be read is found by its key, its
/// address leads somewhere, and it has a member entry in its network.
pub proof fn law_listed_peers_are_found(network_id: u128, s: SliceView, i: int)
    requires
        0 <= i < s.peers.len(),
        endpoint_of(s.peers[i].endpoint_id) is Some,
    ensures
        ({
            let t = built(seq![(network_id, s)]);
            let id = endpoint_of(s.peers[i].endpoint_id)->0;
            &&& t.by_endpoint.contains_key(id.hex())
            &&& t.by_ip.contains_key(s.peers[i].ip)
            &&& member_at(t, network_id, s.peers[i].ip) is Some
        }),
{
    let slices = seq![(network_id, s)];
    assert(slices.drop_last() =~= Seq::<(u128, SliceView)>::empty());
    let t = crate::tables::empty_tables();
    assert(built(slices.drop_last()) == t);
    let named = TableModel {
        network_name: if t.network_name.len() == 0 {
            s.network_name
        } else {
            t.network_name
        },
        dns_suffix: s.dns_suffix,
        ..t
    };
    lemma_listed_peer(named, s.peers, network_id, s.network_name, i);
    lemma_add_slice(t, network_id, s, Set::full());
    let peered = add_peers(named, s.peers, network_id, s.network_name);
    lemma_add_peers(named, s.peers, network_id, s.network_name, Set::full());
    lemma_add_subnets(peered.0, peered.1, s.subnet_routes, network_id, s);
    let routed = add_subnets(peered.0, peered.1, s.subnet_routes, network_id, s);
    let offered = TableModel {
        advertised: routed.advertised + exit_offers(s.exit_nodes, s.self_endpoint_id),
        ..routed
    };
    let with_exit = choose_exit(offered, peered.1, network_id, s);
    lemma_add_hostname_routes(with_exit, peered.1, s.hostname_routes, network_id, s);
    let r = built(slices);
    assert(r == add_slice(t, network_id, s));
    assert(r.members == peered.0.members);
    assert(r.by_ip == peered.0.by_ip);
    lemma_place_bounds(r.members, network_id, s.peers[i].ip);
    let k = choose|k: int|
        0 <= k < r.members.len() && (#[trigger] r.members[k]).network_id == network_id
            && r.members[k].ip == s.peers[i].ip;
    assert(member_place(r.members, network_id, s.peers[i].ip) <= k);
}

/// A peer whose key can be read.
pub open spec fn readable(p: PeerEntryView) -> bool {
    endpoint_of(p.endpoint_id) is Some
}

/// No two peers with readable keys share an address.
pub open spec fn addresses_distinct(peers: Seq<PeerEntryView>) -> bool {
    forall|i: int, j: int|
        0 <= i < j < peers.len() && readable(#[trigger] peers[i]) && readable(#[trigger] peers[j])
            ==> peers[i].ip != peers[j].ip
}

/// The member that a peer becomes.
pub open spec fn member_from(p: PeerEntryView, network_id: u128, name: Seq<char>) -> PeerView {
    known_peer(p, endpoint_of(p.endpoint_id)->0, network_id, name)
}

/// The members are the peers with readable keys.
spec fn members_are(
    m: Seq<PeerView>,
    peers: Seq<PeerEntryView>,
    network_id: u128,
    name: Seq<char>,
) -> bool {
    &&& forall|k: int|
        0 <= k < m.len() ==> exists|j: int|
            0 <= j < peers.len() && readable(#[trigger] peers[j]) && (#[trigger] m[k])
                == member_from(peers[j], network_id, name)
    &&& forall|j: int|
        0 <= j < peers.len() && readable(#[trigger] peers[j]) ==> m.contains(
            member_from(peers[j], network_id, name),
        )
}

proof fn lemma_members_of_one(
    t: TableModel,
    peers: Seq<PeerEntryView>,
    network_id: u128,
    name: Seq<char>,
)
    requires
        t.members.len() == 0,
        t.by_ip == Map::<u32, PeerView>::empty(),
        addresses_distinct(peers),
    ensures
        ({
            let r = add_peers(t, peers, network_id, name).0;
            &&& members_are(r.members, peers, network_id, name)
            &&& forall|j: int|
                0 <= j < peers.len() && readable(#[trigger] peers[j]) ==> r.by_ip.contains_key(
                    peers[j].ip,
                ) && r.by_ip[peers[j].ip] == member_from(peers[j], network_id, name)
            &&& forall|ip: u32| #[trigger]
                r.by_ip.contains_key(ip) ==> exists|j: int|
                    0 <= j < peers.len() && readable(#[trigger] peers[j]) && peers[j].ip == ip
        }),
    decreases peers.len(),
{
    let r = add_peers(t, peers, network_id, name).0;
    if peers.len() > 0 {
        let front = peers.drop_last();
        assert(forall|j: int| 0 <= j < front.len() ==> #[trigger] front[j] == peers[j]);
        lemma_members_of_one(t, front, network_id, name);
        lemma_add_peers(t, front, network_id, name, Set::full());
        let before = add_peers(t, front, network_id, name).0;
        let last = peers.last();
        let n = peers.len() - 1;
        assert(peers[n] == last);
        if readable(last) {
            let info = member_from(last, network_id, name);
            lemma_upsert(before.members, info);
            assert forall|k: int| 0 <= k < r.members.len() implies exists|j: int|
                0 <= j < peers.len() && readable(#[trigger] peers[j]) && (#[trigger] r.members[k])
                    == member_from(peers[j], network_id, name) by {
                if r.members[k] == info {
                    assert(readable(peers[n]));
                } else {
                    let x = choose|x: int|
                        0 <= x < before.members.len() && before.members[x] == r.members[k];
                    let j = choose|j: int|
                        0 <= j < front.len() && readable(#[trigger] front[j]) && before.members[x]
                            == member_from(front[j], network_id, name);
                    assert(peers[j] == front[j]);
                }
            }
            assert forall|j: int| 0 <= j < peers.len() && readable(#[trigger] peers[j]) implies {
                &&& r.members.contains(member_from(peers[j], network_id, name))
                &&& r.by_ip.contains_key(peers[j].ip)
                &&& r.by_ip[peers[j].ip] == member_from(peers[j], network_id, name)
            } by {
                if j < n {
                    let p = member_from(peers[j], network_id, name);
                    assert(front[j] == peers[j]);
                    assert(before.members.contains(p));
                    let x = choose|x: int| 0 <= x < before.members.len() && before.members[x] == p;
                    assert(p.ip != info.ip);
                    assert(before.members[x].ip != info.ip);
                } else if before.by_ip.contains_key(last.ip) {
                    let x = choose|x: int|
                        0 <= x < front.len() && readable(#[trigger] front[x]) && front[x].ip
                            == last.ip;
                    assert(peers[x].ip != peers[n].ip);
                }
            }
            assert forall|ip: u32| #[trigger] r.by_ip.contains_key(ip) implies exists|j: int|
                0 <= j < peers.len() && readable(#[trigger] peers[j]) && peers[j].ip == ip by {
                if before.by_ip.contains_key(ip) {
                    let j = choose|j: int|
                        0 <= j < front.len() && readable(#[trigger] front[j]) && front[j].ip == ip;
                    assert(peers[j] == front[j]);
                } else {
                    assert(readable(peers[n]));
                }
            }
        } else {
            assert(r == before);
            assert forall|k: int| 0 <= k < r.members.len() implies exists|j: int|
                0 <= j < peers.len() && readable(#[trigger] peers[j]) && (#[trigger] r.members[k])
                    == member_from(peers[j], network_id, name) by {
                let j = choose|j: int|
                    0 <= j < front.len() && readable(#[trigger] front[j]) && before.members[k]
                        == member_from(front[j], network_id, name);
                assert(peers[j] == front[j]);
            }
            assert forall|j: int| 0 <= j < peers.len() && readable(#[trigger] peers[j]) implies {
                &&& r.members.contains(member_from(peers[j], network_id, name))
                &&& r.by_ip.contains_key(peers[j].ip)
                &&& r.by_ip[peers[j].ip] == member_from(peers[j], network_id, name)
            } by {
                assert(front[j] == peers[j]);
            }
            assert forall|ip: u32| #[trigger] r.by_ip.contains_key(ip) implies exists|j: int|
                0 <= j < peers.len() && readable(#[trigger] peers[j]) && peers[j].ip == ip by {
                let j = choose|j: int|
                    0 <= j < front.len() && readable(#[trigger] front[j]) && front[j].ip == ip;
                assert(peers[j] == front[j]);
            }
        }
    }
}

/// The text has no dot in it.
pub open spec fn dotless(s: Seq<char>) -> bool {
    !s.contains('.')
}

/// The text is in lower case and does not end in a dot.
pub open spec fn plain_name(s: Seq<char>) -> bool {
    lower(s) == s && (s.len() > 0 ==> s.last() != '.')
}

proof fn lemma_lower_twice(s: Seq<char>)
    ensures
        lower(lower(s)) == lower(s),
{
    assert(lower(lower(s)) =~= lower(s));
}

proof fn lemma_lower_joined(a: Seq<char>, b: Seq<char>)
    ensures
        lower(a + b) == lower(a) + lower(b),
{
    assert(lower(a + b) =~= lower(a) + lower(b));
}

pub proof fn lemma_lower_dotless(s: Seq<char>)
    requires
        dotless(s),
    ensures
        dotless(lower(s)),
{
    if lower(s).contains('.') {
        let i = choose|i: int| 0 <= i < s.len() && lower(s)[i] == '.';
        assert(s[i] == '.');
    }
}

/// A name in the mesh without the suffix is the member's name again.
pub proof fn lemma_bare_mesh_name(p: PeerView, suffix: Seq<char>)
    requires
        p.hostname.len() > 0,
        dotless(p.hostname),
        plain_name(p.network_name),
        plain_name(suffix),
    ensures
        bare_name(mesh_name(p) + "."@ + suffix, suffix) == mesh_name(p),
{
    reveal_strlit(".");
    let mesh = mesh_name(p);
    let name = mesh + "."@ + suffix;
    lemma_lower_dotless(p.hostname);
    lemma_lower_twice(p.hostname);
    lemma_lower_joined(lower(p.hostname), "."@);
    lemma_lower_joined(lower(p.hostname) + "."@, p.network_name);
    lemma_lower_joined(mesh, "."@);
    lemma_lower_joined(mesh + "."@, suffix);
    assert(lower("."@) =~= "."@);
    assert(lower(mesh) == mesh);
    assert(mesh.len() > 0);
    assert(mesh.last() != '.') by {
        if p.network_name.len() == 0 {
            let host = lower(p.hostname);
            assert(host[host.len() - 1] == mesh.last());
            if mesh.last() == '.' {
                assert(host.contains('.'));
            }
        }
    }
    assert(trim_end_of(mesh, '.') == mesh);
    if suffix.len() == 0 {
        assert(name =~= mesh.push('.'));
        assert(name.drop_last() =~= mesh);
        assert(trim_end_of(name, '.') == mesh);
        assert(!("."@ + suffix).is_suffix_of(mesh)) by {
            assert("."@ + suffix =~= "."@);
            if "."@.is_suffix_of(mesh) {
                assert(mesh.subrange(mesh.len() - 1, mesh.len() as int)[0] == mesh.last());
            }
        }
    } else {
        assert(name.last() == suffix.last());
        assert(trim_end_of(name, '.') == name);
        assert(lower(name) == name);
        let tail = "."@ + suffix;
        assert(name =~= mesh + tail);
        assert(tail.is_suffix_of(name));
        assert(name.take(name.len() - tail.len()) =~= mesh);
    }
}

/// The first member that answers to a name, where every one that does is the same.
proof fn lemma_answering(members: Seq<PeerView>, bare: Seq<char>, ip: u32)
    requires
        exists|k: int| 0 <= k < members.len() && answers_to(#[trigger] members[k], bare),
        forall|k: int|
            0 <= k < members.len() && answers_to(#[trigger] members[k], bare) ==> members[k].ip
                == ip,
    ensures
        answering(members, bare) matches Some(p) && p.ip == ip,
    decreases members.len(),
{
    let k = choose|k: int| 0 <= k < members.len() && answers_to(#[trigger] members[k], bare);
    if !answers_to(members[0], bare) {
        let rest = members.skip(1);
        assert(rest[k - 1] == members[k]);
        assert forall|x: int| 0 <= x < rest.len() && answers_to(#[trigger] rest[x], bare) implies rest[x].ip
            == ip by {
            assert(rest[x] == members[x + 1]);
        }
        lemma_answering(rest, bare, ip);
    }
}

/// In a network whose peers have addresses and host names of their own, the
/// address of a peer gives its full name, and that name gives the address back.
pub proof fn law_names_lead_back(network_id: u128, s: SliceView, i: int)
    requires
        0 <= i < s.peers.len(),
        readable(s.peers[i]),
        s.peers[i].hostname.len() > 0,
        addresses_distinct(s.peers),
        forall|j: int|
            0 <= j < s.peers.len() && readable(#[trigger] s.peers[j]) ==> dotless(
                s.peers[j].hostname,
            ),
        forall|j: int|
            0 <= j < s.peers.len() && readable(#[trigger] s.peers[j]) && lower(s.peers[j].hostname)
                == lower(s.peers[i].hostname) ==> j == i,
        plain_name(s.network_name),
        plain_name(s.dns_suffix),
    ensures
        ({
            let t = built(seq![(network_id, s)]);
            let full = host_key(s.peers[i].hostname, s.network_name) + "."@ + s.dns_suffix;
            &&& dns_ptr(t, s.peers[i].ip) == Some(full)
            &&& dns_a(t, full) == Some(s.peers[i].ip)
        }),
{
    reveal_strlit(".");
    let slices = seq![(network_id, s)];
    assert(slices.drop_last() =~= Seq::<(u128, SliceView)>::empty());
    let t = crate::tables::empty_tables();
    assert(built(slices.drop_last()) == t);
    let named = TableModel {
        network_name: if t.network_name.len() == 0 {
            s.network_name
        } else {
            t.network_name
        },
        dns_suffix: s.dns_suffix,
        ..t
    };
    lemma_members_of_one(named, s.peers, network_id, s.network_name);
    let peered = add_peers(named, s.peers, network_id, s.network_name);
    lemma_add_peers(named, s.peers, network_id, s.network_name, Set::full());
    lemma_add_subnets(peered.0, peered.1, s.subnet_routes, network_id, s);
    let routed = add_subnets(peered.0, peered.1, s.subnet_routes, network_id, s);
    let offered = TableModel {
        advertised: routed.advertised + exit_offers(s.exit_nodes, s.self_endpoint_id),
        ..routed
    };
    let with_exit = choose_exit(offered, peered.1, network_id, s);
    lemma_add_hostname_routes(with_exit, peered.1, s.hostname_routes, network_id, s);
    let r = built(slices);
    assert(r == add_slice(t, network_id, s));
    assert(r.members == peered.0.members);
    assert(r.by_ip == peered.0.by_ip);
    assert(r.dns_suffix == s.dns_suffix);
    let me = member_from(s.peers[i], network_id, s.network_name);
    let bare = mesh_name(me);
    assert(r.by_ip[s.peers[i].ip] == me);
    assert(dotless(s.peers[i].hostname));
    lemma_bare_mesh_name(me, s.dns_suffix);
    assert(r.members.contains(me));
    let k = choose|k: int| 0 <= k < r.members.len() && r.members[k] == me;
    assert(answers_to(r.members[k], bare));
    assert forall|x: int| 0 <= x < r.members.len() && answers_to(#[trigger] r.members[x], bare) implies r.members[x].ip
        == me.ip by {
        let j = choose|j: int|
            0 <= j < s.peers.len() && readable(#[trigger] s.peers[j]) && r.members[x]
                == member_from(s.peers[j], network_id, s.network_name);
        let q = r.members[x];
        lemma_lower_dotless(q.hostname);
        if bare == lower(q.hostname) {
            if s.network_name.len() > 0 {
                assert(bare[lower(me.hostname).len() as int] == '.');
                assert(lower(q.hostname).contains('.'));
            }
        } else if s.network_name.len() > 0 {
            let tail = "."@ + s.network_name;
            assert(bare =~= lower(me.hostname) + tail);
            assert(mesh_name(q) =~= lower(q.hostname) + tail);
            assert(lower(me.hostname) =~= bare.take(bare.len() - tail.len()));
            assert(lower(q.hostname) =~= bare.take(bare.len() - tail.len()));
        }
        assert(lower(s.peers[j].hostname) == lower(s.peers[i].hostname));
    }
    lemma_answering(r.members, bare, me.ip);
}

/// Every rebuild moves the change counter.
pub proof fn law_change_counter_moves(seq: u64)
    ensures
        seq.wrapping_add(1) != seq,
{
}

} // verus!
