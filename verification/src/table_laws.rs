//! Laws of the lookup tables, stated on the networks that they are built from.

use crate::endpoint::endpoint_of;
use crate::membership::{ExitNodeView, HostnameRouteView, PeerEntryView, SubnetRouteView};
use crate::net::Ipv4Net;
use crate::prefixes::net_key;
use crate::routing_laws::{
    extends, lemma_add_hostname_routes, lemma_add_peers, lemma_add_slice, lemma_add_subnets,
    lemma_built, lemma_upsert, longest_first, members_distinct,
};
use crate::tables::{
    add_hostname_routes, add_nets, add_peers, add_slice, add_subnets, built, choose_exit,
    exit_offers, exit_place, known_peer, via_peer, HostView, PeerView, SliceView, TableModel,
};
use crate::text::lower;
use vstd::prelude::*;

verus! {

/// A member is what a network lists of a peer whose key can be read.
pub open spec fn stands_for(
    p: PeerEntryView,
    network_id: u128,
    network_name: Seq<char>,
    v: PeerView,
) -> bool {
    &&& endpoint_of(p.endpoint_id) == Some(v.endpoint)
    &&& v.endpoint_hex == v.endpoint.hex()
    &&& v.hostname == p.hostname
    &&& v.ip == p.ip
    &&& v.tags == p.tags
    &&& v.ssh_host_key == p.ssh_host_key
    &&& v.network_id == network_id
    &&& v.network_name == network_name
}

/// A member is what some network lists of a peer.
pub open spec fn is_listed(slices: Seq<(u128, SliceView)>, v: PeerView) -> bool {
    exists|n: int, i: int|
        0 <= n < slices.len() && 0 <= i < slices[n].1.peers.len() && #[trigger] stands_for(
            slices[n].1.peers[i],
            slices[n].0,
            slices[n].1.network_name,
            v,
        )
}

/// A member is found under a name: its host name in lower case, alone or with
/// its network's name behind a dot.
pub open spec fn named_so(v: PeerView, name: Seq<char>) -> bool {
    &&& v.hostname.len() > 0
    &&& name == lower(v.hostname) || (v.network_name.len() > 0 && name == lower(v.hostname) + "."@
        + v.network_name)
}

/// The tables of a network's peers on top of some tables, before its routes.
spec fn with_peers(t: TableModel, network_id: u128, s: SliceView) -> (
    TableModel,
    Map<Seq<char>, PeerView>,
) {
    add_peers(
        TableModel {
            network_name: if t.network_name.len() == 0 {
                s.network_name
            } else {
                t.network_name
            },
            dns_suffix: s.dns_suffix,
            ..t
        },
        s.peers,
        network_id,
        s.network_name,
    )
}

/// The routes of a network leave what is known of its peers.
proof fn lemma_slice_peers(t: TableModel, network_id: u128, s: SliceView)
    requires
        members_distinct(t.members),
        longest_first(t.wildcards),
    ensures
        ({
            let r = add_slice(t, network_id, s);
            let p = with_peers(t, network_id, s).0;
            &&& r.members == p.members
            &&& r.by_ip == p.by_ip
            &&& r.by_endpoint == p.by_endpoint
            &&& r.by_hostname == p.by_hostname
            &&& r.dns_suffix == s.dns_suffix
            &&& r.network_name == if t.network_name.len() == 0 {
                s.network_name
            } else {
                t.network_name
            }
        }),
{
    let named = TableModel {
        network_name: if t.network_name.len() == 0 {
            s.network_name
        } else {
            t.network_name
        },
        dns_suffix: s.dns_suffix,
        ..t
    };
    let peered = with_peers(t, network_id, s);
    lemma_add_peers(named, s.peers, network_id, s.network_name, Set::full());
    lemma_add_subnets(peered.0, peered.1, s.subnet_routes, network_id, s);
    let routed = add_subnets(peered.0, peered.1, s.subnet_routes, network_id, s);
    let offered = TableModel {
        advertised: routed.advertised + exit_offers(s.exit_nodes, s.self_endpoint_id),
        ..routed
    };
    let with_exit = choose_exit(offered, peered.1, network_id, s);
    lemma_add_hostname_routes(with_exit, peered.1, s.hostname_routes, network_id, s);
}

/// What the tables say of one peer of a network once its peers are entered.
proof fn lemma_peer_entered(
    t: TableModel,
    peers: Seq<PeerEntryView>,
    network_id: u128,
    name: Seq<char>,
    i: int,
)
    requires
        members_distinct(t.members),
        0 <= i < peers.len(),
        endpoint_of(peers[i].endpoint_id) is Some,
    ensures
        ({
            let r = add_peers(t, peers, network_id, name).0;
            let p = peers[i];
            let id = endpoint_of(p.endpoint_id)->0;
            &&& r.by_ip.contains_key(p.ip)
            &&& r.by_endpoint.contains_key(id.hex())
            &&& p.hostname.len() > 0 ==> r.by_hostname.contains_key(lower(p.hostname))
            &&& p.hostname.len() > 0 && name.len() > 0 ==> r.by_hostname.contains_key(
                lower(p.hostname) + "."@ + name,
            )
            &&& !t.by_ip.contains_key(p.ip) && (forall|j: int|
                0 <= j < i && endpoint_of((#[trigger] peers[j]).endpoint_id) is Some ==> peers[j].ip
                    != p.ip) ==> stands_for(p, network_id, name, r.by_ip[p.ip])
            &&& !t.by_endpoint.contains_key(id.hex()) && (forall|j: int|
                0 <= j < i ==> (endpoint_of((#[trigger] peers[j]).endpoint_id) matches Some(o)
                    ==> o.hex() != id.hex())) ==> stands_for(
                p,
                network_id,
                name,
                r.by_endpoint[id.hex()],
            )
            &&& exists|k: int|
                0 <= k < r.members.len() && (#[trigger] r.members[k]).network_id == network_id
                    && r.members[k].ip == p.ip
            &&& (forall|j: int|
                i < j < peers.len() && endpoint_of((#[trigger] peers[j]).endpoint_id) is Some
                    ==> peers[j].ip != p.ip) ==> exists|k: int|
                0 <= k < r.members.len() && stands_for(p, network_id, name, #[trigger] r.members[k])
        }),
    decreases peers.len(),
{
    let front = peers.drop_last();
    let before = add_peers(t, front, network_id, name).0;
    let r = add_peers(t, peers, network_id, name).0;
    lemma_add_peers(t, front, network_id, name, Set::full());
    let last = peers.last();
    let n = peers.len() - 1;
    assert(peers[n] == last);
    assert(forall|j: int| 0 <= j < n ==> #[trigger] front[j] == peers[j]);
    let p = peers[i];
    let id = endpoint_of(p.endpoint_id)->0;
    if i == n {
        let info = known_peer(last, id, network_id, name);
        assert(stands_for(p, network_id, name, info));
        lemma_upsert(before.members, info);
        let k = choose|k: int| 0 <= k < r.members.len() && r.members[k] == info;
        assert(r.members[k].network_id == network_id);
        lemma_only_new_peers(t, front, network_id, name);
        if !t.by_ip.contains_key(p.ip) && (forall|j: int|
            0 <= j < i && endpoint_of((#[trigger] peers[j]).endpoint_id) is Some ==> peers[j].ip
                != p.ip) {
            if before.by_ip.contains_key(p.ip) {
                let j = choose|j: int|
                    0 <= j < front.len() && #[trigger] stands_for(
                        front[j],
                        network_id,
                        name,
                        before.by_ip[p.ip],
                    );
                assert(endpoint_of(peers[j].endpoint_id) is Some);
            }
        }
        if !t.by_endpoint.contains_key(id.hex()) && (forall|j: int|
            0 <= j < i ==> (endpoint_of((#[trigger] peers[j]).endpoint_id) matches Some(o)
                ==> o.hex() != id.hex())) {
            if before.by_endpoint.contains_key(id.hex()) {
                let j = choose|j: int|
                    0 <= j < front.len() && #[trigger] stands_for(
                        front[j],
                        network_id,
                        name,
                        before.by_endpoint[id.hex()],
                    );
                assert(endpoint_of(peers[j].endpoint_id) is Some);
            }
        }
    } else {
        lemma_peer_entered(t, front, network_id, name, i);
        let k = choose|k: int|
            0 <= k < before.members.len() && (#[trigger] before.members[k]).network_id == network_id
                && before.members[k].ip == p.ip;
        if let Some(other) = endpoint_of(last.endpoint_id) {
            let info = known_peer(last, other, network_id, name);
            lemma_upsert(before.members, info);
            if info.ip == p.ip {
                let x = choose|x: int| 0 <= x < r.members.len() && r.members[x] == info;
                assert(r.members[x].network_id == network_id);
            } else {
                assert(r.members.contains(before.members[k]));
                let x = choose|x: int| 0 <= x < r.members.len() && r.members[x] == before.members[k];
                assert(r.members[x].network_id == network_id);
            }
            if forall|j: int|
                i < j < peers.len() && endpoint_of((#[trigger] peers[j]).endpoint_id) is Some
                    ==> peers[j].ip != p.ip {
                assert(last.ip != p.ip);
                let y = choose|y: int|
                    0 <= y < before.members.len() && stands_for(
                        p,
                        network_id,
                        name,
                        #[trigger] before.members[y],
                    );
                assert(r.members.contains(before.members[y]));
                let x = choose|x: int| 0 <= x < r.members.len() && r.members[x] == before.members[y];
                assert(stands_for(p, network_id, name, r.members[x]));
            }
        } else {
            assert(r == before);
        }
    }
}

/// What the peers of a network bring into the tables are those peers, and what
/// stood there under other networks stays.
proof fn lemma_only_new_peers(
    t: TableModel,
    peers: Seq<PeerEntryView>,
    network_id: u128,
    name: Seq<char>,
)
    requires
        members_distinct(t.members),
    ensures
        ({
            let out = add_peers(t, peers, network_id, name);
            let r = out.0;
            &&& forall|ip: u32| #[trigger]
                r.by_ip.contains_key(ip) ==> (t.by_ip.contains_key(ip) && r.by_ip[ip]
                    == t.by_ip[ip]) || (r.by_ip[ip].ip == ip && exists|j: int|
                    0 <= j < peers.len() && #[trigger] stands_for(
                        peers[j],
                        network_id,
                        name,
                        r.by_ip[ip],
                    ))
            &&& forall|k: Seq<char>| #[trigger]
                r.by_endpoint.contains_key(k) ==> (t.by_endpoint.contains_key(k)
                    && r.by_endpoint[k] == t.by_endpoint[k]) || (r.by_endpoint[k].endpoint_hex == k
                    && exists|j: int|
                    0 <= j < peers.len() && #[trigger] stands_for(
                        peers[j],
                        network_id,
                        name,
                        r.by_endpoint[k],
                    ))
            &&& forall|k: Seq<char>| #[trigger]
                r.by_hostname.contains_key(k) ==> (t.by_hostname.contains_key(k)
                    && r.by_hostname[k] == t.by_hostname[k]) || (named_so(r.by_hostname[k], k)
                    && exists|j: int|
                    0 <= j < peers.len() && #[trigger] stands_for(
                        peers[j],
                        network_id,
                        name,
                        r.by_hostname[k],
                    ))
            &&& forall|k: Seq<char>| #[trigger]
                t.by_hostname.contains_key(k) ==> r.by_hostname.contains_key(k)
            &&& forall|x: int|
                0 <= x < r.members.len() ==> t.members.contains(#[trigger] r.members[x]) || exists|
                    j: int,
                |
                    0 <= j < peers.len() && #[trigger] stands_for(
                        peers[j],
                        network_id,
                        name,
                        r.members[x],
                    )
            &&& forall|x: int|
                0 <= x < t.members.len() && (#[trigger] t.members[x]).network_id != network_id
                    ==> r.members.contains(t.members[x])
            &&& forall|k: Seq<char>| #[trigger]
                out.1.contains_key(k) ==> out.1[k].endpoint_hex == k && exists|j: int|
                    0 <= j < peers.len() && #[trigger] stands_for(
                        peers[j],
                        network_id,
                        name,
                        out.1[k],
                    )
        }),
    decreases peers.len(),
{
    if peers.len() > 0 {
        let front = peers.drop_last();
        lemma_only_new_peers(t, front, network_id, name);
        lemma_add_peers(t, front, network_id, name, Set::full());
        let both = add_peers(t, front, network_id, name);
        let before = both.0;
        let out = add_peers(t, peers, network_id, name);
        let r = out.0;
        let last = peers.last();
        let n = peers.len() - 1;
        assert(peers[n] == last);
        assert forall|v: PeerView|
            (exists|j: int|
                0 <= j < front.len() && #[trigger] stands_for(front[j], network_id, name, v))
            implies #[trigger] new_here(peers, network_id, name, v) by {
            let j = choose|j: int|
                0 <= j < front.len() && #[trigger] stands_for(front[j], network_id, name, v);
            assert(stands_for(peers[j], network_id, name, v));
        }
        if let Some(id) = endpoint_of(last.endpoint_id) {
            let info = known_peer(last, id, network_id, name);
            assert(stands_for(peers[n], network_id, name, info));
            assert(new_here(peers, network_id, name, info));
            lemma_upsert(before.members, info);
            assert forall|ip: u32| #[trigger] r.by_ip.contains_key(ip) implies (
            t.by_ip.contains_key(ip) && r.by_ip[ip] == t.by_ip[ip]) || (r.by_ip[ip].ip == ip
                && new_here(peers, network_id, name, r.by_ip[ip])) by {
                if before.by_ip.contains_key(ip) {
                    assert(r.by_ip[ip] == before.by_ip[ip]);
                }
            }
            assert forall|k: Seq<char>| #[trigger] r.by_endpoint.contains_key(k) implies (
            t.by_endpoint.contains_key(k) && r.by_endpoint[k] == t.by_endpoint[k]) || (
            r.by_endpoint[k].endpoint_hex == k && new_here(
                peers,
                network_id,
                name,
                r.by_endpoint[k],
            )) by {
                if before.by_endpoint.contains_key(k) {
                    assert(r.by_endpoint[k] == before.by_endpoint[k]);
                }
            }
            assert forall|k: Seq<char>| #[trigger] r.by_hostname.contains_key(k) implies (
            t.by_hostname.contains_key(k) && r.by_hostname[k] == t.by_hostname[k]) || (named_so(
                r.by_hostname[k],
                k,
            ) && new_here(peers, network_id, name, r.by_hostname[k])) by {
                if r.by_hostname[k] != info {
                    assert(before.by_hostname.contains_key(k));
                    assert(r.by_hostname[k] == before.by_hostname[k]);
                } else if before.by_hostname.contains_key(k) && before.by_hostname[k] == info {
                } else {
                    assert(named_so(info, k));
                }
            }
            assert forall|x: int| 0 <= x < r.members.len() implies t.members.contains(
                #[trigger] r.members[x],
            ) || new_here(peers, network_id, name, r.members[x]) by {
                if r.members[x] != info {
                    let y = choose|y: int|
                        0 <= y < before.members.len() && before.members[y] == r.members[x];
                    assert(t.members.contains(before.members[y]) || new_here(
                        peers,
                        network_id,
                        name,
                        before.members[y],
                    ));
                }
            }
            assert forall|x: int|
                0 <= x < t.members.len() && (#[trigger] t.members[x]).network_id
                    != network_id implies r.members.contains(t.members[x]) by {
                let y = choose|y: int|
                    0 <= y < before.members.len() && before.members[y] == t.members[x];
                assert(before.members[y].network_id != info.network_id);
            }
            assert forall|k: Seq<char>| #[trigger] out.1.contains_key(k) implies out.1[k].endpoint_hex
                == k && new_here(peers, network_id, name, out.1[k]) by {
                if k != id.hex() {
                    assert(both.1.contains_key(k));
                }
            }
        } else {
            assert(out == both);
            assert forall|x: int| 0 <= x < r.members.len() implies t.members.contains(
                #[trigger] r.members[x],
            ) || new_here(peers, network_id, name, r.members[x]) by {}
            assert forall|ip: u32| #[trigger] r.by_ip.contains_key(ip) implies (
            t.by_ip.contains_key(ip) && r.by_ip[ip] == t.by_ip[ip]) || (r.by_ip[ip].ip == ip
                && new_here(peers, network_id, name, r.by_ip[ip])) by {}
            assert forall|k: Seq<char>| #[trigger] r.by_endpoint.contains_key(k) implies (
            t.by_endpoint.contains_key(k) && r.by_endpoint[k] == t.by_endpoint[k]) || (
            r.by_endpoint[k].endpoint_hex == k && new_here(
                peers,
                network_id,
                name,
                r.by_endpoint[k],
            )) by {}
            assert forall|k: Seq<char>| #[trigger] r.by_hostname.contains_key(k) implies (
            t.by_hostname.contains_key(k) && r.by_hostname[k] == t.by_hostname[k]) || (named_so(
                r.by_hostname[k],
                k,
            ) && new_here(peers, network_id, name, r.by_hostname[k])) by {}
            assert forall|k: Seq<char>| #[trigger] out.1.contains_key(k) implies out.1[k].endpoint_hex
                == k && new_here(peers, network_id, name, out.1[k]) by {}
        }
    }
}

/// A member is one of a network's peers.
spec fn new_here(
    peers: Seq<PeerEntryView>,
    network_id: u128,
    name: Seq<char>,
    v: PeerView,
) -> bool {
    exists|j: int| 0 <= j < peers.len() && #[trigger] stands_for(peers[j], network_id, name, v)
}

/// Every member that the tables hold, under an address, a key, a name or
/// without, is listed by one of the networks, and it is held under its own
/// address, its own key and its own names.
pub proof fn law_tables_hold_only_listed_peers(slices: Seq<(u128, SliceView)>)
    ensures
        ({
            let t = built(slices);
            &&& forall|ip: u32| #[trigger]
                t.by_ip.contains_key(ip) ==> t.by_ip[ip].ip == ip && is_listed(slices, t.by_ip[ip])
            &&& forall|k: Seq<char>| #[trigger]
                t.by_endpoint.contains_key(k) ==> t.by_endpoint[k].endpoint_hex == k && is_listed(
                    slices,
                    t.by_endpoint[k],
                )
            &&& forall|k: Seq<char>| #[trigger]
                t.by_hostname.contains_key(k) ==> named_so(t.by_hostname[k], k) && is_listed(
                    slices,
                    t.by_hostname[k],
                )
            &&& forall|x: int|
                0 <= x < t.members.len() ==> is_listed(slices, #[trigger] t.members[x])
        }),
    decreases slices.len(),
{
    if slices.len() > 0 {
        let front = slices.drop_last();
        let n = slices.len() - 1;
        let id = slices[n].0;
        let s = slices[n].1;
        law_tables_hold_only_listed_peers(front);
        lemma_built(front, Set::full());
        let t = built(front);
        lemma_slice_peers(t, id, s);
        let named = TableModel {
            network_name: if t.network_name.len() == 0 {
                s.network_name
            } else {
                t.network_name
            },
            dns_suffix: s.dns_suffix,
            ..t
        };
        lemma_only_new_peers(named, s.peers, id, s.network_name);
        let r = built(slices);
        assert(r == add_slice(t, id, s));
        assert forall|v: PeerView| #[trigger] is_listed(front, v) implies is_listed(slices, v) by {
            let (m, i) = choose|m: int, i: int|
                0 <= m < front.len() && 0 <= i < front[m].1.peers.len() && #[trigger] stands_for(
                    front[m].1.peers[i],
                    front[m].0,
                    front[m].1.network_name,
                    v,
                );
            assert(front[m] == slices[m]);
            assert(stands_for(slices[m].1.peers[i], slices[m].0, slices[m].1.network_name, v));
        }
        assert forall|v: PeerView|
            (exists|j: int|
                0 <= j < s.peers.len() && #[trigger] stands_for(s.peers[j], id, s.network_name, v))
            implies #[trigger] is_listed(slices, v) by {
            let j = choose|j: int|
                0 <= j < s.peers.len() && #[trigger] stands_for(s.peers[j], id, s.network_name, v);
            assert(stands_for(slices[n].1.peers[j], slices[n].0, slices[n].1.network_name, v));
        }
        assert forall|ip: u32| #[trigger] r.by_ip.contains_key(ip) implies r.by_ip[ip].ip == ip
            && is_listed(slices, r.by_ip[ip]) by {
            if t.by_ip.contains_key(ip) && r.by_ip[ip] == t.by_ip[ip] {
                assert(is_listed(front, t.by_ip[ip]));
            }
        }
        assert forall|k: Seq<char>| #[trigger] r.by_endpoint.contains_key(k) implies r.by_endpoint[k].endpoint_hex
            == k && is_listed(slices, r.by_endpoint[k]) by {
            if t.by_endpoint.contains_key(k) && r.by_endpoint[k] == t.by_endpoint[k] {
                assert(is_listed(front, t.by_endpoint[k]));
            }
        }
        assert forall|k: Seq<char>| #[trigger] r.by_hostname.contains_key(k) implies named_so(
            r.by_hostname[k],
            k,
        ) && is_listed(slices, r.by_hostname[k]) by {
            if t.by_hostname.contains_key(k) && r.by_hostname[k] == t.by_hostname[k] {
                assert(is_listed(front, t.by_hostname[k]));
            }
        }
        assert forall|x: int| 0 <= x < r.members.len() implies is_listed(
            slices,
            #[trigger] r.members[x],
        ) by {
            if t.members.contains(r.members[x]) {
                let y = choose|y: int| 0 <= y < t.members.len() && t.members[y] == r.members[x];
                assert(is_listed(front, t.members[y]));
            }
        }
    }
}

/// Peer `j` of network `m` comes before peer `i` of network `n`.
pub open spec fn comes_before(m: int, j: int, n: int, i: int) -> bool {
    m < n || (m == n && j < i)
}

/// Every peer of every network whose key can be read is entered: its address
/// and its key lead to a member, its names are known, and its network has a
/// member at its address. Where no peer before it has the address, the address
/// leads to this very peer, and so does the key where none before it has the
/// key. Where no later peer of its network has the address and the networks
/// differ, the peer itself is among the members.
pub proof fn law_every_network_is_entered(slices: Seq<(u128, SliceView)>, n: int, i: int)
    requires
        0 <= n < slices.len(),
        0 <= i < slices[n].1.peers.len(),
        endpoint_of(slices[n].1.peers[i].endpoint_id) is Some,
    ensures
        ({
            let t = built(slices);
            let p = slices[n].1.peers[i];
            let id = endpoint_of(p.endpoint_id)->0;
            let network = slices[n].0;
            let name = slices[n].1.network_name;
            &&& t.by_ip.contains_key(p.ip)
            &&& t.by_endpoint.contains_key(id.hex())
            &&& p.hostname.len() > 0 ==> t.by_hostname.contains_key(lower(p.hostname))
            &&& p.hostname.len() > 0 && name.len() > 0 ==> t.by_hostname.contains_key(
                lower(p.hostname) + "."@ + name,
            )
            &&& (forall|m: int, j: int|
                0 <= m < slices.len() && 0 <= j < slices[m].1.peers.len() && comes_before(
                    m,
                    j,
                    n,
                    i,
                ) && endpoint_of((#[trigger] slices[m].1.peers[j]).endpoint_id) is Some
                    ==> slices[m].1.peers[j].ip != p.ip) ==> stands_for(
                p,
                network,
                name,
                t.by_ip[p.ip],
            )
            &&& (forall|m: int, j: int|
                0 <= m < slices.len() && 0 <= j < slices[m].1.peers.len() && comes_before(
                    m,
                    j,
                    n,
                    i,
                ) ==> (endpoint_of((#[trigger] slices[m].1.peers[j]).endpoint_id) matches Some(o)
                    ==> o.hex() != id.hex())) ==> stands_for(
                p,
                network,
                name,
                t.by_endpoint[id.hex()],
            )
            &&& (forall|m: int|
                n < m < slices.len() ==> (#[trigger] slices[m]).0 != network) ==> exists|k: int|
                0 <= k < t.members.len() && (#[trigger] t.members[k]).network_id == network
                    && t.members[k].ip == p.ip
            &&& (forall|m: int| n < m < slices.len() ==> (#[trigger] slices[m]).0 != network) && (
            forall|j: int|
                i < j < slices[n].1.peers.len() && endpoint_of(
                    (#[trigger] slices[n].1.peers[j]).endpoint_id,
                ) is Some ==> slices[n].1.peers[j].ip != p.ip) ==> exists|k: int|
                0 <= k < t.members.len() && stands_for(p, network, name, #[trigger] t.members[k])
        }),
    decreases slices.len(),
{
    let front = slices.drop_last();
    let e = slices.len() - 1;
    let p = slices[n].1.peers[i];
    let id = endpoint_of(p.endpoint_id)->0;
    let network = slices[n].0;
    let name = slices[n].1.network_name;
    let t = built(front);
    let r = built(slices);
    let last_id = slices[e].0;
    let last = slices[e].1;
    assert(r == add_slice(t, last_id, last));
    lemma_built(front, Set::full());
    lemma_slice_peers(t, last_id, last);
    lemma_add_slice(t, last_id, last, Set::full());
    let named = TableModel {
        network_name: if t.network_name.len() == 0 {
            last.network_name
        } else {
            t.network_name
        },
        dns_suffix: last.dns_suffix,
        ..t
    };
    lemma_only_new_peers(named, last.peers, last_id, last.network_name);
    if n == e {
        lemma_peer_entered(named, last.peers, last_id, last.network_name, i);
        law_tables_hold_only_listed_peers(front);
        if forall|m: int, j: int|
            0 <= m < slices.len() && 0 <= j < slices[m].1.peers.len() && comes_before(m, j, n, i)
                && endpoint_of((#[trigger] slices[m].1.peers[j]).endpoint_id) is Some
                ==> slices[m].1.peers[j].ip != p.ip {
            if t.by_ip.contains_key(p.ip) {
                let v = t.by_ip[p.ip];
                assert(is_listed(front, v));
                let (m, j) = choose|m: int, j: int|
                    0 <= m < front.len() && 0 <= j < front[m].1.peers.len()
                        && #[trigger] stands_for(
                        front[m].1.peers[j],
                        front[m].0,
                        front[m].1.network_name,
                        v,
                    );
                assert(front[m] == slices[m]);
                assert(endpoint_of(slices[m].1.peers[j].endpoint_id) is Some);
                assert(comes_before(m, j, n, i));
            }
            assert forall|j: int|
                0 <= j < i && endpoint_of((#[trigger] last.peers[j]).endpoint_id) is Some implies last.peers[j].ip
                != p.ip by {
                assert(comes_before(n, j, n, i));
                assert(slices[n].1.peers[j].ip != p.ip);
            }
        }
        if forall|m: int, j: int|
            0 <= m < slices.len() && 0 <= j < slices[m].1.peers.len() && comes_before(m, j, n, i)
                ==> (endpoint_of((#[trigger] slices[m].1.peers[j]).endpoint_id) matches Some(o)
                ==> o.hex() != id.hex()) {
            if t.by_endpoint.contains_key(id.hex()) {
                let v = t.by_endpoint[id.hex()];
                assert(is_listed(front, v));
                let (m, j) = choose|m: int, j: int|
                    0 <= m < front.len() && 0 <= j < front[m].1.peers.len()
                        && #[trigger] stands_for(
                        front[m].1.peers[j],
                        front[m].0,
                        front[m].1.network_name,
                        v,
                    );
                assert(front[m] == slices[m]);
                assert(comes_before(m, j, n, i));
                assert(endpoint_of(slices[m].1.peers[j].endpoint_id) is Some);
            }
            assert forall|j: int| 0 <= j < i implies (endpoint_of(
                (#[trigger] last.peers[j]).endpoint_id,
            ) matches Some(o) ==> o.hex() != id.hex()) by {
                assert(comes_before(n, j, n, i));
                assert(endpoint_of(slices[n].1.peers[j].endpoint_id) matches Some(o) ==> o.hex()
                    != id.hex());
            }
        }
    } else {
        assert(front[n] == slices[n]);
        law_every_network_is_entered(front, n, i);
        assert(extends(t, r));
        if p.hostname.len() > 0 {
            assert(named.by_hostname.contains_key(lower(p.hostname)));
        }
        if forall|m: int, j: int|
            0 <= m < slices.len() && 0 <= j < slices[m].1.peers.len() && comes_before(m, j, n, i)
                && endpoint_of((#[trigger] slices[m].1.peers[j]).endpoint_id) is Some
                ==> slices[m].1.peers[j].ip != p.ip {
            assert forall|m: int, j: int|
                0 <= m < front.len() && 0 <= j < front[m].1.peers.len() && comes_before(m, j, n, i)
                    && endpoint_of((#[trigger] front[m].1.peers[j]).endpoint_id) is Some implies front[m].1.peers[j].ip
                != p.ip by {
                assert(front[m] == slices[m]);
                assert(slices[m].1.peers[j].ip != p.ip);
            }
        }
        if forall|m: int, j: int|
            0 <= m < slices.len() && 0 <= j < slices[m].1.peers.len() && comes_before(m, j, n, i)
                ==> (endpoint_of((#[trigger] slices[m].1.peers[j]).endpoint_id) matches Some(o)
                ==> o.hex() != id.hex()) {
            assert forall|m: int, j: int|
                0 <= m < front.len() && 0 <= j < front[m].1.peers.len() && comes_before(
                    m,
                    j,
                    n,
                    i,
                ) implies (endpoint_of(
                (#[trigger] front[m].1.peers[j]).endpoint_id,
            ) matches Some(o) ==> o.hex() != id.hex()) by {
                assert(front[m] == slices[m]);
                assert(endpoint_of(slices[m].1.peers[j].endpoint_id) matches Some(o) ==> o.hex()
                    != id.hex());
            }
        }
        if forall|m: int| n < m < slices.len() ==> (#[trigger] slices[m]).0 != network {
            assert(slices[e].0 != network);
            assert forall|m: int| n < m < front.len() implies (#[trigger] front[m]).0 != network by {
                assert(front[m] == slices[m]);
            }
            let k = choose|k: int|
                0 <= k < t.members.len() && (#[trigger] t.members[k]).network_id == network
                    && t.members[k].ip == p.ip;
            assert(named.members[k] == t.members[k]);
            assert(r.members.contains(t.members[k]));
            let x = choose|x: int| 0 <= x < r.members.len() && r.members[x] == t.members[k];
            assert(r.members[x].network_id == network);
            if forall|j: int|
                i < j < slices[n].1.peers.len() && endpoint_of(
                    (#[trigger] slices[n].1.peers[j]).endpoint_id,
                ) is Some ==> slices[n].1.peers[j].ip != p.ip {
                let y = choose|y: int|
                    0 <= y < t.members.len() && stands_for(
                        p,
                        network,
                        name,
                        #[trigger] t.members[y],
                    );
                assert(named.members[y] == t.members[y]);
                assert(r.members.contains(t.members[y]));
                let z = choose|z: int| 0 <= z < r.members.len() && r.members[z] == t.members[y];
                assert(stands_for(p, network, name, r.members[z]));
            }
        }
    }
}

/// A member is the one that a route's text names, by its key.
pub open spec fn goes_via(v: PeerView, via: Seq<char>) -> bool {
    v.endpoint_hex == via || (endpoint_of(via) matches Some(id) && v.endpoint_hex == id.hex())
}

/// A route of a network leads elsewhere than to this node, and it is for the
/// network with this key.
pub open spec fn claims(r: SubnetRouteView, s: SliceView, k: (u32, u8)) -> bool {
    r.via_endpoint_id != s.self_endpoint_id && net_key(r.cidr.base(), r.cidr.bits()) == k
}

/// The members of a network by key.
spec fn local_ok(local: Map<Seq<char>, PeerView>, network_id: u128) -> bool {
    forall|k: Seq<char>| #[trigger]
        local.contains_key(k) ==> local[k].endpoint_hex == k && local[k].network_id == network_id
}

proof fn lemma_via(
    local: Map<Seq<char>, PeerView>,
    via: Seq<char>,
    via_ip: u32,
    network_id: u128,
    name: Seq<char>,
)
    requires
        local_ok(local, network_id),
    ensures
        via_peer(local, via, via_ip, network_id, name) matches Some(v) ==> goes_via(v, via)
            && v.network_id == network_id,
        endpoint_of(via) is Some ==> via_peer(local, via, via_ip, network_id, name) is Some,
{
}

proof fn lemma_subnets_entered(
    t: TableModel,
    local: Map<Seq<char>, PeerView>,
    routes: Seq<SubnetRouteView>,
    network_id: u128,
    s: SliceView,
    k: (u32, u8),
)
    requires
        local_ok(local, network_id),
    ensures
        ({
            let r = add_subnets(t, local, routes, network_id, s);
            &&& forall|i: int|
                0 <= i < routes.len() && claims(#[trigger] routes[i], s, k) && endpoint_of(
                    routes[i].via_endpoint_id,
                ) is Some ==> r.subnets.contains_key(k)
            &&& t.subnets.contains_key(k) ==> r.subnets.contains_key(k) && r.subnets[k]
                == t.subnets[k]
            &&& r.subnets.contains_key(k) && !t.subnets.contains_key(k) ==> exists|i: int|
                0 <= i < routes.len() && claims(#[trigger] routes[i], s, k) && goes_via(
                    r.subnets[k],
                    routes[i].via_endpoint_id,
                ) && r.subnets[k].network_id == network_id && forall|j: int|
                    0 <= j < i && claims(#[trigger] routes[j], s, k) ==> endpoint_of(
                        routes[j].via_endpoint_id,
                    ) is None
        }),
    decreases routes.len(),
{
    if routes.len() > 0 {
        let front = routes.drop_last();
        let n = routes.len() - 1;
        let last = routes.last();
        lemma_subnets_entered(t, local, front, network_id, s, k);
        lemma_via(local, last.via_endpoint_id, last.via_ip, network_id, s.network_name);
        let before = add_subnets(t, local, front, network_id, s);
        let r = add_subnets(t, local, routes, network_id, s);
        assert(routes[n] == last);
        assert(forall|j: int| 0 <= j < n ==> #[trigger] front[j] == routes[j]);
        if r.subnets.contains_key(k) && !t.subnets.contains_key(k) {
            if before.subnets.contains_key(k) {
                let i = choose|i: int|
                    0 <= i < front.len() && claims(#[trigger] front[i], s, k) && goes_via(
                        before.subnets[k],
                        front[i].via_endpoint_id,
                    ) && before.subnets[k].network_id == network_id && forall|j: int|
                        0 <= j < i && claims(#[trigger] front[j], s, k) ==> endpoint_of(
                            front[j].via_endpoint_id,
                        ) is None;
                assert(claims(routes[i], s, k));
                assert forall|j: int| 0 <= j < i && claims(#[trigger] routes[j], s, k) implies endpoint_of(
                routes[j].via_endpoint_id) is None by {
                    assert(claims(front[j], s, k));
                }
            } else {
                assert(claims(routes[n], s, k));
                assert forall|j: int| 0 <= j < n && claims(#[trigger] routes[j], s, k) implies endpoint_of(
                routes[j].via_endpoint_id) is None by {
                    assert(claims(front[j], s, k));
                }
            }
        }
        assert forall|i: int|
            0 <= i < routes.len() && claims(#[trigger] routes[i], s, k) && endpoint_of(
                routes[i].via_endpoint_id,
            ) is Some implies r.subnets.contains_key(k) by {
            if i < n {
                assert(claims(front[i], s, k));
            }
        }
    }
}

proof fn lemma_nets_entered(
    m: Map<(u32, u8), PeerView>,
    nets: Seq<Ipv4Net>,
    p: PeerView,
    k: (u32, u8),
)
    ensures
        ({
            let r = add_nets(m, nets, p);
            &&& r.contains_key(k) <==> m.contains_key(k) || exists|c: int|
                0 <= c < nets.len() && net_key((#[trigger] nets[c]).base(), nets[c].bits()) == k
            &&& m.contains_key(k) ==> r[k] == m[k]
            &&& r.contains_key(k) && !m.contains_key(k) ==> r[k] == p
        }),
    decreases nets.len(),
{
    if nets.len() > 0 {
        let front = nets.drop_last();
        lemma_nets_entered(m, front, p, k);
        let n = nets.len() - 1;
        assert(nets[n] == nets.last());
        if exists|c: int|
            0 <= c < nets.len() && net_key((#[trigger] nets[c]).base(), nets[c].bits()) == k {
            let c = choose|c: int|
                0 <= c < nets.len() && net_key((#[trigger] nets[c]).base(), nets[c].bits()) == k;
            if c < n {
                assert(front[c] == nets[c]);
            }
        }
        if exists|c: int|
            0 <= c < front.len() && net_key((#[trigger] front[c]).base(), front[c].bits()) == k {
            let c = choose|c: int|
                0 <= c < front.len() && net_key((#[trigger] front[c]).base(), front[c].bits()) == k;
            assert(front[c] == nets[c]);
        }
    }
}

proof fn lemma_exit_place(exits: Seq<ExitNodeView>, id: Seq<char>)
    ensures
        0 <= exit_place(exits, id) <= exits.len(),
        exit_place(exits, id) < exits.len() ==> exits[exit_place(exits, id)].endpoint_id == id,
        forall|i: int| 0 <= i < exit_place(exits, id) ==> (#[trigger] exits[i]).endpoint_id != id,
    decreases exits.len(),
{
    if exits.len() > 0 && exits[0].endpoint_id != id {
        let rest = exits.skip(1);
        lemma_exit_place(rest, id);
        assert forall|i: int| 0 <= i < exit_place(exits, id) implies (#[trigger] exits[i]).endpoint_id
            != id by {
            if i > 0 {
                assert(rest[i - 1] == exits[i]);
            }
        }
    }
}

spec fn with_subnets(t: TableModel, network_id: u128, s: SliceView) -> TableModel {
    let p = with_peers(t, network_id, s);
    add_subnets(p.0, p.1, s.subnet_routes, network_id, s)
}

spec fn with_exit(t: TableModel, network_id: u128, s: SliceView) -> TableModel {
    let routed = with_subnets(t, network_id, s);
    choose_exit(
        TableModel {
            advertised: routed.advertised + exit_offers(s.exit_nodes, s.self_endpoint_id),
            ..routed
        },
        with_peers(t, network_id, s).1,
        network_id,
        s,
    )
}

/// What each part of a network leaves of the tables.
proof fn lemma_slice_routes(t: TableModel, network_id: u128, s: SliceView)
    requires
        members_distinct(t.members),
        longest_first(t.wildcards),
    ensures
        ({
            let r = add_slice(t, network_id, s);
            let p = with_peers(t, network_id, s);
            let routed = with_subnets(t, network_id, s);
            let e = with_exit(t, network_id, s);
            &&& local_ok(p.1, network_id)
            &&& p.0.subnets == t.subnets
            &&& p.0.advertised == t.advertised
            &&& routed.exit_node == t.exit_node
            &&& routed.allow_local_lan == t.allow_local_lan
            &&& e.advertised == routed.advertised + exit_offers(s.exit_nodes, s.self_endpoint_id)
            &&& e.hostname_exact == t.hostname_exact
            &&& e.wildcards == t.wildcards
            &&& e.advertised_hostnames == t.advertised_hostnames
            &&& r == add_hostname_routes(e, p.1, s.hostname_routes, network_id, s)
            &&& r.subnets == e.subnets
            &&& r.advertised == e.advertised
            &&& r.exit_node == e.exit_node
            &&& r.allow_local_lan == e.allow_local_lan
        }),
{
    let named = TableModel {
        network_name: if t.network_name.len() == 0 {
            s.network_name
        } else {
            t.network_name
        },
        dns_suffix: s.dns_suffix,
        ..t
    };
    let p = with_peers(t, network_id, s);
    lemma_add_peers(named, s.peers, network_id, s.network_name, Set::full());
    lemma_only_new_peers(named, s.peers, network_id, s.network_name);
    lemma_add_subnets(p.0, p.1, s.subnet_routes, network_id, s);
    lemma_add_hostname_routes(
        with_exit(t, network_id, s),
        p.1,
        s.hostname_routes,
        network_id,
        s,
    );
}

/// A network's chosen exit offers the network with this key.
pub open spec fn exit_claims(s: SliceView, k: (u32, u8)) -> bool {
    s.profile.exit_node_endpoint_id matches Some(id) && exists|e: int, c: int|
        0 <= e < s.exit_nodes.len() && s.exit_nodes[e].endpoint_id == id && 0 <= c
            < s.exit_nodes[e].allowed_cidrs.len() && net_key(
            (#[trigger] s.exit_nodes[e].allowed_cidrs[c]).base(),
            s.exit_nodes[e].allowed_cidrs[c].bits(),
        ) == k
}

/// What one network more does to the gateways and to the exit.
proof fn lemma_slice_gateways(t: TableModel, network_id: u128, s: SliceView, k: (u32, u8))
    requires
        members_distinct(t.members),
        longest_first(t.wildcards),
    ensures
        ({
            let r = add_slice(t, network_id, s);
            &&& t.subnets.contains_key(k) ==> r.subnets.contains_key(k) && r.subnets[k]
                == t.subnets[k]
            &&& forall|i: int|
                0 <= i < s.subnet_routes.len() && claims(#[trigger] s.subnet_routes[i], s, k)
                    && endpoint_of(s.subnet_routes[i].via_endpoint_id) is Some
                    ==> r.subnets.contains_key(k)
            &&& r.subnets.contains_key(k) && !t.subnets.contains_key(k) ==> r.subnets[k].network_id
                == network_id && ((exists|i: int|
                0 <= i < s.subnet_routes.len() && claims(#[trigger] s.subnet_routes[i], s, k)
                    && goes_via(r.subnets[k], s.subnet_routes[i].via_endpoint_id) && forall|j: int|
                    0 <= j < i && claims(#[trigger] s.subnet_routes[j], s, k) ==> endpoint_of(
                        s.subnet_routes[j].via_endpoint_id,
                    ) is None) || (exit_claims(s, k) && goes_via(
                r.subnets[k],
                s.profile.exit_node_endpoint_id->0,
            ) && forall|j: int|
                0 <= j < s.subnet_routes.len() && claims(#[trigger] s.subnet_routes[j], s, k)
                    ==> endpoint_of(s.subnet_routes[j].via_endpoint_id) is None))
            &&& t.exit_node is Some ==> r.exit_node == t.exit_node && r.allow_local_lan
                == t.allow_local_lan
            &&& t.exit_node is None && r.exit_node is Some ==> s.profile.exit_node_endpoint_id
                is Some && goes_via(r.exit_node->0, s.profile.exit_node_endpoint_id->0)
                && r.exit_node->0.network_id == network_id && r.allow_local_lan
                == s.profile.allow_local_lan
            &&& r.exit_node is None ==> r.allow_local_lan == t.allow_local_lan
            &&& (s.profile.exit_node_endpoint_id matches Some(id) && endpoint_of(id) is Some
                && exists|e: int|
                0 <= e < s.exit_nodes.len() && (#[trigger] s.exit_nodes[e]).endpoint_id == id)
                ==> r.exit_node is Some
        }),
{
    lemma_slice_routes(t, network_id, s);
    let p = with_peers(t, network_id, s);
    let routed = with_subnets(t, network_id, s);
    lemma_subnets_entered(p.0, p.1, s.subnet_routes, network_id, s, k);
    if let Some(id) = s.profile.exit_node_endpoint_id {
        lemma_exit_place(s.exit_nodes, id);
        let at = exit_place(s.exit_nodes, id);
        if at < s.exit_nodes.len() {
            let e = s.exit_nodes[at];
            lemma_via(p.1, e.endpoint_id, e.via_ip, network_id, s.network_name);
            if let Some(v) = via_peer(p.1, e.endpoint_id, e.via_ip, network_id, s.network_name) {
                lemma_nets_entered(routed.subnets, e.allowed_cidrs, v, k);
                if exists|c: int|
                    0 <= c < e.allowed_cidrs.len() && net_key(
                        (#[trigger] e.allowed_cidrs[c]).base(),
                        e.allowed_cidrs[c].bits(),
                    ) == k {
                    let c = choose|c: int|
                        0 <= c < e.allowed_cidrs.len() && net_key(
                            (#[trigger] e.allowed_cidrs[c]).base(),
                            e.allowed_cidrs[c].bits(),
                        ) == k;
                    assert(s.exit_nodes[at].allowed_cidrs[c] == e.allowed_cidrs[c]);
                    assert(exit_claims(s, k));
                }
            }
        }
    }
}

/// Every route of every network that leads to another node whose key can be
/// read is entered. It leads through that node where nothing claimed its
/// network before: no network before, and no route before it in its own.
pub proof fn law_remote_networks_are_entered(slices: Seq<(u128, SliceView)>, n: int, i: int)
    requires
        0 <= n < slices.len(),
        0 <= i < slices[n].1.subnet_routes.len(),
        slices[n].1.subnet_routes[i].via_endpoint_id != slices[n].1.self_endpoint_id,
        endpoint_of(slices[n].1.subnet_routes[i].via_endpoint_id) is Some,
    ensures
        ({
            let t = built(slices);
            let s = slices[n].1;
            let r = s.subnet_routes[i];
            let k = net_key(r.cidr.base(), r.cidr.bits());
            &&& t.subnets.contains_key(k)
            &&& !built(slices.take(n)).subnets.contains_key(k) && (forall|j: int|
                0 <= j < i ==> !claims(#[trigger] s.subnet_routes[j], s, k)) ==> goes_via(
                t.subnets[k],
                r.via_endpoint_id,
            ) && t.subnets[k].network_id == slices[n].0
        }),
    decreases slices.len(),
{
    let front = slices.drop_last();
    let e = slices.len() - 1;
    let r = slices[n].1.subnet_routes[i];
    let k = net_key(r.cidr.base(), r.cidr.bits());
    lemma_built(front, Set::full());
    lemma_slice_gateways(built(front), slices[e].0, slices[e].1, k);
    if n == e {
        assert(slices.take(n) =~= front);
        assert(claims(slices[e].1.subnet_routes[i], slices[e].1, k));
    } else {
        assert(front[n] == slices[n]);
        assert(front.take(n) =~= slices.take(n));
        law_remote_networks_are_entered(front, n, i);
    }
}

/// Whatever leads to a network somewhere was claimed: by a route of a network
/// through that node, or because a network's chosen exit offers it.
pub proof fn law_gateways_have_claimed_their_networks(slices: Seq<(u128, SliceView)>, k: (u32, u8))
    requires
        built(slices).subnets.contains_key(k),
    ensures
        ({
            let v = built(slices).subnets[k];
            ||| exists|n: int, i: int|
                0 <= n < slices.len() && slices[n].0 == v.network_id && 0 <= i
                    < slices[n].1.subnet_routes.len() && claims(
                    #[trigger] slices[n].1.subnet_routes[i],
                    slices[n].1,
                    k,
                ) && goes_via(v, slices[n].1.subnet_routes[i].via_endpoint_id)
            ||| exists|n: int|
                0 <= n < slices.len() && slices[n].0 == v.network_id && exit_claims(
                    (#[trigger] slices[n]).1,
                    k,
                ) && goes_via(v, slices[n].1.profile.exit_node_endpoint_id->0)
        }),
    decreases slices.len(),
{
    if slices.len() > 0 {
        let front = slices.drop_last();
        let e = slices.len() - 1;
        let s = slices[e].1;
        let v = built(slices).subnets[k];
        lemma_built(front, Set::full());
        lemma_slice_gateways(built(front), slices[e].0, s, k);
        if built(front).subnets.contains_key(k) {
            law_gateways_have_claimed_their_networks(front, k);
            if exists|n: int, i: int|
                0 <= n < front.len() && front[n].0 == v.network_id && 0 <= i
                    < front[n].1.subnet_routes.len() && claims(
                    #[trigger] front[n].1.subnet_routes[i],
                    front[n].1,
                    k,
                ) && goes_via(v, front[n].1.subnet_routes[i].via_endpoint_id) {
                let (n, i) = choose|n: int, i: int|
                    0 <= n < front.len() && front[n].0 == v.network_id && 0 <= i
                        < front[n].1.subnet_routes.len() && claims(
                        #[trigger] front[n].1.subnet_routes[i],
                        front[n].1,
                        k,
                    ) && goes_via(v, front[n].1.subnet_routes[i].via_endpoint_id);
                assert(front[n] == slices[n]);
                assert(claims(slices[n].1.subnet_routes[i], slices[n].1, k));
            } else {
                let n = choose|n: int|
                    0 <= n < front.len() && front[n].0 == v.network_id && exit_claims(
                        (#[trigger] front[n]).1,
                        k,
                    ) && goes_via(v, front[n].1.profile.exit_node_endpoint_id->0);
                assert(front[n] == slices[n]);
            }
        } else if exists|i: int|
            0 <= i < s.subnet_routes.len() && claims(#[trigger] s.subnet_routes[i], s, k)
                && goes_via(v, s.subnet_routes[i].via_endpoint_id) {
            let i = choose|i: int|
                0 <= i < s.subnet_routes.len() && claims(#[trigger] s.subnet_routes[i], s, k)
                    && goes_via(v, s.subnet_routes[i].via_endpoint_id);
            assert(claims(slices[e].1.subnet_routes[i], slices[e].1, k));
        } else {
            assert(exit_claims(slices[e].1, k));
        }
    }
}

/// The exit node is that of the first network that chooses one which it lists
/// and whose key can be read; that network says whether the LAN is left alone.
/// Where no network chooses an exit there is none.
pub proof fn law_first_chosen_exit_is_taken(slices: Seq<(u128, SliceView)>, n: int)
    requires
        0 <= n < slices.len(),
        forall|m: int|
            0 <= m < n ==> (#[trigger] slices[m]).1.profile.exit_node_endpoint_id is None,
    ensures
        (slices[n].1.profile.exit_node_endpoint_id matches Some(id) && endpoint_of(id) is Some
            && exists|e: int|
            0 <= e < slices[n].1.exit_nodes.len() && (
            #[trigger] slices[n].1.exit_nodes[e]).endpoint_id == id) ==> {
            &&& built(slices).exit_node is Some
            &&& goes_via(
                built(slices).exit_node->0,
                slices[n].1.profile.exit_node_endpoint_id->0,
            )
            &&& built(slices).exit_node->0.network_id == slices[n].0
            &&& built(slices).allow_local_lan == slices[n].1.profile.allow_local_lan
        },
        n == slices.len() - 1 && slices[n].1.profile.exit_node_endpoint_id is None ==> built(
            slices,
        ).exit_node is None && built(slices).allow_local_lan,
    decreases slices.len(),
{
    let front = slices.drop_last();
    let e = slices.len() - 1;
    let k = net_key(0, 0);
    lemma_built(front, Set::full());
    lemma_slice_gateways(built(front), slices[e].0, slices[e].1, k);
    if n < e {
        assert(front[n] == slices[n]);
        assert forall|m: int| 0 <= m < n implies (
        #[trigger] front[m]).1.profile.exit_node_endpoint_id is None by {
            assert(front[m] == slices[m]);
        }
        law_first_chosen_exit_is_taken(front, n);
        if exists|x: int|
            0 <= x < slices[n].1.exit_nodes.len() && (
            #[trigger] slices[n].1.exit_nodes[x]).endpoint_id
                == slices[n].1.profile.exit_node_endpoint_id->0 {
            let x = choose|x: int|
                0 <= x < slices[n].1.exit_nodes.len() && (
                #[trigger] slices[n].1.exit_nodes[x]).endpoint_id
                    == slices[n].1.profile.exit_node_endpoint_id->0;
            assert(front[n].1.exit_nodes[x].endpoint_id
                == slices[n].1.profile.exit_node_endpoint_id->0);
        }
    } else if e > 0 {
        assert forall|m: int| 0 <= m < e - 1 implies (
        #[trigger] front[m]).1.profile.exit_node_endpoint_id is None by {
            assert(front[m] == slices[m]);
        }
        assert(front[e - 1] == slices[e - 1]);
        law_first_chosen_exit_is_taken(front, e - 1);
    }
}

/// The networks that the chosen exit of a network offers are entered.
pub proof fn law_networks_of_the_exit_are_entered(
    slices: Seq<(u128, SliceView)>,
    n: int,
    e: int,
    c: int,
)
    requires
        0 <= n < slices.len(),
        0 <= e < slices[n].1.exit_nodes.len(),
        slices[n].1.profile.exit_node_endpoint_id == Some(slices[n].1.exit_nodes[e].endpoint_id),
        endpoint_of(slices[n].1.exit_nodes[e].endpoint_id) is Some,
        forall|x: int|
            0 <= x < e ==> (#[trigger] slices[n].1.exit_nodes[x]).endpoint_id
                != slices[n].1.exit_nodes[e].endpoint_id,
        0 <= c < slices[n].1.exit_nodes[e].allowed_cidrs.len(),
    ensures
        built(slices).subnets.contains_key(
            net_key(
                slices[n].1.exit_nodes[e].allowed_cidrs[c].base(),
                slices[n].1.exit_nodes[e].allowed_cidrs[c].bits(),
            ),
        ),
    decreases slices.len(),
{
    let front = slices.drop_last();
    let last = slices.len() - 1;
    let s = slices[n].1;
    let x = s.exit_nodes[e];
    let k = net_key(x.allowed_cidrs[c].base(), x.allowed_cidrs[c].bits());
    lemma_built(front, Set::full());
    if n == last {
        let t = built(front);
        lemma_slice_routes(t, slices[n].0, s);
        let p = with_peers(t, slices[n].0, s);
        lemma_exit_place(s.exit_nodes, x.endpoint_id);
        let at = exit_place(s.exit_nodes, x.endpoint_id);
        if at < e {
            assert(s.exit_nodes[at].endpoint_id != x.endpoint_id);
        }
        assert(at == e);
        lemma_via(p.1, x.endpoint_id, x.via_ip, slices[n].0, s.network_name);
        let v = via_peer(p.1, x.endpoint_id, x.via_ip, slices[n].0, s.network_name)->0;
        lemma_nets_entered(with_subnets(t, slices[n].0, s).subnets, x.allowed_cidrs, v, k);
    } else {
        assert(front[n] == slices[n]);
        law_networks_of_the_exit_are_entered(front, n, e, c);
        lemma_slice_gateways(built(front), slices[last].0, slices[last].1, k);
    }
}

/// A network offers a network itself: by a route through this node, or because
/// this node is one of its exits.
pub open spec fn offers(s: SliceView, net: Ipv4Net) -> bool {
    ||| exists|i: int|
        0 <= i < s.subnet_routes.len() && (#[trigger] s.subnet_routes[i]).via_endpoint_id
            == s.self_endpoint_id && s.subnet_routes[i].cidr == net
    ||| exists|e: int|
        0 <= e < s.exit_nodes.len() && (#[trigger] s.exit_nodes[e]).endpoint_id
            == s.self_endpoint_id && s.exit_nodes[e].allowed_cidrs.contains(net)
}

proof fn lemma_exit_offers(exits: Seq<ExitNodeView>, self_id: Seq<char>, net: Ipv4Net)
    ensures
        exit_offers(exits, self_id).contains(net) <==> exists|e: int|
            0 <= e < exits.len() && (#[trigger] exits[e]).endpoint_id == self_id
                && exits[e].allowed_cidrs.contains(net),
    decreases exits.len(),
{
    if exits.len() > 0 {
        let front = exits.drop_last();
        let n = exits.len() - 1;
        lemma_exit_offers(front, self_id, net);
        assert(exits[n] == exits.last());
        let a = exit_offers(front, self_id);
        let b = exits.last().allowed_cidrs;
        lemma_contains_joined(a, b, net);
        if exists|e: int|
            0 <= e < exits.len() && (#[trigger] exits[e]).endpoint_id == self_id
                && exits[e].allowed_cidrs.contains(net) {
            let e = choose|e: int|
                0 <= e < exits.len() && (#[trigger] exits[e]).endpoint_id == self_id
                    && exits[e].allowed_cidrs.contains(net);
            if e < n {
                assert(front[e] == exits[e]);
            }
        }
        if exists|e: int|
            0 <= e < front.len() && (#[trigger] front[e]).endpoint_id == self_id
                && front[e].allowed_cidrs.contains(net) {
            let e = choose|e: int|
                0 <= e < front.len() && (#[trigger] front[e]).endpoint_id == self_id
                    && front[e].allowed_cidrs.contains(net);
            assert(front[e] == exits[e]);
        }
    }
}

proof fn lemma_contains_joined<A>(a: Seq<A>, b: Seq<A>, x: A)
    ensures
        (a + b).contains(x) <==> a.contains(x) || b.contains(x),
{
    let s = a + b;
    if a.contains(x) {
        let i = choose|i: int| 0 <= i < a.len() && a[i] == x;
        assert(s[i] == x);
    }
    if b.contains(x) {
        let i = choose|i: int| 0 <= i < b.len() && b[i] == x;
        assert(s[a.len() + i] == x);
    }
    if s.contains(x) {
        let i = choose|i: int| 0 <= i < s.len() && s[i] == x;
        if i < a.len() {
            assert(a[i] == x);
        } else {
            assert(b[i - a.len()] == x);
        }
    }
}

proof fn lemma_subnets_offered(
    t: TableModel,
    local: Map<Seq<char>, PeerView>,
    routes: Seq<SubnetRouteView>,
    network_id: u128,
    s: SliceView,
    net: Ipv4Net,
)
    ensures
        add_subnets(t, local, routes, network_id, s).advertised.contains(net)
            <==> t.advertised.contains(net) || exists|i: int|
            0 <= i < routes.len() && (#[trigger] routes[i]).via_endpoint_id == s.self_endpoint_id
                && routes[i].cidr == net,
    decreases routes.len(),
{
    if routes.len() > 0 {
        let front = routes.drop_last();
        let n = routes.len() - 1;
        lemma_subnets_offered(t, local, front, network_id, s, net);
        let before = add_subnets(t, local, front, network_id, s).advertised;
        let last = routes.last();
        assert(routes[n] == last);
        lemma_contains_joined(before, seq![last.cidr], net);
        assert(before.push(last.cidr) =~= before + seq![last.cidr]);
        assert(seq![last.cidr].contains(net) <==> net == last.cidr) by {
            assert(seq![last.cidr][0] == last.cidr);
        }
        if exists|i: int|
            0 <= i < routes.len() && (#[trigger] routes[i]).via_endpoint_id == s.self_endpoint_id
                && routes[i].cidr == net {
            let i = choose|i: int|
                0 <= i < routes.len() && (#[trigger] routes[i]).via_endpoint_id
                    == s.self_endpoint_id && routes[i].cidr == net;
            if i < n {
                assert(front[i] == routes[i]);
            }
        }
        if exists|i: int|
            0 <= i < front.len() && (#[trigger] front[i]).via_endpoint_id == s.self_endpoint_id
                && front[i].cidr == net {
            let i = choose|i: int|
                0 <= i < front.len() && (#[trigger] front[i]).via_endpoint_id
                    == s.self_endpoint_id && front[i].cidr == net;
            assert(front[i] == routes[i]);
        }
    }
}

/// This node offers exactly the networks that one of its networks has through
/// it, as a gateway or as an exit.
pub proof fn law_own_networks_are_offered(slices: Seq<(u128, SliceView)>, net: Ipv4Net)
    ensures
        built(slices).advertised.contains(net) <==> exists|n: int|
            0 <= n < slices.len() && offers((#[trigger] slices[n]).1, net),
    decreases slices.len(),
{
    if slices.len() > 0 {
        let front = slices.drop_last();
        let e = slices.len() - 1;
        let id = slices[e].0;
        let s = slices[e].1;
        let t = built(front);
        law_own_networks_are_offered(front, net);
        lemma_built(front, Set::full());
        lemma_slice_routes(t, id, s);
        let p = with_peers(t, id, s);
        lemma_subnets_offered(p.0, p.1, s.subnet_routes, id, s, net);
        lemma_exit_offers(s.exit_nodes, s.self_endpoint_id, net);
        lemma_contains_joined(
            with_subnets(t, id, s).advertised,
            exit_offers(s.exit_nodes, s.self_endpoint_id),
            net,
        );
        assert(built(slices).advertised.contains(net) <==> t.advertised.contains(net) || offers(
            s,
            net,
        ));
        if exists|n: int| 0 <= n < slices.len() && offers((#[trigger] slices[n]).1, net) {
            let n = choose|n: int| 0 <= n < slices.len() && offers((#[trigger] slices[n]).1, net);
            if n < e {
                assert(front[n] == slices[n]);
            }
        }
        if exists|n: int| 0 <= n < front.len() && offers((#[trigger] front[n]).1, net) {
            let n = choose|n: int| 0 <= n < front.len() && offers((#[trigger] front[n]).1, net);
            assert(front[n] == slices[n]);
        }
    }
}

/// A host name route as the tables know it is what a network lists.
pub open spec fn route_for(r: HostnameRouteView, v: HostView) -> bool {
    &&& goes_via(v.peer, r.via_endpoint_id)
    &&& v.is_wildcard == r.is_wildcard
    &&& v.target_ip == r.target_ip
    &&& v.hostname == lower(r.hostname)
}

/// Some host name route of a list, through this node or not, is the one.
pub open spec fn some_route(
    routes: Seq<HostnameRouteView>,
    self_id: Seq<char>,
    own: bool,
    v: HostView,
) -> bool {
    exists|i: int|
        0 <= i < routes.len() && (routes[i].via_endpoint_id == self_id) == own && route_for(
            #[trigger] routes[i],
            v,
        )
}

proof fn lemma_hosts_entered(
    t: TableModel,
    local: Map<Seq<char>, PeerView>,
    routes: Seq<HostnameRouteView>,
    network_id: u128,
    s: SliceView,
)
    requires
        local_ok(local, network_id),
    ensures
        ({
            let r = add_hostname_routes(t, local, routes, network_id, s);
            let me = s.self_endpoint_id;
            &&& forall|k: Seq<char>| #[trigger]
                t.hostname_exact.contains_key(k) ==> r.hostname_exact.contains_key(k)
            &&& forall|v: HostView| #[trigger]
                t.wildcards.contains(v) ==> r.wildcards.contains(v)
            &&& forall|v: HostView| #[trigger]
                t.advertised_hostnames.contains(v) ==> r.advertised_hostnames.contains(v)
            &&& forall|i: int|
                0 <= i < routes.len() && endpoint_of((#[trigger] routes[i]).via_endpoint_id) is Some
                    ==> {
                    &&& routes[i].via_endpoint_id == me ==> exists|v: HostView|
                        #[trigger] r.advertised_hostnames.contains(v) && route_for(routes[i], v)
                    &&& routes[i].via_endpoint_id != me && routes[i].is_wildcard ==> exists|
                        v: HostView,
                    | #[trigger] r.wildcards.contains(v) && route_for(routes[i], v)
                    &&& routes[i].via_endpoint_id != me && !routes[i].is_wildcard
                        ==> r.hostname_exact.contains_key(lower(routes[i].hostname))
                }
            &&& forall|k: Seq<char>| #[trigger]
                r.hostname_exact.contains_key(k) ==> (t.hostname_exact.contains_key(k)
                    && r.hostname_exact[k] == t.hostname_exact[k]) || (
                r.hostname_exact[k].hostname == k && !r.hostname_exact[k].is_wildcard
                    && some_route(routes, me, false, r.hostname_exact[k]))
            &&& forall|v: HostView| #[trigger]
                r.wildcards.contains(v) ==> t.wildcards.contains(v) || (v.is_wildcard && some_route(
                    routes,
                    me,
                    false,
                    v,
                ))
            &&& forall|v: HostView| #[trigger]
                r.advertised_hostnames.contains(v) ==> t.advertised_hostnames.contains(v)
                    || some_route(routes, me, true, v)
        }),
    decreases routes.len(),
{
    if routes.len() > 0 {
        let front = routes.drop_last();
        let n = routes.len() - 1;
        let last = routes.last();
        let me = s.self_endpoint_id;
        lemma_hosts_entered(t, local, front, network_id, s);
        lemma_via(local, last.via_endpoint_id, last.via_ip, network_id, s.network_name);
        let b = add_hostname_routes(t, local, front, network_id, s);
        let r = add_hostname_routes(t, local, routes, network_id, s);
        assert(routes[n] == last);
        assert(forall|j: int| 0 <= j < n ==> #[trigger] front[j] == routes[j]);
        assert forall|own: bool, v: HostView| #[trigger]
            some_route(front, me, own, v) implies some_route(routes, me, own, v) by {
            let i = choose|i: int|
                0 <= i < front.len() && (front[i].via_endpoint_id == me) == own && route_for(
                    #[trigger] front[i],
                    v,
                );
            assert(route_for(routes[i], v));
        }
        if let Some(p) = via_peer(
            local,
            last.via_endpoint_id,
            last.via_ip,
            network_id,
            s.network_name,
        ) {
            let info = HostView {
                peer: p,
                is_wildcard: last.is_wildcard,
                target_ip: last.target_ip,
                hostname: lower(last.hostname),
            };
            assert(route_for(routes[n], info));
            assert(some_route(routes, me, last.via_endpoint_id == me, info));
            if last.via_endpoint_id == me {
                assert forall|v: HostView|
                    #[trigger] r.advertised_hostnames.contains(v) <==> b.advertised_hostnames.contains(v)
                    || v == info by {
                    assert(b.advertised_hostnames.push(info) =~= b.advertised_hostnames + seq![info]);
                    lemma_contains_joined(b.advertised_hostnames, seq![info], v);
                    assert(seq![info][0] == info);
                }
            } else if last.is_wildcard {
                let at = crate::tables::wildcard_place(
                    b.wildcards,
                    crate::tables::byte_len(lower(last.hostname)),
                );
                crate::tables::lemma_wildcard_place(
                    b.wildcards,
                    crate::tables::byte_len(lower(last.hostname)),
                );
                assert forall|v: HostView|
                    #[trigger] r.wildcards.contains(v) <==> b.wildcards.contains(v) || v == info by {
                    let w = b.wildcards.insert(at, info);
                    assert(w == r.wildcards);
                    assert(w[at] == info);
                    if b.wildcards.contains(v) {
                        let i = choose|i: int| 0 <= i < b.wildcards.len() && b.wildcards[i] == v;
                        if i < at {
                            assert(w[i] == v);
                        } else {
                            assert(w[i + 1] == v);
                        }
                    }
                    if w.contains(v) && v != info {
                        let i = choose|i: int| 0 <= i < w.len() && w[i] == v;
                        if i < at {
                            assert(b.wildcards[i] == v);
                        } else {
                            assert(b.wildcards[i - 1] == v);
                        }
                    }
                }
            }
        }
        assert forall|i: int|
            0 <= i < routes.len() && endpoint_of(
                (#[trigger] routes[i]).via_endpoint_id,
            ) is Some implies {
            &&& routes[i].via_endpoint_id == me ==> exists|v: HostView|
                #[trigger] r.advertised_hostnames.contains(v) && route_for(routes[i], v)
            &&& routes[i].via_endpoint_id != me && routes[i].is_wildcard ==> exists|v: HostView|
                #[trigger] r.wildcards.contains(v) && route_for(routes[i], v)
            &&& routes[i].via_endpoint_id != me && !routes[i].is_wildcard
                ==> r.hostname_exact.contains_key(lower(routes[i].hostname))
        } by {
            if i < n {
                assert(front[i] == routes[i]);
                if routes[i].via_endpoint_id == me {
                    let v = choose|v: HostView|
                        #[trigger] b.advertised_hostnames.contains(v) && route_for(front[i], v);
                    assert(r.advertised_hostnames.contains(v));
                } else if routes[i].is_wildcard {
                    let v = choose|v: HostView|
                        #[trigger] b.wildcards.contains(v) && route_for(front[i], v);
                    assert(r.wildcards.contains(v));
                }
            } else {
                let p = via_peer(
                    local,
                    last.via_endpoint_id,
                    last.via_ip,
                    network_id,
                    s.network_name,
                )->0;
                let info = HostView {
                    peer: p,
                    is_wildcard: last.is_wildcard,
                    target_ip: last.target_ip,
                    hostname: lower(last.hostname),
                };
                if last.via_endpoint_id == me {
                    assert(r.advertised_hostnames.contains(info));
                } else if last.is_wildcard {
                    assert(r.wildcards.contains(info));
                }
                assert(route_for(routes[i], info));
            }
        }
    }
}

/// Every host name route of every network through a node whose key can be read
/// is entered: as one that this node serves itself, as a wildcard, or under its
/// name in lower case.
pub proof fn law_hostname_routes_are_entered(slices: Seq<(u128, SliceView)>, n: int, i: int)
    requires
        0 <= n < slices.len(),
        0 <= i < slices[n].1.hostname_routes.len(),
        endpoint_of(slices[n].1.hostname_routes[i].via_endpoint_id) is Some,
    ensures
        ({
            let t = built(slices);
            let r = slices[n].1.hostname_routes[i];
            let own = r.via_endpoint_id == slices[n].1.self_endpoint_id;
            &&& own ==> exists|v: HostView|
                #[trigger] t.advertised_hostnames.contains(v) && route_for(r, v)
            &&& !own && r.is_wildcard ==> exists|v: HostView|
                #[trigger] t.wildcards.contains(v) && route_for(r, v)
            &&& !own && !r.is_wildcard ==> t.hostname_exact.contains_key(lower(r.hostname))
        }),
    decreases slices.len(),
{
    let front = slices.drop_last();
    let e = slices.len() - 1;
    let id = slices[e].0;
    let s = slices[e].1;
    let t = built(front);
    lemma_built(front, Set::full());
    lemma_slice_routes(t, id, s);
    lemma_hosts_entered(with_exit(t, id, s), with_peers(t, id, s).1, s.hostname_routes, id, s);
    let r = slices[n].1.hostname_routes[i];
    let own = r.via_endpoint_id == slices[n].1.self_endpoint_id;
    if n == e {
        assert(s.hostname_routes[i] == r);
    } else {
        assert(front[n] == slices[n]);
        law_hostname_routes_are_entered(front, n, i);
        if own {
            let v = choose|v: HostView|
                #[trigger] t.advertised_hostnames.contains(v) && route_for(r, v);
            assert(built(slices).advertised_hostnames.contains(v));
        } else if r.is_wildcard {
            let v = choose|v: HostView| #[trigger] t.wildcards.contains(v) && route_for(r, v);
            assert(built(slices).wildcards.contains(v));
        }
    }
}

/// Some network lists a host name route, through this node or not.
pub open spec fn lists_route(slices: Seq<(u128, SliceView)>, own: bool, v: HostView) -> bool {
    exists|n: int|
        0 <= n < slices.len() && some_route(
            (#[trigger] slices[n]).1.hostname_routes,
            slices[n].1.self_endpoint_id,
            own,
            v,
        )
}

/// Every host name route that the tables hold is listed by a network, and an
/// exact one is held under its own name.
pub proof fn law_tables_hold_only_listed_hostname_routes(slices: Seq<(u128, SliceView)>)
    ensures
        ({
            let t = built(slices);
            &&& forall|k: Seq<char>| #[trigger]
                t.hostname_exact.contains_key(k) ==> t.hostname_exact[k].hostname == k
                    && !t.hostname_exact[k].is_wildcard && lists_route(
                    slices,
                    false,
                    t.hostname_exact[k],
                )
            &&& forall|v: HostView| #[trigger]
                t.wildcards.contains(v) ==> v.is_wildcard && lists_route(slices, false, v)
            &&& forall|v: HostView| #[trigger]
                t.advertised_hostnames.contains(v) ==> lists_route(slices, true, v)
        }),
    decreases slices.len(),
{
    if slices.len() > 0 {
        let front = slices.drop_last();
        let e = slices.len() - 1;
        let id = slices[e].0;
        let s = slices[e].1;
        let t = built(front);
        law_tables_hold_only_listed_hostname_routes(front);
        lemma_built(front, Set::full());
        lemma_slice_routes(t, id, s);
        lemma_hosts_entered(with_exit(t, id, s), with_peers(t, id, s).1, s.hostname_routes, id, s);
        assert forall|own: bool, v: HostView| #[trigger]
            lists_route(front, own, v) implies lists_route(slices, own, v) by {
            let n = choose|n: int|
                0 <= n < front.len() && some_route(
                    (#[trigger] front[n]).1.hostname_routes,
                    front[n].1.self_endpoint_id,
                    own,
                    v,
                );
            assert(front[n] == slices[n]);
        }
        assert forall|own: bool, v: HostView| #[trigger]
            some_route(s.hostname_routes, s.self_endpoint_id, own, v) implies lists_route(
            slices,
            own,
            v,
        ) by {
            assert(slices[e].1 == s);
        }
    }
}

/// The suffix of names is that of the last network, and the node's network is
/// called by the first of them that has a name.
pub proof fn law_names_of_the_node(slices: Seq<(u128, SliceView)>, n: int)
    requires
        0 <= n < slices.len(),
        slices[n].1.network_name.len() > 0,
        forall|m: int| 0 <= m < n ==> (#[trigger] slices[m]).1.network_name.len() == 0,
    ensures
        built(slices).dns_suffix == slices[slices.len() - 1].1.dns_suffix,
        built(slices).network_name == slices[n].1.network_name,
    decreases slices.len(),
{
    let front = slices.drop_last();
    let e = slices.len() - 1;
    lemma_built(front, Set::full());
    lemma_slice_peers(built(front), slices[e].0, slices[e].1);
    if n < e {
        assert(front[n] == slices[n]);
        assert forall|m: int| 0 <= m < n implies (#[trigger] front[m]).1.network_name.len() == 0 by {
            assert(front[m] == slices[m]);
        }
        law_names_of_the_node(front, n);
    } else {
        lemma_no_name(front, slices);
    }
}

proof fn lemma_no_name(front: Seq<(u128, SliceView)>, slices: Seq<(u128, SliceView)>)
    requires
        front.len() <= slices.len(),
        forall|m: int|
            0 <= m < front.len() ==> front[m] == slices[m] && (
            #[trigger] slices[m]).1.network_name.len() == 0,
    ensures
        built(front).network_name.len() == 0,
    decreases front.len(),
{
    if front.len() > 0 {
        let less = front.drop_last();
        let e = front.len() - 1;
        assert forall|m: int| 0 <= m < less.len() implies less[m] == slices[m] && (
        #[trigger] slices[m]).1.network_name.len() == 0 by {
            assert(front[m] == slices[m]);
        }
        lemma_no_name(less, slices);
        lemma_built(less, Set::full());
        assert(slices[e].1.network_name.len() == 0);
        lemma_slice_peers(built(less), front[e].0, front[e].1);
    }
}

} // verus!
