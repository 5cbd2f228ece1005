//! What the tables answer, as functions of what they hold.

use crate::endpoint::EndpointId;
use crate::net::{
    broadcast_all, link_local, loopback, multicast, private_lan, unspecified, Ipv4Net,
};
use crate::prefixes::{lemma_longest_match, longest_match, net_key};
use crate::tables::{member_place, HostView, PeerView, TableModel};
use crate::text::{before_suffix, lower, trim_end_of};
use vstd::prelude::*;

verus! {

/// The member that a packet for an address is sent to: the owner of the
/// address, the gateway of the longest network around it, or the exit node.
pub open spec fn route_of(t: TableModel, ip: u32) -> Option<PeerView> {
    if multicast(ip) || broadcast_all(ip) {
        None
    } else if t.by_ip.contains_key(ip) {
        Some(t.by_ip[ip])
    } else {
        match longest_match(t.subnets, ip, 32) {
            Some(len) if !(t.allow_local_lan && private_lan(ip) && len == 0) => Some(
                t.subnets[net_key(ip, len)],
            ),
            _ => exit_for(t, ip),
        }
    }
}

/// The exit node takes what is neither local to the machine nor, where the LAN
/// is left alone, private.
pub open spec fn exit_for(t: TableModel, ip: u32) -> Option<PeerView> {
    if loopback(ip) || link_local(ip) || broadcast_all(ip) || unspecified(ip) {
        None
    } else if t.allow_local_lan && private_lan(ip) {
        None
    } else {
        t.exit_node
    }
}

/// The member with an address in a network.
pub open spec fn member_at(t: TableModel, network_id: u128, ip: u32) -> Option<PeerView> {
    let at = member_place(t.members, network_id, ip);
    if at < t.members.len() {
        Some(t.members[at])
    } else {
        None
    }
}

/// The first member of a network with a key.
pub open spec fn member_with_key(members: Seq<PeerView>, network_id: u128, hex: Seq<char>) -> Option<
    PeerView,
>
    decreases members.len(),
{
    if members.len() == 0 {
        None
    } else if members[0].network_id == network_id && members[0].endpoint_hex == hex {
        Some(members[0])
    } else {
        member_with_key(members.skip(1), network_id, hex)
    }
}

/// An endpoint may send from a source address: it owns the address in that
/// network, or nobody does and packets for the address go to it in that network.
pub open spec fn source_ok(t: TableModel, network_id: u128, src: u32, endpoint: EndpointId) -> bool {
    match member_at(t, network_id, src) {
        Some(owner) => owner.endpoint == endpoint,
        None => match route_of(t, src) {
            Some(via) => via.endpoint == endpoint && via.network_id == network_id,
            None => false,
        },
    }
}

/// A name is the suffix itself or ends in a dot and the suffix.
pub open spec fn under_wildcard(host: Seq<char>, suffix: Seq<char>) -> bool {
    ||| host == suffix
    ||| before_suffix(host, suffix) matches Some(rest) && rest.len() > 0 && rest.last() == '.'
}

/// The first wildcard route that a name is under.
pub open spec fn wildcard_for(w: Seq<HostView>, host: Seq<char>) -> Option<HostView>
    decreases w.len(),
{
    if w.len() == 0 {
        None
    } else if under_wildcard(host, w[0].hostname) {
        Some(w[0])
    } else {
        wildcard_for(w.skip(1), host)
    }
}

/// The route for a host name: the exact one, else the longest wildcard.
pub open spec fn host_route(t: TableModel, host: Seq<char>) -> Option<HostView> {
    if t.hostname_exact.contains_key(lower(host)) {
        Some(t.hostname_exact[lower(host)])
    } else {
        wildcard_for(t.wildcards, lower(host))
    }
}

/// The member that a host name leads to: its own name first, then its routes.
pub open spec fn host_peer(t: TableModel, host: Seq<char>) -> Option<PeerView> {
    if t.by_hostname.contains_key(lower(host)) {
        Some(t.by_hostname[lower(host)])
    } else {
        match host_route(t, host) {
            Some(r) => Some(r.peer),
            None => None,
        }
    }
}

/// This node serves the host name.
pub open spec fn serves_host(routes: Seq<HostView>, host: Seq<char>) -> bool {
    exists|i: int|
        0 <= i < routes.len() && (if (#[trigger] routes[i]).is_wildcard {
            under_wildcard(lower(host), routes[i].hostname)
        } else {
            routes[i].hostname == lower(host)
        })
}

/// This node offers a network around the address.
pub open spec fn offers_address(nets: Seq<Ipv4Net>, ip: u32) -> bool {
    exists|i: int| 0 <= i < nets.len() && (#[trigger] nets[i]).holds(ip)
}

/// This node offers a way to everywhere.
pub open spec fn offers_everything(nets: Seq<Ipv4Net>) -> bool {
    exists|i: int| 0 <= i < nets.len() && (#[trigger] nets[i]).bits() == 0
}

/// A queried name in lower case, without its trailing dots and the mesh suffix.
pub open spec fn bare_name(name: Seq<char>, suffix: Seq<char>) -> Seq<char> {
    let low = lower(trim_end_of(name, '.'));
    trim_end_of(
        match before_suffix(low, "."@ + suffix) {
            Some(rest) => rest,
            None => low,
        },
        '.',
    )
}

/// A member's name within the mesh: `host.network`, or `host` in a network without a name.
pub open spec fn mesh_name(p: PeerView) -> Seq<char> {
    if p.network_name.len() == 0 {
        lower(p.hostname)
    } else {
        lower(p.hostname) + "."@ + p.network_name
    }
}

/// A member answers to its host name, alone or with its network's.
pub open spec fn answers_to(p: PeerView, bare: Seq<char>) -> bool {
    p.hostname.len() > 0 && (bare == lower(p.hostname) || bare == mesh_name(p))
}

/// The first member that answers to a name.
pub open spec fn answering(members: Seq<PeerView>, bare: Seq<char>) -> Option<PeerView>
    decreases members.len(),
{
    if members.len() == 0 {
        None
    } else if answers_to(members[0], bare) {
        Some(members[0])
    } else {
        answering(members.skip(1), bare)
    }
}

/// A bare name without the primary network's name.
pub open spec fn peer_name(t: TableModel, bare: Seq<char>) -> Seq<char> {
    if t.network_name.len() == 0 {
        bare
    } else {
        match before_suffix(bare, "."@ + t.network_name) {
            Some(rest) => rest,
            None => bare,
        }
    }
}

/// The address that a name stands for.
pub open spec fn dns_a(t: TableModel, name: Seq<char>) -> Option<u32> {
    let bare = bare_name(name, t.dns_suffix);
    match answering(t.members, bare) {
        Some(p) => Some(p.ip),
        None => if t.by_hostname.contains_key(peer_name(t, bare)) {
            Some(t.by_hostname[peer_name(t, bare)].ip)
        } else {
            None
        },
    }
}

/// The SSH host key that is kept under a host name.
pub open spec fn host_key_of(t: TableModel, name: Seq<char>) -> Option<Seq<char>> {
    if t.by_hostname.contains_key(name) {
        t.by_hostname[name].ssh_host_key
    } else {
        None
    }
}

/// The SSH host key that a name stands for.
pub open spec fn dns_txt(t: TableModel, name: Seq<char>) -> Option<Seq<char>> {
    let bare = bare_name(name, t.dns_suffix);
    match answering(t.members, bare) {
        Some(p) => p.ssh_host_key,
        None => if host_key_of(t, peer_name(t, bare)) is Some {
            host_key_of(t, peer_name(t, bare))
        } else {
            host_key_of(t, bare)
        },
    }
}

/// The full name of the member that an address leads to.
pub open spec fn dns_ptr(t: TableModel, ip: u32) -> Option<Seq<char>> {
    if !t.by_ip.contains_key(ip) || t.by_ip[ip].hostname.len() == 0 {
        None
    } else {
        Some(mesh_name(t.by_ip[ip]) + "."@ + t.dns_suffix)
    }
}

/// Multicast and broadcast never leave through the mesh, whatever the tables hold.
pub proof fn law_group_traffic_is_never_routed(t: TableModel, ip: u32)
    requires
        multicast(ip) || broadcast_all(ip),
    ensures
        route_of(t, ip) is None,
{
}

/// A member's own address wins over every network around it and over the exit node.
pub proof fn law_own_address_wins(t: TableModel, ip: u32)
    requires
        t.by_ip.contains_key(ip),
        !multicast(ip),
        !broadcast_all(ip),
    ensures
        route_of(t, ip) == Some(t.by_ip[ip]),
{
}

/// Among the networks around an address the longest wins.
pub proof fn law_longest_network_wins(t: TableModel, ip: u32, len: u8)
    requires
        0 < len <= 32,
        !t.by_ip.contains_key(ip),
        !multicast(ip),
        !broadcast_all(ip),
        t.subnets.contains_key(net_key(ip, len)),
        forall|k: u8| len < k <= 32 ==> !#[trigger] t.subnets.contains_key(net_key(ip, k)),
    ensures
        route_of(t, ip) == Some(t.subnets[net_key(ip, len)]),
{
    lemma_longest_match(t.subnets, ip, 32);
}

/// Where the LAN is left alone, a private address that no member owns and no
/// network of its own covers is not sent to the exit node, not even when the
/// exit offers everything.
pub proof fn law_local_lan_is_left_alone(t: TableModel, ip: u32)
    requires
        t.allow_local_lan,
        private_lan(ip),
        !t.by_ip.contains_key(ip),
        forall|k: u8| 0 < k <= 32 ==> !#[trigger] t.subnets.contains_key(net_key(ip, k)),
    ensures
        route_of(t, ip) is None,
{
    lemma_longest_match(t.subnets, ip, 32);
}

/// Ordinary internet addresses reach the chosen exit node when no member owns
/// them and no network covers them.
pub proof fn law_exit_takes_the_rest(t: TableModel, ip: u32)
    requires
        t.exit_node is Some,
        !t.by_ip.contains_key(ip),
        !multicast(ip) && !broadcast_all(ip) && !loopback(ip) && !link_local(ip) && !unspecified(
            ip,
        ),
        !private_lan(ip) || !t.allow_local_lan,
        forall|k: u8| k <= 32 ==> !#[trigger] t.subnets.contains_key(net_key(ip, k)),
    ensures
        route_of(t, ip) == t.exit_node,
{
    lemma_longest_match(t.subnets, ip, 32);
}

/// A mesh address is accepted from its owner alone.
pub proof fn law_mesh_address_belongs_to_its_owner(
    t: TableModel,
    network_id: u128,
    src: u32,
    endpoint: EndpointId,
)
    requires
        member_at(t, network_id, src) is Some,
        source_ok(t, network_id, src, endpoint),
    ensures
        member_at(t, network_id, src)->0.endpoint == endpoint,
{
}

/// A foreign source is accepted only from the endpoint that packets for it go
/// to, in the same network; so no two endpoints may use the same source.
pub proof fn law_one_endpoint_per_source(
    t: TableModel,
    network_id: u128,
    src: u32,
    a: EndpointId,
    b: EndpointId,
)
    requires
        source_ok(t, network_id, src, a),
        source_ok(t, network_id, src, b),
    ensures
        a == b,
{
}

/// Host name routes never answer an address query: the answer does not depend
/// on them.
pub proof fn law_hostname_routes_have_no_address(
    t: TableModel,
    exact: Map<Seq<char>, HostView>,
    wildcards: Seq<HostView>,
    advertised: Seq<HostView>,
    name: Seq<char>,
)
    ensures
        dns_a(t, name) == dns_a(
            TableModel {
                hostname_exact: exact,
                wildcards,
                advertised_hostnames: advertised,
                ..t
            },
            name,
        ),
{
}

} // verus!
