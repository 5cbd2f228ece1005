//! The lookup tables of a node, built from what is known of its networks.

use crate::endpoint::{endpoint_of, EndpointId};
use crate::membership::{
    copy_nets, copy_opt_text, copy_texts, opt_text, texts, views, DeviceProfile, ExitNodeInfo, ExitNodeView,
    HostnameRoute, HostnameRouteView, PeerEntry, PeerEntryView, ProfileView, SubnetRoute,
    SubnetRouteView,
};
use crate::lookup::{
    answering, answers_to, bare_name, dns_a, dns_ptr, dns_txt, host_key_of, host_peer, host_route,
    member_at, member_with_key, mesh_name, offers_address, offers_everything, peer_name, route_of,
    serves_host, source_ok, under_wildcard, wildcard_for,
};
use crate::net::{is_broadcast, is_mesh_or_link_local, is_multicast, is_rfc1918, Ipv4Net};
use crate::prefixes::{longest_match, net_key, NetIndex};
use crate::text::{ends_in, join2, join3, lower, strip_end, to_lower, trim_end};
use std::collections::HashMap;
use std::sync::Arc;
use vstd::hash_map::StringHashMap;
use vstd::prelude::*;
use vstd::utf8::encode_utf8;

verus! {

/// A member as the tables know it.
#[derive(Debug)]
pub struct PeerInfo {
    pub endpoint: EndpointId,
    pub endpoint_hex: String,
    pub hostname: String,
    pub ip: u32,
    pub tags: Vec<String>,
    pub network_id: u128,
    pub network_name: String,
    pub ssh_host_key: Option<String>,
}

pub struct PeerView {
    pub endpoint: EndpointId,
    pub endpoint_hex: Seq<char>,
    pub hostname: Seq<char>,
    pub ip: u32,
    pub tags: Seq<Seq<char>>,
    pub network_id: u128,
    pub network_name: Seq<char>,
    pub ssh_host_key: Option<Seq<char>>,
}

impl View for PeerInfo {
    type V = PeerView;

    open spec fn view(&self) -> PeerView {
        PeerView {
            endpoint: self.endpoint,
            endpoint_hex: self.endpoint_hex@,
            hostname: self.hostname@,
            ip: self.ip,
            tags: texts(self.tags@),
            network_id: self.network_id,
            network_name: self.network_name@,
            ssh_host_key: opt_text(self.ssh_host_key),
        }
    }
}

/// A host name route with the member that serves it.
#[derive(Debug)]
pub struct HostnameRouteInfo {
    pub peer: Arc<PeerInfo>,
    pub is_wildcard: bool,
    pub target_ip: Option<u32>,
    /// The name, or the suffix without `*.`.
    pub hostname: String,
}

pub struct HostView {
    pub peer: PeerView,
    pub is_wildcard: bool,
    pub target_ip: Option<u32>,
    pub hostname: Seq<char>,
}

impl View for HostnameRouteInfo {
    type V = HostView;

    open spec fn view(&self) -> HostView {
        HostView {
            peer: self.peer@,
            is_wildcard: self.is_wildcard,
            target_ip: self.target_ip,
            hostname: self.hostname@,
        }
    }
}

/// What is known of one network.
pub struct NetworkSlice {
    pub peers: Vec<PeerEntry>,
    pub subnet_routes: Vec<SubnetRoute>,
    pub hostname_routes: Vec<HostnameRoute>,
    pub exit_nodes: Vec<ExitNodeInfo>,
    pub profile: DeviceProfile,
    pub dns_suffix: String,
    pub network_name: String,
    pub self_endpoint_id: String,
    pub peer_cidr: Option<Ipv4Net>,
}

pub struct SliceView {
    pub peers: Seq<PeerEntryView>,
    pub subnet_routes: Seq<SubnetRouteView>,
    pub hostname_routes: Seq<HostnameRouteView>,
    pub exit_nodes: Seq<ExitNodeView>,
    pub profile: ProfileView,
    pub dns_suffix: Seq<char>,
    pub network_name: Seq<char>,
    pub self_endpoint_id: Seq<char>,
    pub peer_cidr: Option<Ipv4Net>,
}

impl View for NetworkSlice {
    type V = SliceView;

    open spec fn view(&self) -> SliceView {
        SliceView {
            peers: views(self.peers@),
            subnet_routes: views(self.subnet_routes@),
            hostname_routes: views(self.hostname_routes@),
            exit_nodes: views(self.exit_nodes@),
            profile: self.profile@,
            dns_suffix: self.dns_suffix@,
            network_name: self.network_name@,
            self_endpoint_id: self.self_endpoint_id@,
            peer_cidr: self.peer_cidr,
        }
    }
}

/// The tables as mathematical values.
pub struct TableModel {
    /// The member that an address leads to.
    pub by_ip: Map<u32, PeerView>,
    /// Every member of every network, each address of a network once.
    pub members: Seq<PeerView>,
    pub by_endpoint: Map<Seq<char>, PeerView>,
    pub by_hostname: Map<Seq<char>, PeerView>,
    /// The gateway of each remote network.
    pub subnets: Map<(u32, u8), PeerView>,
    /// The networks that this node itself offers.
    pub advertised: Seq<Ipv4Net>,
    pub hostname_exact: Map<Seq<char>, HostView>,
    /// Wildcard routes, the longest suffix first.
    pub wildcards: Seq<HostView>,
    /// The host name routes that this node itself serves.
    pub advertised_hostnames: Seq<HostView>,
    pub dns_suffix: Seq<char>,
    pub network_name: Seq<char>,
    pub exit_node: Option<PeerView>,
    /// Private addresses are not sent through the exit node.
    pub allow_local_lan: bool,
}

/// Tables that know nothing.
pub open spec fn empty_tables() -> TableModel {
    TableModel {
        by_ip: Map::empty(),
        members: Seq::empty(),
        by_endpoint: Map::empty(),
        by_hostname: Map::empty(),
        subnets: Map::empty(),
        advertised: Seq::empty(),
        hostname_exact: Map::empty(),
        wildcards: Seq::empty(),
        advertised_hostnames: Seq::empty(),
        dns_suffix: "tunnet"@,
        network_name: Seq::empty(),
        exit_node: None,
        allow_local_lan: true,
    }
}

/// The map with the pair, unless the key has a value already.
pub open spec fn or_insert<K, V>(m: Map<K, V>, k: K, v: V) -> Map<K, V> {
    if m.contains_key(k) {
        m
    } else {
        m.insert(k, v)
    }
}

/// The place of the member with an address in a network; the number of members when there is none.
pub open spec fn member_place(members: Seq<PeerView>, network_id: u128, ip: u32) -> int
    decreases members.len(),
{
    if members.len() == 0 {
        0
    } else if members[0].network_id == network_id && members[0].ip == ip {
        0
    } else {
        1 + member_place(members.skip(1), network_id, ip)
    }
}

/// The members with `p` under its network and address.
pub open spec fn upsert(members: Seq<PeerView>, p: PeerView) -> Seq<PeerView> {
    let at = member_place(members, p.network_id, p.ip);
    if at < members.len() {
        members.update(at, p)
    } else {
        members.push(p)
    }
}

/// A network's entry with its key read.
pub open spec fn known_peer(
    p: PeerEntryView,
    id: EndpointId,
    network_id: u128,
    network_name: Seq<char>,
) -> PeerView {
    PeerView {
        endpoint: id,
        endpoint_hex: id.hex(),
        hostname: p.hostname,
        ip: p.ip,
        tags: p.tags,
        network_id,
        network_name,
        ssh_host_key: p.ssh_host_key,
    }
}

/// A host name within its network: `host.network`, or `host` in a network without a name.
pub open spec fn host_key(hostname: Seq<char>, network_name: Seq<char>) -> Seq<char> {
    if network_name.len() == 0 {
        lower(hostname)
    } else {
        lower(hostname) + "."@ + network_name
    }
}

/// The tables with one member more, and the members of its network by key. An
/// address, a key and a bare host name stay with the member that had them first.
pub open spec fn add_peer(
    t: TableModel,
    local: Map<Seq<char>, PeerView>,
    p: PeerEntryView,
    network_id: u128,
    network_name: Seq<char>,
) -> (TableModel, Map<Seq<char>, PeerView>) {
    match endpoint_of(p.endpoint_id) {
        None => (t, local),
        Some(id) => {
            let info = known_peer(p, id, network_id, network_name);
            (
                TableModel {
                    by_ip: or_insert(t.by_ip, p.ip, info),
                    members: upsert(t.members, info),
                    by_endpoint: or_insert(t.by_endpoint, id.hex(), info),
                    by_hostname: if p.hostname.len() == 0 {
                        t.by_hostname
                    } else {
                        or_insert(t.by_hostname, lower(p.hostname), info).insert(
                            host_key(p.hostname, network_name),
                            info,
                        )
                    },
                    ..t
                },
                local.insert(id.hex(), info),
            )
        },
    }
}

pub open spec fn add_peers(
    t: TableModel,
    peers: Seq<PeerEntryView>,
    network_id: u128,
    network_name: Seq<char>,
) -> (TableModel, Map<Seq<char>, PeerView>)
    decreases peers.len(),
{
    if peers.len() == 0 {
        (t, Map::empty())
    } else {
        let before = add_peers(t, peers.drop_last(), network_id, network_name);
        add_peer(before.0, before.1, peers.last(), network_id, network_name)
    }
}

/// The member that a route goes through: one of the network's, or one known by its key alone.
pub open spec fn via_peer(
    local: Map<Seq<char>, PeerView>,
    via: Seq<char>,
    via_ip: u32,
    network_id: u128,
    network_name: Seq<char>,
) -> Option<PeerView> {
    if local.contains_key(via) {
        Some(local[via])
    } else {
        match endpoint_of(via) {
            None => None,
            Some(id) => if local.contains_key(id.hex()) {
                Some(local[id.hex()])
            } else {
                Some(
                    PeerView {
                        endpoint: id,
                        endpoint_hex: id.hex(),
                        hostname: Seq::empty(),
                        ip: via_ip,
                        tags: Seq::empty(),
                        network_id,
                        network_name,
                        ssh_host_key: None,
                    },
                )
            },
        }
    }
}

/// A route through this node is offered; any other is kept for the first that claims its network.
pub open spec fn add_subnet(
    t: TableModel,
    local: Map<Seq<char>, PeerView>,
    r: SubnetRouteView,
    network_id: u128,
    s: SliceView,
) -> TableModel {
    if r.via_endpoint_id == s.self_endpoint_id {
        TableModel { advertised: t.advertised.push(r.cidr), ..t }
    } else {
        match via_peer(local, r.via_endpoint_id, r.via_ip, network_id, s.network_name) {
            None => t,
            Some(p) => TableModel {
                subnets: or_insert(t.subnets, net_key(r.cidr.base(), r.cidr.bits()), p),
                ..t
            },
        }
    }
}

pub open spec fn add_subnets(
    t: TableModel,
    local: Map<Seq<char>, PeerView>,
    routes: Seq<SubnetRouteView>,
    network_id: u128,
    s: SliceView,
) -> TableModel
    decreases routes.len(),
{
    if routes.len() == 0 {
        t
    } else {
        add_subnet(
            add_subnets(t, local, routes.drop_last(), network_id, s),
            local,
            routes.last(),
            network_id,
            s,
        )
    }
}

/// What this node offers as an exit.
pub open spec fn exit_offers(exits: Seq<ExitNodeView>, self_id: Seq<char>) -> Seq<Ipv4Net>
    decreases exits.len(),
{
    if exits.len() == 0 {
        Seq::empty()
    } else if exits.last().endpoint_id == self_id {
        exit_offers(exits.drop_last(), self_id) + exits.last().allowed_cidrs
    } else {
        exit_offers(exits.drop_last(), self_id)
    }
}

/// The place of the first exit with a key; the number of exits when there is none.
pub open spec fn exit_place(exits: Seq<ExitNodeView>, id: Seq<char>) -> int
    decreases exits.len(),
{
    if exits.len() == 0 {
        0
    } else if exits[0].endpoint_id == id {
        0
    } else {
        1 + exit_place(exits.skip(1), id)
    }
}

pub open spec fn add_nets(
    m: Map<(u32, u8), PeerView>,
    nets: Seq<Ipv4Net>,
    p: PeerView,
) -> Map<(u32, u8), PeerView>
    decreases nets.len(),
{
    if nets.len() == 0 {
        m
    } else {
        or_insert(
            add_nets(m, nets.drop_last(), p),
            net_key(nets.last().base(), nets.last().bits()),
            p,
        )
    }
}

/// The tables with the exit that the device has chosen: its networks go through
/// it, and the first network to choose one sets the exit for everything else.
pub open spec fn choose_exit(
    t: TableModel,
    local: Map<Seq<char>, PeerView>,
    network_id: u128,
    s: SliceView,
) -> TableModel {
    match s.profile.exit_node_endpoint_id {
        None => t,
        Some(id) => {
            let at = exit_place(s.exit_nodes, id);
            if at >= s.exit_nodes.len() {
                t
            } else {
                let e = s.exit_nodes[at];
                match via_peer(local, e.endpoint_id, e.via_ip, network_id, s.network_name) {
                    None => t,
                    Some(p) => TableModel {
                        subnets: add_nets(t.subnets, e.allowed_cidrs, p),
                        exit_node: if t.exit_node is None {
                            Some(p)
                        } else {
                            t.exit_node
                        },
                        allow_local_lan: if t.exit_node is None {
                            s.profile.allow_local_lan
                        } else {
                            t.allow_local_lan
                        },
                        ..t
                    },
                }
            }
        },
    }
}

/// The length of a text in bytes.
pub open spec fn byte_len(s: Seq<char>) -> nat {
    encode_utf8(s).len()
}

/// How many routes of a list stand before one with a suffix of `n` bytes.
pub open spec fn wildcard_place(w: Seq<HostView>, n: nat) -> int
    decreases w.len(),
{
    if w.len() == 0 || byte_len(w[0].hostname) < n {
        0
    } else {
        1 + wildcard_place(w.skip(1), n)
    }
}

pub open spec fn add_hostname_route(
    t: TableModel,
    local: Map<Seq<char>, PeerView>,
    r: HostnameRouteView,
    network_id: u128,
    s: SliceView,
) -> TableModel {
    match via_peer(local, r.via_endpoint_id, r.via_ip, network_id, s.network_name) {
        None => t,
        Some(p) => {
            let info = HostView {
                peer: p,
                is_wildcard: r.is_wildcard,
                target_ip: r.target_ip,
                hostname: lower(r.hostname),
            };
            if r.via_endpoint_id == s.self_endpoint_id {
                TableModel { advertised_hostnames: t.advertised_hostnames.push(info), ..t }
            } else if !r.is_wildcard {
                TableModel {
                    hostname_exact: t.hostname_exact.insert(lower(r.hostname), info),
                    ..t
                }
            } else {
                TableModel {
                    wildcards: t.wildcards.insert(
                        wildcard_place(t.wildcards, byte_len(lower(r.hostname))),
                        info,
                    ),
                    ..t
                }
            }
        },
    }
}

pub open spec fn add_hostname_routes(
    t: TableModel,
    local: Map<Seq<char>, PeerView>,
    routes: Seq<HostnameRouteView>,
    network_id: u128,
    s: SliceView,
) -> TableModel
    decreases routes.len(),
{
    if routes.len() == 0 {
        t
    } else {
        add_hostname_route(
            add_hostname_routes(t, local, routes.drop_last(), network_id, s),
            local,
            routes.last(),
            network_id,
            s,
        )
    }
}

/// The tables with one network more.
pub open spec fn add_slice(t: TableModel, network_id: u128, s: SliceView) -> TableModel {
    let named = TableModel {
        network_name: if t.network_name.len() == 0 {
            s.network_name
        } else {
            t.network_name
        },
        dns_suffix: s.dns_suffix,
        ..t
    };
    let peered = add_peers(named, s.peers, network_id, s.network_name);
    let local = peered.1;
    let routed = add_subnets(peered.0, local, s.subnet_routes, network_id, s);
    let offered = TableModel {
        advertised: routed.advertised + exit_offers(s.exit_nodes, s.self_endpoint_id),
        ..routed
    };
    let with_exit = choose_exit(offered, local, network_id, s);
    add_hostname_routes(with_exit, local, s.hostname_routes, network_id, s)
}

/// The tables for a list of networks.
pub open spec fn built(slices: Seq<(u128, SliceView)>) -> TableModel
    decreases slices.len(),
{
    if slices.len() == 0 {
        empty_tables()
    } else {
        add_slice(built(slices.drop_last()), slices.last().0, slices.last().1)
    }
}

/// The views behind shared values.
pub open spec fn seen<K, T: View>(m: Map<K, Arc<T>>) -> Map<K, T::V> {
    m.map_values(|p: Arc<T>| p@)
}

/// The views of a list of shared values.
pub open spec fn seen_all<T: View>(s: Seq<Arc<T>>) -> Seq<T::V> {
    Seq::new(s.len(), |i: int| s[i]@)
}

/// The view of an optional shared value.
pub open spec fn seen_opt<T: View>(o: Option<Arc<T>>) -> Option<T::V> {
    match o {
        Some(p) => Some(p@),
        None => None,
    }
}

/// The lookup tables.
pub struct Tables {
    by_ip: HashMap<u32, Arc<PeerInfo>>,
    members: Vec<Arc<PeerInfo>>,
    by_endpoint: StringHashMap<Arc<PeerInfo>>,
    by_hostname: StringHashMap<Arc<PeerInfo>>,
    subnets: NetIndex,
    gateways: Vec<Arc<PeerInfo>>,
    advertised: Vec<Ipv4Net>,
    hostname_exact: StringHashMap<Arc<HostnameRouteInfo>>,
    wildcards: Vec<Arc<HostnameRouteInfo>>,
    advertised_hostnames: Vec<Arc<HostnameRouteInfo>>,
    dns_suffix: String,
    network_name: String,
    exit_node: Option<Arc<PeerInfo>>,
    allow_local_lan: bool,
}

spec fn gateway_map(entries: Map<(u32, u8), usize>, gateways: Seq<Arc<PeerInfo>>) -> Map<
    (u32, u8),
    PeerView,
> {
    entries.map_values(|i: usize| gateways[i as int]@)
}

impl Tables {
    /// What the tables hold.
    pub closed spec fn model(self) -> TableModel {
        TableModel {
            by_ip: seen(self.by_ip@),
            members: seen_all(self.members@),
            by_endpoint: seen(self.by_endpoint@),
            by_hostname: seen(self.by_hostname@),
            subnets: gateway_map(self.subnets.entries(), self.gateways@),
            advertised: self.advertised@,
            hostname_exact: seen(self.hostname_exact@),
            wildcards: seen_all(self.wildcards@),
            advertised_hostnames: seen_all(self.advertised_hostnames@),
            dns_suffix: self.dns_suffix@,
            network_name: self.network_name@,
            exit_node: seen_opt(self.exit_node),
            allow_local_lan: self.allow_local_lan,
        }
    }

    /// Every network in the index leads to a gateway.
    pub closed spec fn wf(self) -> bool {
        forall|k: (u32, u8)| #[trigger]
            self.subnets.entries().contains_key(k) ==> self.subnets.entries()[k]
                < self.gateways@.len()
    }

    pub fn empty() -> (r: Tables)
        ensures
            r.wf(),
            r.model() == empty_tables(),
    {
        let r = Tables {
            by_ip: HashMap::new(),
            members: Vec::new(),
            by_endpoint: StringHashMap::new(),
            by_hostname: StringHashMap::new(),
            subnets: NetIndex::new(),
            gateways: Vec::new(),
            advertised: Vec::new(),
            hostname_exact: StringHashMap::new(),
            wildcards: Vec::new(),
            advertised_hostnames: Vec::new(),
            dns_suffix: "tunnet".to_owned(),
            network_name: String::new(),
            exit_node: None,
            allow_local_lan: true,
        };
        proof {
            let e = empty_tables();
            assert(r.model().by_ip =~= e.by_ip);
            assert(r.model().members =~= e.members);
            assert(r.model().by_endpoint =~= e.by_endpoint);
            assert(r.model().by_hostname =~= e.by_hostname);
            assert(r.model().subnets =~= e.subnets);
            assert(r.model().advertised =~= e.advertised);
            assert(r.model().hostname_exact =~= e.hostname_exact);
            assert(r.model().wildcards =~= e.wildcards);
            assert(r.model().advertised_hostnames =~= e.advertised_hostnames);
            assert(r.model().network_name =~= e.network_name);
        }
        r
    }
}

proof fn lemma_seen_insert<K, T: View>(m: Map<K, Arc<T>>, k: K, v: Arc<T>)
    ensures
        seen(m.insert(k, v)) == seen(m).insert(k, v@),
        seen(m).contains_key(k) == m.contains_key(k),
{
    assert(seen(m.insert(k, v)) =~= seen(m).insert(k, v@));
}

proof fn lemma_seen_push<T: View>(s: Seq<Arc<T>>, v: Arc<T>)
    ensures
        seen_all(s.push(v)) == seen_all(s).push(v@),
{
    assert(seen_all(s.push(v)) =~= seen_all(s).push(v@));
}

proof fn lemma_gateway_insert(
    entries: Map<(u32, u8), usize>,
    gateways: Seq<Arc<PeerInfo>>,
    k: (u32, u8),
    p: Arc<PeerInfo>,
)
    requires
        forall|x: (u32, u8)| #[trigger] entries.contains_key(x) ==> entries[x] < gateways.len(),
        gateways.len() <= usize::MAX,
    ensures
        gateway_map(entries.insert(k, gateways.len() as usize), gateways.push(p)) == gateway_map(
            entries,
            gateways,
        ).insert(k, p@),
        gateway_map(entries, gateways).contains_key(k) == entries.contains_key(k),
{
    assert(gateway_map(entries.insert(k, gateways.len() as usize), gateways.push(p))
        =~= gateway_map(entries, gateways).insert(k, p@));
}

proof fn lemma_member_place(m: Seq<PeerView>, n: u128, ip: u32)
    ensures
        0 <= member_place(m, n, ip) <= m.len(),
        forall|i: int|
            0 <= i < member_place(m, n, ip) ==> (#[trigger] m[i]).network_id != n || m[i].ip != ip,
        member_place(m, n, ip) < m.len() ==> m[member_place(m, n, ip)].network_id == n
            && m[member_place(m, n, ip)].ip == ip,
    decreases m.len(),
{
    if m.len() > 0 && !(m[0].network_id == n && m[0].ip == ip) {
        let rest = m.skip(1);
        lemma_member_place(rest, n, ip);
        assert forall|i: int| 0 <= i < member_place(m, n, ip) implies (#[trigger] m[i]).network_id
            != n || m[i].ip != ip by {
            if i > 0 {
                assert(rest[i - 1] == m[i]);
            }
        }
    }
}

proof fn lemma_exit_place(e: Seq<ExitNodeView>, id: Seq<char>)
    ensures
        0 <= exit_place(e, id) <= e.len(),
        forall|i: int| 0 <= i < exit_place(e, id) ==> (#[trigger] e[i]).endpoint_id != id,
        exit_place(e, id) < e.len() ==> e[exit_place(e, id)].endpoint_id == id,
    decreases e.len(),
{
    if e.len() > 0 && e[0].endpoint_id != id {
        let rest = e.skip(1);
        lemma_exit_place(rest, id);
        assert forall|i: int| 0 <= i < exit_place(e, id) implies (#[trigger] e[i]).endpoint_id
            != id by {
            if i > 0 {
                assert(rest[i - 1] == e[i]);
            }
        }
    }
}

/// The place of a new wildcard route is right behind the routes that are at least as long.
pub proof fn lemma_wildcard_place(w: Seq<HostView>, n: nat)
    ensures
        0 <= wildcard_place(w, n) <= w.len(),
        forall|i: int| 0 <= i < wildcard_place(w, n) ==> byte_len((#[trigger] w[i]).hostname) >= n,
        wildcard_place(w, n) < w.len() ==> byte_len(w[wildcard_place(w, n)].hostname) < n,
    decreases w.len(),
{
    if w.len() > 0 && byte_len(w[0].hostname) >= n {
        let rest = w.skip(1);
        lemma_wildcard_place(rest, n);
        assert forall|i: int| 0 <= i < wildcard_place(w, n) implies byte_len(
            (#[trigger] w[i]).hostname,
        ) >= n by {
            if i > 0 {
                assert(rest[i - 1] == w[i]);
            }
        }
    }
}

/// A place found by walking the list is the one that the definition names.
proof fn lemma_wildcard_place_is(w: Seq<HostView>, n: nat, k: int)
    requires
        0 <= k <= w.len(),
        forall|i: int| 0 <= i < k ==> byte_len((#[trigger] w[i]).hostname) >= n,
        k < w.len() ==> byte_len(w[k].hostname) < n,
    ensures
        wildcard_place(w, n) == k,
{
    lemma_wildcard_place(w, n);
    let at = wildcard_place(w, n);
    if at < k {
        assert(byte_len(w[at].hostname) >= n);
    }
    if at > k {
        assert(byte_len(w[k].hostname) >= n);
    }
}

/// The member that a route goes through.
fn peer_for_via(
    local: &StringHashMap<Arc<PeerInfo>>,
    via: &String,
    via_ip: u32,
    network_id: u128,
    network_name: &String,
) -> (r: Option<Arc<PeerInfo>>)
    ensures
        seen_opt(r) == via_peer(seen(local@), via@, via_ip, network_id, network_name@),
{
    proof {
        assert(seen(local@).contains_key(via@) == local@.contains_key(via@));
    }
    if let Some(p) = local.get(via.as_str()) {
        return Some(p.clone());
    }
    match EndpointId::parse(via.as_str()) {
        None => None,
        Some(id) => {
            let hex = id.to_hex();
            proof {
                assert(seen(local@).contains_key(hex@) == local@.contains_key(hex@));
            }
            if let Some(p) = local.get(hex.as_str()) {
                return Some(p.clone());
            }
            let info = PeerInfo {
                endpoint: id,
                endpoint_hex: hex,
                hostname: String::new(),
                ip: via_ip,
                tags: Vec::new(),
                network_id,
                network_name: network_name.clone(),
                ssh_host_key: None,
            };
            proof {
                assert(info@.tags =~= Seq::<Seq<char>>::empty());
                assert(info@.hostname =~= Seq::<char>::empty());
            }
            Some(Arc::new(info))
        },
    }
}

fn byte_count(s: &str) -> (r: usize)
    ensures
        r == byte_len(s@),
{
    s.as_bytes().len()
}

fn qualified(hostname: &String, network_name: &String) -> (r: String)
    ensures
        r@ == host_key(hostname@, network_name@),
{
    let host = to_lower(hostname.as_str());
    if network_name.as_str().unicode_len() == 0 {
        host
    } else {
        join3(host.as_str(), ".", network_name.as_str())
    }
}

impl Tables {
    fn find_member(&self, network_id: u128, ip: u32) -> (r: usize)
        ensures
            r == member_place(self.model().members, network_id, ip),
            r <= self.model().members.len(),
    {
        let mut i: usize = 0;
        let ghost m = self.model().members;
        while i < self.members.len() && !(self.members[i].network_id == network_id
            && self.members[i].ip == ip)
            invariant
                i <= self.members@.len(),
                m == self.model().members,
                m.len() == self.members@.len(),
                forall|j: int|
                    0 <= j < i ==> (#[trigger] m[j]).network_id != network_id || m[j].ip != ip,
            decreases self.members@.len() - i,
        {
            i = i + 1;
        }
        proof {
            lemma_member_place(m, network_id, ip);
            let at = member_place(m, network_id, ip);
            if i < m.len() {
                assert(m[i as int].network_id == network_id && m[i as int].ip == ip);
            }
        }
        i
    }

    fn add_peer(
        &mut self,
        local: &mut StringHashMap<Arc<PeerInfo>>,
        p: &PeerEntry,
        network_id: u128,
        network_name: &String,
    )
        requires
            old(self).wf(),
        ensures
            final(self).wf(),
            ({
                let out = add_peer(
                    old(self).model(),
                    seen(old(local)@),
                    p@,
                    network_id,
                    network_name@,
                );
                &&& final(self).model() == out.0
                &&& seen(final(local)@) == out.1
            }),
    {
        let ghost start = *self;
        let ghost start_local = local@;
        let id = match EndpointId::parse(p.endpoint_id.as_str()) {
            None => {
                return;
            },
            Some(id) => id,
        };
        let hex = id.to_hex();
        let info = Arc::new(
            PeerInfo {
                endpoint: id,
                endpoint_hex: hex.clone(),
                hostname: p.hostname.clone(),
                ip: p.ip,
                tags: copy_texts(&p.tags),
                network_id,
                network_name: network_name.clone(),
                ssh_host_key: copy_opt_text(&p.ssh_host_key),
            },
        );
        let ghost shown = known_peer(p@, id, network_id, network_name@);
        assert(info@ == shown);
        let at: usize = self.find_member(network_id, p.ip);
        if at < self.members.len() {
            self.members[at] = info.clone();
        } else {
            self.members.push(info.clone());
        }
        proof {
            assert(seen_all(self.members@) =~= upsert(start.model().members, shown));
            lemma_seen_insert(start.by_ip@, p.ip, info);
        }
        if !self.by_ip.contains_key(&p.ip) {
            self.by_ip.insert(p.ip, info.clone());
        }
        proof {
            lemma_seen_insert(start.by_endpoint@, hex@, info);
        }
        if !self.by_endpoint.contains_key(hex.as_str()) {
            self.by_endpoint.insert(hex.clone(), info.clone());
        }
        proof {
            lemma_seen_insert(start_local, hex@, info);
        }
        local.insert(hex, info.clone());
        if p.hostname.as_str().unicode_len() > 0 {
            let bare = to_lower(p.hostname.as_str());
            let key = qualified(&p.hostname, network_name);
            proof {
                lemma_seen_insert(start.by_hostname@, bare@, info);
            }
            if !self.by_hostname.contains_key(bare.as_str()) {
                self.by_hostname.insert(bare, info.clone());
            }
            let ghost mid = self.by_hostname@;
            self.by_hostname.insert(key, info);
            proof {
                lemma_seen_insert(mid, key@, info);
            }
        }
        proof {
            let out = add_peer(start.model(), seen(start_local), p@, network_id, network_name@);
            assert(self.model() == out.0);
        }
    }

    fn add_peers(&mut self, peers: &Vec<PeerEntry>, network_id: u128, network_name: &String) -> (r:
        StringHashMap<Arc<PeerInfo>>)
        requires
            old(self).wf(),
        ensures
            final(self).wf(),
            ({
                let out = add_peers(
                    old(self).model(),
                    views(peers@),
                    network_id,
                    network_name@,
                );
                &&& final(self).model() == out.0
                &&& seen(r@) == out.1
            }),
    {
        let mut local: StringHashMap<Arc<PeerInfo>> = StringHashMap::new();
        let ghost start = self.model();
        let ghost all = views(peers@);
        let mut i: usize = 0;
        proof {
            assert(all.take(0) =~= Seq::<PeerEntryView>::empty());
            assert(seen(local@) =~= Map::<Seq<char>, PeerView>::empty());
        }
        while i < peers.len()
            invariant
                i <= peers@.len(),
                self.wf(),
                all == views(peers@),
                self.model() == add_peers(start, all.take(i as int), network_id, network_name@).0,
                seen(local@) == add_peers(start, all.take(i as int), network_id, network_name@).1,
            decreases peers@.len() - i,
        {
            proof {
                assert(all.take(i as int + 1).drop_last() =~= all.take(i as int));
                assert(all.take(i as int + 1).last() == peers@[i as int]@);
            }
            self.add_peer(&mut local, &peers[i], network_id, network_name);
            i = i + 1;
        }
        proof {
            assert(all.take(i as int) =~= all);
        }
        local
    }

    /// Keeps a gateway for a network that has none.
    fn claim(&mut self, net: &Ipv4Net, p: &Arc<PeerInfo>)
        requires
            old(self).wf(),
        ensures
            final(self).wf(),
            final(self).model() == (TableModel {
                subnets: or_insert(
                    old(self).model().subnets,
                    net_key(net.base(), net.bits()),
                    p@,
                ),
                ..old(self).model()
            }),
    {
        let ghost start = *self;
        proof {
            assert(self.model().subnets.contains_key(net_key(net.base(), net.bits()))
                == self.subnets.entries().contains_key(net_key(net.base(), net.bits())));
        }
        if !self.subnets.contains(net) {
            let at: usize = self.gateways.len();
            self.gateways.push(p.clone());
            self.subnets.insert(net, at);
            proof {
                lemma_gateway_insert(
                    start.subnets.entries(),
                    start.gateways@,
                    net_key(net.base(), net.bits()),
                    *p,
                );
            }
        }
    }

    fn add_subnets(
        &mut self,
        local: &StringHashMap<Arc<PeerInfo>>,
        network_id: u128,
        s: &NetworkSlice,
    )
        requires
            old(self).wf(),
        ensures
            final(self).wf(),
            final(self).model() == add_subnets(
                old(self).model(),
                seen(local@),
                s@.subnet_routes,
                network_id,
                s@,
            ),
    {
        let ghost start = self.model();
        let ghost all = s@.subnet_routes;
        let mut i: usize = 0;
        proof {
            assert(all.take(0) =~= Seq::<SubnetRouteView>::empty());
        }
        while i < s.subnet_routes.len()
            invariant
                i <= s.subnet_routes@.len(),
                self.wf(),
                all == s@.subnet_routes,
                self.model() == add_subnets(start, seen(local@), all.take(i as int), network_id, s@),
            decreases s.subnet_routes@.len() - i,
        {
            let route = &s.subnet_routes[i];
            proof {
                assert(all.take(i as int + 1).drop_last() =~= all.take(i as int));
                assert(all.take(i as int + 1).last() == route@);
            }
            if route.via_endpoint_id == s.self_endpoint_id {
                self.advertised.push(route.cidr);
            } else {
                let peer = peer_for_via(
                    local,
                    &route.via_endpoint_id,
                    route.via_ip,
                    network_id,
                    &s.network_name,
                );
                if let Some(p) = peer {
                    self.claim(&route.cidr, &p);
                }
            }
            i = i + 1;
        }
        proof {
            assert(all.take(i as int) =~= all);
        }
    }

    fn offer_exits(&mut self, s: &NetworkSlice)
        requires
            old(self).wf(),
        ensures
            final(self).wf(),
            final(self).model() == (TableModel {
                advertised: old(self).model().advertised + exit_offers(
                    s@.exit_nodes,
                    s@.self_endpoint_id,
                ),
                ..old(self).model()
            }),
    {
        let ghost start = self.model();
        let ghost all = s@.exit_nodes;
        let mut i: usize = 0;
        proof {
            assert(all.take(0) =~= Seq::<ExitNodeView>::empty());
            assert(start.advertised + Seq::<Ipv4Net>::empty() =~= start.advertised);
        }
        while i < s.exit_nodes.len()
            invariant
                i <= s.exit_nodes@.len(),
                self.wf(),
                all == s@.exit_nodes,
                self.model() == (TableModel {
                    advertised: start.advertised + exit_offers(
                        all.take(i as int),
                        s@.self_endpoint_id,
                    ),
                    ..start
                }),
            decreases s.exit_nodes@.len() - i,
        {
            let exit = &s.exit_nodes[i];
            proof {
                assert(all.take(i as int + 1).drop_last() =~= all.take(i as int));
                assert(all.take(i as int + 1).last() == exit@);
            }
            if exit.endpoint_id == s.self_endpoint_id {
                let ghost before = self.model();
                let mut k: usize = 0;
                proof {
                    assert(before.advertised + exit.allowed_cidrs@.take(0) =~= before.advertised);
                }
                while k < exit.allowed_cidrs.len()
                    invariant
                        k <= exit.allowed_cidrs@.len(),
                        self.wf(),
                        self.model() == (TableModel {
                            advertised: before.advertised + exit.allowed_cidrs@.take(k as int),
                            ..before
                        }),
                    decreases exit.allowed_cidrs@.len() - k,
                {
                    self.advertised.push(exit.allowed_cidrs[k]);
                    proof {
                        assert(self.model().advertised =~= before.advertised
                            + exit.allowed_cidrs@.take(k as int + 1));
                    }
                    k = k + 1;
                }
                proof {
                    assert(exit.allowed_cidrs@.take(k as int) =~= exit.allowed_cidrs@);
                    assert(self.model().advertised =~= start.advertised + exit_offers(
                        all.take(i as int + 1),
                        s@.self_endpoint_id,
                    ));
                }
            }
            i = i + 1;
        }
        proof {
            assert(all.take(i as int) =~= all);
        }
    }

    fn claim_all(&mut self, nets: &Vec<Ipv4Net>, p: &Arc<PeerInfo>)
        requires
            old(self).wf(),
        ensures
            final(self).wf(),
            final(self).model() == (TableModel {
                subnets: add_nets(old(self).model().subnets, nets@, p@),
                ..old(self).model()
            }),
    {
        let ghost start = self.model();
        let mut i: usize = 0;
        proof {
            assert(nets@.take(0) =~= Seq::<Ipv4Net>::empty());
        }
        while i < nets.len()
            invariant
                i <= nets@.len(),
                self.wf(),
                self.model() == (TableModel {
                    subnets: add_nets(start.subnets, nets@.take(i as int), p@),
                    ..start
                }),
            decreases nets@.len() - i,
        {
            proof {
                assert(nets@.take(i as int + 1).drop_last() =~= nets@.take(i as int));
            }
            self.claim(&nets[i], p);
            i = i + 1;
        }
        proof {
            assert(nets@.take(i as int) =~= nets@);
        }
    }

    fn choose_exit(
        &mut self,
        local: &StringHashMap<Arc<PeerInfo>>,
        network_id: u128,
        s: &NetworkSlice,
    )
        requires
            old(self).wf(),
        ensures
            final(self).wf(),
            final(self).model() == choose_exit(
                old(self).model(),
                seen(local@),
                network_id,
                s@,
            ),
    {
        let wanted = match &s.profile.exit_node_endpoint_id {
            None => {
                return;
            },
            Some(id) => id,
        };
        let ghost all = s@.exit_nodes;
        let mut at: usize = 0;
        while at < s.exit_nodes.len() && !(s.exit_nodes[at].endpoint_id == *wanted)
            invariant
                at <= s.exit_nodes@.len(),
                all == s@.exit_nodes,
                forall|i: int| 0 <= i < at ==> (#[trigger] all[i]).endpoint_id != wanted@,
            decreases s.exit_nodes@.len() - at,
        {
            at = at + 1;
        }
        proof {
            lemma_exit_place(all, wanted@);
            if at < all.len() {
                assert(all[at as int].endpoint_id == wanted@);
            }
            assert(at == exit_place(all, wanted@));
        }
        if at >= s.exit_nodes.len() {
            return;
        }
        let exit = &s.exit_nodes[at];
        let peer = peer_for_via(
            local,
            &exit.endpoint_id,
            exit.via_ip,
            network_id,
            &s.network_name,
        );
        if let Some(p) = peer {
            self.claim_all(&exit.allowed_cidrs, &p);
            if self.exit_node.is_none() {
                self.exit_node = Some(p);
                self.allow_local_lan = s.profile.allow_local_lan;
            }
        }
    }

    fn add_wildcard(&mut self, info: Arc<HostnameRouteInfo>)
        requires
            old(self).wf(),
        ensures
            final(self).wf(),
            final(self).model() == (TableModel {
                wildcards: old(self).model().wildcards.insert(
                    wildcard_place(old(self).model().wildcards, byte_len(info@.hostname)),
                    info@,
                ),
                ..old(self).model()
            }),
    {
        let n: usize = byte_count(info.hostname.as_str());
        let ghost w = self.model().wildcards;
        let mut at: usize = 0;
        while at < self.wildcards.len() && byte_count(self.wildcards[at].hostname.as_str()) >= n
            invariant
                at <= self.wildcards@.len(),
                w == self.model().wildcards,
                w.len() == self.wildcards@.len(),
                n == byte_len(info@.hostname),
                forall|i: int| 0 <= i < at ==> byte_len((#[trigger] w[i]).hostname) >= n,
            decreases self.wildcards@.len() - at,
        {
            at = at + 1;
        }
        proof {
            lemma_wildcard_place_is(w, n as nat, at as int);
        }
        self.wildcards.insert(at, info);
        proof {
            assert(self.model().wildcards =~= w.insert(at as int, info@));
        }
    }

    fn add_hostname_routes(
        &mut self,
        local: &StringHashMap<Arc<PeerInfo>>,
        network_id: u128,
        s: &NetworkSlice,
    )
        requires
            old(self).wf(),
        ensures
            final(self).wf(),
            final(self).model() == add_hostname_routes(
                old(self).model(),
                seen(local@),
                s@.hostname_routes,
                network_id,
                s@,
            ),
    {
        let ghost start = self.model();
        let ghost all = s@.hostname_routes;
        let mut i: usize = 0;
        proof {
            assert(all.take(0) =~= Seq::<HostnameRouteView>::empty());
        }
        while i < s.hostname_routes.len()
            invariant
                i <= s.hostname_routes@.len(),
                self.wf(),
                all == s@.hostname_routes,
                self.model() == add_hostname_routes(
                    start,
                    seen(local@),
                    all.take(i as int),
                    network_id,
                    s@,
                ),
            decreases s.hostname_routes@.len() - i,
        {
            let route = &s.hostname_routes[i];
            let ghost before = *self;
            proof {
                assert(all.take(i as int + 1).drop_last() =~= all.take(i as int));
                assert(all.take(i as int + 1).last() == route@);
            }
            let hostname = to_lower(route.hostname.as_str());
            let peer = peer_for_via(
                local,
                &route.via_endpoint_id,
                route.via_ip,
                network_id,
                &s.network_name,
            );
            if let Some(p) = peer {
                let info = Arc::new(
                    HostnameRouteInfo {
                        peer: p,
                        is_wildcard: route.is_wildcard,
                        target_ip: route.target_ip,
                        hostname: hostname.clone(),
                    },
                );
                if route.via_endpoint_id == s.self_endpoint_id {
                    self.advertised_hostnames.push(info);
                    proof {
                        lemma_seen_push(before.advertised_hostnames@, info);
                    }
                } else if !route.is_wildcard {
                    self.hostname_exact.insert(hostname, info);
                    proof {
                        lemma_seen_insert(before.hostname_exact@, hostname@, info);
                    }
                } else {
                    self.add_wildcard(info);
                }
            }
            i = i + 1;
        }
        proof {
            assert(all.take(i as int) =~= all);
        }
    }

    fn add_slice(&mut self, network_id: u128, s: &NetworkSlice)
        requires
            old(self).wf(),
        ensures
            final(self).wf(),
            final(self).model() == add_slice(old(self).model(), network_id, s@),
    {
        if self.network_name.as_str().unicode_len() == 0 {
            self.network_name = s.network_name.clone();
        }
        self.dns_suffix = s.dns_suffix.clone();
        let local = self.add_peers(&s.peers, network_id, &s.network_name);
        self.add_subnets(&local, network_id, s);
        self.offer_exits(s);
        self.choose_exit(&local, network_id, s);
        self.add_hostname_routes(&local, network_id, s);
    }

    /// The tables for a list of networks.
    pub fn build(slices: &Vec<(u128, NetworkSlice)>) -> (r: Tables)
        ensures
            r.wf(),
            r.model() == built(slice_views(slices@)),
    {
        let mut t = Tables::empty();
        let ghost all = slice_views(slices@);
        let mut i: usize = 0;
        proof {
            assert(all.take(0) =~= Seq::<(u128, SliceView)>::empty());
        }
        while i < slices.len()
            invariant
                i <= slices@.len(),
                t.wf(),
                all == slice_views(slices@),
                t.model() == built(all.take(i as int)),
            decreases slices@.len() - i,
        {
            proof {
                assert(all.take(i as int + 1).drop_last() =~= all.take(i as int));
                assert(all.take(i as int + 1).last() == (slices@[i as int].0, slices@[i as int].1@));
            }
            t.add_slice(slices[i].0, &slices[i].1);
            i = i + 1;
        }
        proof {
            assert(all.take(i as int) =~= all);
        }
        t
    }
}

/// The networks of a list as mathematical values.
pub open spec fn slice_views(s: Seq<(u128, NetworkSlice)>) -> Seq<(u128, SliceView)> {
    Seq::new(s.len(), |i: int| (s[i].0, s[i].1@))
}

/// Whether a name is the suffix itself or ends in a dot and the suffix.
pub fn hostname_matches_wildcard(host: &String, suffix: &String) -> (r: bool)
    ensures
        r == under_wildcard(host@, suffix@),
{
    if *host == *suffix {
        return true;
    }
    match strip_end(host.as_str(), suffix.as_str()) {
        Some(rest) => ends_in(rest.as_str(), '.'),
        None => false,
    }
}

/// Folding to lower case twice is folding once.
pub proof fn lemma_lower_twice(s: Seq<char>)
    ensures
        lower(lower(s)) == lower(s),
{
    assert(lower(lower(s)) =~= lower(s));
}

fn bare(name: &str, suffix: &String) -> (r: String)
    ensures
        r@ == bare_name(name@, suffix@),
{
    let dotted_suffix = join2(".", suffix.as_str());
    let trimmed = trim_end(name, '.');
    let low = to_lower(trimmed.as_str());
    let rest = match strip_end(low.as_str(), dotted_suffix.as_str()) {
        Some(rest) => rest,
        None => low,
    };
    trim_end(rest.as_str(), '.')
}

fn mesh_text(p: &PeerInfo) -> (r: String)
    ensures
        r@ == mesh_name(p@),
{
    qualified(&p.hostname, &p.network_name)
}

fn is_named(p: &PeerInfo, name: &String) -> (r: bool)
    ensures
        r == answers_to(p@, name@),
{
    if p.hostname.as_str().unicode_len() == 0 {
        return false;
    }
    let host = to_lower(p.hostname.as_str());
    if *name == host {
        return true;
    }
    let fqdn = mesh_text(p);
    *name == fqdn
}

proof fn lemma_same_match(a: Map<(u32, u8), usize>, b: Map<(u32, u8), PeerView>, ip: u32, len: u8)
    requires
        forall|k: (u32, u8)| a.contains_key(k) == #[trigger] b.contains_key(k),
    ensures
        longest_match(a, ip, len) == longest_match(b, ip, len),
    decreases len,
{
    assert(a.contains_key(net_key(ip, len)) == b.contains_key(net_key(ip, len)));
    if !a.contains_key(net_key(ip, len)) && len > 0 {
        lemma_same_match(a, b, ip, (len - 1) as u8);
    }
}

impl Tables {
    /// The member that a packet for an address is sent to.
    pub fn lookup_ip(&self, ip: u32) -> (r: Option<Arc<PeerInfo>>)
        requires
            self.wf(),
        ensures
            seen_opt(r) == route_of(self.model(), ip),
    {
        if is_multicast(ip) || is_broadcast(ip) {
            return None;
        }
        let ghost t = self.model();
        proof {
            assert(t.by_ip.contains_key(ip) == self.by_ip@.contains_key(ip));
            assert forall|k: (u32, u8)|
                self.subnets.entries().contains_key(k) == #[trigger] t.subnets.contains_key(k) by {}
            lemma_same_match(self.subnets.entries(), t.subnets, ip, 32);
        }
        if let Some(p) = self.by_ip.get(&ip) {
            return Some(p.clone());
        }
        if let Some((len, at)) = self.subnets.longest(ip) {
            if !(self.allow_local_lan && is_rfc1918(ip) && len == 0) {
                proof {
                    assert(t.subnets[net_key(ip, len)] == self.gateways@[at as int]@);
                }
                return Some(self.gateways[at].clone());
            }
        }
        if !is_mesh_or_link_local(ip) && !(self.allow_local_lan && is_rfc1918(ip)) {
            if let Some(exit) = &self.exit_node {
                return Some(exit.clone());
            }
        }
        None
    }

    /// The member with an address in a network.
    pub fn lookup_network_ip(&self, network_id: u128, ip: u32) -> (r: Option<Arc<PeerInfo>>)
        ensures
            seen_opt(r) == member_at(self.model(), network_id, ip),
    {
        let at: usize = self.find_member(network_id, ip);
        if at < self.members.len() {
            Some(self.members[at].clone())
        } else {
            None
        }
    }

    /// The first member of a network with a key.
    pub fn lookup_endpoint_in(&self, network_id: u128, hex: &String) -> (r: Option<Arc<PeerInfo>>)
        ensures
            seen_opt(r) == member_with_key(self.model().members, network_id, hex@),
    {
        let ghost m = self.model().members;
        let mut i: usize = 0;
        proof {
            assert(m.skip(0) =~= m);
        }
        while i < self.members.len()
            invariant
                i <= self.members@.len(),
                m == self.model().members,
                m.len() == self.members@.len(),
                member_with_key(m, network_id, hex@) == member_with_key(
                    m.skip(i as int),
                    network_id,
                    hex@,
                ),
            decreases self.members@.len() - i,
        {
            let p = &self.members[i];
            proof {
                assert(m.skip(i as int)[0] == p@);
                assert(m.skip(i as int).skip(1) =~= m.skip(i as int + 1));
            }
            if p.network_id == network_id && p.endpoint_hex == *hex {
                return Some(p.clone());
            }
            i = i + 1;
        }
        None
    }

    /// The member with a key, in whatever network.
    pub fn lookup_endpoint(&self, hex: &str) -> (r: Option<Arc<PeerInfo>>)
        ensures
            r is Some <==> self.model().by_endpoint.contains_key(hex@),
            r matches Some(p) ==> p@ == self.model().by_endpoint[hex@],
    {
        match self.by_endpoint.get(hex) {
            Some(p) => Some(p.clone()),
            None => None,
        }
    }

    /// Whether an endpoint may send from a source address.
    pub fn inbound_source_ok(&self, network_id: u128, src: u32, endpoint: EndpointId) -> (r: bool)
        requires
            self.wf(),
        ensures
            r == source_ok(self.model(), network_id, src, endpoint),
    {
        if let Some(owner) = self.lookup_network_ip(network_id, src) {
            return owner.endpoint == endpoint;
        }
        match self.lookup_ip(src) {
            Some(via) => via.endpoint == endpoint && via.network_id == network_id,
            None => false,
        }
    }

    /// The exit node for everything that nothing else covers.
    pub fn exit_node(&self) -> (r: Option<Arc<PeerInfo>>)
        ensures
            seen_opt(r) == self.model().exit_node,
    {
        match &self.exit_node {
            Some(p) => Some(p.clone()),
            None => None,
        }
    }

    /// Whether this node offers a way to everywhere.
    pub fn is_exit_node(&self) -> (r: bool)
        ensures
            r == offers_everything(self.model().advertised),
    {
        let mut i: usize = 0;
        while i < self.advertised.len()
            invariant
                i <= self.advertised@.len(),
                forall|j: int| 0 <= j < i ==> (#[trigger] self.advertised@[j]).bits() != 0,
            decreases self.advertised@.len() - i,
        {
            if self.advertised[i].prefix_len() == 0 {
                return true;
            }
            i = i + 1;
        }
        false
    }

    /// Whether this node offers a network around the address.
    pub fn is_advertised_destination(&self, ip: u32) -> (r: bool)
        ensures
            r == offers_address(self.model().advertised, ip),
    {
        let mut i: usize = 0;
        while i < self.advertised.len()
            invariant
                i <= self.advertised@.len(),
                forall|j: int| 0 <= j < i ==> !(#[trigger] self.advertised@[j]).holds(ip),
            decreases self.advertised@.len() - i,
        {
            if self.advertised[i].contains(ip) {
                return true;
            }
            i = i + 1;
        }
        false
    }

    /// The networks that this node offers.
    pub fn advertised_subnets(&self) -> (r: Vec<Ipv4Net>)
        ensures
            r@ == self.model().advertised,
    {
        copy_nets(&self.advertised)
    }

    /// Whether this node serves the host name.
    pub fn is_advertised_hostname(&self, host: &str) -> (r: bool)
        ensures
            r == serves_host(self.model().advertised_hostnames, host@),
    {
        let low = to_lower(host);
        let ghost routes = self.model().advertised_hostnames;
        let mut i: usize = 0;
        while i < self.advertised_hostnames.len()
            invariant
                i <= self.advertised_hostnames@.len(),
                low@ == lower(host@),
                routes == self.model().advertised_hostnames,
                routes.len() == self.advertised_hostnames@.len(),
                forall|j: int|
                    0 <= j < i ==> !(if (#[trigger] routes[j]).is_wildcard {
                        under_wildcard(lower(host@), routes[j].hostname)
                    } else {
                        routes[j].hostname == lower(host@)
                    }),
            decreases self.advertised_hostnames@.len() - i,
        {
            let info = &self.advertised_hostnames[i];
            assert(routes[i as int] == info@);
            let hit = if info.is_wildcard {
                hostname_matches_wildcard(&low, &info.hostname)
            } else {
                info.hostname == low
            };
            if hit {
                return true;
            }
            i = i + 1;
        }
        false
    }

    /// The route for a host name.
    pub fn lookup_hostname_route(&self, host: &str) -> (r: Option<Arc<HostnameRouteInfo>>)
        ensures
            seen_opt(r) == host_route(self.model(), host@),
    {
        let low = to_lower(host);
        let ghost t = self.model();
        let ghost w = t.wildcards;
        proof {
            assert(t.hostname_exact.contains_key(low@) == self.hostname_exact@.contains_key(low@));
            assert(w.skip(0) =~= w);
        }
        if let Some(info) = self.hostname_exact.get(low.as_str()) {
            return Some(info.clone());
        }
        let mut i: usize = 0;
        while i < self.wildcards.len()
            invariant
                i <= self.wildcards@.len(),
                w == self.model().wildcards,
                w.len() == self.wildcards@.len(),
                low@ == lower(host@),
                !self.model().hostname_exact.contains_key(low@),
                wildcard_for(w, low@) == wildcard_for(w.skip(i as int), low@),
            decreases self.wildcards@.len() - i,
        {
            let info = &self.wildcards[i];
            proof {
                assert(w.skip(i as int)[0] == info@);
                assert(w.skip(i as int).skip(1) =~= w.skip(i as int + 1));
            }
            if hostname_matches_wildcard(&low, &info.hostname) {
                return Some(info.clone());
            }
            i = i + 1;
        }
        None
    }

    /// The member that a host name leads to.
    pub fn lookup_hostname(&self, host: &str) -> (r: Option<Arc<PeerInfo>>)
        ensures
            seen_opt(r) == host_peer(self.model(), host@),
    {
        let low = to_lower(host);
        proof {
            assert(self.model().by_hostname.contains_key(low@) == self.by_hostname@.contains_key(
                low@,
            ));
            lemma_lower_twice(host@);
        }
        if let Some(p) = self.by_hostname.get(low.as_str()) {
            return Some(p.clone());
        }
        match self.lookup_hostname_route(low.as_str()) {
            Some(info) => Some(info.peer.clone()),
            None => None,
        }
    }

    /// Every member of every network.
    pub fn peers(&self) -> (r: Vec<Arc<PeerInfo>>)
        ensures
            seen_all(r@) == self.model().members,
    {
        let mut out: Vec<Arc<PeerInfo>> = Vec::new();
        let mut i: usize = 0;
        while i < self.members.len()
            invariant
                i <= self.members@.len(),
                out@ =~= self.members@.take(i as int),
            decreases self.members@.len() - i,
        {
            out.push(self.members[i].clone());
            i = i + 1;
        }
        proof {
            assert(out@ =~= self.members@);
        }
        out
    }

    pub fn dns_suffix(&self) -> (r: String)
        ensures
            r@ == self.model().dns_suffix,
    {
        self.dns_suffix.clone()
    }

    pub fn network_name(&self) -> (r: String)
        ensures
            r@ == self.model().network_name,
    {
        self.network_name.clone()
    }

    /// How many names the tables answer to.
    pub fn cached_entry_count(&self) -> (r: usize)
        requires
            self.model().by_hostname.len() + self.model().hostname_exact.len()
                + self.model().wildcards.len() <= usize::MAX,
        ensures
            r == self.model().by_hostname.len() + self.model().hostname_exact.len()
                + self.model().wildcards.len(),
    {
        proof {
            assert(seen(self.by_hostname@).dom() =~= self.by_hostname@.dom());
            assert(seen(self.hostname_exact@).dom() =~= self.hostname_exact@.dom());
        }
        self.by_hostname.len() + self.hostname_exact.len() + self.wildcards.len()
    }

    fn find_answering(&self, name: &String) -> (r: Option<Arc<PeerInfo>>)
        ensures
            seen_opt(r) == answering(self.model().members, name@),
    {
        let ghost m = self.model().members;
        let mut i: usize = 0;
        proof {
            assert(m.skip(0) =~= m);
        }
        while i < self.members.len()
            invariant
                i <= self.members@.len(),
                m == self.model().members,
                m.len() == self.members@.len(),
                answering(m, name@) == answering(m.skip(i as int), name@),
            decreases self.members@.len() - i,
        {
            let p = &self.members[i];
            proof {
                assert(m.skip(i as int)[0] == p@);
                assert(m.skip(i as int).skip(1) =~= m.skip(i as int + 1));
            }
            if is_named(p, name) {
                return Some(p.clone());
            }
            i = i + 1;
        }
        None
    }

    fn strip_network(&self, name: &String) -> (r: String)
        ensures
            r@ == peer_name(self.model(), name@),
    {
        if self.network_name.as_str().unicode_len() == 0 {
            return name.clone();
        }
        let suffix = join2(".", self.network_name.as_str());
        match strip_end(name.as_str(), suffix.as_str()) {
            Some(rest) => rest,
            None => name.clone(),
        }
    }

    fn host_key_at(&self, name: &String) -> (r: Option<String>)
        ensures
            opt_text(r) == host_key_of(self.model(), name@),
    {
        proof {
            assert(self.model().by_hostname.contains_key(name@) == self.by_hostname@.contains_key(
                name@,
            ));
        }
        match self.by_hostname.get(name.as_str()) {
            Some(p) => copy_opt_text(&p.ssh_host_key),
            None => None,
        }
    }

    /// The SSH host key that a name stands for.
    pub fn resolve_dns_txt(&self, name: &str) -> (r: Option<String>)
        ensures
            opt_text(r) == dns_txt(self.model(), name@),
    {
        let plain = bare(name, &self.dns_suffix);
        if let Some(p) = self.find_answering(&plain) {
            return copy_opt_text(&p.ssh_host_key);
        }
        let peer = self.strip_network(&plain);
        if let Some(key) = self.host_key_at(&peer) {
            return Some(key);
        }
        self.host_key_at(&plain)
    }

    /// The address that a name stands for.
    pub fn resolve_dns_a(&self, name: &str) -> (r: Option<u32>)
        ensures
            r == dns_a(self.model(), name@),
    {
        let plain = bare(name, &self.dns_suffix);
        if let Some(p) = self.find_answering(&plain) {
            return Some(p.ip);
        }
        let peer = self.strip_network(&plain);
        proof {
            assert(self.model().by_hostname.contains_key(peer@) == self.by_hostname@.contains_key(
                peer@,
            ));
        }
        match self.by_hostname.get(peer.as_str()) {
            Some(p) => Some(p.ip),
            None => None,
        }
    }

    /// The full name of the member that an address leads to.
    pub fn resolve_dns_ptr(&self, ip: u32) -> (r: Option<String>)
        ensures
            opt_text(r) == dns_ptr(self.model(), ip),
    {
        proof {
            assert(self.model().by_ip.contains_key(ip) == self.by_ip@.contains_key(ip));
        }
        match self.by_ip.get(&ip) {
            None => None,
            Some(p) => {
                if p.hostname.as_str().unicode_len() == 0 {
                    None
                } else {
                    let name = mesh_text(p);
                    Some(join3(name.as_str(), ".", self.dns_suffix.as_str()))
                }
            },
        }
    }
}

} // verus!
