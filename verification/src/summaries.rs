//! What the node reports of itself, its networks and its peers.

use crate::conn_pool::{OnDemandStats, NANOS_PER_SEC};
use crate::local_api::{
    firewall_stats_for_network, idle_leaves, idle_permissions, meta_permissions, node_mode,
    ui_leaves, ApiError, ApiErrorCode, FirewallStats, LocalUi, NodeModeApi, Permission,
};
use crate::membership::{
    copy_opt_text, copy_texts, opt_text, texts, views, HostnameRoute, HostnameRouteView,
    SplitTunnelMode, SubnetRoute, SubnetRouteView,
};
use crate::net::{dotted, ipv4_text, Ipv4Net};
use crate::policy_key::{uuid_hyphenated, uuid_text};
use crate::routing::RoutingTable;
use crate::sync::NetworkMembershipSnapshot;
use crate::tables::{seen_all, PeerInfo, PeerView, TableModel};
use crate::text::{join3, same_text};
use crate::tunnel_mesh::{live_peers, MeshView, TunnelMesh};
use vstd::prelude::*;
use vstd::utf8::encode_scalar;

verus! {

/// What beacons say of a peer.
#[derive(Debug)]
pub struct Presence {
    pub endpoint_id: String,
    pub online: Option<bool>,
    pub last_seen_secs_ago: Option<u64>,
}

/// What is known of a peer from its beacons; nothing where none was heard.
pub open spec fn presence_of(list: Seq<Presence>, id: Seq<char>) -> (Option<bool>, Option<u64>)
    decreases list.len(),
{
    if list.len() == 0 {
        (None, None)
    } else if list[0].endpoint_id@ == id {
        (list[0].online, list[0].last_seen_secs_ago)
    } else {
        presence_of(list.drop_first(), id)
    }
}

fn find_presence(list: &Vec<Presence>, id: &str) -> (r: (Option<bool>, Option<u64>))
    ensures
        r == presence_of(list@, id@),
{
    let mut i: usize = 0;
    proof {
        assert(list@.skip(0) =~= list@);
    }
    while i < list.len()
        invariant
            i <= list@.len(),
            presence_of(list@.skip(i as int), id@) == presence_of(list@, id@),
        decreases list@.len() - i,
    {
        proof {
            assert(list@.skip(i as int)[0] == list@[i as int]);
            assert(list@.skip(i as int).drop_first() =~= list@.skip(i + 1));
        }
        if same_text(list[i].endpoint_id.as_str(), id) {
            return (list[i].online, list[i].last_seen_secs_ago);
        }
        i = i + 1;
    }
    proof {
        assert(list@.skip(i as int).len() == 0);
    }
    (None, None)
}

/// A peer as it is reported.
#[derive(Debug)]
pub struct PeerSummary {
    pub network_id: String,
    pub ip: String,
    pub hostname: String,
    pub endpoint_id: String,
    pub tags: Vec<String>,
    /// Not known before the first beacon.
    pub online: Option<bool>,
    pub conn_state: String,
    pub path: String,
    pub bytes_in: u64,
    pub bytes_out: u64,
    pub last_seen_secs_ago: Option<u64>,
    pub keep_alive: bool,
    pub ssh_host_key: Option<String>,
}

pub struct PeerSummaryView {
    pub network_id: Seq<char>,
    pub ip: Seq<char>,
    pub hostname: Seq<char>,
    pub endpoint_id: Seq<char>,
    pub tags: Seq<Seq<char>>,
    pub online: Option<bool>,
    pub conn_state: Seq<char>,
    pub path: Seq<char>,
    pub bytes_in: u64,
    pub bytes_out: u64,
    pub last_seen_secs_ago: Option<u64>,
    pub keep_alive: bool,
    pub ssh_host_key: Option<Seq<char>>,
}

impl View for PeerSummary {
    type V = PeerSummaryView;

    open spec fn view(&self) -> PeerSummaryView {
        PeerSummaryView {
            network_id: self.network_id@,
            ip: self.ip@,
            hostname: self.hostname@,
            endpoint_id: self.endpoint_id@,
            tags: texts(self.tags@),
            online: self.online,
            conn_state: self.conn_state@,
            path: self.path@,
            bytes_in: self.bytes_in,
            bytes_out: self.bytes_out,
            last_seen_secs_ago: self.last_seen_secs_ago,
            keep_alive: self.keep_alive,
            ssh_host_key: opt_text(self.ssh_host_key),
        }
    }
}

/// The report on a peer. A live connection means that it is online; else its
/// beacons say. Its last activity counts as when it was last seen, and its
/// beacons where there was none.
pub open spec fn peer_summary(
    p: PeerView,
    m: MeshView,
    presence: (Option<bool>, Option<u64>),
    now: u64,
) -> PeerSummaryView {
    let kept = m.keep_alive || m.peers.contains(p.endpoint);
    let known = m.snaps.contains_key(p.endpoint);
    let s = m.snaps[p.endpoint];
    let ago = now.saturating_sub(s.last_activity) / NANOS_PER_SEC;
    PeerSummaryView {
        network_id: uuid_hyphenated(p.network_id),
        ip: dotted(p.ip),
        hostname: p.hostname,
        endpoint_id: p.endpoint_hex,
        tags: p.tags,
        online: if known && s.live {
            Some(true)
        } else {
            presence.0
        },
        conn_state: if known {
            s.state
        } else {
            "idle"@
        },
        path: if known {
            s.path
        } else {
            "unknown"@
        },
        bytes_in: if known {
            s.bytes_in
        } else {
            0
        },
        bytes_out: if known {
            s.bytes_out
        } else {
            0
        },
        last_seen_secs_ago: if known {
            Some(ago)
        } else {
            presence.1
        },
        keep_alive: kept || (known && s.keep_alive),
        ssh_host_key: p.ssh_host_key,
    }
}

/// A member is listed: it is not this node, and belongs to the network that is
/// asked for.
pub open spec fn is_listed(p: PeerView, self_id: Seq<char>, network_id: Option<u128>) -> bool {
    p.endpoint_hex != self_id && (network_id matches Some(id) ==> p.network_id == id)
}

/// The reports on all listed members, in their order.
pub open spec fn summaries_of(
    members: Seq<PeerView>,
    m: MeshView,
    presence: Seq<Presence>,
    self_id: Seq<char>,
    network_id: Option<u128>,
    now: u64,
) -> Seq<PeerSummaryView>
    decreases members.len(),
{
    if members.len() == 0 {
        Seq::empty()
    } else {
        let before = summaries_of(members.drop_last(), m, presence, self_id, network_id, now);
        let p = members.last();
        if is_listed(p, self_id, network_id) {
            before.push(peer_summary(p, m, presence_of(presence, p.endpoint_hex), now))
        } else {
            before
        }
    }
}

fn summarize(p: &PeerInfo, mesh: &TunnelMesh, presence: &Vec<Presence>, now: u64) -> (r: PeerSummary)
    requires
        mesh.wf(),
    ensures
        r@ == peer_summary(
            p@,
            mesh.state(),
            presence_of(presence@, p.endpoint_hex@),
            now,
        ),
{
    let snap = mesh.peer_snapshot(p.endpoint, now);
    let (bytes_in, bytes_out) = mesh.peer_bytes(p.endpoint);
    let (seen_online, seen_ago) = find_presence(presence, p.endpoint_hex.as_str());
    proof {
        assert(now.saturating_sub(mesh.state().snaps[p.endpoint].last_activity) / NANOS_PER_SEC
            < u64::MAX);
    }
    let last_seen = if snap.last_activity_secs_ago == u64::MAX {
        seen_ago
    } else {
        Some(snap.last_activity_secs_ago)
    };
    let up = snap.live || mesh.has_live(p.endpoint);
    let online = if up {
        Some(true)
    } else {
        seen_online
    };
    let r = PeerSummary {
        network_id: uuid_text(p.network_id),
        ip: ipv4_text(p.ip),
        hostname: p.hostname.clone(),
        endpoint_id: p.endpoint_hex.clone(),
        tags: copy_texts(&p.tags),
        online,
        conn_state: snap.state,
        path: snap.path,
        bytes_in,
        bytes_out,
        last_seen_secs_ago: last_seen,
        keep_alive: snap.keep_alive,
        ssh_host_key: copy_opt_text(&p.ssh_host_key),
    };
    r
}

/// The reports on the members of one network, or of all.
pub fn peer_summaries(
    routes: &RoutingTable,
    mesh: &TunnelMesh,
    presence: &Vec<Presence>,
    self_id: &str,
    network_id: Option<u128>,
    now: u64,
) -> (r: Vec<PeerSummary>)
    requires
        mesh.wf(),
    ensures
        views(r@) == summaries_of(
            routes.model().members,
            mesh.state(),
            presence@,
            self_id@,
            network_id,
            now,
        ),
{
    let members = routes.peers();
    let ghost all = routes.model().members;
    let mut out: Vec<PeerSummary> = Vec::new();
    let mut i: usize = 0;
    proof {
        assert(all.take(0) =~= Seq::<PeerView>::empty());
        assert(views(out@) =~= Seq::<PeerSummaryView>::empty());
    }
    while i < members.len()
        invariant
            i <= members@.len(),
            mesh.wf(),
            all == seen_all(members@),
            views(out@) == summaries_of(
                all.take(i as int),
                mesh.state(),
                presence@,
                self_id@,
                network_id,
                now,
            ),
        decreases members@.len() - i,
    {
        let p = &members[i];
        proof {
            assert(all.take(i + 1).drop_last() =~= all.take(i as int));
            assert(all.take(i + 1).last() == p@);
        }
        let mine = match network_id {
            Some(id) => p.network_id == id,
            None => true,
        };
        if !same_text(p.endpoint_hex.as_str(), self_id) && mine {
            let ghost before = views(out@);
            let one = summarize(p, mesh, presence, now);
            out.push(one);
            proof {
                assert(views(out@) =~= before.push(one@));
            }
        }
        i = i + 1;
    }
    proof {
        assert(all.take(i as int) =~= all);
    }
    out
}

/// How many peers are known to be online.
pub open spec fn online_count(s: Seq<PeerSummaryView>) -> nat
    decreases s.len(),
{
    if s.len() == 0 {
        0
    } else {
        online_count(s.drop_last()) + (if s.last().online == Some(true) {
            1nat
        } else {
            0nat
        })
    }
}

fn count_online(peers: &Vec<PeerSummary>) -> (r: usize)
    ensures
        r == online_count(views(peers@)),
{
    let ghost all = views(peers@);
    let mut n: usize = 0;
    let mut i: usize = 0;
    proof {
        assert(all.take(0) =~= Seq::<PeerSummaryView>::empty());
    }
    while i < peers.len()
        invariant
            i <= peers@.len(),
            all == views(peers@),
            n <= i,
            n == online_count(all.take(i as int)),
        decreases peers@.len() - i,
    {
        proof {
            assert(all.take(i + 1).drop_last() =~= all.take(i as int));
            assert(all.take(i + 1).last() == peers@[i as int]@);
        }
        let online = match peers[i].online {
            Some(o) => o,
            None => false,
        };
        if online {
            n = n + 1;
        }
        i = i + 1;
    }
    proof {
        assert(all.take(i as int) =~= all);
    }
    n
}

/// What is kept of a managed network.
#[derive(Debug)]
pub struct ManagedRecord {
    pub network_id: u128,
    pub network_name: String,
    pub organization_id: String,
    pub control_url: String,
    pub management_url: Option<String>,
    pub dashboard_url: Option<String>,
}

/// What is kept of a direct network.
#[derive(Debug)]
pub struct DirectRecord {
    pub network_id: u128,
    pub network_name: String,
    pub ip: u32,
    pub coordinator: bool,
}

/// What is kept of the networks that the node is in.
#[derive(Debug)]
pub enum PersistedState {
    Managed(ManagedRecord),
    Direct(Vec<DirectRecord>),
}

/// What a report takes from elsewhere.
#[derive(Debug)]
pub struct NodeFacts {
    pub self_id: String,
    pub self_ip: u32,
    pub relay_status: String,
    pub expires_at: Option<String>,
    pub expires_in_secs: Option<u128>,
    /// The firewalls that run, by network.
    pub firewalls: Vec<(u128, FirewallStats)>,
}

/// The first firewall of a network.
pub open spec fn firewall_of(list: Seq<(u128, FirewallStats)>, id: u128) -> Option<FirewallStats>
    decreases list.len(),
{
    if list.len() == 0 {
        None
    } else if list[0].0 == id {
        Some(list[0].1)
    } else {
        firewall_of(list.drop_first(), id)
    }
}

/// The counts of every firewall can be added up.
pub open spec fn countable(list: Seq<(u128, FirewallStats)>) -> bool {
    forall|i: int|
        0 <= i < list.len() ==> (#[trigger] list[i]).1.packets_denied + list[i].1.packets_rejected
            <= u64::MAX
}

fn find_firewall(list: &Vec<(u128, FirewallStats)>, id: u128) -> (r: Option<FirewallStats>)
    requires
        countable(list@),
    ensures
        r == firewall_of(list@, id),
        r matches Some(s) ==> s.packets_denied + s.packets_rejected <= u64::MAX,
{
    let mut i: usize = 0;
    proof {
        assert(list@.skip(0) =~= list@);
    }
    while i < list.len()
        invariant
            i <= list@.len(),
            countable(list@),
            firewall_of(list@.skip(i as int), id) == firewall_of(list@, id),
        decreases list@.len() - i,
    {
        proof {
            assert(list@.skip(i as int)[0] == list@[i as int]);
            assert(list@.skip(i as int).drop_first() =~= list@.skip(i + 1));
        }
        if list[i].0 == id {
            return Some(list[i].1);
        }
        i = i + 1;
    }
    proof {
        assert(list@.skip(i as int).len() == 0);
    }
    None
}

/// The first direct network with an id; past the end where there is none.
pub open spec fn direct_place(list: Seq<DirectRecord>, id: u128) -> int
    decreases list.len(),
{
    if list.len() == 0 || list[0].network_id == id {
        0
    } else {
        1 + direct_place(list.drop_first(), id)
    }
}

fn find_direct(list: &Vec<DirectRecord>, id: u128) -> (r: usize)
    ensures
        r == direct_place(list@, id),
        r <= list@.len(),
        r < list@.len() ==> list@[r as int].network_id == id,
        forall|j: int| 0 <= j < r ==> (#[trigger] list@[j]).network_id != id,
{
    let mut i: usize = 0;
    proof {
        assert(list@.skip(0) =~= list@);
    }
    while i < list.len() && list[i].network_id != id
        invariant
            i <= list@.len(),
            i + direct_place(list@.skip(i as int), id) == direct_place(list@, id),
            forall|j: int| 0 <= j < i ==> (#[trigger] list@[j]).network_id != id,
        decreases list@.len() - i,
    {
        proof {
            assert(list@.skip(i as int)[0] == list@[i as int]);
            assert(list@.skip(i as int).drop_first() =~= list@.skip(i + 1));
        }
        i = i + 1;
    }
    proof {
        if i < list@.len() {
            assert(list@.skip(i as int)[0] == list@[i as int]);
        } else {
            assert(list@.skip(i as int).len() == 0);
        }
    }
    i
}

/// A network as it is reported.
#[derive(Debug)]
pub struct NetworkSummary {
    pub network_id: String,
    pub network_name: String,
    pub mode: String,
    pub ip: String,
    pub role: String,
    pub peers_total: usize,
    pub peers_online: usize,
    pub organization_id: Option<String>,
    pub control_url: Option<String>,
    pub management_url: Option<String>,
    pub dashboard_url: Option<String>,
    pub firewall_drops: Option<u64>,
    pub conntrack_entries: Option<usize>,
    pub relay_status: String,
    pub expires_at: Option<String>,
    pub expires_in_secs: Option<u128>,
    pub keep_alive: bool,
    /// The state of the link to the control plane belongs to the report.
    pub with_control: bool,
}

pub struct NetworkSummaryView {
    pub network_id: Seq<char>,
    pub network_name: Seq<char>,
    pub mode: Seq<char>,
    pub ip: Seq<char>,
    pub role: Seq<char>,
    pub peers_total: nat,
    pub peers_online: nat,
    pub organization_id: Option<Seq<char>>,
    pub control_url: Option<Seq<char>>,
    pub management_url: Option<Seq<char>>,
    pub dashboard_url: Option<Seq<char>>,
    pub firewall_drops: Option<nat>,
    pub conntrack_entries: Option<nat>,
    pub relay_status: Seq<char>,
    pub expires_at: Option<Seq<char>>,
    pub expires_in_secs: Option<u128>,
    pub keep_alive: bool,
    pub with_control: bool,
}

impl View for NetworkSummary {
    type V = NetworkSummaryView;

    open spec fn view(&self) -> NetworkSummaryView {
        NetworkSummaryView {
            network_id: self.network_id@,
            network_name: self.network_name@,
            mode: self.mode@,
            ip: self.ip@,
            role: self.role@,
            peers_total: self.peers_total as nat,
            peers_online: self.peers_online as nat,
            organization_id: opt_text(self.organization_id),
            control_url: opt_text(self.control_url),
            management_url: opt_text(self.management_url),
            dashboard_url: opt_text(self.dashboard_url),
            firewall_drops: match self.firewall_drops {
                Some(n) => Some(n as nat),
                None => None,
            },
            conntrack_entries: match self.conntrack_entries {
                Some(n) => Some(n as nat),
                None => None,
            },
            relay_status: self.relay_status@,
            expires_at: opt_text(self.expires_at),
            expires_in_secs: self.expires_in_secs,
            keep_alive: self.keep_alive,
            with_control: self.with_control,
        }
    }
}

/// The packets that a firewall dropped, and the connections that it keeps
/// track of.
pub open spec fn firewall_counts(s: Option<FirewallStats>) -> (Option<nat>, Option<nat>) {
    match s {
        Some(s) => (
            Some((s.packets_denied + s.packets_rejected) as nat),
            Some(s.conntrack_entries as nat),
        ),
        None => (None, None),
    }
}

/// The report on a managed network.
pub open spec fn managed_summary(
    m: ManagedRecord,
    f: NodeFacts,
    peers: Seq<PeerSummaryView>,
    keep_alive: bool,
) -> NetworkSummaryView {
    let counts = firewall_counts(firewall_of(f.firewalls@, m.network_id));
    NetworkSummaryView {
        network_id: uuid_hyphenated(m.network_id),
        network_name: m.network_name@,
        mode: "managed"@,
        ip: dotted(f.self_ip),
        role: "managed"@,
        peers_total: peers.len(),
        peers_online: online_count(peers),
        organization_id: Some(m.organization_id@),
        control_url: Some(m.control_url@),
        management_url: opt_text(m.management_url),
        dashboard_url: opt_text(m.dashboard_url),
        firewall_drops: counts.0,
        conntrack_entries: counts.1,
        relay_status: f.relay_status@,
        expires_at: opt_text(f.expires_at),
        expires_in_secs: f.expires_in_secs,
        keep_alive,
        with_control: true,
    }
}

/// The report on a direct network.
pub open spec fn direct_summary(
    d: DirectRecord,
    f: NodeFacts,
    peers: Seq<PeerSummaryView>,
    keep_alive: bool,
) -> NetworkSummaryView {
    let counts = firewall_counts(firewall_of(f.firewalls@, d.network_id));
    NetworkSummaryView {
        network_id: uuid_hyphenated(d.network_id),
        network_name: d.network_name@,
        mode: "direct"@,
        ip: dotted(d.ip),
        role: if d.coordinator {
            "coordinator"@
        } else {
            "member"@
        },
        peers_total: peers.len(),
        peers_online: online_count(peers),
        organization_id: None,
        control_url: None,
        management_url: None,
        dashboard_url: None,
        firewall_drops: counts.0,
        conntrack_entries: counts.1,
        relay_status: "n/a"@,
        expires_at: opt_text(f.expires_at),
        expires_in_secs: f.expires_in_secs,
        keep_alive,
        with_control: false,
    }
}

/// The report on a network, or nothing where the node is not in it.
pub open spec fn network_summary(
    persisted: PersistedState,
    f: NodeFacts,
    members: Seq<PeerView>,
    mesh: MeshView,
    presence: Seq<Presence>,
    network_id: u128,
    now: u64,
) -> Option<NetworkSummaryView> {
    let peers = summaries_of(members, mesh, presence, f.self_id@, Some(network_id), now);
    match persisted {
        PersistedState::Managed(m) => if m.network_id == network_id {
            Some(managed_summary(m, f, peers, mesh.keep_alive))
        } else {
            None
        },
        PersistedState::Direct(list) => {
            let at = direct_place(list@, network_id);
            if at < list@.len() {
                Some(direct_summary(list@[at], f, peers, mesh.keep_alive))
            } else {
                None
            }
        },
    }
}

/// Reports on a network. Where the node is not in it, that is said; of direct
/// networks in the words given.
pub fn build_network_summary(
    persisted: &PersistedState,
    facts: &NodeFacts,
    routes: &RoutingTable,
    mesh: &TunnelMesh,
    presence: &Vec<Presence>,
    network_id: u128,
    no_direct: &str,
    now: u64,
) -> (r: Result<NetworkSummary, ApiError>)
    requires
        mesh.wf(),
        countable(facts.firewalls@),
    ensures
        match network_summary(
            *persisted,
            *facts,
            routes.model().members,
            mesh.state(),
            presence@,
            network_id,
            now,
        ) {
            Some(v) => r matches Ok(s) && s@ == v,
            None => r matches Err(e) && e.code == ApiErrorCode::NotFound && e.message@ == (
            if persisted is Managed {
                "network "@ + uuid_hyphenated(network_id) + " not found"@
            } else {
                no_direct@
            }),
        },
{
    let peers = peer_summaries(
        routes,
        mesh,
        presence,
        facts.self_id.as_str(),
        Some(network_id),
        now,
    );
    let peers_total: usize = peers.len();
    let peers_online: usize = count_online(&peers);
    let (firewall_drops, conntrack_entries) = firewall_stats_for_network(
        find_firewall(&facts.firewalls, network_id),
    );
    proof {
        assert(views(peers@).len() == peers_total);
    }
    match persisted {
        PersistedState::Managed(m) => {
            if m.network_id != network_id {
                return Err(
                    ApiError {
                        code: ApiErrorCode::NotFound,
                        message: join3("network ", uuid_text(network_id).as_str(), " not found"),
                    },
                );
            }
            Ok(
                NetworkSummary {
                    network_id: uuid_text(network_id),
                    network_name: m.network_name.clone(),
                    mode: "managed".to_owned(),
                    ip: ipv4_text(facts.self_ip),
                    role: "managed".to_owned(),
                    peers_total,
                    peers_online,
                    organization_id: Some(m.organization_id.clone()),
                    control_url: Some(m.control_url.clone()),
                    management_url: copy_opt_text(&m.management_url),
                    dashboard_url: copy_opt_text(&m.dashboard_url),
                    firewall_drops,
                    conntrack_entries,
                    relay_status: facts.relay_status.clone(),
                    expires_at: copy_opt_text(&facts.expires_at),
                    expires_in_secs: facts.expires_in_secs,
                    keep_alive: mesh.keep_alive_global(),
                    with_control: true,
                },
            )
        },
        PersistedState::Direct(list) => {
            let at: usize = find_direct(list, network_id);
            if at >= list.len() {
                return Err(
                    ApiError { code: ApiErrorCode::NotFound, message: no_direct.to_owned() },
                );
            }
            let d = &list[at];
            let role = if d.coordinator {
                "coordinator"
            } else {
                "member"
            };
            Ok(
                NetworkSummary {
                    network_id: uuid_text(network_id),
                    network_name: d.network_name.clone(),
                    mode: "direct".to_owned(),
                    ip: ipv4_text(d.ip),
                    role: role.to_owned(),
                    peers_total,
                    peers_online,
                    organization_id: None,
                    control_url: None,
                    management_url: None,
                    dashboard_url: None,
                    firewall_drops,
                    conntrack_entries,
                    relay_status: "n/a".to_owned(),
                    expires_at: copy_opt_text(&facts.expires_at),
                    expires_in_secs: facts.expires_in_secs,
                    keep_alive: mesh.keep_alive_global(),
                    with_control: false,
                },
            )
        },
    }
}

/// The ids of the networks that the node is in.
pub open spec fn network_ids(persisted: PersistedState) -> Seq<u128> {
    match persisted {
        PersistedState::Managed(m) => seq![m.network_id],
        PersistedState::Direct(list) => Seq::new(list@.len(), |i: int| list@[i].network_id),
    }
}

/// Every network that the node is in has a report.
pub proof fn law_own_networks_are_reported(
    persisted: PersistedState,
    f: NodeFacts,
    members: Seq<PeerView>,
    mesh: MeshView,
    presence: Seq<Presence>,
    now: u64,
    i: int,
)
    requires
        0 <= i < network_ids(persisted).len(),
    ensures
        network_summary(persisted, f, members, mesh, presence, network_ids(persisted)[i], now)
            is Some,
{
    if let PersistedState::Direct(list) = persisted {
        lemma_place(list@, i);
    }
}

proof fn lemma_place(list: Seq<DirectRecord>, i: int)
    requires
        0 <= i < list.len(),
    ensures
        direct_place(list, list[i].network_id) <= i,
    decreases list.len(),
{
    if list[0].network_id != list[i].network_id {
        assert(list.drop_first()[i - 1] == list[i]);
        lemma_place(list.drop_first(), i - 1);
    }
}

/// A peer is never reported offline while its connection is live.
pub proof fn law_live_peers_are_online(
    p: PeerView,
    m: MeshView,
    presence: (Option<bool>, Option<u64>),
    now: u64,
)
    requires
        live_peers(m.snaps).contains(p.endpoint),
    ensures
        peer_summary(p, m, presence, now).online == Some(true),
{
}

/// The reports on all networks of the node, in their order.
pub fn network_summaries(
    persisted: &PersistedState,
    facts: &NodeFacts,
    routes: &RoutingTable,
    mesh: &TunnelMesh,
    presence: &Vec<Presence>,
    now: u64,
) -> (r: Vec<NetworkSummary>)
    requires
        mesh.wf(),
        countable(facts.firewalls@),
    ensures
        r@.len() == network_ids(*persisted).len(),
        forall|i: int|
            0 <= i < r@.len() ==> Some((#[trigger] r@[i])@) == network_summary(
                *persisted,
                *facts,
                routes.model().members,
                mesh.state(),
                presence@,
                network_ids(*persisted)[i],
                now,
            ),
{
    let ids = match persisted {
        PersistedState::Managed(m) => {
            let mut ids: Vec<u128> = Vec::new();
            ids.push(m.network_id);
            ids
        },
        PersistedState::Direct(list) => {
            let mut ids: Vec<u128> = Vec::new();
            let mut j: usize = 0;
            while j < list.len()
                invariant
                    j <= list@.len(),
                    ids@.len() == j,
                    forall|k: int| 0 <= k < j ==> #[trigger] ids@[k] == list@[k].network_id,
                decreases list@.len() - j,
            {
                ids.push(list[j].network_id);
                j = j + 1;
            }
            ids
        },
    };
    proof {
        assert(ids@ =~= network_ids(*persisted));
    }
    let mut out: Vec<NetworkSummary> = Vec::new();
    let mut i: usize = 0;
    while i < ids.len()
        invariant
            i <= ids@.len(),
            ids@ == network_ids(*persisted),
            mesh.wf(),
            countable(facts.firewalls@),
            out@.len() == i,
            forall|k: int|
                0 <= k < i ==> Some((#[trigger] out@[k])@) == network_summary(
                    *persisted,
                    *facts,
                    routes.model().members,
                    mesh.state(),
                    presence@,
                    ids@[k],
                    now,
                ),
        decreases ids@.len() - i,
    {
        proof {
            law_own_networks_are_reported(
                *persisted,
                *facts,
                routes.model().members,
                mesh.state(),
                presence@,
                now,
                i as int,
            );
        }
        if let Ok(s) = build_network_summary(
            persisted,
            facts,
            routes,
            mesh,
            presence,
            ids[i],
            "",
            now,
        ) {
            out.push(s);
        }
        i = i + 1;
    }
    out
}

/// The node as it is reported.
#[derive(Debug)]
pub struct NodeSummary {
    pub endpoint_id: String,
    pub hostname: String,
    pub mode: NodeModeApi,
    pub daemon_version: String,
    pub data_plane_up: bool,
    pub uptime_secs: u64,
    pub snapshot_version: u64,
    pub networks: Vec<NetworkSummary>,
    pub on_demand: Option<OnDemandStats>,
    pub with_control: bool,
}

/// Reports on the node.
pub fn build_node_summary(
    persisted: &PersistedState,
    facts: &NodeFacts,
    routes: &RoutingTable,
    mesh: &TunnelMesh,
    presence: &Vec<Presence>,
    hostname: &str,
    daemon_version: &str,
    data_plane_up: bool,
    uptime_secs: u64,
    snapshot_version: u64,
    now: u64,
) -> (r: NodeSummary)
    requires
        mesh.wf(),
        countable(facts.firewalls@),
    ensures
        r.endpoint_id@ == facts.self_id@,
        r.hostname@ == hostname@,
        r.mode == (if persisted is Direct {
            NodeModeApi::Direct
        } else {
            NodeModeApi::Managed
        }),
        r.daemon_version@ == daemon_version@,
        r.data_plane_up == data_plane_up,
        r.uptime_secs == uptime_secs,
        r.snapshot_version == snapshot_version,
        r.networks@.len() == network_ids(*persisted).len(),
        forall|i: int|
            0 <= i < r.networks@.len() ==> Some((#[trigger] r.networks@[i])@) == network_summary(
                *persisted,
                *facts,
                routes.model().members,
                mesh.state(),
                presence@,
                network_ids(*persisted)[i],
                now,
            ),
        r.on_demand matches Some(od) && ({
            let c = mesh.state().counters;
            &&& od.reconnect_attempts == c.dial_attempts
            &&& od.reconnect_success == c.dial_success
            &&& od.reconnect_fail == c.dial_fail
            &&& od.packets_buffered == 0
            &&& od.packets_dropped_timeout == c.stale_drops
            &&& od.packets_dropped_blocked == c.blocked_drops
            &&& od.dials_suppressed == c.dials_suppressed
        }),
        r.with_control,
{
    let is_direct = match persisted {
        PersistedState::Direct(_) => true,
        PersistedState::Managed(_) => false,
    };
    NodeSummary {
        endpoint_id: facts.self_id.clone(),
        hostname: hostname.to_owned(),
        mode: node_mode(is_direct, !is_direct),
        daemon_version: daemon_version.to_owned(),
        data_plane_up,
        uptime_secs,
        snapshot_version,
        networks: network_summaries(persisted, facts, routes, mesh, presence, now),
        on_demand: Some(mesh.on_demand_stats()),
        with_control: true,
    }
}

/// Reports on a node that is not set up yet.
pub fn idle_node_summary(daemon_version: &str) -> (r: NodeSummary)
    ensures
        r.endpoint_id@.len() == 0,
        r.hostname@.len() == 0,
        r.mode == NodeModeApi::Idle,
        r.daemon_version@ == daemon_version@,
        !r.data_plane_up,
        r.uptime_secs == 0,
        r.snapshot_version == 0,
        r.networks@.len() == 0,
        r.on_demand is None,
        !r.with_control,
{
    NodeSummary {
        endpoint_id: String::new(),
        hostname: String::new(),
        mode: NodeModeApi::Idle,
        daemon_version: daemon_version.to_owned(),
        data_plane_up: false,
        uptime_secs: 0,
        snapshot_version: 0,
        networks: Vec::new(),
        on_demand: None,
        with_control: false,
    }
}

/// The parts of the interface that a node has; fewer before it is set up.
pub fn features(idle: bool) -> (r: Vec<String>)
    ensures
        texts(r@) == if idle {
            seq!["node"@, "events"@]
        } else {
            seq!["node"@, "networks"@, "events"@, "dns"@, "routes"@, "diag"@]
        },
{
    let mut out: Vec<String> = Vec::new();
    out.push("node".to_owned());
    if !idle {
        out.push("networks".to_owned());
    }
    out.push("events".to_owned());
    if !idle {
        out.push("dns".to_owned());
        out.push("routes".to_owned());
        out.push("diag".to_owned());
        proof {
            assert(texts(out@) =~= seq![
                "node"@,
                "networks"@,
                "events"@,
                "dns"@,
                "routes"@,
                "diag"@,
            ]);
        }
    } else {
        proof {
            assert(texts(out@) =~= seq!["node"@, "events"@]);
        }
    }
    out
}

/// What a client is told of the interface and of what it may do.
#[derive(Debug)]
pub struct MetaInfo {
    pub api_version: u32,
    pub daemon_version: String,
    pub mode: NodeModeApi,
    pub features: Vec<String>,
    pub permissions: Vec<Permission>,
}

/// What a client of a running node is told. The control plane of a managed
/// node may take permissions away.
pub fn build_meta(
    api_version: u32,
    daemon_version: &str,
    is_direct: bool,
    is_managed: bool,
    capabilities: &Vec<Permission>,
    ui: Option<LocalUi>,
) -> (r: MetaInfo)
    ensures
        r.api_version == api_version,
        r.daemon_version@ == daemon_version@,
        r.mode == if is_direct {
            NodeModeApi::Direct
        } else if is_managed {
            NodeModeApi::Managed
        } else {
            NodeModeApi::Idle
        },
        texts(r.features@) == seq!["node"@, "networks"@, "events"@, "dns"@, "routes"@, "diag"@],
        r.permissions@ == capabilities@.filter(|p: Permission| ui_leaves(ui, p)),
{
    MetaInfo {
        api_version,
        daemon_version: daemon_version.to_owned(),
        mode: node_mode(is_direct, is_managed),
        features: features(false),
        permissions: meta_permissions(capabilities, ui),
    }
}

/// What a client is told before the node is set up.
pub fn idle_meta(api_version: u32, daemon_version: &str, capabilities: &Vec<Permission>) -> (r:
    MetaInfo)
    ensures
        r.api_version == api_version,
        r.daemon_version@ == daemon_version@,
        r.mode == NodeModeApi::Idle,
        texts(r.features@) == seq!["node"@, "events"@],
        r.permissions@ == capabilities@.filter(|p: Permission| idle_leaves(p)),
{
    MetaInfo {
        api_version,
        daemon_version: daemon_version.to_owned(),
        mode: NodeModeApi::Idle,
        features: features(true),
        permissions: idle_permissions(capabilities),
    }
}

/// The state of the name service.
#[derive(Debug)]
pub struct DnsStatusInfo {
    pub suffix: String,
    pub upstream: Option<String>,
    pub dnssec: bool,
    pub peer_dns_active: bool,
    pub cached_entries: usize,
    pub resolver_endpoint: Option<String>,
    pub bind: Option<String>,
}

/// Reports on the name service. The resolver's address stands in two places.
pub fn build_dns_status(
    routes: &RoutingTable,
    upstream: Option<String>,
    dnssec: bool,
    peer_dns_active: bool,
    resolver_endpoint: Option<String>,
) -> (r: DnsStatusInfo)
    requires
        routes.model().by_hostname.len() + routes.model().hostname_exact.len()
            + routes.model().wildcards.len() <= usize::MAX,
    ensures
        r.suffix@ == routes.model().dns_suffix,
        r.upstream == upstream,
        r.dnssec == dnssec,
        r.peer_dns_active == peer_dns_active,
        r.cached_entries == routes.model().by_hostname.len() + routes.model().hostname_exact.len()
            + routes.model().wildcards.len(),
        r.resolver_endpoint == resolver_endpoint,
        opt_text(r.bind) == opt_text(resolver_endpoint),
{
    let bind = copy_opt_text(&resolver_endpoint);
    DnsStatusInfo {
        suffix: routes.dns_suffix(),
        upstream,
        dnssec,
        peer_dns_active,
        cached_entries: routes.cached_entry_count(),
        resolver_endpoint,
        bind,
    }
}

/// The front of a text that takes up a number of bytes in UTF-8, or all of a
/// text that takes up fewer; nothing where a character straddles the cut.
pub open spec fn cut_at(s: Seq<char>, bytes: int) -> Option<Seq<char>>
    decreases s.len(),
{
    if s.len() == 0 || bytes == 0 {
        Some(Seq::empty())
    } else {
        let width = encode_scalar(s[0] as u32).len();
        if width > bytes {
            None
        } else {
            match cut_at(s.drop_first(), bytes - width) {
                Some(t) => Some(seq![s[0]] + t),
                None => None,
            }
        }
    }
}

/// The first eight bytes of an id.
fn short_id(s: &str) -> (r: String)
    requires
        cut_at(s@, 8) is Some,
    ensures
        Some(r@) == cut_at(s@, 8),
{
    let n: usize = s.unicode_len();
    let mut left: u32 = 8;
    let mut i: usize = 0;
    proof {
        assert(s@.skip(0) =~= s@);
        assert(s@.take(0) + cut_at(s@, 8)->0 =~= cut_at(s@, 8)->0);
    }
    while i < n && left > 0
        invariant
            n == s@.len(),
            i <= n,
            left <= 8,
            cut_at(s@, 8) is Some,
            cut_at(s@.skip(i as int), left as int) is Some,
            cut_at(s@, 8)->0 == s@.take(i as int) + cut_at(s@.skip(i as int), left as int)->0,
        decreases n - i,
    {
        let c = s.get_char(i);
        let v: u32 = c as u32;
        let width: u32 = if v <= 0x7f {
            1
        } else if v <= 0x7ff {
            2
        } else if v <= 0xffff {
            3
        } else {
            4
        };
        proof {
            let rest = s@.skip(i as int);
            assert(rest[0] == c);
            assert(rest.drop_first() =~= s@.skip(i + 1));
            assert(encode_scalar(c as u32).len() == width);
            let tail = cut_at(s@.skip(i + 1), left - width)->0;
            assert(s@.take(i as int) + (seq![c] + tail) =~= s@.take(i + 1) + tail);
        }
        left = left - width;
        i = i + 1;
    }
    proof {
        assert(cut_at(s@.skip(i as int), left as int)->0 =~= Seq::empty());
        assert(s@.take(i as int) + Seq::empty() =~= s@.subrange(0, i as int));
    }
    s.substring_char(0, i).to_owned()
}

/// The name of the member that a route goes through: its host name, or the
/// first bytes of its id where it is not known.
pub open spec fn via_name(t: TableModel, id: Seq<char>) -> Option<Seq<char>> {
    if t.by_endpoint.contains_key(id) {
        Some(t.by_endpoint[id].hostname)
    } else {
        cut_at(id, 8)
    }
}

fn via(routes: &RoutingTable, id: &str) -> (r: String)
    requires
        via_name(routes.model(), id@) is Some,
    ensures
        Some(r@) == via_name(routes.model(), id@),
{
    match routes.lookup_endpoint(id) {
        Some(p) => p.hostname.clone(),
        None => short_id(id),
    }
}

/// A network behind a member as it is reported.
#[derive(Debug)]
pub struct SubnetRouteInfo {
    pub cidr: String,
    pub via_hostname: String,
    pub via_ip: String,
    pub via_endpoint_id: String,
    pub advertised_by_self: bool,
}

pub struct SubnetInfoView {
    pub cidr: Seq<char>,
    pub via_hostname: Seq<char>,
    pub via_ip: Seq<char>,
    pub via_endpoint_id: Seq<char>,
    pub advertised_by_self: bool,
}

impl View for SubnetRouteInfo {
    type V = SubnetInfoView;

    open spec fn view(&self) -> SubnetInfoView {
        SubnetInfoView {
            cidr: self.cidr@,
            via_hostname: self.via_hostname@,
            via_ip: self.via_ip@,
            via_endpoint_id: self.via_endpoint_id@,
            advertised_by_self: self.advertised_by_self,
        }
    }
}

/// The reports on the networks behind members.
pub open spec fn subnet_infos(
    t: TableModel,
    list: Seq<SubnetRouteView>,
    self_id: Seq<char>,
) -> Seq<SubnetInfoView> {
    Seq::new(
        list.len(),
        |i: int|
            SubnetInfoView {
                cidr: list[i].cidr.cidr_text(),
                via_hostname: via_name(t, list[i].via_endpoint_id)->0,
                via_ip: dotted(list[i].via_ip),
                via_endpoint_id: list[i].via_endpoint_id,
                advertised_by_self: list[i].via_endpoint_id == self_id,
            },
    )
}

/// A host name route as it is reported.
#[derive(Debug)]
pub struct HostRouteInfo {
    pub hostname: String,
    pub is_wildcard: bool,
    pub via_hostname: String,
    pub via_ip: String,
    pub via_endpoint_id: String,
    pub target_ip: Option<String>,
}

pub struct HostInfoView {
    pub hostname: Seq<char>,
    pub is_wildcard: bool,
    pub via_hostname: Seq<char>,
    pub via_ip: Seq<char>,
    pub via_endpoint_id: Seq<char>,
    pub target_ip: Option<Seq<char>>,
}

impl View for HostRouteInfo {
    type V = HostInfoView;

    open spec fn view(&self) -> HostInfoView {
        HostInfoView {
            hostname: self.hostname@,
            is_wildcard: self.is_wildcard,
            via_hostname: self.via_hostname@,
            via_ip: self.via_ip@,
            via_endpoint_id: self.via_endpoint_id@,
            target_ip: opt_text(self.target_ip),
        }
    }
}

/// The reports on the host name routes.
pub open spec fn host_infos(t: TableModel, list: Seq<HostnameRouteView>) -> Seq<HostInfoView> {
    Seq::new(
        list.len(),
        |i: int|
            HostInfoView {
                hostname: list[i].hostname,
                is_wildcard: list[i].is_wildcard,
                via_hostname: via_name(t, list[i].via_endpoint_id)->0,
                via_ip: dotted(list[i].via_ip),
                via_endpoint_id: list[i].via_endpoint_id,
                target_ip: match list[i].target_ip {
                    Some(ip) => Some(dotted(ip)),
                    None => None,
                },
            },
    )
}

fn list_subnets(routes: &RoutingTable, list: &Vec<SubnetRoute>, self_id: &str) -> (r: Vec<
    SubnetRouteInfo,
>)
    requires
        forall|i: int|
            0 <= i < list@.len() ==> via_name(
                routes.model(),
                (#[trigger] list@[i]).via_endpoint_id@,
            ) is Some,
    ensures
        views(r@) == subnet_infos(routes.model(), views(list@), self_id@),
{
    let ghost want = subnet_infos(routes.model(), views(list@), self_id@);
    let mut out: Vec<SubnetRouteInfo> = Vec::new();
    let mut i: usize = 0;
    while i < list.len()
        invariant
            i <= list@.len(),
            want == subnet_infos(routes.model(), views(list@), self_id@),
            forall|i: int|
                0 <= i < list@.len() ==> via_name(
                    routes.model(),
                    (#[trigger] list@[i]).via_endpoint_id@,
                ) is Some,
            views(out@) =~= want.take(i as int),
        decreases list@.len() - i,
    {
        let route = &list[i];
        let ghost before = views(out@);
        let id = route.via_endpoint_id.as_str();
        proof {
            assert(via_name(routes.model(), list@[i as int].via_endpoint_id@) is Some);
        }
        let info = SubnetRouteInfo {
            cidr: route.cidr.to_text(),
            via_hostname: via(routes, id),
            via_ip: ipv4_text(route.via_ip),
            via_endpoint_id: route.via_endpoint_id.clone(),
            advertised_by_self: same_text(id, self_id),
        };
        proof {
            assert(info@ == want[i as int]);
        }
        out.push(info);
        proof {
            assert(views(out@) =~= before.push(info@));
        }
        i = i + 1;
    }
    proof {
        assert(want.take(i as int) =~= want);
    }
    out
}

fn list_hosts(routes: &RoutingTable, list: &Vec<HostnameRoute>) -> (r: Vec<HostRouteInfo>)
    requires
        forall|i: int|
            0 <= i < list@.len() ==> via_name(
                routes.model(),
                (#[trigger] list@[i]).via_endpoint_id@,
            ) is Some,
    ensures
        views(r@) == host_infos(routes.model(), views(list@)),
{
    let ghost want = host_infos(routes.model(), views(list@));
    let mut out: Vec<HostRouteInfo> = Vec::new();
    let mut i: usize = 0;
    while i < list.len()
        invariant
            i <= list@.len(),
            want == host_infos(routes.model(), views(list@)),
            forall|i: int|
                0 <= i < list@.len() ==> via_name(
                    routes.model(),
                    (#[trigger] list@[i]).via_endpoint_id@,
                ) is Some,
            views(out@) =~= want.take(i as int),
        decreases list@.len() - i,
    {
        let route = &list[i];
        let ghost before = views(out@);
        proof {
            assert(via_name(routes.model(), list@[i as int].via_endpoint_id@) is Some);
        }
        let info = HostRouteInfo {
            hostname: route.hostname.clone(),
            is_wildcard: route.is_wildcard,
            via_hostname: via(routes, route.via_endpoint_id.as_str()),
            via_ip: ipv4_text(route.via_ip),
            via_endpoint_id: route.via_endpoint_id.clone(),
            target_ip: match route.target_ip {
                Some(ip) => Some(ipv4_text(ip)),
                None => None,
            },
        };
        proof {
            assert(info@ == want[i as int]);
        }
        out.push(info);
        proof {
            assert(views(out@) =~= before.push(info@));
        }
        i = i + 1;
    }
    proof {
        assert(want.take(i as int) =~= want);
    }
    out
}

fn net_texts(list: &Vec<Ipv4Net>) -> (r: Vec<String>)
    ensures
        texts(r@) == Seq::new(list@.len(), |i: int| list@[i].cidr_text()),
{
    let mut out: Vec<String> = Vec::new();
    let mut i: usize = 0;
    while i < list.len()
        invariant
            i <= list@.len(),
            out@.len() == i,
            forall|j: int| 0 <= j < i ==> (#[trigger] out@[j])@ == list@[j].cidr_text(),
        decreases list@.len() - i,
    {
        out.push(list[i].to_text());
        i = i + 1;
    }
    proof {
        assert(texts(out@) =~= Seq::new(list@.len(), |i: int| list@[i].cidr_text()));
    }
    out
}

/// The member that carries the traffic to other networks, as it is reported.
#[derive(Debug)]
pub struct ExitNodeRouteInfo {
    pub hostname: String,
    pub via_ip: String,
    pub endpoint_id: String,
}

/// The routes of a network as they are reported.
#[derive(Debug)]
pub struct RoutesInfo {
    pub subnet_routes: Vec<SubnetRouteInfo>,
    pub hostname_routes: Vec<HostRouteInfo>,
    pub exit_node: Option<ExitNodeRouteInfo>,
    pub split_tunnel_mode: String,
    pub split_tunnel_cidrs: Vec<String>,
}

/// Every member that a route goes through can be named.
pub open spec fn all_nameable(t: TableModel, m: NetworkMembershipSnapshot) -> bool {
    &&& forall|i: int|
        0 <= i < m.subnet_routes@.len() ==> via_name(
            t,
            (#[trigger] m.subnet_routes@[i]).via_endpoint_id@,
        ) is Some
    &&& forall|i: int|
        0 <= i < m.hostname_routes@.len() ==> via_name(
            t,
            (#[trigger] m.hostname_routes@[i]).via_endpoint_id@,
        ) is Some
}

/// Reports on the routes of a network that the node is in; there are none of
/// another network.
pub fn build_routes(
    routes: &RoutingTable,
    membership: Option<&NetworkMembershipSnapshot>,
    self_id: &str,
) -> (r: RoutesInfo)
    requires
        membership matches Some(m) ==> all_nameable(routes.model(), *m),
    ensures
        match membership {
            Some(m) => {
                &&& views(r.subnet_routes@) == subnet_infos(
                    routes.model(),
                    views(m.subnet_routes@),
                    self_id@,
                )
                &&& views(r.hostname_routes@) == host_infos(
                    routes.model(),
                    views(m.hostname_routes@),
                )
                &&& match routes.model().exit_node {
                    Some(e) => r.exit_node matches Some(x) && x.hostname@ == e.hostname
                        && x.via_ip@ == dotted(e.ip) && x.endpoint_id@ == e.endpoint_hex,
                    None => r.exit_node is None,
                }
                &&& r.split_tunnel_mode@ == match m.device_profile.split_tunnel_mode {
                    SplitTunnelMode::Include => "include"@,
                    SplitTunnelMode::Exclude => "exclude"@,
                }
                &&& texts(r.split_tunnel_cidrs@) == Seq::new(
                    m.device_profile.split_tunnel_cidrs@.len(),
                    |i: int| m.device_profile.split_tunnel_cidrs@[i].cidr_text(),
                )
            },
            None => {
                &&& r.subnet_routes@.len() == 0
                &&& r.hostname_routes@.len() == 0
                &&& r.exit_node is None
                &&& r.split_tunnel_mode@ == "exclude"@
                &&& r.split_tunnel_cidrs@.len() == 0
            },
        },
{
    let m = match membership {
        Some(m) => m,
        None => {
            return RoutesInfo {
                subnet_routes: Vec::new(),
                hostname_routes: Vec::new(),
                exit_node: None,
                split_tunnel_mode: "exclude".to_owned(),
                split_tunnel_cidrs: Vec::new(),
            };
        },
    };
    let exit_node = match routes.exit_node() {
        Some(e) => Some(
            ExitNodeRouteInfo {
                hostname: e.hostname.clone(),
                via_ip: ipv4_text(e.ip),
                endpoint_id: e.endpoint_hex.clone(),
            },
        ),
        None => None,
    };
    let mode = match m.device_profile.split_tunnel_mode {
        SplitTunnelMode::Include => "include",
        SplitTunnelMode::Exclude => "exclude",
    };
    RoutesInfo {
        subnet_routes: list_subnets(routes, &m.subnet_routes, self_id),
        hostname_routes: list_hosts(routes, &m.hostname_routes),
        exit_node,
        split_tunnel_mode: mode.to_owned(),
        split_tunnel_cidrs: net_texts(&m.device_profile.split_tunnel_cidrs),
    }
}

} // verus!
