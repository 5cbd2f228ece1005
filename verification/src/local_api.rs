//! The local management interface: what its requests are answered.

use crate::lookup::{host_peer, route_of};
use crate::membership::{
    copy_opt_text, copy_texts, default_profile, texts, views, DeviceProfile, DnsConfig,
    ExitNodeInfo, HostnameRoute, PeerEntry, PeerEntryView, SubnetRoute,
};
use crate::net::{dotted, ipv4_text};
use crate::net_text::parse_ipv4;
use crate::policy_key::{uuid_hyphenated, uuid_text};
use crate::conn_pool::PeerSlot;
use crate::pool::{slot_or_fresh, ConnPool, PoolView};
use crate::routing::RoutingTable;
use crate::tables::{seen_all, seen_opt, PeerInfo, PeerView, SliceView, TableModel};
use crate::text::{contains_text, decimal, join2, join3, lower, occurs, same_text, to_lower, u64_text};
use crate::tunnel_mesh::{MeshView, TunnelMesh};
use std::sync::Arc;
use vstd::prelude::*;

verus! {

/// What went wrong, in kind.
#[derive(Clone, Copy, Debug, PartialEq, Eq, Structural)]
pub enum ApiErrorCode {
    NotFound,
    Denied,
    NotEnrolled,
    DataPlaneDown,
    InvalidRequest,
    Internal,
}

/// What went wrong.
#[derive(Debug)]
pub struct ApiError {
    pub code: ApiErrorCode,
    pub message: String,
}

/// Whether a text holds a word, in whatever case.
pub open spec fn says(message: Seq<char>, word: Seq<char>) -> bool {
    occurs(word, lower(message))
}

/// The kind of an error by what its message says; the first that fits counts.
pub open spec fn code_of(m: Seq<char>) -> ApiErrorCode {
    if says(m, "not found"@) || says(m, "no peer"@) || says(m, "no pending"@) || says(
        m,
        "missing"@,
    ) {
        ApiErrorCode::NotFound
    } else if says(m, "denied"@) || says(m, "unauthorized"@) || says(m, "only the coordinator"@)
        || says(m, "permission"@) || says(m, "reject"@) {
        ApiErrorCode::Denied
    } else if says(m, "not enrolled"@) || says(m, "requires managed"@) || says(
        m,
        "requires direct"@,
    ) || says(m, "no direct networks"@) || says(m, "not connected to a network"@) {
        ApiErrorCode::NotEnrolled
    } else if says(m, "data plane"@) {
        ApiErrorCode::DataPlaneDown
    } else if says(m, "invalid"@) || says(m, "must be"@) || says(m, "parse"@) || says(
        m,
        "usage:"@,
    ) {
        ApiErrorCode::InvalidRequest
    } else {
        ApiErrorCode::Internal
    }
}

pub fn classify_error(message: &str) -> (r: ApiErrorCode)
    ensures
        r == code_of(message@),
{
    let low = to_lower(message);
    let m = low.as_str();
    if contains_text(m, "not found") || contains_text(m, "no peer") || contains_text(
        m,
        "no pending",
    ) || contains_text(m, "missing") {
        ApiErrorCode::NotFound
    } else if contains_text(m, "denied") || contains_text(m, "unauthorized") || contains_text(
        m,
        "only the coordinator",
    ) || contains_text(m, "permission") || contains_text(m, "reject") {
        ApiErrorCode::Denied
    } else if contains_text(m, "not enrolled") || contains_text(m, "requires managed")
        || contains_text(m, "requires direct") || contains_text(m, "no direct networks")
        || contains_text(m, "not connected to a network") {
        ApiErrorCode::NotEnrolled
    } else if contains_text(m, "data plane") {
        ApiErrorCode::DataPlaneDown
    } else if contains_text(m, "invalid") || contains_text(m, "must be") || contains_text(
        m,
        "parse",
    ) || contains_text(m, "usage:") {
        ApiErrorCode::InvalidRequest
    } else {
        ApiErrorCode::Internal
    }
}

/// An error with a message, its kind taken from it.
pub fn map_error(message: String) -> (r: ApiError)
    ensures
        r.code == code_of(message@),
        r.message == message,
{
    ApiError { code: classify_error(message.as_str()), message }
}

/// The id that `Uuid::parse_str` reads from a text, or the text of its error.
pub uninterp spec fn uuid_parsed(s: Seq<char>) -> Result<u128, Seq<char>>;

/// A parsed id as a value.
pub open spec fn parsed_view(r: Result<u128, String>) -> Result<u128, Seq<char>> {
    match r {
        Ok(id) => Ok(id),
        Err(e) => Err(e@),
    }
}

/// The outcome is the id itself where the text is the hyphenated text of one.
pub open spec fn own_text_is_read(s: Seq<char>, r: Result<u128, Seq<char>>) -> bool {
    forall|id: u128| s == #[trigger] uuid_hyphenated(id) ==> r == Ok::<u128, Seq<char>>(id)
}

/// Calls `Uuid::parse_str`, whose outcome depends on the text alone. The
/// hyphenated text of an id is read as that id.
#[verifier::external_body]
fn parse_uuid(s: &str) -> (r: Result<u128, String>)
    ensures
        parsed_view(r) == uuid_parsed(s@),
        own_text_is_read(s@, parsed_view(r)),
{
    uuid::Uuid::parse_str(s).map(|id| id.as_u128()).map_err(|e| e.to_string())
}

/// The id that a parse gave, or an error that says so.
pub fn network_id_or_error(parsed: Result<u128, String>) -> (r: Result<u128, ApiError>)
    ensures
        parsed matches Ok(id) ==> r == Ok::<u128, ApiError>(id),
        parsed matches Err(e) ==> (r matches Err(x) && x.code == ApiErrorCode::InvalidRequest
            && x.message@ == "invalid network_id: "@ + e@),
{
    match parsed {
        Ok(id) => Ok(id),
        Err(e) => Err(
            ApiError {
                code: ApiErrorCode::InvalidRequest,
                message: join2("invalid network_id: ", e.as_str()),
            },
        ),
    }
}

/// Reads a network's id. An id's own text is read as that id.
pub fn parse_network_id(s: &str) -> (r: Result<u128, ApiError>)
    ensures
        match uuid_parsed(s@) {
            Ok(id) => r == Ok::<u128, ApiError>(id),
            Err(e) => r matches Err(x) && x.code == ApiErrorCode::InvalidRequest && x.message@
                == "invalid network_id: "@ + e,
        },
        forall|id: u128| s@ == #[trigger] uuid_hyphenated(id) ==> r == Ok::<u128, ApiError>(id),
{
    network_id_or_error(parse_uuid(s))
}

/// How a node is run.
#[derive(Clone, Copy, Debug, PartialEq, Eq, Structural)]
pub enum NodeModeApi {
    Direct,
    Managed,
    Idle,
}

pub fn node_mode(is_direct: bool, is_managed: bool) -> (r: NodeModeApi)
    ensures
        r == if is_direct {
            NodeModeApi::Direct
        } else if is_managed {
            NodeModeApi::Managed
        } else {
            NodeModeApi::Idle
        },
{
    if is_direct {
        NodeModeApi::Direct
    } else if is_managed {
        NodeModeApi::Managed
    } else {
        NodeModeApi::Idle
    }
}

/// What a user may do. Those that nothing here decides on have a number.
#[derive(Clone, Copy, Debug, PartialEq, Eq, Structural)]
pub enum Permission {
    StatusRead,
    EventsRead,
    Lifecycle,
    DataPlaneWrite,
    Serve,
    Tunnel,
    Other(u32),
}

/// What the control plane leaves to the user interface of a managed node.
#[derive(Clone, Copy, Debug, PartialEq, Eq, Structural)]
pub struct LocalUi {
    pub enabled: bool,
    pub allow_disconnect: bool,
    pub allow_serve: bool,
    pub allow_tunnel: bool,
}

/// Whether a permission is left by the control plane. With the interface
/// switched off only reading is.
pub open spec fn ui_leaves(ui: Option<LocalUi>, p: Permission) -> bool {
    match ui {
        None => true,
        Some(ui) => if !ui.enabled {
            p == Permission::StatusRead || p == Permission::EventsRead
        } else {
            &&& p == Permission::DataPlaneWrite ==> ui.allow_disconnect
            &&& p == Permission::Serve ==> ui.allow_serve
            &&& p == Permission::Tunnel ==> ui.allow_tunnel
        },
    }
}

/// Whether a permission means anything before the node is set up.
pub open spec fn idle_leaves(p: Permission) -> bool {
    p == Permission::StatusRead || p == Permission::EventsRead || p == Permission::Lifecycle
}

/// The user's permissions, less what the control plane takes away.
pub fn meta_permissions(capabilities: &Vec<Permission>, ui: Option<LocalUi>) -> (r: Vec<Permission>)
    ensures
        r@ == capabilities@.filter(|p: Permission| ui_leaves(ui, p)),
{
    let ghost keep = |p: Permission| ui_leaves(ui, p);
    let mut out: Vec<Permission> = Vec::new();
    let mut i: usize = 0;
    proof {
        assert(capabilities@.take(0).filter(keep) =~= Seq::<Permission>::empty()) by {
            reveal(Seq::filter);
        }
    }
    while i < capabilities.len()
        invariant
            i <= capabilities@.len(),
            keep == (|p: Permission| ui_leaves(ui, p)),
            out@ == capabilities@.take(i as int).filter(keep),
        decreases capabilities@.len() - i,
    {
        let p = capabilities[i];
        let stays = match ui {
            None => true,
            Some(ui) => if !ui.enabled {
                p == Permission::StatusRead || p == Permission::EventsRead
            } else {
                (p != Permission::DataPlaneWrite || ui.allow_disconnect) && (p
                    != Permission::Serve || ui.allow_serve) && (p != Permission::Tunnel
                    || ui.allow_tunnel)
            },
        };
        proof {
            reveal(Seq::filter);
            assert(capabilities@.take(i + 1).drop_last() =~= capabilities@.take(i as int));
        }
        if stays {
            out.push(p);
        }
        i = i + 1;
    }
    proof {
        assert(capabilities@.take(i as int) =~= capabilities@);
    }
    out
}

/// The permissions that mean anything before the node is set up.
pub fn idle_permissions(capabilities: &Vec<Permission>) -> (r: Vec<Permission>)
    ensures
        r@ == capabilities@.filter(|p: Permission| idle_leaves(p)),
{
    let ghost keep = |p: Permission| idle_leaves(p);
    let mut out: Vec<Permission> = Vec::new();
    let mut i: usize = 0;
    proof {
        assert(capabilities@.take(0).filter(keep) =~= Seq::<Permission>::empty()) by {
            reveal(Seq::filter);
        }
    }
    while i < capabilities.len()
        invariant
            i <= capabilities@.len(),
            keep == (|p: Permission| idle_leaves(p)),
            out@ == capabilities@.take(i as int).filter(keep),
        decreases capabilities@.len() - i,
    {
        let p = capabilities[i];
        proof {
            reveal(Seq::filter);
            assert(capabilities@.take(i + 1).drop_last() =~= capabilities@.take(i as int));
        }
        if p == Permission::StatusRead || p == Permission::EventsRead || p
            == Permission::Lifecycle {
            out.push(p);
        }
        i = i + 1;
    }
    proof {
        assert(capabilities@.take(i as int) =~= capabilities@);
    }
    out
}

/// A user never gets more than their own permissions, and with the interface
/// switched off never more than reading.
pub proof fn law_control_plane_only_takes_away(
    capabilities: Seq<Permission>,
    ui: Option<LocalUi>,
    p: Permission,
)
    requires
        capabilities.filter(|q: Permission| ui_leaves(ui, q)).contains(p),
    ensures
        capabilities.contains(p),
        (ui matches Some(u) && !u.enabled) ==> p == Permission::StatusRead || p
            == Permission::EventsRead,
    decreases capabilities.len(),
{
    let keep = |q: Permission| ui_leaves(ui, q);
    reveal(Seq::filter);
    if capabilities.len() > 0 {
        let rest = capabilities.drop_last();
        let kept = capabilities.filter(keep);
        let i = choose|i: int| 0 <= i < kept.len() && kept[i] == p;
        if i < rest.filter(keep).len() {
            assert(rest.filter(keep)[i] == p);
            law_control_plane_only_takes_away(rest, ui, p);
            let j = choose|j: int| 0 <= j < rest.len() && rest[j] == p;
            assert(capabilities[j] == p);
        } else {
            assert(capabilities[capabilities.len() - 1] == p);
        }
    }
}

/// The seconds since 1970 and the nanoseconds beyond that a text names, as
/// `Timestamp` reads it.
pub uninterp spec fn timestamp_of(s: Seq<char>) -> Option<(i64, i32)>;

/// Calls `Timestamp::from_str`, `as_second` and `subsec_nanosecond`. The
/// outcome depends on the text alone.
#[verifier::external_body]
fn parse_timestamp(s: &str) -> (r: Option<(i64, i32)>)
    ensures
        r == timestamp_of(s@),
{
    let t: jiff::Timestamp = s.parse().ok()?;
    Some((t.as_second(), t.subsec_nanosecond()))
}

/// A moment in nanoseconds since 1970.
pub open spec fn nanos(t: (i64, i32)) -> int {
    t.0 * 1_000_000_000 + t.1
}

/// The whole seconds from now until a moment; none once it is past.
pub open spec fn seconds_until(at: (i64, i32), now: (i64, i32)) -> int {
    if nanos(at) <= nanos(now) {
        0
    } else {
        (nanos(at) - nanos(now)) / 1_000_000_000
    }
}

pub fn seconds_left(at: (i64, i32), now: (i64, i32)) -> (r: u128)
    ensures
        r == seconds_until(at, now),
{
    let a: i128 = at.0 as i128 * 1_000_000_000 + at.1 as i128;
    let b: i128 = now.0 as i128 * 1_000_000_000 + now.1 as i128;
    if a <= b {
        0
    } else {
        ((a - b) as u128) / 1_000_000_000
    }
}

/// When the membership ends, and in how many seconds: both or neither, by
/// whether a moment is named that can be read.
pub fn expiry_fields(expires_at: Option<String>, now: (i64, i32)) -> (r: (
    Option<String>,
    Option<u128>,
))
    ensures
        ({
            let at = match expires_at {
                Some(s) => timestamp_of(s@),
                None => None,
            };
            match at {
                Some(t) => r.0 == expires_at && (r.1 matches Some(n) && n == seconds_until(t, now)),
                None => r.0 is None && r.1 is None,
            }
        }),
{
    let at = match &expires_at {
        Some(s) => parse_timestamp(s.as_str()),
        None => None,
    };
    match at {
        Some(t) => (expires_at, Some(seconds_left(t, now))),
        None => (None, None),
    }
}

/// What a firewall has dropped and what it keeps track of.
#[derive(Clone, Copy, Debug, PartialEq, Eq, Structural)]
pub struct FirewallStats {
    pub enabled: bool,
    pub conntrack_entries: usize,
    pub packets_allowed: u64,
    pub packets_denied: u64,
    pub packets_rejected: u64,
    pub suggested_rules: usize,
}

/// The packets that a network's firewall dropped and the connections that it
/// keeps track of, where it has one.
pub fn firewall_stats_for_network(stats: Option<FirewallStats>) -> (r: (
    Option<u64>,
    Option<usize>,
))
    requires
        stats matches Some(s) ==> s.packets_denied + s.packets_rejected <= u64::MAX,
    ensures
        match stats {
            Some(s) => (r.0 matches Some(n) && n == s.packets_denied + s.packets_rejected)
                && r.1 == Some(s.conntrack_entries),
            None => r.0 is None && r.1 is None,
        },
{
    match stats {
        Some(s) => (Some(s.packets_denied + s.packets_rejected), Some(s.conntrack_entries)),
        None => (None, None),
    }
}

/// The state of one home relay.
#[derive(Debug)]
pub struct RelayState {
    pub connected: bool,
    pub auth_denied: Option<String>,
}

/// Some relay is connected.
pub open spec fn any_connected(relays: Seq<RelayState>) -> bool {
    exists|i: int| 0 <= i < relays.len() && (#[trigger] relays[i]).connected
}

/// Why the first relay that refuses does so.
pub open spec fn first_refusal(relays: Seq<RelayState>) -> Option<Seq<char>>
    decreases relays.len(),
{
    if relays.len() == 0 {
        None
    } else {
        match relays[0].auth_denied {
            Some(why) => Some(why@),
            None => first_refusal(relays.drop_first()),
        }
    }
}

/// The state of the relays in a word: one connection is enough, no relay means
/// that they are disabled, and a refusal is named with its reason.
pub open spec fn relay_word(relays: Seq<RelayState>) -> Seq<char> {
    if any_connected(relays) {
        "connected"@
    } else if relays.len() == 0 {
        "disabled"@
    } else {
        match first_refusal(relays) {
            Some(why) => if why.len() == 0 {
                "auth_denied"@
            } else {
                "auth_denied: "@ + why
            },
            None => "disconnected"@,
        }
    }
}

pub fn iroh_relay_status(relays: &Vec<RelayState>) -> (r: String)
    ensures
        r@ == relay_word(relays@),
{
    let n: usize = relays.len();
    let mut i: usize = 0;
    while i < n
        invariant
            i <= n,
            n == relays@.len(),
            forall|j: int| 0 <= j < i ==> !(#[trigger] relays@[j]).connected,
        decreases n - i,
    {
        if relays[i].connected {
            return "connected".to_owned();
        }
        i = i + 1;
    }
    if n == 0 {
        return "disabled".to_owned();
    }
    let mut k: usize = 0;
    proof {
        assert(relays@.skip(0) =~= relays@);
    }
    while k < n
        invariant
            k <= n,
            n == relays@.len(),
            n > 0,
            !any_connected(relays@),
            first_refusal(relays@.skip(k as int)) == first_refusal(relays@),
        decreases n - k,
    {
        let ghost rest = relays@.skip(k as int);
        proof {
            assert(rest[0] == relays@[k as int]);
            assert(rest.drop_first() =~= relays@.skip(k + 1));
        }
        if let Some(why) = &relays[k].auth_denied {
            if crate::text::is_blank(why.as_str()) {
                return "auth_denied".to_owned();
            }
            return join2("auth_denied: ", why.as_str());
        }
        k = k + 1;
    }
    proof {
        assert(relays@.skip(k as int).len() == 0);
    }
    "disconnected".to_owned()
}

/// One thing that was looked at.
#[derive(Debug)]
pub struct NetcheckItem {
    pub name: String,
    pub pass: bool,
    pub detail: String,
}

/// Everything that was looked at.
#[derive(Debug)]
pub struct NetcheckInfo {
    pub ok: bool,
    pub checks: Vec<NetcheckItem>,
}

pub struct CheckView {
    pub name: Seq<char>,
    pub pass: bool,
    pub detail: Seq<char>,
}

pub open spec fn check_views(v: Seq<NetcheckItem>) -> Seq<CheckView> {
    Seq::new(
        v.len(),
        |i: int| CheckView { name: v[i].name@, pass: v[i].pass, detail: v[i].detail@ },
    )
}

/// What the check of the node looks at.
pub open spec fn netcheck(
    uptime_secs: u64,
    self_ip: u32,
    peer_dns: bool,
    suffix: Seq<char>,
    version: u64,
) -> Seq<CheckView> {
    seq![
        CheckView {
            name: "agent_running"@,
            pass: true,
            detail: "uptime "@ + decimal(uptime_secs as nat) + "s"@,
        },
        CheckView { name: "has_mesh_ip"@, pass: self_ip != 0, detail: dotted(self_ip) },
        CheckView {
            name: "peer_dns"@,
            pass: peer_dns,
            detail: if peer_dns {
                "suffix ."@ + suffix
            } else {
                "PeerDNS not active"@
            },
        },
        CheckView {
            name: "snapshot"@,
            pass: version > 0,
            detail: "version "@ + decimal(version as nat),
        },
    ]
}

/// Looks at the node: all is well when every look is.
pub fn build_netcheck(
    uptime_secs: u64,
    self_ip: u32,
    peer_dns: bool,
    suffix: &str,
    version: u64,
) -> (r: NetcheckInfo)
    ensures
        check_views(r.checks@) == netcheck(uptime_secs, self_ip, peer_dns, suffix@, version),
        r.ok == (self_ip != 0 && peer_dns && version > 0),
{
    let mut checks: Vec<NetcheckItem> = Vec::new();
    checks.push(
        NetcheckItem {
            name: "agent_running".to_owned(),
            pass: true,
            detail: join3("uptime ", u64_text(uptime_secs).as_str(), "s"),
        },
    );
    checks.push(
        NetcheckItem {
            name: "has_mesh_ip".to_owned(),
            pass: self_ip != 0,
            detail: ipv4_text(self_ip),
        },
    );
    let detail = if peer_dns {
        join2("suffix .", suffix)
    } else {
        "PeerDNS not active".to_owned()
    };
    checks.push(NetcheckItem { name: "peer_dns".to_owned(), pass: peer_dns, detail });
    checks.push(
        NetcheckItem {
            name: "snapshot".to_owned(),
            pass: version > 0,
            detail: join2("version ", u64_text(version).as_str()),
        },
    );
    proof {
        assert(check_views(checks@) =~= netcheck(uptime_secs, self_ip, peer_dns, suffix@, version));
    }
    NetcheckInfo { ok: self_ip != 0 && peer_dns && version > 0, checks }
}

/// What is known of the node's place in the network.
#[derive(Debug)]
pub struct DiagInfo {
    pub nat_type: String,
    pub endpoint_id: String,
    pub endpoint_online: bool,
    pub relay_reachable: bool,
    pub direct_peers: usize,
    pub relayed_peers: usize,
    pub total_peers: usize,
    pub notes: Vec<String>,
}

/// What is known of the node's place in the network: how many members there
/// are, and that no more is known.
pub fn build_diag(routes: &RoutingTable, endpoint_id: &str) -> (r: DiagInfo)
    ensures
        r.nat_type@ == "unknown"@,
        r.endpoint_id@ == endpoint_id@,
        r.endpoint_online && r.relay_reachable,
        r.direct_peers == 0 && r.relayed_peers == 0,
        r.total_peers == routes.model().members.len(),
        texts(r.notes@) == seq![
            "NAT classification and path telemetry land with richer peer metrics"@,
            "mesh peers known: "@ + decimal(routes.model().members.len()),
        ],
{
    let members = routes.peers();
    let total: usize = members.len();
    proof {
        assert(seen_all(members@).len() == total);
    }
    let mut notes: Vec<String> = Vec::new();
    notes.push("NAT classification and path telemetry land with richer peer metrics".to_owned());
    notes.push(join2("mesh peers known: ", u64_text(total as u64).as_str()));
    proof {
        assert(texts(notes@) =~= seq![
            "NAT classification and path telemetry land with richer peer metrics"@,
            "mesh peers known: "@ + decimal(routes.model().members.len()),
        ]);
    }
    DiagInfo {
        nat_type: "unknown".to_owned(),
        endpoint_id: endpoint_id.to_owned(),
        endpoint_online: true,
        relay_reachable: true,
        direct_peers: 0,
        relayed_peers: 0,
        total_peers: total,
        notes,
    }
}

/// The member that a text means: by address, by host name, or by key.
pub open spec fn peer_meant(t: TableModel, host: Seq<char>) -> Option<PeerView> {
    if exists|ip: u32| host == #[trigger] dotted(ip) {
        route_of(t, choose|ip: u32| host == #[trigger] dotted(ip))
    } else {
        match host_peer(t, host) {
            Some(p) => Some(p),
            None => if t.by_endpoint.contains_key(host) {
                Some(t.by_endpoint[host])
            } else {
                None
            },
        }
    }
}

pub fn resolve_peer(routes: &RoutingTable, host: &str) -> (r: Option<Arc<PeerInfo>>)
    requires
        routes.wf(),
    ensures
        seen_opt(r) == peer_meant(routes.model(), host@),
{
    if let Some(ip) = parse_ipv4(host) {
        proof {
            let chosen = choose|x: u32| host@ == #[trigger] dotted(x);
            assert(host@ == dotted(chosen));
            crate::net_text::law_address_text_is_unique(ip, chosen);
        }
        return routes.lookup_ip(ip);
    }
    let by_name = routes.lookup_hostname(host);
    if by_name.is_some() {
        return by_name;
    }
    routes.lookup_endpoint(host)
}

/// How many probes are sent: at least one, at most 64.
pub open spec fn probe_count(asked: u32) -> u32 {
    if asked < 1 {
        1
    } else if asked > 64 {
        64
    } else {
        asked
    }
}

/// A row of probes.
#[derive(Clone, Copy, Debug, PartialEq, Eq, Structural)]
pub struct PingRun {
    pub count: u32,
    /// The number of the probe that is on its way; beyond `count` at the end.
    pub seq: u32,
    pub received: u32,
}

/// What follows a probe.
#[derive(Clone, Copy, Debug, PartialEq, Eq, Structural)]
pub enum PingNext {
    /// Wait, then send the probe with this number.
    Probe(u32),
    /// Sum up: this many were sent, and this many came back.
    Summary { transmitted: u32, received: u32 },
}

/// A probe of a row ended.
pub open spec fn probed(before: PingRun, after: PingRun, came_back: bool, next: PingNext) -> bool {
    &&& after.count == before.count
    &&& after.seq == before.seq + 1
    &&& after.received == before.received + (if came_back {
        1int
    } else {
        0int
    })
    &&& next == if before.seq < before.count {
        PingNext::Probe((before.seq + 1) as u32)
    } else {
        PingNext::Summary { transmitted: before.count, received: after.received }
    }
}

impl PingRun {
    /// No more came back than were sent.
    pub open spec fn wf(&self) -> bool {
        &&& 1 <= self.count <= 64
        &&& 1 <= self.seq <= self.count + 1
        &&& self.received < self.seq
    }

    /// Begins with the first probe.
    pub fn new(asked: u32) -> (r: PingRun)
        ensures
            r.wf(),
            r == (PingRun { count: probe_count(asked), seq: 1, received: 0 }),
    {
        let count: u32 = if asked < 1 {
            1
        } else if asked > 64 {
            64
        } else {
            asked
        };
        PingRun { count, seq: 1, received: 0 }
    }

    /// The probe on its way has come back, or not.
    pub fn probe_ended(&mut self, came_back: bool) -> (r: PingNext)
        requires
            old(self).wf(),
            old(self).seq <= old(self).count,
        ensures
            final(self).wf(),
            probed(*old(self), *final(self), came_back, r),
    {
        if came_back {
            self.received = self.received + 1;
        }
        self.seq = self.seq + 1;
        if self.seq <= self.count {
            PingNext::Probe(self.seq)
        } else {
            PingNext::Summary { transmitted: self.count, received: self.received }
        }
    }
}

/// What is said of a probe that did not come back.
pub fn probe_failed(seq: u32, why: &str) -> (r: ApiError)
    ensures
        r.code == ApiErrorCode::Internal,
        r.message@ == "seq="@ + decimal(seq as nat) + " timeout/error: "@ + why@,
{
    let mut message = join3("seq=", u64_text(seq as u64).as_str(), " timeout/error: ");
    message.append(why);
    ApiError { code: ApiErrorCode::Internal, message }
}

/// Two texts are the same but for the case of ASCII letters.
pub open spec fn same_but_for_case(a: Seq<char>, b: Seq<char>) -> bool {
    lower(a) == lower(b)
}

/// The member to be probed, or why not: nobody is meant, or this node is.
pub fn ping_target(routes: &RoutingTable, peer: &str, self_hex: &str, self_ip: u32) -> (r: Result<
    Arc<PeerInfo>,
    ApiError,
>)
    requires
        routes.wf(),
    ensures
        match peer_meant(routes.model(), peer@) {
            None => r matches Err(e) && e.code == ApiErrorCode::NotFound && e.message@
                == "no peer matches `"@ + peer@ + "` (try hostname, IP, or endpoint id)"@,
            Some(p) => if same_but_for_case(p.endpoint_hex, self_hex@) || p.ip == self_ip {
                r matches Err(e) && e.code == ApiErrorCode::InvalidRequest && e.message@ == "`"@
                    + peer@ + "` is this node ("@ + dotted(self_ip) + " / "@ + p.hostname
                    + "). Ping the other machine's mesh IP instead"@
            } else {
                r matches Ok(x) && x@ == p
            },
        },
{
    let found = match resolve_peer(routes, peer) {
        Some(p) => p,
        None => {
            return Err(
                ApiError {
                    code: ApiErrorCode::NotFound,
                    message: join3(
                        "no peer matches `",
                        peer,
                        "` (try hostname, IP, or endpoint id)",
                    ),
                },
            );
        },
    };
    let theirs = to_lower(found.endpoint_hex.as_str());
    let ours = to_lower(self_hex);
    if same_text(theirs.as_str(), ours.as_str()) || found.ip == self_ip {
        let mut message = join3("`", peer, "` is this node (");
        message.append(ipv4_text(self_ip).as_str());
        message.append(" / ");
        message.append(found.hostname.as_str());
        message.append("). Ping the other machine's mesh IP instead");
        return Err(ApiError { code: ApiErrorCode::InvalidRequest, message });
    }
    Ok(found)
}

/// The id is marked as one that was drawn at random: version 4, variant 2.
pub open spec fn is_random_id(id: u128) -> bool {
    (id >> 76) & 0xf == 4 && (id >> 62) & 3 == 2
}

/// Calls `Uuid::new_v4`: an id that is drawn at random, but for the bits that
/// say so. Nothing else holds of every draw.
#[verifier::external_body]
fn fresh_id() -> (r: u128)
    ensures
        is_random_id(r),
{
    uuid::Uuid::new_v4().as_u128()
}

/// A service to offer inside the mesh.
#[derive(Debug)]
pub struct ServePlan {
    pub id: String,
    pub internal_hostname: String,
    pub access_mode: String,
}

/// What a service without certificates is told.
pub open spec fn needs_certificate() -> Seq<char> {
    "HTTPS serve needs an internal CA leaf cert. Create the serve from the dashboard (certs are pushed over WebSocket), or use --protocol tcp for a quick mesh expose."@
}

/// The service that is asked for, with its defaults: a name under the node's
/// own, the given fresh id, and everyone let in. HTTPS needs a certificate and
/// its key.
pub fn serve_plan(
    protocol: &str,
    has_certificate: bool,
    has_private_key: bool,
    internal_hostname: Option<String>,
    serve_id: Option<String>,
    fresh: String,
    access_mode: Option<String>,
    hostname: &str,
    network: &str,
) -> (r: Result<ServePlan, String>)
    ensures
        protocol@ == "https"@ && !(has_certificate && has_private_key) ==> (r matches Err(e) && e@
            == needs_certificate()),
        !(protocol@ == "https"@ && !(has_certificate && has_private_key)) ==> (r matches Ok(p)
            && p.id@ == (match serve_id {
            Some(id) => id@,
            None => fresh@,
        }) && p.internal_hostname@ == (match internal_hostname {
            Some(h) => h@,
            None => hostname@ + "."@ + network@ + ".tunnet"@,
        }) && p.access_mode@ == (match access_mode {
            Some(m) => m@,
            None => "all_peers"@,
        })),
{
    if same_text(protocol, "https") && !(has_certificate && has_private_key) {
        return Err(
            "HTTPS serve needs an internal CA leaf cert. Create the serve from the dashboard (certs are pushed over WebSocket), or use --protocol tcp for a quick mesh expose.".to_owned(),
        );
    }
    let internal_hostname = match internal_hostname {
        Some(h) => h,
        None => {
            let mut name = join3(hostname, ".", network);
            name.append(".tunnet");
            name
        },
    };
    let id = match serve_id {
        Some(id) => id,
        None => fresh,
    };
    let access_mode = match access_mode {
        Some(m) => m,
        None => "all_peers".to_owned(),
    };
    Ok(ServePlan { id, internal_hostname, access_mode })
}

/// The text is that of an id which was drawn at random.
pub open spec fn is_fresh_id(text: Seq<char>) -> bool {
    exists|id: u128| is_random_id(id) && text == #[trigger] uuid_hyphenated(id)
}

/// The service that is asked for; one without an id gets a fresh one.
pub fn start_serve(
    protocol: &str,
    has_certificate: bool,
    has_private_key: bool,
    internal_hostname: Option<String>,
    serve_id: Option<String>,
    access_mode: Option<String>,
    hostname: &str,
    network: &str,
) -> (r: Result<ServePlan, String>)
    ensures
        protocol@ == "https"@ && !(has_certificate && has_private_key) ==> (r matches Err(e) && e@
            == needs_certificate()),
        !(protocol@ == "https"@ && !(has_certificate && has_private_key)) ==> (r matches Ok(p) && (
        match serve_id {
            Some(id) => p.id@ == id@,
            None => is_fresh_id(p.id@),
        }) && p.internal_hostname@ == (match internal_hostname {
            Some(h) => h@,
            None => hostname@ + "."@ + network@ + ".tunnet"@,
        }) && p.access_mode@ == (match access_mode {
            Some(m) => m@,
            None => "all_peers"@,
        })),
{
    let id: u128 = fresh_id();
    let fresh = uuid_text(id);
    proof {
        assert(is_fresh_id(fresh@));
    }
    serve_plan(
        protocol,
        has_certificate,
        has_private_key,
        internal_hostname,
        serve_id,
        fresh,
        access_mode,
        hostname,
        network,
    )
}

/// How a public tunnel is started.
#[derive(Debug)]
pub enum TunnelStart {
    /// Look at the requests locally.
    LocalInspect,
    /// Ask the control plane for one.
    Managed,
    Refused(String),
}

pub open spec fn needs_managed(port: u16) -> Seq<char> {
    "this command requires Managed mode; this agent is in Direct mode (run `tunnet reset --yes` to switch). Or use `tunnet tunnel "@
        + decimal(port as nat) + " --inspect` for a local request inspector."@
}

/// A node without a control plane has no public tunnels, but can look at
/// requests of the web locally.
pub fn start_tunnel(is_direct: bool, inspect: bool, protocol: &str, port: u16) -> (r: TunnelStart)
    ensures
        !is_direct ==> r is Managed,
        is_direct && !inspect ==> (r matches TunnelStart::Refused(e) && e@ == needs_managed(port)),
        is_direct && inspect ==> if protocol@ == "https"@ || protocol@ == "http"@ {
            r is LocalInspect
        } else {
            r matches TunnelStart::Refused(e) && e@
                == "--inspect in Direct mode requires http/https (got "@ + protocol@ + ")"@
        },
{
    if !is_direct {
        return TunnelStart::Managed;
    }
    if !inspect {
        return TunnelStart::Refused(
            join3(
                "this command requires Managed mode; this agent is in Direct mode (run `tunnet reset --yes` to switch). Or use `tunnet tunnel ",
                u64_text(port as u64).as_str(),
                " --inspect` for a local request inspector.",
            ),
        );
    }
    if same_text(protocol, "https") || same_text(protocol, "http") {
        return TunnelStart::LocalInspect;
    }
    TunnelStart::Refused(
        join3("--inspect in Direct mode requires http/https (got ", protocol, ")"),
    )
}

/// Whether the control plane is told that a tunnel was stopped: not of a local
/// one, nor where there is none to tell.
pub fn reports_stop(relay: &str, is_direct: bool, is_managed: bool) -> (r: bool)
    ensures
        r == (relay@ != "local"@ && !is_direct && is_managed),
{
    !same_text(relay, "local") && !is_direct && is_managed
}

/// Only the coordinator may change a direct network.
pub fn require_direct_coord(coordinator: bool) -> (r: Result<(), String>)
    ensures
        coordinator ==> r is Ok,
        !coordinator ==> (r matches Err(e) && e@ == "only the coordinator can perform this action"@),
{
    if coordinator {
        Ok(())
    } else {
        Err("only the coordinator can perform this action".to_owned())
    }
}

/// The sign of the time span that `SpanParser` reads from a text.
pub uninterp spec fn span_sign_of(s: Seq<char>) -> Option<i8>;

/// Calls `SpanParser::parse_span` and `Span::signum`. The outcome depends on
/// the text alone.
#[verifier::external_body]
fn span_sign(s: &str) -> (r: Option<i8>)
    ensures
        r == span_sign_of(s@),
{
    let span = jiff::fmt::friendly::SpanParser::new().parse_span(s).ok()?;
    Some(span.signum())
}

/// Whether an invitation may last for a span of this sign.
pub fn expiry_by_sign(sign: Option<i8>) -> (r: Result<(), String>)
    ensures
        match sign {
            None => r matches Err(e) && e@ == "invalid invite expiry"@,
            Some(n) => if n > 0 {
                r is Ok
            } else {
                r matches Err(e) && e@ == "invite expiry must be positive"@
            },
        },
{
    match sign {
        None => Err("invalid invite expiry".to_owned()),
        Some(n) => if n > 0 {
            Ok(())
        } else {
            Err("invite expiry must be positive".to_owned())
        },
    }
}

/// Whether an invitation may last that long: a span that can be read and lies
/// ahead.
pub fn check_invite_expiry(expires: &str) -> (r: Result<(), String>)
    ensures
        match span_sign_of(expires@) {
            None => r matches Err(e) && e@ == "invalid invite expiry"@,
            Some(n) => if n > 0 {
                r is Ok
            } else {
                r matches Err(e) && e@ == "invite expiry must be positive"@
            },
        },
{
    expiry_by_sign(span_sign(expires))
}

/// Which packets a rule is about.
#[derive(Clone, Copy, Debug, PartialEq, Eq, Structural)]
pub enum FirewallDirection {
    In,
    Out,
}

/// What a rule does with a packet.
#[derive(Clone, Copy, Debug, PartialEq, Eq, Structural)]
pub enum FirewallAction {
    Allow,
    Deny,
    Reject,
}

/// The protocol that a rule is about.
#[derive(Clone, Copy, Debug, PartialEq, Eq, Structural)]
pub enum Protocol {
    Tcp,
    Udp,
    Icmp,
    Icmpv6,
    Any,
}

/// The head of a rule.
#[derive(Clone, Copy, Debug, PartialEq, Eq, Structural)]
pub struct RuleHead {
    pub direction: FirewallDirection,
    pub action: FirewallAction,
    pub protocol: Protocol,
}

pub open spec fn direction_of(s: Seq<char>) -> Option<FirewallDirection> {
    if s == "in"@ || s == "inbound"@ {
        Some(FirewallDirection::In)
    } else if s == "out"@ || s == "outbound"@ {
        Some(FirewallDirection::Out)
    } else {
        None
    }
}

pub open spec fn action_of(s: Seq<char>) -> Option<FirewallAction> {
    if s == "allow"@ {
        Some(FirewallAction::Allow)
    } else if s == "deny"@ {
        Some(FirewallAction::Deny)
    } else if s == "reject"@ {
        Some(FirewallAction::Reject)
    } else {
        None
    }
}

/// Protocols may be written in any case.
pub open spec fn protocol_of(s: Seq<char>) -> Option<Protocol> {
    let low = lower(s);
    if low == "tcp"@ {
        Some(Protocol::Tcp)
    } else if low == "udp"@ {
        Some(Protocol::Udp)
    } else if low == "icmp"@ {
        Some(Protocol::Icmp)
    } else if low == "icmpv6"@ {
        Some(Protocol::Icmpv6)
    } else if low == "any"@ {
        Some(Protocol::Any)
    } else {
        None
    }
}

fn parse_direction(s: &str) -> (r: Option<FirewallDirection>)
    ensures
        r == direction_of(s@),
{
    if same_text(s, "in") || same_text(s, "inbound") {
        Some(FirewallDirection::In)
    } else if same_text(s, "out") || same_text(s, "outbound") {
        Some(FirewallDirection::Out)
    } else {
        None
    }
}

fn parse_action(s: &str) -> (r: Option<FirewallAction>)
    ensures
        r == action_of(s@),
{
    if same_text(s, "allow") {
        Some(FirewallAction::Allow)
    } else if same_text(s, "deny") {
        Some(FirewallAction::Deny)
    } else if same_text(s, "reject") {
        Some(FirewallAction::Reject)
    } else {
        None
    }
}

fn parse_protocol(s: &str) -> (r: Option<Protocol>)
    ensures
        r == protocol_of(s@),
{
    let low = to_lower(s);
    let p = low.as_str();
    if same_text(p, "tcp") {
        Some(Protocol::Tcp)
    } else if same_text(p, "udp") {
        Some(Protocol::Udp)
    } else if same_text(p, "icmp") {
        Some(Protocol::Icmp)
    } else if same_text(p, "icmpv6") {
        Some(Protocol::Icmpv6)
    } else if same_text(p, "any") {
        Some(Protocol::Any)
    } else {
        None
    }
}

/// Reads the head of a rule. The first word that cannot be read is the one
/// that the error is about.
pub fn direct_firewall_add(direction: &str, action: &str, protocol: &str) -> (r: Result<
    RuleHead,
    String,
>)
    ensures
        match (direction_of(direction@), action_of(action@), protocol_of(protocol@)) {
            (None, _, _) => r matches Err(e) && e@ == "direction must be 'in' or 'out'"@,
            (Some(_), None, _) => r matches Err(e) && e@
                == "action must be 'allow', 'deny', or 'reject'"@,
            (Some(_), Some(_), None) => r matches Err(e) && e@
                == "protocol must be tcp|udp|icmp|any"@,
            (Some(d), Some(a), Some(p)) => r == Ok::<RuleHead, String>(
                RuleHead { direction: d, action: a, protocol: p },
            ),
        },
{
    let direction = match parse_direction(direction) {
        Some(d) => d,
        None => {
            return Err("direction must be 'in' or 'out'".to_owned());
        },
    };
    let action = match parse_action(action) {
        Some(a) => a,
        None => {
            return Err("action must be 'allow', 'deny', or 'reject'".to_owned());
        },
    };
    let protocol = match parse_protocol(protocol) {
        Some(p) => p,
        None => {
            return Err("protocol must be tcp|udp|icmp|any".to_owned());
        },
    };
    Ok(RuleHead { direction, action, protocol })
}

/// Whether a firewall is on, and the version of its rules.
#[derive(Clone, Copy, Debug, PartialEq, Eq, Structural)]
pub struct FirewallSwitch {
    pub enabled: bool,
    pub version: u64,
}

/// Switches a firewall off, which makes a new version of it.
pub fn direct_firewall_off(config: FirewallSwitch) -> (r: FirewallSwitch)
    requires
        config.version < u64::MAX,
    ensures
        !r.enabled,
        r.version == config.version + 1,
{
    FirewallSwitch { enabled: false, version: config.version + 1 }
}

/// The figures of a firewall: those of the one that runs, and nothing but
/// whether it is on where none does.
pub fn direct_firewall_show(stats: Option<FirewallStats>, config_enabled: bool) -> (r:
    FirewallStats)
    ensures
        r == match stats {
            Some(s) => s,
            None => FirewallStats {
                enabled: config_enabled,
                conntrack_entries: 0,
                packets_allowed: 0,
                packets_denied: 0,
                packets_rejected: 0,
                suggested_rules: 0,
            },
        },
{
    match stats {
        Some(s) => s,
        None => FirewallStats {
            enabled: config_enabled,
            conntrack_entries: 0,
            packets_allowed: 0,
            packets_denied: 0,
            packets_rejected: 0,
            suggested_rules: 0,
        },
    }
}

/// The telemetry after a host is kept alive or no longer, with the member of
/// that name where there is one.
pub open spec fn kept_alive(
    mesh: MeshView,
    peer: Option<PeerView>,
    hostname: Seq<char>,
    enable: bool,
) -> MeshView {
    MeshView {
        hosts: if enable {
            mesh.hosts.insert(lower(hostname))
        } else {
            mesh.hosts.remove(lower(hostname))
        },
        peers: match peer {
            Some(p) => if enable {
                mesh.peers.insert(p.endpoint)
            } else {
                mesh.peers.remove(p.endpoint)
            },
            None => mesh.peers,
        },
        ..mesh
    }
}

/// The pool after a host is kept alive or no longer, with the member of that
/// name where there is one.
pub open spec fn pool_kept_alive(
    pool: PoolView,
    peer: Option<PeerView>,
    hostname: Seq<char>,
    enable: bool,
    now: u64,
) -> PoolView {
    PoolView {
        hosts: if enable {
            pool.hosts.insert(lower(hostname))
        } else {
            pool.hosts.remove(lower(hostname))
        },
        kept: match peer {
            Some(p) => if enable {
                pool.kept.insert(p.endpoint)
            } else {
                pool.kept.remove(p.endpoint)
            },
            None => pool.kept,
        },
        entries: match peer {
            Some(p) => pool.entries.insert(
                p.endpoint,
                PeerSlot {
                    peer_keep_alive: enable,
                    ..slot_or_fresh(pool.entries, p.endpoint, now)
                },
            ),
            None => pool.entries,
        },
        ..pool
    }
}

/// Keeps the connections to a host alive, or no longer, and says so.
pub fn direct_keep_alive(
    pool: &mut ConnPool,
    mesh: &mut TunnelMesh,
    routes: &RoutingTable,
    hostname: &str,
    enable: bool,
    now: u64,
) -> (r: String)
    requires
        old(pool).wf(),
        old(mesh).wf(),
    ensures
        final(pool).wf(),
        final(pool).state() == pool_kept_alive(
            old(pool).state(),
            host_peer(routes.model(), hostname@),
            hostname@,
            enable,
            now,
        ),
        final(mesh).wf(),
        final(mesh).state() == kept_alive(
            old(mesh).state(),
            host_peer(routes.model(), hostname@),
            hostname@,
            enable,
        ),
        r@ == if enable {
            "Keep-alive enabled for "@ + hostname@
        } else {
            "Keep-alive disabled for "@ + hostname@
        },
{
    if enable {
        pool.add_keep_alive_host(hostname);
        mesh.add_keep_alive_host(hostname);
    } else {
        pool.remove_keep_alive_host(hostname);
        mesh.remove_keep_alive_host(hostname);
    }
    if let Some(peer) = routes.lookup_hostname(hostname) {
        pool.set_peer_keep_alive(peer.endpoint, enable, now);
        mesh.set_peer_keep_alive(peer.endpoint, enable);
    }
    if enable {
        join2("Keep-alive enabled for ", hostname)
    } else {
        join2("Keep-alive disabled for ", hostname)
    }
}

/// The members as they stand in a membership.
pub open spec fn entries_of(members: Seq<PeerView>) -> Seq<PeerEntryView> {
    Seq::new(
        members.len(),
        |i: int|
            PeerEntryView {
                ip: members[i].ip,
                endpoint_id: members[i].endpoint_hex,
                hostname: members[i].hostname,
                tags: members[i].tags,
                ssh_host_key: members[i].ssh_host_key,
            },
    )
}

fn list_entries(routes: &RoutingTable) -> (r: Vec<PeerEntry>)
    ensures
        views(r@) == entries_of(routes.model().members),
{
    let members = routes.peers();
    let ghost known = routes.model().members;
    let mut out: Vec<PeerEntry> = Vec::new();
    let mut i: usize = 0;
    while i < members.len()
        invariant
            i <= members@.len(),
            known == seen_all(members@),
            views(out@) =~= entries_of(known).take(i as int),
        decreases members@.len() - i,
    {
        proof {
            assert(known[i as int] == members@[i as int]@);
        }
        let p = &members[i];
        let entry = PeerEntry {
            ip: p.ip,
            endpoint_id: p.endpoint_hex.clone(),
            hostname: p.hostname.clone(),
            tags: copy_texts(&p.tags),
            ssh_host_key: copy_opt_text(&p.ssh_host_key),
        };
        let ghost before = views(out@);
        out.push(entry);
        proof {
            assert(entry@ == entries_of(known)[i as int]);
            assert(views(out@) =~= before.push(entry@));
        }
        i = i + 1;
    }
    proof {
        assert(entries_of(known).take(i as int) =~= entries_of(known));
    }
    out
}

/// Brings new name service settings into force: the members stay, everything
/// else of the network is as new, and the version moves on by one.
pub fn reload_routes(
    routes: &mut RoutingTable,
    dns: &DnsConfig,
    network: &str,
    network_id: u128,
    self_endpoint_id: &str,
)
    requires
        old(routes).wf(),
        old(routes).version_of() < u64::MAX,
    ensures
        final(routes).wf(),
        final(routes).version_of() == old(routes).version_of() + 1,
        final(routes).networks() == seq![
            (
                network_id,
                SliceView {
                    peers: entries_of(old(routes).model().members),
                    subnet_routes: Seq::empty(),
                    hostname_routes: Seq::empty(),
                    exit_nodes: Seq::empty(),
                    profile: default_profile(),
                    dns_suffix: dns.suffix@,
                    network_name: lower(network@),
                    self_endpoint_id: self_endpoint_id@,
                    peer_cidr: None,
                },
            ),
        ],
{
    let peers = list_entries(routes);
    let version: u64 = routes.version() + 1;
    let subnets: Vec<SubnetRoute> = Vec::new();
    let hosts: Vec<HostnameRoute> = Vec::new();
    let exits: Vec<ExitNodeInfo> = Vec::new();
    let profile = DeviceProfile::default();
    routes.replace(
        peers.as_slice(),
        subnets.as_slice(),
        hosts.as_slice(),
        exits.as_slice(),
        &profile,
        dns,
        network,
        network_id,
        self_endpoint_id,
        version,
    );
    proof {
        assert(views(subnets@) =~= Seq::empty());
        assert(views(hosts@) =~= Seq::empty());
        assert(views(exits@) =~= Seq::empty());
    }
}

/// What a reload is answered.
pub fn reload_message(suffix: &str, level: &str) -> (r: String)
    ensures
        r@ == "reloaded firewall, dns (suffix="@ + suffix@
            + "), keep-alive from tunnet.toml; logging.level="@ + level@,
{
    let mut out = join3(
        "reloaded firewall, dns (suffix=",
        suffix,
        "), keep-alive from tunnet.toml; logging.level=",
    );
    out.append(level);
    out
}

/// A rule was taken out.
pub fn removed_rule_message(index: usize) -> (r: String)
    ensures
        r@ == "Removed rule "@ + decimal(index as nat),
{
    join2("Removed rule ", u64_text(index as u64).as_str())
}

/// A newcomer was let in.
pub fn approved_message(endpoint_id: &str) -> (r: String)
    ensures
        r@ == "Approved "@ + endpoint_id@
            + ". Peer should re-run join while this agent is running."@,
{
    join3("Approved ", endpoint_id, ". Peer should re-run join while this agent is running.")
}

/// A newcomer was turned away.
pub fn denied_message(peer_id: &str) -> (r: String)
    ensures
        r@ == "Denied "@ + peer_id@,
{
    join2("Denied ", peer_id)
}

/// Whose word counts in a direct network: that of the authority which runs, or
/// one that the coordinator loads; nobody else's.
#[derive(Clone, Copy, Debug, PartialEq, Eq, Structural)]
pub enum Authority {
    Running,
    Load,
    Refused,
}

pub fn authority_for(running: bool, coordinator: bool) -> (r: Authority)
    ensures
        r == if running {
            Authority::Running
        } else if coordinator {
            Authority::Load
        } else {
            Authority::Refused
        },
{
    if running {
        Authority::Running
    } else if coordinator {
        Authority::Load
    } else {
        Authority::Refused
    }
}

/// Which way a file goes.
#[derive(Clone, Copy, Debug, PartialEq, Eq, Structural)]
pub enum TransferDirection {
    Outbound,
    Inbound,
}

impl TransferDirection {
    pub fn as_str(self) -> (r: &'static str)
        ensures
            r@ == match self {
                TransferDirection::Outbound => "outbound"@,
                TransferDirection::Inbound => "inbound"@,
            },
    {
        match self {
            TransferDirection::Outbound => "outbound",
            TransferDirection::Inbound => "inbound",
        }
    }
}

/// What removing a member is answered: done, or put off until the network's
/// documents are there.
pub fn kick_message(docs_ready: bool, peer_id: &str) -> (r: String)
    ensures
        r@ == if docs_ready {
            "Kicked "@ + peer_id@
        } else {
            "Queued kick for "@ + peer_id@ + " (docs not ready; will apply shortly)"@
        },
{
    if docs_ready {
        join2("Kicked ", peer_id)
    } else {
        join3("Queued kick for ", peer_id, " (docs not ready; will apply shortly)")
    }
}

/// Publishes a firewall policy to a direct network: the coordinator may, with a
/// policy that can be read, once the network's documents are there.
pub fn direct_policy_set(coordinator: bool, parsed: bool, docs_ready: bool) -> (r: Result<
    String,
    String,
>)
    ensures
        if !coordinator {
            r matches Err(e) && e@ == "only the coordinator can perform this action"@
        } else if !parsed {
            r matches Err(e) && e@ == "parse policy toml"@
        } else if !docs_ready {
            r matches Err(e) && e@ == "docs membership not ready"@
        } else {
            r matches Ok(m) && m@ == "Published firewall policy to network."@
        },
{
    match require_direct_coord(coordinator) {
        Ok(_) => {},
        Err(e) => {
            return Err(e);
        },
    }
    if !parsed {
        return Err("parse policy toml".to_owned());
    }
    if !docs_ready {
        return Err("docs membership not ready".to_owned());
    }
    Ok("Published firewall policy to network.".to_owned())
}

/// Takes a published firewall policy back.
pub fn direct_policy_clear(coordinator: bool, docs_ready: bool) -> (r: Result<String, String>)
    ensures
        if !coordinator {
            r matches Err(e) && e@ == "only the coordinator can perform this action"@
        } else if !docs_ready {
            r matches Err(e) && e@ == "docs membership not ready"@
        } else {
            r matches Ok(m) && m@ == "Cleared published firewall policy."@
        },
{
    match require_direct_coord(coordinator) {
        Ok(_) => {},
        Err(e) => {
            return Err(e);
        },
    }
    if !docs_ready {
        return Err("docs membership not ready".to_owned());
    }
    Ok("Cleared published firewall policy.".to_owned())
}

/// Takes over the firewall rules that the coordinator suggests, if there are
/// any.
pub fn direct_firewall_accept(pending: bool) -> (r: Result<String, String>)
    ensures
        if pending {
            r matches Ok(m) && m@ == "Accepted pending firewall suggestion."@
        } else {
            r matches Err(e) && e@ == "no pending firewall suggestion"@
        },
{
    if pending {
        Ok("Accepted pending firewall suggestion.".to_owned())
    } else {
        Err("no pending firewall suggestion".to_owned())
    }
}

} // verus!
