//! Keeping a managed network in step with the control plane.

use crate::membership::{
    copy_peers, copy_texts, texts, views, DeviceProfile, DnsConfig, ExitNodeInfo, ExitNodeView,
    HostnameRoute, HostnameRouteView, PeerEntry, PeerEntryView, ProfileView, SubnetRoute,
    SubnetRouteView,
};
use crate::policy_key::{missing_network, opt_str, parse_policy_vk, policy_key, uuid_text};
use crate::routing::{has_slice, slice_after_delta, slice_place, RoutingTable};
use crate::tables::SliceView;
use crate::text::{is_blank, join3, lower, same_text};
use vstd::prelude::*;

verus! {

/// How far the organisation has moved on.
#[derive(Clone, Copy, Debug, PartialEq, Eq, Structural)]
pub struct OrgRevision(pub u64);

/// How far one network has moved on.
#[derive(Clone, Copy, Debug, PartialEq, Eq, Structural)]
pub struct NetworkRevision(pub u64);

/// The revisions that are in force.
#[derive(Clone, Copy, Debug, PartialEq, Eq, Structural)]
pub struct ManagedRevisionSnapshot {
    pub org: OrgRevision,
    pub network: NetworkRevision,
}

/// A state at `org` and `network` is not older than `current`, in either part.
pub open spec fn not_older(
    current: ManagedRevisionSnapshot,
    org: OrgRevision,
    network: NetworkRevision,
) -> bool {
    org.0 >= current.org.0 && network.0 >= current.network.0
}

/// The revisions after a full state at `org` and `network` arrived.
pub open spec fn after_snapshot(
    current: ManagedRevisionSnapshot,
    org: OrgRevision,
    network: NetworkRevision,
) -> ManagedRevisionSnapshot {
    if not_older(current, org, network) {
        ManagedRevisionSnapshot { org, network }
    } else {
        current
    }
}

/// The revisions after a change of the network's peers arrived.
pub open spec fn after_delta(
    current: ManagedRevisionSnapshot,
    network: NetworkRevision,
) -> ManagedRevisionSnapshot {
    if network.0 >= current.network.0 {
        ManagedRevisionSnapshot { org: current.org, network }
    } else {
        current
    }
}

/// The revisions in force, which only move forward.
#[derive(Debug)]
pub struct ManagedRevisions {
    applied: ManagedRevisionSnapshot,
}

impl View for ManagedRevisions {
    type V = ManagedRevisionSnapshot;

    closed spec fn view(&self) -> ManagedRevisionSnapshot {
        self.applied
    }
}

impl ManagedRevisions {
    pub fn new(org: u64, network: u64) -> (r: ManagedRevisions)
        ensures
            r@ == (ManagedRevisionSnapshot {
                org: OrgRevision(org),
                network: NetworkRevision(network),
            }),
    {
        ManagedRevisions {
            applied: ManagedRevisionSnapshot {
                org: OrgRevision(org),
                network: NetworkRevision(network),
            },
        }
    }

    pub fn load(&self) -> (r: ManagedRevisionSnapshot)
        ensures
            r == self@,
    {
        self.applied
    }

    /// Takes over that the network is gone as of these revisions, unless the
    /// news is older than what is in force.
    pub fn accept_absence(&mut self, org: u64, network: u64) -> (r: bool)
        ensures
            r == not_older(old(self)@, OrgRevision(org), NetworkRevision(network)),
            final(self)@ == after_snapshot(old(self)@, OrgRevision(org), NetworkRevision(network)),
    {
        self.apply_snapshot(OrgRevision(org), NetworkRevision(network))
    }

    /// Moves to a full state unless it is older in either part. The caller
    /// applies the state exactly when the answer is true.
    pub fn apply_snapshot(&mut self, org: OrgRevision, network: NetworkRevision) -> (r: bool)
        ensures
            r == not_older(old(self)@, org, network),
            final(self)@ == after_snapshot(old(self)@, org, network),
    {
        if org.0 < self.applied.org.0 || network.0 < self.applied.network.0 {
            return false;
        }
        self.applied = ManagedRevisionSnapshot { org, network };
        true
    }

    /// Moves the network on unless the change is older; the organisation's
    /// revision stays.
    pub fn apply_delta(&mut self, network: NetworkRevision) -> (r: bool)
        ensures
            r == (network.0 >= old(self)@.network.0),
            final(self)@ == after_delta(old(self)@, network),
    {
        if network.0 < self.applied.network.0 {
            return false;
        }
        self.applied = ManagedRevisionSnapshot { org: self.applied.org, network };
        true
    }
}

/// Revisions never move back, whatever arrives.
pub proof fn law_revisions_never_move_back(
    current: ManagedRevisionSnapshot,
    org: OrgRevision,
    network: NetworkRevision,
)
    ensures
        after_snapshot(current, org, network).org.0 >= current.org.0,
        after_snapshot(current, org, network).network.0 >= current.network.0,
        after_delta(current, network).org.0 >= current.org.0,
        after_delta(current, network).network.0 >= current.network.0,
{
}

/// A change of one network never touches the organisation's revision.
pub proof fn law_delta_keeps_the_org_revision(
    current: ManagedRevisionSnapshot,
    network: NetworkRevision,
)
    ensures
        after_delta(current, network).org == current.org,
{
}

/// Of two full states of which one is the older in both parts and strictly in
/// one, the newer is in force once both have arrived, in whichever order.
pub proof fn law_order_of_arrival_does_not_matter(
    current: ManagedRevisionSnapshot,
    older: ManagedRevisionSnapshot,
    newer: ManagedRevisionSnapshot,
)
    requires
        older.org.0 <= newer.org.0,
        older.network.0 <= newer.network.0,
        older != newer,
        not_older(current, newer.org, newer.network),
    ensures
        after_snapshot(
            after_snapshot(current, older.org, older.network),
            newer.org,
            newer.network,
        ) == newer,
        after_snapshot(
            after_snapshot(current, newer.org, newer.network),
            older.org,
            older.network,
        ) == newer,
        !not_older(
            after_snapshot(current, newer.org, newer.network),
            older.org,
            older.network,
        ),
{
}

/// What the control plane says of one network that this endpoint is in.
#[derive(Debug, PartialEq, Eq)]
pub struct NetworkMembershipSnapshot {
    pub network_id: u128,
    pub network_name: String,
    pub assigned_ipv4: u32,
    pub prefix: u8,
    pub mtu: u16,
    pub ipv4_peers: Vec<PeerEntry>,
    pub subnet_routes: Vec<SubnetRoute>,
    pub hostname_routes: Vec<HostnameRoute>,
    pub exit_nodes: Vec<ExitNodeInfo>,
    pub device_profile: DeviceProfile,
    pub dns: DnsConfig,
    pub self_tags: Vec<String>,
    pub self_hostname: String,
    pub version: u64,
}

pub struct MembershipView {
    pub network_id: u128,
    pub network_name: Seq<char>,
    pub assigned_ipv4: u32,
    pub prefix: u8,
    pub mtu: u16,
    pub ipv4_peers: Seq<PeerEntryView>,
    pub subnet_routes: Seq<SubnetRouteView>,
    pub hostname_routes: Seq<HostnameRouteView>,
    pub exit_nodes: Seq<ExitNodeView>,
    pub device_profile: ProfileView,
    pub dns_suffix: Seq<char>,
    pub self_tags: Seq<Seq<char>>,
    pub self_hostname: Seq<char>,
    pub version: u64,
}

impl View for NetworkMembershipSnapshot {
    type V = MembershipView;

    open spec fn view(&self) -> MembershipView {
        MembershipView {
            network_id: self.network_id,
            network_name: self.network_name@,
            assigned_ipv4: self.assigned_ipv4,
            prefix: self.prefix,
            mtu: self.mtu,
            ipv4_peers: views(self.ipv4_peers@),
            subnet_routes: views(self.subnet_routes@),
            hostname_routes: views(self.hostname_routes@),
            exit_nodes: views(self.exit_nodes@),
            device_profile: self.device_profile@,
            dns_suffix: self.dns.suffix@,
            self_tags: texts(self.self_tags@),
            self_hostname: self.self_hostname@,
            version: self.version,
        }
    }
}

/// A relay that the control plane offers.
#[derive(Debug, PartialEq, Eq)]
pub struct ConnectivityRelay {
    pub url: String,
    /// Whether traffic over it is counted against a quota.
    pub metering: bool,
}

/// All that the control plane says to this endpoint at one time.
#[derive(Debug, PartialEq, Eq)]
pub struct EndpointSnapshot {
    pub version: u64,
    pub memberships: Vec<NetworkMembershipSnapshot>,
    pub network_revisions: Vec<(u128, u64)>,
    pub connectivity_relays: Vec<ConnectivityRelay>,
    pub policy_verifying_key: Option<String>,
}

/// A change of one network's peers.
#[derive(Debug, PartialEq, Eq)]
pub struct SnapshotDelta {
    pub version: u64,
    pub added: Vec<PeerEntry>,
    pub removed: Vec<String>,
}

/// The place of the first membership of a network, or the number of
/// memberships where there is none.
pub open spec fn membership_place(memberships: Seq<NetworkMembershipSnapshot>, id: u128) -> int
    decreases memberships.len(),
{
    if memberships.len() == 0 {
        0
    } else if memberships[0].network_id == id {
        0
    } else {
        1 + membership_place(memberships.drop_first(), id)
    }
}

/// Whether the endpoint is in a network.
pub open spec fn is_member(memberships: Seq<NetworkMembershipSnapshot>, id: u128) -> bool {
    exists|i: int|
        0 <= i < memberships.len() && (#[trigger] memberships[i]).network_id == id
}

/// The place of a network's membership is the first one with its id.
pub proof fn lemma_membership_place(memberships: Seq<NetworkMembershipSnapshot>, id: u128, at: int)
    requires
        0 <= at <= memberships.len(),
        forall|i: int| 0 <= i < at ==> (#[trigger] memberships[i]).network_id != id,
        at == memberships.len() || memberships[at].network_id == id,
    ensures
        membership_place(memberships, id) == at,
        is_member(memberships, id) <==> at < memberships.len(),
    decreases memberships.len(),
{
    if memberships.len() > 0 && memberships[0].network_id != id {
        let rest = memberships.drop_first();
        assert forall|i: int| 0 <= i < at - 1 implies (#[trigger] rest[i]).network_id != id by {
            assert(rest[i] == memberships[i + 1]);
        }
        assert(at < memberships.len() ==> rest[at - 1] == memberships[at]);
        lemma_membership_place(rest, id, at - 1);
    }
}

/// This endpoint's membership of a network, or a text that says it has none.
pub fn membership_for_network(snap: &EndpointSnapshot, network_id: u128) -> (r: Result<
    &NetworkMembershipSnapshot,
    String,
>)
    ensures
        r is Ok <==> is_member(snap.memberships@, network_id),
        r matches Ok(m) ==> *m == snap.memberships@[membership_place(
            snap.memberships@,
            network_id,
        )] && m.network_id == network_id,
        r matches Err(e) ==> e@ == missing_network(network_id),
{
    let mut i: usize = 0;
    while i < snap.memberships.len()
        invariant
            i <= snap.memberships@.len(),
            forall|j: int|
                0 <= j < i ==> (#[trigger] snap.memberships@[j]).network_id != network_id,
        decreases snap.memberships@.len() - i,
    {
        if snap.memberships[i].network_id == network_id {
            proof {
                lemma_membership_place(snap.memberships@, network_id, i as int);
            }
            return Ok(&snap.memberships[i]);
        }
        i = i + 1;
    }
    proof {
        lemma_membership_place(snap.memberships@, network_id, i as int);
    }
    Err(join3("network ", uuid_text(network_id).as_str(), " not in snapshot"))
}

/// Whether one of the peers has this id.
pub open spec fn lists_peer(peers: Seq<PeerEntryView>, endpoint_id: Seq<char>) -> bool {
    exists|i: int| 0 <= i < peers.len() && (#[trigger] peers[i]).endpoint_id == endpoint_id
}

/// The name that this endpoint goes by: the control plane's where it gives one.
pub open spec fn own_hostname(m: MembershipView, self_hostname: Seq<char>) -> Seq<char> {
    if m.self_hostname.len() > 0 {
        m.self_hostname
    } else {
        self_hostname
    }
}

/// This endpoint as a peer of its own.
pub open spec fn own_entry(
    m: MembershipView,
    self_endpoint_id: Seq<char>,
    self_hostname: Seq<char>,
) -> PeerEntryView {
    PeerEntryView {
        ip: m.assigned_ipv4,
        endpoint_id: self_endpoint_id,
        hostname: own_hostname(m, self_hostname),
        tags: m.self_tags,
        ssh_host_key: None,
    }
}

/// The peers of a membership, with this endpoint among them where it has a name.
pub open spec fn with_self(
    m: MembershipView,
    self_endpoint_id: Seq<char>,
    self_hostname: Seq<char>,
) -> Seq<PeerEntryView> {
    if own_hostname(m, self_hostname).len() > 0 && !lists_peer(m.ipv4_peers, self_endpoint_id) {
        m.ipv4_peers.push(own_entry(m, self_endpoint_id, self_hostname))
    } else {
        m.ipv4_peers
    }
}

/// The peers of a membership and this endpoint itself, so that its own name
/// can be resolved too.
pub fn peers_with_self(
    membership: &NetworkMembershipSnapshot,
    self_endpoint_id: &str,
    self_hostname: &str,
) -> (r: Vec<PeerEntry>)
    ensures
        views(r@) == with_self(membership@, self_endpoint_id@, self_hostname@),
{
    let hostname = if !is_blank(membership.self_hostname.as_str()) {
        membership.self_hostname.as_str()
    } else {
        self_hostname
    };
    let mut peers = copy_peers(membership.ipv4_peers.as_slice());
    let mut listed = false;
    let mut i: usize = 0;
    while i < membership.ipv4_peers.len() && !listed
        invariant
            i <= membership.ipv4_peers@.len(),
            !listed ==> forall|j: int|
                0 <= j < i ==> (#[trigger] membership@.ipv4_peers[j]).endpoint_id
                    != self_endpoint_id@,
            listed ==> lists_peer(membership@.ipv4_peers, self_endpoint_id@),
        decreases membership.ipv4_peers@.len() - i,
    {
        if same_text(membership.ipv4_peers[i].endpoint_id.as_str(), self_endpoint_id) {
            proof {
                assert(membership@.ipv4_peers[i as int].endpoint_id == self_endpoint_id@);
            }
            listed = true;
        }
        i = i + 1;
    }
    if !is_blank(hostname) && !listed {
        let own = PeerEntry {
            ip: membership.assigned_ipv4,
            endpoint_id: self_endpoint_id.to_owned(),
            hostname: hostname.to_owned(),
            tags: copy_texts(&membership.self_tags),
            ssh_host_key: None,
        };
        let ghost before = views(peers@);
        peers.push(own);
        proof {
            assert(views(peers@) =~= before.push(own@));
        }
    }
    peers
}

/// What checking the two policy signatures of a membership gave.
#[derive(Clone, Copy, Debug, PartialEq, Eq, Structural)]
pub struct PolicyCheck {
    pub network_valid: bool,
    pub org_valid: bool,
}

/// Whether the policies may be applied. Without a key nothing is checked.
pub open spec fn policies_pass(hex_key: Option<Seq<char>>, check: PolicyCheck) -> bool {
    policy_key(hex_key) is Some ==> check.network_valid && check.org_valid
}

/// The one network that the routes hold after a membership is applied.
pub open spec fn membership_slice(
    m: MembershipView,
    self_endpoint_id: Seq<char>,
    self_hostname: Seq<char>,
) -> SliceView {
    SliceView {
        peers: with_self(m, self_endpoint_id, self_hostname),
        subnet_routes: m.subnet_routes,
        hostname_routes: m.hostname_routes,
        exit_nodes: m.exit_nodes,
        profile: m.device_profile,
        dns_suffix: m.dns_suffix,
        network_name: lower(m.network_name),
        self_endpoint_id,
        peer_cidr: None,
    }
}

/// Whether a membership is taken over.
pub open spec fn membership_applies(
    m: MembershipView,
    check: PolicyCheck,
    hex_key: Option<Seq<char>>,
    current: ManagedRevisionSnapshot,
    org_version: u64,
) -> bool {
    policies_pass(hex_key, check) && not_older(
        current,
        OrgRevision(org_version),
        NetworkRevision(m.version),
    )
}

/// Takes over a membership: its routes replace all others and the revisions
/// move to its own. With a bad policy signature, or an older revision, the
/// last good state stays as it is. The caller replaces the policy exactly when
/// the answer is true.
pub fn apply_membership(
    membership: &NetworkMembershipSnapshot,
    check: PolicyCheck,
    policy_verifying_key: Option<&str>,
    routes: &mut RoutingTable,
    revisions: &mut ManagedRevisions,
    org_version: u64,
    self_endpoint_id: &str,
    self_hostname: &str,
) -> (r: bool)
    requires
        old(routes).wf(),
    ensures
        final(routes).wf(),
        r == membership_applies(
            membership@,
            check,
            opt_str(policy_verifying_key),
            old(revisions)@,
            org_version,
        ),
        !r ==> *final(routes) == *old(routes) && final(revisions)@ == old(revisions)@,
        r ==> {
            &&& final(routes).networks() == seq![
                (
                    membership.network_id,
                    membership_slice(membership@, self_endpoint_id@, self_hostname@),
                ),
            ]
            &&& final(routes).version_of() == membership.version
            &&& final(routes).seq_of() == old(routes).seq_of().wrapping_add(1)
            &&& final(revisions)@ == (ManagedRevisionSnapshot {
                org: OrgRevision(org_version),
                network: NetworkRevision(membership.version),
            })
        },
{
    if parse_policy_vk(policy_verifying_key).is_some() {
        if !check.network_valid {
            return false;
        }
        if !check.org_valid {
            return false;
        }
    }
    let peers = peers_with_self(membership, self_endpoint_id, self_hostname);
    if !revisions.apply_snapshot(OrgRevision(org_version), NetworkRevision(membership.version)) {
        return false;
    }
    routes.replace(
        peers.as_slice(),
        membership.subnet_routes.as_slice(),
        membership.hostname_routes.as_slice(),
        membership.exit_nodes.as_slice(),
        &membership.device_profile,
        &membership.dns,
        membership.network_name.as_str(),
        membership.network_id,
        self_endpoint_id,
        membership.version,
    );
    true
}

/// Takes over a change of the network's peers unless it is older than what is
/// in force. A network that is not known yet waits for its full membership,
/// though the revision moves on.
pub fn apply_delta(
    routes: &mut RoutingTable,
    revisions: &mut ManagedRevisions,
    delta: &SnapshotDelta,
    self_endpoint_id: &str,
    network_id: u128,
    network_name: &str,
) -> (r: bool)
    requires
        old(routes).wf(),
    ensures
        final(routes).wf(),
        r == (delta.version >= old(revisions)@.network.0),
        final(revisions)@ == after_delta(old(revisions)@, NetworkRevision(delta.version)),
        !r || !has_slice(old(routes).networks(), network_id) ==> *final(routes) == *old(routes),
        r && has_slice(old(routes).networks(), network_id) ==> {
            let at = slice_place(old(routes).networks(), network_id);
            &&& final(routes).networks() == old(routes).networks().update(
                at,
                (
                    network_id,
                    slice_after_delta(
                        old(routes).networks()[at].1,
                        views(delta.added@),
                        texts(delta.removed@),
                        self_endpoint_id@,
                        network_name@,
                    ),
                ),
            )
            &&& final(routes).version_of() == delta.version
            &&& final(routes).seq_of() == old(routes).seq_of().wrapping_add(1)
        },
{
    if !revisions.apply_delta(NetworkRevision(delta.version)) {
        return false;
    }
    routes.apply_peer_delta(
        network_id,
        delta.added.as_slice(),
        delta.removed.as_slice(),
        delta.version,
        self_endpoint_id,
        network_name,
    );
    true
}

/// Once a membership is applied, this endpoint is among the peers whenever it
/// has a name.
pub proof fn law_named_endpoint_lists_itself(
    m: MembershipView,
    self_endpoint_id: Seq<char>,
    self_hostname: Seq<char>,
)
    requires
        own_hostname(m, self_hostname).len() > 0,
    ensures
        lists_peer(
            membership_slice(m, self_endpoint_id, self_hostname).peers,
            self_endpoint_id,
        ),
{
    if !lists_peer(m.ipv4_peers, self_endpoint_id) {
        let peers = with_self(m, self_endpoint_id, self_hostname);
        assert(peers[m.ipv4_peers.len() as int].endpoint_id == self_endpoint_id);
    }
}

} // verus!
