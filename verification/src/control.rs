//! What a managed endpoint does with each message of the control plane.
//!
//! The messages change the routes and the revisions here. Everything else that
//! has to happen is returned as a list of steps, to be carried out in order.

use crate::dataplane::membership_desired;
use crate::membership::{default_profile, opt_text, texts, views, SubnetRoute, SubnetRouteView};
use crate::net::Ipv4Net;
use crate::routing::{has_slice, slice_after_delta, slice_place, RoutingTable};
use crate::sync::{
    after_delta, apply_delta, apply_membership, is_member, membership_applies,
    membership_for_network, membership_place, membership_slice, not_older, policies_pass,
    ConnectivityRelay,
    EndpointSnapshot, ManagedRevisionSnapshot, ManagedRevisions, NetworkMembershipSnapshot,
    NetworkRevision, OrgRevision, PolicyCheck, SnapshotDelta,
};
use crate::system_routes::DesiredRoutes;
use crate::tables::SliceView;
use crate::text::same_text;
use vstd::prelude::*;

verus! {

/// How often a heartbeat is sent, in seconds.
pub const HEARTBEAT_SECS: u64 = 15;

/// The shortest time between two polls, in seconds.
pub const MIN_POLL_SECS: u64 = 5;

/// An address and a port to connect to.
#[derive(Clone, Copy, Debug, PartialEq, Eq)]
pub enum SocketTarget {
    V4 { ip: u32, port: u16 },
    V6 { ip6: u128, port: u16, scope: u32 },
}

/// A local service that is to be offered to the network.
#[derive(Debug, PartialEq, Eq)]
pub struct ServeStart {
    pub serve_id: String,
    pub port: u16,
    pub protocol: String,
    pub internal_hostname: String,
    pub certificate_pem: Option<String>,
    pub private_key_pem: Option<String>,
    pub access_mode: String,
    pub allowed_tags: Vec<String>,
    pub allowed_endpoint_ids: Vec<String>,
    /// None where no target was sent, and where it could not be read.
    pub target: Option<SocketTarget>,
}

/// A tunnel that is to be opened to an edge.
#[derive(Debug, PartialEq, Eq)]
pub struct TunnelOpen {
    pub tunnel_id: String,
    pub edge_addr: String,
    pub subdomain: String,
    pub public_hostname: String,
    pub local_port: u16,
    pub protocol: String,
    pub auth_token: String,
    pub redirect_rules: Vec<String>,
    /// None where no target was sent, and where it could not be read.
    pub target: Option<SocketTarget>,
}

/// A file that is to be sent.
#[derive(Debug, PartialEq, Eq)]
pub struct FileSend {
    pub transfer_id: String,
    pub path: String,
    pub target: String,
    pub message: Option<String>,
}

/// A transfer that is to be turned down.
#[derive(Debug, PartialEq, Eq)]
pub struct TransferReject {
    pub transfer_id: String,
    pub reason: Option<String>,
}

/// How files from others are to be received.
#[derive(Debug, PartialEq, Eq)]
pub struct SendConsent {
    pub mode: String,
    pub inbox_path: Option<String>,
    pub pin_blobs: bool,
}

/// What the posture engine is to look at, and how often.
#[derive(Debug, PartialEq, Eq)]
pub struct PostureConfig {
    pub interval_secs: u64,
    pub enabled_collectors: Vec<String>,
    pub custom_scripts: Vec<String>,
}

/// What the control plane makes of the posture.
#[derive(Debug, PartialEq, Eq)]
pub struct PostureVerdict {
    pub postures: Vec<String>,
    pub enforcement_action: String,
    pub grace_period_remaining_secs: Option<u64>,
    pub remediation_messages: Vec<String>,
}

/// A message of the control plane.
#[derive(Debug)]
pub enum ServerMsg {
    Snapshot(EndpointSnapshot),
    Delta(SnapshotDelta),
    MembershipRevoked { network_id: u128, org_revision: u64, network_revision: u64, reason: String },
    ForceReenroll { reason: String },
    Ping { nonce: u64 },
    StartServe(ServeStart),
    ReconcileServes { serve_ids: Vec<String> },
    StopServe { serve_id: String },
    OpenTunnel(TunnelOpen),
    StopTunnel { tunnel_id: String },
    KillSshSession { session_id: String },
    SendFile(FileSend),
    AcceptTransfer { transfer_id: String },
    RejectTransfer(TransferReject),
    SetSendConsent(SendConsent),
    PostureRecheck,
    PostureConfigUpdate(PostureConfig),
    /// A policy as a document.
    AgentConfigUpdate { policy: String },
    PostureStatus(PostureVerdict),
}

/// Where an agent policy comes from.
#[derive(Clone, Copy, Debug, PartialEq, Eq)]
pub enum PolicySource<'a> {
    /// The membership of this network, as of its revision.
    Membership(&'a NetworkMembershipSnapshot),
    /// The full state itself, for an endpoint that is in no network.
    Snapshot(&'a EndpointSnapshot),
    /// A message of its own, which an operator sent and which always applies.
    Message(&'a String),
}

/// Something to carry out after a message, with what it is about.
#[derive(Clone, Copy, Debug, PartialEq, Eq)]
pub enum ControlStep<'a> {
    /// The first message to the control plane: who this is, and the revision
    /// of the organisation that is in force.
    SendHello { endpoint_id: &'a str, agent_version: &'a str, known_version: u64 },
    /// Put the membership's merged policy and own tags in force.
    ReplacePolicy(&'a NetworkMembershipSnapshot),
    /// Write the peers' host keys out.
    SyncKnownHosts(&'a NetworkMembershipSnapshot),
    /// Tell the mesh which of these relays are metered.
    SetCloudRelays(&'a Vec<ConnectivityRelay>),
    /// Hold the pooled connections against the new membership.
    ReconcilePool,
    /// Close every pooled connection.
    ClosePool,
    ReconcileDirectState,
    /// Put the routes of the membership into the kernel.
    ApplyRoutes(&'a NetworkMembershipSnapshot),
    ClearRoutes,
    /// Hand the agent policy to the posture engine.
    ApplyAgentPolicy(PolicySource<'a>),
    /// Merge the agent policy with the local settings and report the result.
    ReportEffectiveConfig(PolicySource<'a>),
    BringUp,
    BringDown,
    SaveSnapshot(&'a EndpointSnapshot),
    /// Answer a ping with its own number.
    SendPong(u64),
    /// Ask the control plane for a full state, naming the revision of the
    /// organisation that is in force.
    Poll(u64),
    MarkAclStale,
    StopDriver,
    StartServe(&'a ServeStart),
    /// Say why the service cannot be offered.
    RefuseServe { serve_id: &'a String, state: ManagerState },
    SendServeReady { serve_id: &'a String },
    SendServeFailed { serve_id: &'a String, error: &'a String },
    ReconcileServes(&'a Vec<String>),
    StopServe { serve_id: &'a String },
    SendServeStopped { serve_id: &'a String },
    OpenTunnel(&'a TunnelOpen),
    /// Say why the tunnel cannot be opened.
    RefuseTunnel { tunnel_id: &'a String, state: ManagerState },
    SendTunnelReady { tunnel_id: &'a String },
    SendTunnelFailed { tunnel_id: &'a String, error: &'a String },
    StopTunnel { tunnel_id: &'a String },
    SendTunnelStopped { tunnel_id: &'a String },
    KillSshSession { session_id: &'a String },
    SendFile(&'a FileSend),
    /// Say why the file cannot be sent.
    RefuseTransfer { transfer_id: &'a String, state: ManagerState },
    SendTransferFailed { transfer_id: &'a String, error: &'a String, rejected: bool },
    AcceptTransfer { transfer_id: &'a String },
    RejectTransfer(&'a TransferReject),
    SetSendConsent(&'a SendConsent),
    RecheckPosture,
    ApplyPostureConfig(&'a PostureConfig),
    ChangePostureStatus(&'a PostureVerdict),
    SendHeartbeat { active_conns: u32, bytes_tx: u64, bytes_rx: u64 },
    SendRelayUsage(u64),
}

/// What became of a message that carries state.
#[derive(Clone, Copy, Debug, PartialEq, Eq, Structural)]
pub enum Absorbed {
    /// It is in force now.
    Applied,
    /// The network is gone and its routes are cleared.
    Cleared,
    /// Nothing changed.
    Ignored,
}

/// What a managed endpoint holds of its network.
pub struct ManagedState {
    pub routes: RoutingTable,
    pub revisions: ManagedRevisions,
    pub network_id: u128,
    pub self_endpoint_id: String,
    pub self_hostname: String,
}

/// The revision that a full state gives for a network, even one that this
/// endpoint has left.
pub open spec fn revision_of(revisions: Seq<(u128, u64)>, id: u128) -> Option<u64>
    decreases revisions.len(),
{
    if revisions.len() == 0 {
        None
    } else if revisions[0].0 == id {
        Some(revisions[0].1)
    } else {
        revision_of(revisions.drop_first(), id)
    }
}

/// The network with nothing in it.
pub open spec fn cleared_slice(self_endpoint_id: Seq<char>) -> SliceView {
    SliceView {
        peers: Seq::empty(),
        subnet_routes: Seq::empty(),
        hostname_routes: Seq::empty(),
        exit_nodes: Seq::empty(),
        profile: default_profile(),
        dns_suffix: "tunnet"@,
        network_name: Seq::empty(),
        self_endpoint_id,
        peer_cidr: None,
    }
}

/// What becomes of a full state.
pub open spec fn snapshot_result(
    snap: EndpointSnapshot,
    check: PolicyCheck,
    current: ManagedRevisionSnapshot,
    id: u128,
) -> Absorbed {
    if is_member(snap.memberships@, id) {
        let m = snap.memberships@[membership_place(snap.memberships@, id)];
        if membership_applies(
            m@,
            check,
            opt_text(snap.policy_verifying_key),
            current,
            snap.version,
        ) {
            Absorbed::Applied
        } else {
            Absorbed::Ignored
        }
    } else {
        match revision_of(snap.network_revisions@, id) {
            Some(network) => if not_older(
                current,
                OrgRevision(snap.version),
                NetworkRevision(network),
            ) {
                Absorbed::Cleared
            } else {
                Absorbed::Ignored
            },
            None => Absorbed::Ignored,
        }
    }
}

/// Nothing of the state changed.
pub open spec fn unchanged(before: ManagedState, after: ManagedState) -> bool {
    &&& after.routes == before.routes
    &&& after.revisions@ == before.revisions@
    &&& after.same_place(before)
}

/// The network was emptied as of these revisions.
pub open spec fn emptied(
    before: ManagedState,
    after: ManagedState,
    org: u64,
    network: u64,
) -> bool {
    &&& after.routes.networks() == seq![
        (before.network_id, cleared_slice(before.self_endpoint_id@)),
    ]
    &&& after.routes.version_of() == before.routes.version_of()
    &&& after.routes.seq_of() == before.routes.seq_of().wrapping_add(1)
    &&& after.revisions@ == (ManagedRevisionSnapshot {
        org: OrgRevision(org),
        network: NetworkRevision(network),
    })
    &&& after.same_place(before)
}

/// The membership of a full state is in force.
pub open spec fn took_over(
    before: ManagedState,
    after: ManagedState,
    m: NetworkMembershipSnapshot,
    org: u64,
) -> bool {
    &&& after.routes.networks() == seq![
        (
            before.network_id,
            membership_slice(m@, before.self_endpoint_id@, before.self_hostname@),
        ),
    ]
    &&& after.routes.version_of() == m.version
    &&& after.routes.seq_of() == before.routes.seq_of().wrapping_add(1)
    &&& after.revisions@ == (ManagedRevisionSnapshot {
        org: OrgRevision(org),
        network: NetworkRevision(m.version),
    })
    &&& after.same_place(before)
}

/// How the state moves on a full state with the given result.
pub open spec fn snapshot_moves(
    before: ManagedState,
    after: ManagedState,
    snap: EndpointSnapshot,
    result: Absorbed,
) -> bool {
    match result {
        Absorbed::Applied => took_over(
            before,
            after,
            snap.memberships@[membership_place(snap.memberships@, before.network_id)],
            snap.version,
        ),
        Absorbed::Cleared => emptied(
            before,
            after,
            snap.version,
            revision_of(snap.network_revisions@, before.network_id)->0,
        ),
        Absorbed::Ignored => unchanged(before, after),
    }
}

/// How the state moves on a change of the network's peers.
pub open spec fn delta_moves(
    before: ManagedState,
    after: ManagedState,
    delta: SnapshotDelta,
) -> bool {
    let networks = before.routes.networks();
    let applies = delta.version >= before.revisions@.network.0;
    &&& after.same_place(before)
    &&& after.revisions@ == after_delta(before.revisions@, NetworkRevision(delta.version))
    &&& !applies || !has_slice(networks, before.network_id) ==> after.routes == before.routes
    &&& applies && has_slice(networks, before.network_id) ==> {
        let at = slice_place(networks, before.network_id);
        &&& after.routes.networks() == networks.update(
            at,
            (
                before.network_id,
                slice_after_delta(
                    networks[at].1,
                    views(delta.added@),
                    texts(delta.removed@),
                    before.self_endpoint_id@,
                    before.routes.model().network_name,
                ),
            ),
        )
        &&& after.routes.version_of() == delta.version
        &&& after.routes.seq_of() == before.routes.seq_of().wrapping_add(1)
    }
}

/// What becomes of a message.
pub open spec fn msg_result(state: ManagedState, msg: ServerMsg, check: PolicyCheck) -> Absorbed {
    match msg {
        ServerMsg::Snapshot(snap) => snapshot_result(
            snap,
            check,
            state.revisions@,
            state.network_id,
        ),
        ServerMsg::Delta(delta) => if delta.version >= state.revisions@.network.0 {
            Absorbed::Applied
        } else {
            Absorbed::Ignored
        },
        ServerMsg::MembershipRevoked { network_id, org_revision, network_revision, .. } => {
            if network_id == state.network_id && not_older(
                state.revisions@,
                OrgRevision(org_revision),
                NetworkRevision(network_revision),
            ) {
                Absorbed::Cleared
            } else {
                Absorbed::Ignored
            }
        },
        _ => Absorbed::Ignored,
    }
}

/// How the state moves on a message.
pub open spec fn msg_moves(
    before: ManagedState,
    after: ManagedState,
    msg: ServerMsg,
    check: PolicyCheck,
) -> bool {
    let result = msg_result(before, msg, check);
    match msg {
        ServerMsg::Snapshot(snap) => snapshot_moves(before, after, snap, result),
        ServerMsg::Delta(delta) => delta_moves(before, after, delta),
        ServerMsg::MembershipRevoked { network_id, org_revision, network_revision, .. } => {
            if result == Absorbed::Cleared {
                emptied(before, after, org_revision, network_revision)
            } else {
                unchanged(before, after)
            }
        },
        _ => unchanged(before, after),
    }
}

fn find_revision(revisions: &Vec<(u128, u64)>, id: u128) -> (r: Option<u64>)
    ensures
        r == revision_of(revisions@, id),
{
    let mut i: usize = 0;
    proof {
        assert(revisions@.skip(0) =~= revisions@);
    }
    while i < revisions.len()
        invariant
            i <= revisions@.len(),
            revision_of(revisions@.skip(i as int), id) == revision_of(revisions@, id),
        decreases revisions@.len() - i,
    {
        let ghost rest = revisions@.skip(i as int);
        proof {
            assert(rest.len() > 0);
            assert(rest[0] == revisions@[i as int]);
            assert(rest.drop_first() =~= revisions@.skip(i + 1));
        }
        if revisions[i].0 == id {
            return Some(revisions[i].1);
        }
        i = i + 1;
    }
    proof {
        assert(revisions@.skip(i as int).len() == 0);
    }
    None
}

impl ManagedState {
    pub open spec fn wf(&self) -> bool {
        self.routes.wf()
    }

    /// Which network and endpoint this is of.
    pub open spec fn same_place(&self, other: ManagedState) -> bool {
        &&& self.network_id == other.network_id
        &&& self.self_endpoint_id == other.self_endpoint_id
        &&& self.self_hostname == other.self_hostname
    }

    /// Takes over a full state: the membership of this network, or that the
    /// network is gone.
    pub fn take_snapshot(&mut self, snap: &EndpointSnapshot, check: PolicyCheck) -> (r: Absorbed)
        requires
            old(self).wf(),
        ensures
            final(self).wf(),
            r == snapshot_result(*snap, check, old(self).revisions@, old(self).network_id),
            snapshot_moves(*old(self), *final(self), *snap, r),
    {
        let key: Option<&str> = match &snap.policy_verifying_key {
            Some(k) => Some(k.as_str()),
            None => None,
        };
        match membership_for_network(snap, self.network_id) {
            Ok(m) => {
                let applied = apply_membership(
                    m,
                    check,
                    key,
                    &mut self.routes,
                    &mut self.revisions,
                    snap.version,
                    self.self_endpoint_id.as_str(),
                    self.self_hostname.as_str(),
                );
                if applied {
                    Absorbed::Applied
                } else {
                    Absorbed::Ignored
                }
            },
            Err(_) => match find_revision(&snap.network_revisions, self.network_id) {
                Some(network) => if self.revisions.accept_absence(snap.version, network) {
                    self.routes.clear_managed(self.network_id, self.self_endpoint_id.as_str());
                    Absorbed::Cleared
                } else {
                    Absorbed::Ignored
                },
                None => Absorbed::Ignored,
            },
        }
    }

    /// Takes over what a message says of the network.
    pub fn absorb(&mut self, msg: &ServerMsg, check: PolicyCheck) -> (r: Absorbed)
        requires
            old(self).wf(),
        ensures
            final(self).wf(),
            r == msg_result(*old(self), *msg, check),
            msg_moves(*old(self), *final(self), *msg, check),
    {
        match msg {
            ServerMsg::Snapshot(snap) => self.take_snapshot(snap, check),
            ServerMsg::Delta(delta) => {
                let name = self.routes.network_name();
                if apply_delta(
                    &mut self.routes,
                    &mut self.revisions,
                    delta,
                    self.self_endpoint_id.as_str(),
                    self.network_id,
                    name.as_str(),
                ) {
                    Absorbed::Applied
                } else {
                    Absorbed::Ignored
                }
            },
            ServerMsg::MembershipRevoked { network_id, org_revision, network_revision, .. } => {
                if *network_id == self.network_id && self.revisions.accept_absence(
                    *org_revision,
                    *network_revision,
                ) {
                    self.routes.clear_managed(self.network_id, self.self_endpoint_id.as_str());
                    Absorbed::Cleared
                } else {
                    Absorbed::Ignored
                }
            },
            _ => Absorbed::Ignored,
        }
    }
}

/// Which parts of a full agent are connected.
#[derive(Clone, Copy, Debug, PartialEq, Eq, Structural)]
pub struct AgentWiring {
    pub routes: bool,
    pub dataplane: bool,
    pub posture: bool,
    pub ssh_registry: bool,
    /// Whether there is a client to poll with.
    pub poll_client: bool,
}

/// Whether a manager is there to do what it is for.
#[derive(Clone, Copy, Debug, PartialEq, Eq, Structural)]
pub enum ManagerState {
    /// The program was built without it.
    Disabled,
    /// It was not handed over.
    Missing,
    Ready,
}

/// Which parts of an embedded endpoint are connected.
#[derive(Clone, Copy, Debug, PartialEq, Eq, Structural)]
pub struct DriverWiring {
    pub mesh: bool,
    pub pool: bool,
    pub effective_config: bool,
    pub poll_client: bool,
    pub serve: ManagerState,
    pub tunnel: ManagerState,
    pub send: ManagerState,
}

/// One step where a condition holds, and none otherwise.
pub open spec fn when<'a>(on: bool, step: ControlStep<'a>) -> Seq<ControlStep<'a>> {
    if on {
        seq![step]
    } else {
        Seq::empty()
    }
}

/// The membership of a network in a full state that holds one.
pub open spec fn member_of<'a>(snap: &'a EndpointSnapshot, id: u128) -> &'a NetworkMembershipSnapshot {
    &snap.memberships@[membership_place(snap.memberships@, id)]
}

/// The steps of a full agent once the membership of a full state is in force.
pub open spec fn agent_applied<'a>(
    snap: &'a EndpointSnapshot,
    m: &'a NetworkMembershipSnapshot,
    w: AgentWiring,
) -> Seq<ControlStep<'a>> {
    seq![
        ControlStep::ReplacePolicy(m),
        ControlStep::SyncKnownHosts(m),
        ControlStep::SetCloudRelays(&snap.connectivity_relays),
        ControlStep::ReconcilePool,
    ] + when(w.dataplane, ControlStep::ReconcileDirectState) + when(
        w.routes,
        ControlStep::ApplyRoutes(m),
    ) + seq![
        if w.posture {
            ControlStep::ApplyAgentPolicy(PolicySource::Membership(m))
        } else {
            ControlStep::ReportEffectiveConfig(PolicySource::Membership(m))
        },
    ] + when(w.dataplane, ControlStep::BringUp) + seq![ControlStep::SaveSnapshot(snap)]
}

/// The steps of a full agent once its network is gone.
pub open spec fn agent_cleared<'a>(w: AgentWiring) -> Seq<ControlStep<'a>> {
    seq![ControlStep::ReconcilePool, ControlStep::ClosePool] + when(
        w.routes,
        ControlStep::ClearRoutes,
    ) + when(w.dataplane, ControlStep::BringDown)
}

/// What a full agent does after a full state with the given result, where `id`
/// is its network.
pub open spec fn agent_snapshot<'a>(
    snap: &'a EndpointSnapshot,
    result: Absorbed,
    w: AgentWiring,
    id: u128,
) -> Seq<ControlStep<'a>> {
    match result {
        Absorbed::Applied => agent_applied(snap, member_of(snap, id), w),
        Absorbed::Cleared => agent_cleared(w) + seq![ControlStep::SaveSnapshot(snap)],
        Absorbed::Ignored => Seq::empty(),
    }
}

/// What a full agent does after a message with the given result, where `known`
/// is the revision of the organisation before it, and `id` the agent's network.
pub open spec fn agent_steps<'a>(
    msg: &'a ServerMsg,
    result: Absorbed,
    w: AgentWiring,
    known: u64,
    id: u128,
) -> Seq<ControlStep<'a>> {
    match msg {
        ServerMsg::Snapshot(snap) => agent_snapshot(snap, result, w, id),
        ServerMsg::Delta(_) => if result == Absorbed::Applied {
            seq![ControlStep::ReconcilePool] + when(
                w.dataplane,
                ControlStep::ReconcileDirectState,
            )
        } else {
            Seq::empty()
        },
        ServerMsg::MembershipRevoked { .. } => if result == Absorbed::Cleared {
            agent_cleared(w)
        } else {
            Seq::empty()
        },
        ServerMsg::ForceReenroll { .. } => Seq::empty(),
        ServerMsg::Ping { nonce } => seq![ControlStep::SendPong(*nonce)] + when(
            w.poll_client,
            ControlStep::Poll(known),
        ),
        ServerMsg::StartServe(req) => seq![ControlStep::StartServe(req)],
        ServerMsg::ReconcileServes { serve_ids } => seq![ControlStep::ReconcileServes(serve_ids)],
        ServerMsg::StopServe { serve_id } => seq![
            ControlStep::StopServe { serve_id },
            ControlStep::SendServeStopped { serve_id },
        ],
        ServerMsg::OpenTunnel(req) => seq![ControlStep::OpenTunnel(req)],
        ServerMsg::StopTunnel { tunnel_id } => seq![
            ControlStep::StopTunnel { tunnel_id },
            ControlStep::SendTunnelStopped { tunnel_id },
        ],
        ServerMsg::KillSshSession { session_id } => when(
            w.ssh_registry,
            (ControlStep::KillSshSession { session_id }),
        ),
        ServerMsg::SendFile(req) => seq![ControlStep::SendFile(req)],
        ServerMsg::AcceptTransfer { transfer_id } => seq![
            ControlStep::AcceptTransfer { transfer_id },
        ],
        ServerMsg::RejectTransfer(req) => seq![ControlStep::RejectTransfer(req)],
        ServerMsg::SetSendConsent(req) => seq![ControlStep::SetSendConsent(req)],
        ServerMsg::PostureRecheck => when(w.posture, ControlStep::RecheckPosture),
        ServerMsg::PostureConfigUpdate(config) => when(
            w.posture,
            ControlStep::ApplyPostureConfig(config),
        ),
        ServerMsg::AgentConfigUpdate { policy } => when(
            w.posture,
            ControlStep::ApplyAgentPolicy(PolicySource::Message(policy)),
        ),
        ServerMsg::PostureStatus(verdict) => when(
            w.posture,
            ControlStep::ChangePostureStatus(verdict),
        ),
    }
}

/// The steps of an embedded endpoint once its network is gone.
pub open spec fn driver_cleared<'a>(w: DriverWiring) -> Seq<ControlStep<'a>> {
    when(w.pool, ControlStep::ReconcilePool) + when(w.pool, ControlStep::ClosePool)
}

/// The steps of an embedded endpoint after a full state was sent.
pub open spec fn driver_snapshot<'a>(
    snap: &'a EndpointSnapshot,
    result: Absorbed,
    w: DriverWiring,
    id: u128,
) -> Seq<ControlStep<'a>> {
    match result {
        Absorbed::Applied => {
            let m = member_of(snap, id);
            seq![ControlStep::ReplacePolicy(m), ControlStep::SyncKnownHosts(m)] + when(
                w.mesh,
                ControlStep::SetCloudRelays(&snap.connectivity_relays),
            ) + when(w.pool, ControlStep::ReconcilePool) + seq![ControlStep::SaveSnapshot(snap)]
                + when(
                w.effective_config,
                ControlStep::ReportEffectiveConfig(PolicySource::Membership(m)),
            )
        },
        Absorbed::Cleared => driver_cleared(w) + seq![ControlStep::SaveSnapshot(snap)] + when(
            w.effective_config,
            ControlStep::ReportEffectiveConfig(PolicySource::Snapshot(snap)),
        ),
        Absorbed::Ignored => Seq::empty(),
    }
}

/// What a message to a manager comes to, by whether it is there.
pub open spec fn by_manager<'a>(
    state: ManagerState,
    ready: Seq<ControlStep<'a>>,
    missing: Seq<ControlStep<'a>>,
    disabled: Seq<ControlStep<'a>>,
) -> Seq<ControlStep<'a>> {
    match state {
        ManagerState::Ready => ready,
        ManagerState::Missing => missing,
        ManagerState::Disabled => disabled,
    }
}

/// What an embedded endpoint does after a message with the given result, where
/// `known` is the revision of the organisation before it, and `id` the
/// endpoint's network.
pub open spec fn driver_steps<'a>(
    msg: &'a ServerMsg,
    result: Absorbed,
    w: DriverWiring,
    known: u64,
    id: u128,
) -> Seq<ControlStep<'a>> {
    let none = Seq::<ControlStep>::empty();
    match msg {
        ServerMsg::Snapshot(snap) => driver_snapshot(snap, result, w, id),
        ServerMsg::Delta(_) => when(
            result == Absorbed::Applied && w.pool,
            ControlStep::ReconcilePool,
        ),
        ServerMsg::MembershipRevoked { .. } => if result == Absorbed::Cleared {
            driver_cleared(w)
        } else {
            none
        },
        ServerMsg::ForceReenroll { .. } => seq![ControlStep::StopDriver],
        ServerMsg::Ping { nonce } => seq![ControlStep::SendPong(*nonce)] + when(
            w.poll_client,
            ControlStep::Poll(known),
        ),
        ServerMsg::StartServe(req) => if w.serve == ManagerState::Ready {
            seq![ControlStep::StartServe(req)]
        } else {
            seq![ControlStep::RefuseServe { serve_id: &req.serve_id, state: w.serve }]
        },
        ServerMsg::ReconcileServes { serve_ids } => by_manager(
            w.serve,
            seq![ControlStep::ReconcileServes(serve_ids)],
            none,
            none,
        ),
        ServerMsg::StopServe { serve_id } => by_manager(
            w.serve,
            seq![ControlStep::StopServe { serve_id }, ControlStep::SendServeStopped { serve_id }],
            seq![ControlStep::SendServeStopped { serve_id }],
            seq![ControlStep::SendServeStopped { serve_id }],
        ),
        ServerMsg::OpenTunnel(req) => if w.tunnel == ManagerState::Ready {
            seq![ControlStep::OpenTunnel(req)]
        } else {
            seq![ControlStep::RefuseTunnel { tunnel_id: &req.tunnel_id, state: w.tunnel }]
        },
        ServerMsg::StopTunnel { tunnel_id } => by_manager(
            w.tunnel,
            seq![
                ControlStep::StopTunnel { tunnel_id },
                ControlStep::SendTunnelStopped { tunnel_id },
            ],
            seq![ControlStep::SendTunnelStopped { tunnel_id }],
            seq![ControlStep::SendTunnelStopped { tunnel_id }],
        ),
        ServerMsg::KillSshSession { .. } => none,
        ServerMsg::SendFile(req) => by_manager(
            w.send,
            seq![ControlStep::SendFile(req)],
            none,
            seq![ControlStep::RefuseTransfer { transfer_id: &req.transfer_id, state: w.send }],
        ),
        ServerMsg::AcceptTransfer { transfer_id } => by_manager(
            w.send,
            seq![ControlStep::AcceptTransfer { transfer_id }],
            none,
            none,
        ),
        ServerMsg::RejectTransfer(req) => by_manager(
            w.send,
            seq![ControlStep::RejectTransfer(req)],
            none,
            none,
        ),
        ServerMsg::SetSendConsent(req) => by_manager(
            w.send,
            seq![ControlStep::SetSendConsent(req)],
            none,
            none,
        ),
        ServerMsg::PostureRecheck => none,
        ServerMsg::PostureConfigUpdate(_) => none,
        ServerMsg::AgentConfigUpdate { policy } => when(
            w.effective_config,
            ControlStep::ReportEffectiveConfig(PolicySource::Message(policy)),
        ),
        ServerMsg::PostureStatus(_) => none,
    }
}

/// What an embedded endpoint does after a periodic poll brought a full state.
pub open spec fn poll_steps<'a>(
    snap: &'a EndpointSnapshot,
    result: Absorbed,
    w: DriverWiring,
    id: u128,
) -> Seq<ControlStep<'a>> {
    match result {
        Absorbed::Applied => seq![
            ControlStep::ReplacePolicy(member_of(snap, id)),
            ControlStep::SyncKnownHosts(member_of(snap, id)),
        ] + when(w.pool, ControlStep::ReconcilePool),
        Absorbed::Cleared => driver_cleared(w),
        Absorbed::Ignored => Seq::empty(),
    }
}

fn add<'a>(steps: &mut Vec<ControlStep<'a>>, on: bool, step: ControlStep<'a>)
    ensures
        final(steps)@ == old(steps)@ + when(on, step),
{
    if on {
        steps.push(step);
    }
    proof {
        assert(steps@ =~= old(steps)@ + when(on, step));
    }
}

fn one<'a>(step: ControlStep<'a>) -> (r: Vec<ControlStep<'a>>)
    ensures
        r@ == seq![step],
{
    let mut steps: Vec<ControlStep<'a>> = Vec::new();
    steps.push(step);
    proof {
        assert(steps@ =~= seq![step]);
    }
    steps
}

fn two<'a>(first: ControlStep<'a>, second: ControlStep<'a>) -> (r: Vec<ControlStep<'a>>)
    ensures
        r@ == seq![first, second],
{
    let mut steps: Vec<ControlStep<'a>> = Vec::new();
    steps.push(first);
    steps.push(second);
    proof {
        assert(steps@ =~= seq![first, second]);
    }
    steps
}

fn only_when<'a>(on: bool, step: ControlStep<'a>) -> (r: Vec<ControlStep<'a>>)
    ensures
        r@ == when(on, step),
{
    let mut steps: Vec<ControlStep<'a>> = Vec::new();
    self::add(&mut steps, on, step);
    proof {
        assert(steps@ =~= when(on, step));
    }
    steps
}

/// The membership of a full state that was found to hold one.
fn found_member<'a>(snap: &'a EndpointSnapshot, id: u128) -> (r: Option<&'a NetworkMembershipSnapshot>)
    ensures
        r is Some <==> is_member(snap.memberships@, id),
        r matches Some(m) ==> m == member_of(snap, id),
{
    match membership_for_network(snap, id) {
        Ok(m) => Some(m),
        Err(_) => None,
    }
}

fn list_agent_applied<'a>(
    snap: &'a EndpointSnapshot,
    m: &'a NetworkMembershipSnapshot,
    w: AgentWiring,
) -> (r: Vec<ControlStep<'a>>)
    ensures
        r@ == agent_applied(snap, m, w),
{
    let mut steps = two(ControlStep::ReplacePolicy(m), ControlStep::SyncKnownHosts(m));
    steps.push(ControlStep::SetCloudRelays(&snap.connectivity_relays));
    steps.push(ControlStep::ReconcilePool);
    self::add(&mut steps, w.dataplane, ControlStep::ReconcileDirectState);
    self::add(&mut steps, w.routes, ControlStep::ApplyRoutes(m));
    if w.posture {
        steps.push(ControlStep::ApplyAgentPolicy(PolicySource::Membership(m)));
    } else {
        steps.push(ControlStep::ReportEffectiveConfig(PolicySource::Membership(m)));
    }
    self::add(&mut steps, w.dataplane, ControlStep::BringUp);
    steps.push(ControlStep::SaveSnapshot(snap));
    proof {
        assert(steps@ =~= agent_applied(snap, m, w));
    }
    steps
}

fn list_agent_cleared<'a>(w: AgentWiring) -> (r: Vec<ControlStep<'a>>)
    ensures
        r@ == agent_cleared(w),
{
    let mut steps = two(ControlStep::ReconcilePool, ControlStep::ClosePool);
    self::add(&mut steps, w.routes, ControlStep::ClearRoutes);
    self::add(&mut steps, w.dataplane, ControlStep::BringDown);
    steps
}

fn list_agent_snapshot<'a>(
    snap: &'a EndpointSnapshot,
    result: Absorbed,
    w: AgentWiring,
    id: u128,
) -> (r: Vec<ControlStep<'a>>)
    requires
        result == Absorbed::Applied ==> is_member(snap.memberships@, id),
    ensures
        r@ == agent_snapshot(snap, result, w, id),
{
    match result {
        Absorbed::Applied => match found_member(snap, id) {
            Some(m) => list_agent_applied(snap, m, w),
            None => Vec::new(),
        },
        Absorbed::Cleared => {
            let mut steps = list_agent_cleared(w);
            self::add(&mut steps, true, ControlStep::SaveSnapshot(snap));
            steps
        },
        Absorbed::Ignored => Vec::new(),
    }
}

fn list_driver_cleared<'a>(w: DriverWiring) -> (r: Vec<ControlStep<'a>>)
    ensures
        r@ == driver_cleared(w),
{
    let mut steps = only_when(w.pool, ControlStep::ReconcilePool);
    self::add(&mut steps, w.pool, ControlStep::ClosePool);
    steps
}

fn list_driver_snapshot<'a>(
    snap: &'a EndpointSnapshot,
    result: Absorbed,
    w: DriverWiring,
    id: u128,
) -> (r: Vec<ControlStep<'a>>)
    requires
        result == Absorbed::Applied ==> is_member(snap.memberships@, id),
    ensures
        r@ == driver_snapshot(snap, result, w, id),
{
    match result {
        Absorbed::Applied => match found_member(snap, id) {
            Some(m) => {
                let mut steps = two(ControlStep::ReplacePolicy(m), ControlStep::SyncKnownHosts(m));
                self::add(
                    &mut steps,
                    w.mesh,
                    ControlStep::SetCloudRelays(&snap.connectivity_relays),
                );
                self::add(&mut steps, w.pool, ControlStep::ReconcilePool);
                self::add(&mut steps, true, ControlStep::SaveSnapshot(snap));
                self::add(
                    &mut steps,
                    w.effective_config,
                    ControlStep::ReportEffectiveConfig(PolicySource::Membership(m)),
                );
                steps
            },
            None => Vec::new(),
        },
        Absorbed::Cleared => {
            let mut steps = list_driver_cleared(w);
            self::add(&mut steps, true, ControlStep::SaveSnapshot(snap));
            self::add(
                &mut steps,
                w.effective_config,
                ControlStep::ReportEffectiveConfig(PolicySource::Snapshot(snap)),
            );
            steps
        },
        Absorbed::Ignored => Vec::new(),
    }
}

/// The steps of one message for a full agent.
fn list_agent<'a>(msg: &'a ServerMsg, result: Absorbed, w: AgentWiring, known: u64, id: u128) -> (r:
    Vec<ControlStep<'a>>)
    requires
        msg is Snapshot && result == Absorbed::Applied ==> is_member(
            msg->Snapshot_0.memberships@,
            id,
        ),
    ensures
        r@ == agent_steps(msg, result, w, known, id),
{
    match msg {
        ServerMsg::Snapshot(snap) => list_agent_snapshot(snap, result, w, id),
        ServerMsg::Delta(_) => if result == Absorbed::Applied {
            let mut steps = one(ControlStep::ReconcilePool);
            self::add(&mut steps, w.dataplane, ControlStep::ReconcileDirectState);
            steps
        } else {
            Vec::new()
        },
        ServerMsg::MembershipRevoked { .. } => {
            if result == Absorbed::Cleared {
                list_agent_cleared(w)
            } else {
                Vec::new()
            }
        },
        ServerMsg::ForceReenroll { .. } => Vec::new(),
        ServerMsg::Ping { nonce } => {
            let mut steps = one(ControlStep::SendPong(*nonce));
            self::add(&mut steps, w.poll_client, ControlStep::Poll(known));
            steps
        },
        ServerMsg::StartServe(req) => one(ControlStep::StartServe(req)),
        ServerMsg::ReconcileServes { serve_ids } => one(ControlStep::ReconcileServes(serve_ids)),
        ServerMsg::StopServe { serve_id } => two(
            ControlStep::StopServe { serve_id },
            ControlStep::SendServeStopped { serve_id },
        ),
        ServerMsg::OpenTunnel(req) => one(ControlStep::OpenTunnel(req)),
        ServerMsg::StopTunnel { tunnel_id } => two(
            ControlStep::StopTunnel { tunnel_id },
            ControlStep::SendTunnelStopped { tunnel_id },
        ),
        ServerMsg::KillSshSession { session_id } => only_when(
            w.ssh_registry,
            ControlStep::KillSshSession { session_id },
        ),
        ServerMsg::SendFile(req) => one(ControlStep::SendFile(req)),
        ServerMsg::AcceptTransfer { transfer_id } => one(
            ControlStep::AcceptTransfer { transfer_id },
        ),
        ServerMsg::RejectTransfer(req) => one(ControlStep::RejectTransfer(req)),
        ServerMsg::SetSendConsent(req) => one(ControlStep::SetSendConsent(req)),
        ServerMsg::PostureRecheck => only_when(w.posture, ControlStep::RecheckPosture),
        ServerMsg::PostureConfigUpdate(config) => only_when(
            w.posture,
            ControlStep::ApplyPostureConfig(config),
        ),
        ServerMsg::AgentConfigUpdate { policy } => only_when(
            w.posture,
            ControlStep::ApplyAgentPolicy(PolicySource::Message(policy)),
        ),
        ServerMsg::PostureStatus(verdict) => only_when(
            w.posture,
            ControlStep::ChangePostureStatus(verdict),
        ),
    }
}

fn is_ready(state: ManagerState) -> (r: bool)
    ensures
        r == (state == ManagerState::Ready),
{
    state == ManagerState::Ready
}

/// The steps of one message for an embedded endpoint.
fn list_driver<'a>(msg: &'a ServerMsg, result: Absorbed, w: DriverWiring, known: u64, id: u128) -> (r:
    Vec<ControlStep<'a>>)
    requires
        msg is Snapshot && result == Absorbed::Applied ==> is_member(
            msg->Snapshot_0.memberships@,
            id,
        ),
    ensures
        r@ == driver_steps(msg, result, w, known, id),
{
    match msg {
        ServerMsg::Snapshot(snap) => list_driver_snapshot(snap, result, w, id),
        ServerMsg::Delta(_) => only_when(
            result == Absorbed::Applied && w.pool,
            ControlStep::ReconcilePool,
        ),
        ServerMsg::MembershipRevoked { .. } => {
            if result == Absorbed::Cleared {
                list_driver_cleared(w)
            } else {
                Vec::new()
            }
        },
        ServerMsg::ForceReenroll { .. } => one(ControlStep::StopDriver),
        ServerMsg::Ping { nonce } => {
            let mut steps = one(ControlStep::SendPong(*nonce));
            self::add(&mut steps, w.poll_client, ControlStep::Poll(known));
            steps
        },
        ServerMsg::StartServe(req) => if is_ready(w.serve) {
            one(ControlStep::StartServe(req))
        } else {
            one(ControlStep::RefuseServe { serve_id: &req.serve_id, state: w.serve })
        },
        ServerMsg::ReconcileServes { serve_ids } => only_when(
            is_ready(w.serve),
            ControlStep::ReconcileServes(serve_ids),
        ),
        ServerMsg::StopServe { serve_id } => if is_ready(w.serve) {
            two(ControlStep::StopServe { serve_id }, ControlStep::SendServeStopped { serve_id })
        } else {
            one(ControlStep::SendServeStopped { serve_id })
        },
        ServerMsg::OpenTunnel(req) => if is_ready(w.tunnel) {
            one(ControlStep::OpenTunnel(req))
        } else {
            one(ControlStep::RefuseTunnel { tunnel_id: &req.tunnel_id, state: w.tunnel })
        },
        ServerMsg::StopTunnel { tunnel_id } => if is_ready(w.tunnel) {
            two(
                ControlStep::StopTunnel { tunnel_id },
                ControlStep::SendTunnelStopped { tunnel_id },
            )
        } else {
            one(ControlStep::SendTunnelStopped { tunnel_id })
        },
        ServerMsg::KillSshSession { .. } => Vec::new(),
        ServerMsg::SendFile(req) => if is_ready(w.send) {
            one(ControlStep::SendFile(req))
        } else {
            only_when(
                w.send == ManagerState::Disabled,
                ControlStep::RefuseTransfer { transfer_id: &req.transfer_id, state: w.send },
            )
        },
        ServerMsg::AcceptTransfer { transfer_id } => only_when(
            is_ready(w.send),
            ControlStep::AcceptTransfer { transfer_id },
        ),
        ServerMsg::RejectTransfer(req) => only_when(
            is_ready(w.send),
            ControlStep::RejectTransfer(req),
        ),
        ServerMsg::SetSendConsent(req) => only_when(
            is_ready(w.send),
            ControlStep::SetSendConsent(req),
        ),
        ServerMsg::PostureRecheck => Vec::new(),
        ServerMsg::PostureConfigUpdate(_) => Vec::new(),
        ServerMsg::AgentConfigUpdate { policy } => only_when(
            w.effective_config,
            ControlStep::ReportEffectiveConfig(PolicySource::Message(policy)),
        ),
        ServerMsg::PostureStatus(_) => Vec::new(),
    }
}

/// Whether a full state that a wake-up poll brought is worth applying: this
/// endpoint is in the network and a revision differs.
pub open spec fn wakes(
    snap: EndpointSnapshot,
    current: ManagedRevisionSnapshot,
    id: u128,
) -> bool {
    is_member(snap.memberships@, id) && (snap.version != current.org.0
        || snap.memberships@[membership_place(snap.memberships@, id)].version
        != current.network.0)
}

impl ManagedState {
    /// What a full agent does with a message of the control plane.
    pub fn handle_server<'a>(&mut self, msg: &'a ServerMsg, check: PolicyCheck, wiring: AgentWiring) -> (r:
        Vec<ControlStep<'a>>)
        requires
            old(self).wf(),
        ensures
            final(self).wf(),
            msg_moves(*old(self), *final(self), *msg, check),
            r@ == agent_steps(
                msg,
                msg_result(*old(self), *msg, check),
                wiring,
                old(self).revisions@.org.0,
                old(self).network_id,
            ),
    {
        let known: u64 = self.revisions.load().org.0;
        let result = self.absorb(msg, check);
        list_agent(msg, result, wiring, known, self.network_id)
    }

    /// What a full agent does when a poll has ended; a full state counts like
    /// one that was sent, and without one the policy is marked stale.
    pub fn poll_completed<'a>(
        &mut self,
        snap: Option<&'a EndpointSnapshot>,
        check: PolicyCheck,
        wiring: AgentWiring,
    ) -> (r: Vec<ControlStep<'a>>)
        requires
            old(self).wf(),
        ensures
            final(self).wf(),
            match snap {
                Some(s) => {
                    let result = snapshot_result(
                        *s,
                        check,
                        old(self).revisions@,
                        old(self).network_id,
                    );
                    &&& snapshot_moves(*old(self), *final(self), *s, result)
                    &&& r@ == agent_snapshot(s, result, wiring, old(self).network_id)
                },
                None => {
                    &&& unchanged(*old(self), *final(self))
                    &&& r@ == seq![ControlStep::MarkAclStale]
                },
            },
    {
        match snap {
            Some(s) => {
                let result = self.take_snapshot(s, check);
                list_agent_snapshot(s, result, wiring, self.network_id)
            },
            None => one(ControlStep::MarkAclStale),
        }
    }

    /// The poll that falls due, where there is a client to poll with.
    pub fn poll_now(&self, poll_client: bool) -> (r: Vec<ControlStep<'static>>)
        ensures
            r@ == when(poll_client, ControlStep::Poll(self.revisions@.org.0)),
    {
        only_when(poll_client, ControlStep::Poll(self.revisions.load().org.0))
    }

    /// The revision of the organisation that the first message to the control
    /// plane names.
    pub fn known_version(&self) -> (r: u64)
        ensures
            r == self.revisions@.org.0,
    {
        self.revisions.load().org.0
    }

    /// The first message to the control plane. It names the revision of the
    /// organisation, not that of the network.
    pub fn hello<'a>(&self, agent_version: &'a str) -> (r: ControlStep<'a>)
        ensures
            r matches ControlStep::SendHello { endpoint_id, agent_version: v, known_version }
                && endpoint_id@ == "self"@ && v == agent_version && known_version
                == self.revisions@.org.0,
    {
        ControlStep::SendHello {
            endpoint_id: "self",
            agent_version,
            known_version: self.known_version(),
        }
    }

    /// What a membership asks of the kernel's routes: the networks behind other
    /// members, a way out where its profile names one, and the given routes to
    /// peers, which lead to single hosts.
    pub fn wished_routes(
        &self,
        m: &NetworkMembershipSnapshot,
        ifname: &str,
        looked_up: Option<u32>,
        overlay: Vec<Ipv4Net>,
    ) -> (r: DesiredRoutes)
        requires
            forall|i: int| 0 <= i < overlay@.len() ==> (#[trigger] overlay@[i]).bits() == 32,
        ensures
            r.wf(),
            r.ifname@ == ifname@,
            r.tun_if_index == looked_up,
            r.profile@ == m.device_profile@,
            r.remote_subnets@ == remote(views(m.subnet_routes@), self.self_endpoint_id@),
            r.peer_routes@ == overlay@,
            r.has_exit == (m.device_profile.exit_node_endpoint_id is Some),
            r.underlay_hosts@ == Seq::<u32>::empty(),
            r.underlay is None,
    {
        let subnets = remote_subnets(&m.subnet_routes, self.self_endpoint_id.as_str());
        let has_exit = m.device_profile.exit_node_endpoint_id.is_some();
        membership_desired(ifname, looked_up, &m.device_profile, &subnets, has_exit, overlay)
    }

    /// What an embedded endpoint does with a message of the control plane.
    pub fn drive<'a>(&mut self, msg: &'a ServerMsg, check: PolicyCheck, wiring: DriverWiring) -> (r: Vec<
        ControlStep<'a>,
    >)
        requires
            old(self).wf(),
        ensures
            final(self).wf(),
            msg_moves(*old(self), *final(self), *msg, check),
            r@ == driver_steps(
                msg,
                msg_result(*old(self), *msg, check),
                wiring,
                old(self).revisions@.org.0,
                old(self).network_id,
            ),
    {
        let known: u64 = self.revisions.load().org.0;
        let result = self.absorb(msg, check);
        list_driver(msg, result, wiring, known, self.network_id)
    }

    /// What an embedded endpoint does when a periodic poll has ended.
    pub fn poll_once<'a>(
        &mut self,
        snap: Option<&'a EndpointSnapshot>,
        check: PolicyCheck,
        wiring: DriverWiring,
    ) -> (r: Vec<ControlStep<'a>>)
        requires
            old(self).wf(),
        ensures
            final(self).wf(),
            match snap {
                Some(s) => {
                    let result = snapshot_result(
                        *s,
                        check,
                        old(self).revisions@,
                        old(self).network_id,
                    );
                    &&& snapshot_moves(*old(self), *final(self), *s, result)
                    &&& r@ == poll_steps(s, result, wiring, old(self).network_id)
                },
                None => {
                    &&& unchanged(*old(self), *final(self))
                    &&& r@ == seq![ControlStep::MarkAclStale]
                },
            },
    {
        let s = match snap {
            Some(s) => s,
            None => {
                return one(ControlStep::MarkAclStale);
            },
        };
        match self.take_snapshot(s, check) {
            Absorbed::Applied => match found_member(s, self.network_id) {
                Some(m) => {
                    let mut steps = two(
                        ControlStep::ReplacePolicy(m),
                        ControlStep::SyncKnownHosts(m),
                    );
                    self::add(&mut steps, wiring.pool, ControlStep::ReconcilePool);
                    steps
                },
                None => Vec::new(),
            },
            Absorbed::Cleared => list_driver_cleared(wiring),
            Absorbed::Ignored => Vec::new(),
        }
    }

    /// What an embedded endpoint does when the poll that a ping set off has
    /// ended. A membership at the revisions in force is left alone, and so is
    /// the absence of one.
    pub fn ping_polled<'a>(
        &mut self,
        snap: Option<&'a EndpointSnapshot>,
        check: PolicyCheck,
        wiring: DriverWiring,
    ) -> (r: Vec<ControlStep<'a>>)
        requires
            old(self).wf(),
        ensures
            final(self).wf(),
            ({
                let worth = snap is Some && wakes(
                    *snap->0,
                    old(self).revisions@,
                    old(self).network_id,
                );
                let result = snapshot_result(
                    *snap->0,
                    check,
                    old(self).revisions@,
                    old(self).network_id,
                );
                if worth && result == Absorbed::Applied {
                    let m = member_of(snap->0, old(self).network_id);
                    &&& snapshot_moves(*old(self), *final(self), *snap->0, result)
                    &&& r@ == seq![
                        ControlStep::ReplacePolicy(m),
                        ControlStep::SyncKnownHosts(m),
                    ] + when(wiring.pool, ControlStep::ReconcilePool) + seq![
                        ControlStep::SaveSnapshot(snap->0),
                    ] + when(
                        wiring.effective_config,
                        ControlStep::ReportEffectiveConfig(PolicySource::Membership(m)),
                    )
                } else {
                    &&& unchanged(*old(self), *final(self))
                    &&& r@ == Seq::<ControlStep>::empty()
                }
            }),
    {
        let s = match snap {
            Some(s) => s,
            None => {
                return Vec::new();
            },
        };
        let current = self.revisions.load();
        let m = match found_member(s, self.network_id) {
            Some(m) => m,
            None => {
                return Vec::new();
            },
        };
        let worth = s.version != current.org.0 || m.version != current.network.0;
        if !worth || self.take_snapshot(s, check) != Absorbed::Applied {
            return Vec::new();
        }
        let mut steps = two(ControlStep::ReplacePolicy(m), ControlStep::SyncKnownHosts(m));
        self::add(&mut steps, wiring.pool, ControlStep::ReconcilePool);
        self::add(&mut steps, true, ControlStep::SaveSnapshot(s));
        self::add(
            &mut steps,
            wiring.effective_config,
            ControlStep::ReportEffectiveConfig(PolicySource::Membership(m)),
        );
        steps
    }
}

/// What goes out with each heartbeat: the heartbeat itself with the mesh's
/// counters, and the metered bytes where there are any.
pub fn heartbeat(counters: (u32, u64, u64), relay_bytes: u64) -> (r: Vec<ControlStep<'static>>)
    ensures
        r@ == seq![
            ControlStep::SendHeartbeat {
                active_conns: counters.0,
                bytes_tx: counters.1,
                bytes_rx: counters.2,
            },
        ] + when(relay_bytes > 0, ControlStep::SendRelayUsage(relay_bytes)),
{
    let mut steps = one(
        ControlStep::SendHeartbeat {
            active_conns: counters.0,
            bytes_tx: counters.1,
            bytes_rx: counters.2,
        },
    );
    self::add(&mut steps, relay_bytes > 0, ControlStep::SendRelayUsage(relay_bytes));
    steps
}

/// The seconds between two polls, which are never fewer than five.
pub fn poll_period(poll_secs: u64) -> (r: u64)
    ensures
        r == if poll_secs < 5 {
            5
        } else {
            poll_secs
        },
{
    if poll_secs < MIN_POLL_SECS {
        MIN_POLL_SECS
    } else {
        poll_secs
    }
}

/// What starting something on behalf of the control plane is about.
#[derive(Clone, Copy, Debug, PartialEq, Eq, Structural)]
pub enum Manager {
    Serve,
    Tunnel,
    Send,
}

/// The answer to the control plane once a step that starts something has ended,
/// with the error if it failed. A transfer that started is reported by the
/// transfer itself.
pub open spec fn answer_to<'a>(step: ControlStep<'a>, error: Option<&'a String>) -> Option<
    ControlStep<'a>,
> {
    match (step, error) {
        (ControlStep::StartServe(req), None) => Some(
            ControlStep::SendServeReady { serve_id: &req.serve_id },
        ),
        (ControlStep::StartServe(req), Some(error)) => Some(
            ControlStep::SendServeFailed { serve_id: &req.serve_id, error },
        ),
        (ControlStep::OpenTunnel(req), None) => Some(
            ControlStep::SendTunnelReady { tunnel_id: &req.tunnel_id },
        ),
        (ControlStep::OpenTunnel(req), Some(error)) => Some(
            ControlStep::SendTunnelFailed { tunnel_id: &req.tunnel_id, error },
        ),
        (ControlStep::SendFile(req), Some(error)) => Some(
            ControlStep::SendTransferFailed {
                transfer_id: &req.transfer_id,
                error,
                rejected: false,
            },
        ),
        _ => None,
    }
}

/// What is said to the control plane once a step that starts something has ended.
pub fn start_ended<'a>(step: ControlStep<'a>, error: Option<&'a String>) -> (r: Option<
    ControlStep<'a>,
>)
    ensures
        r == answer_to(step, error),
{
    match (step, error) {
        (ControlStep::StartServe(req), None) => Some(
            ControlStep::SendServeReady { serve_id: &req.serve_id },
        ),
        (ControlStep::StartServe(req), Some(error)) => Some(
            ControlStep::SendServeFailed { serve_id: &req.serve_id, error },
        ),
        (ControlStep::OpenTunnel(req), None) => Some(
            ControlStep::SendTunnelReady { tunnel_id: &req.tunnel_id },
        ),
        (ControlStep::OpenTunnel(req), Some(error)) => Some(
            ControlStep::SendTunnelFailed { tunnel_id: &req.tunnel_id, error },
        ),
        (ControlStep::SendFile(req), Some(error)) => Some(
            ControlStep::SendTransferFailed {
                transfer_id: &req.transfer_id,
                error,
                rejected: false,
            },
        ),
        _ => None,
    }
}

/// Why a manager refuses, as it is told to the control plane. An unwired
/// transfer manager says nothing.
pub open spec fn refusal(what: Manager, state: ManagerState) -> Option<Seq<char>> {
    match (what, state) {
        (Manager::Serve, ManagerState::Disabled) => Some("serve feature disabled"@),
        (Manager::Serve, ManagerState::Missing) => Some("serve manager not available"@),
        (Manager::Tunnel, ManagerState::Disabled) => Some("tunnel feature disabled"@),
        (Manager::Tunnel, ManagerState::Missing) => Some("tunnel manager not available"@),
        (Manager::Send, ManagerState::Disabled) => Some("send feature disabled"@),
        _ => None,
    }
}

pub fn refusal_text(what: Manager, state: ManagerState) -> (r: Option<String>)
    ensures
        opt_text(r) == refusal(what, state),
{
    match (what, state) {
        (Manager::Serve, ManagerState::Disabled) => Some("serve feature disabled".to_owned()),
        (Manager::Serve, ManagerState::Missing) => Some("serve manager not available".to_owned()),
        (Manager::Tunnel, ManagerState::Disabled) => Some("tunnel feature disabled".to_owned()),
        (Manager::Tunnel, ManagerState::Missing) => Some(
            "tunnel manager not available".to_owned(),
        ),
        (Manager::Send, ManagerState::Disabled) => Some("send feature disabled".to_owned()),
        _ => None,
    }
}

/// How files from others are received.
#[derive(Debug)]
pub struct SendConfig<C> {
    pub consent: C,
    pub inbox_path: String,
    pub pin_blobs: bool,
}

/// The settings after the control plane changed them: a mode that was not
/// understood and a path that was not given leave the old ones.
pub fn set_send_consent<C>(
    config: SendConfig<C>,
    mode: Option<C>,
    inbox_path: Option<String>,
    pin_blobs: bool,
) -> (r: SendConfig<C>)
    ensures
        r.consent == match mode {
            Some(m) => m,
            None => config.consent,
        },
        r.inbox_path == match inbox_path {
            Some(p) => p,
            None => config.inbox_path,
        },
        r.pin_blobs == pin_blobs,
{
    let consent = match mode {
        Some(m) => m,
        None => config.consent,
    };
    let inbox_path = match inbox_path {
        Some(p) => p,
        None => config.inbox_path,
    };
    SendConfig { consent, inbox_path, pin_blobs }
}

/// The addresses of the relays that are metered, in order.
pub open spec fn metered(relays: Seq<ConnectivityRelay>) -> Seq<Seq<char>>
    decreases relays.len(),
{
    if relays.len() == 0 {
        Seq::empty()
    } else {
        let front = metered(relays.drop_last());
        if relays.last().metering {
            front.push(relays.last().url@)
        } else {
            front
        }
    }
}

/// The addresses of the relays whose traffic is counted.
pub fn metered_relay_urls(relays: &Vec<ConnectivityRelay>) -> (r: Vec<String>)
    ensures
        texts(r@) == metered(relays@),
{
    let mut out: Vec<String> = Vec::new();
    let mut i: usize = 0;
    proof {
        assert(texts(out@) =~= metered(relays@.take(0)));
    }
    while i < relays.len()
        invariant
            i <= relays@.len(),
            texts(out@) == metered(relays@.take(i as int)),
        decreases relays@.len() - i,
    {
        let ghost next = relays@.take(i + 1);
        proof {
            assert(next.drop_last() =~= relays@.take(i as int));
            assert(next.last() == relays@[i as int]);
        }
        if relays[i].metering {
            let ghost before = texts(out@);
            out.push(relays[i].url.clone());
            proof {
                assert(texts(out@) =~= before.push(relays@[i as int].url@));
            }
        }
        i = i + 1;
    }
    proof {
        assert(relays@.take(i as int) =~= relays@);
    }
    out
}

/// The networks behind other members, in order.
pub open spec fn remote(subnets: Seq<SubnetRouteView>, self_endpoint_id: Seq<char>) -> Seq<Ipv4Net>
    decreases subnets.len(),
{
    if subnets.len() == 0 {
        Seq::empty()
    } else {
        let front = remote(subnets.drop_last(), self_endpoint_id);
        if subnets.last().via_endpoint_id != self_endpoint_id {
            front.push(subnets.last().cidr)
        } else {
            front
        }
    }
}

/// The networks that have to be reached through another member.
pub fn remote_subnets(subnets: &Vec<SubnetRoute>, self_endpoint_id: &str) -> (r: Vec<Ipv4Net>)
    ensures
        r@ == remote(views(subnets@), self_endpoint_id@),
{
    let mut out: Vec<Ipv4Net> = Vec::new();
    let mut i: usize = 0;
    let ghost all = views(subnets@);
    while i < subnets.len()
        invariant
            i <= subnets@.len(),
            all == views(subnets@),
            out@ == remote(all.take(i as int), self_endpoint_id@),
        decreases subnets@.len() - i,
    {
        let ghost next = all.take(i + 1);
        proof {
            assert(next.drop_last() =~= all.take(i as int));
            assert(next.last() == subnets@[i as int]@);
        }
        if !same_text(subnets[i].via_endpoint_id.as_str(), self_endpoint_id) {
            out.push(subnets[i].cidr);
        }
        i = i + 1;
    }
    proof {
        assert(all.take(i as int) =~= all);
    }
    out
}

/// Asks for the state of the connection to the control plane.
#[derive(Clone, Copy, Debug)]
pub struct GetControlStatus;

/// Ends the connection to the control plane.
#[derive(Clone, Copy, Debug)]
pub struct ShutdownControl;

/// The state of the connection to the control plane.
#[derive(Debug)]
pub struct ControlStatus {
    pub connected: bool,
    pub url: String,
}

/// Whether a step takes the network down.
pub open spec fn tears_down(step: ControlStep) -> bool {
    step == ControlStep::ClosePool || step == ControlStep::ClearRoutes || step
        == ControlStep::BringDown
}

/// A full state whose organisation or network is older than what is in force
/// changes nothing and sets nothing off, for a full agent as for an embedded endpoint.
pub proof fn law_stale_news_have_no_effect(
    before: ManagedState,
    after: ManagedState,
    snap: EndpointSnapshot,
    check: PolicyCheck,
    agent: AgentWiring,
    driver: DriverWiring,
)
    requires
        msg_moves(before, after, ServerMsg::Snapshot(snap), check),
        snap.version < before.revisions@.org.0 || (is_member(
            snap.memberships@,
            before.network_id,
        ) && snap.memberships@[membership_place(snap.memberships@, before.network_id)].version
            < before.revisions@.network.0),
    ensures
        unchanged(before, after),
        agent_steps(
            &ServerMsg::Snapshot(snap),
            msg_result(before, ServerMsg::Snapshot(snap), check),
            agent,
            before.revisions@.org.0,
            before.network_id,
        ).len() == 0,
        driver_steps(
            &ServerMsg::Snapshot(snap),
            msg_result(before, ServerMsg::Snapshot(snap), check),
            driver,
            before.revisions@.org.0,
            before.network_id,
        ).len() == 0,
{
}

/// A revocation of another network leaves this one as it is.
pub proof fn law_other_networks_are_left_alone(
    before: ManagedState,
    after: ManagedState,
    network_id: u128,
    org_revision: u64,
    network_revision: u64,
    reason: String,
    check: PolicyCheck,
    agent: AgentWiring,
)
    requires
        network_id != before.network_id,
        msg_moves(
            before,
            after,
            (ServerMsg::MembershipRevoked { network_id, org_revision, network_revision, reason }),
            check,
        ),
    ensures
        unchanged(before, after),
        agent_steps(
            &(ServerMsg::MembershipRevoked { network_id, org_revision, network_revision, reason }),
            msg_result(
                before,
                (ServerMsg::MembershipRevoked { network_id, org_revision, network_revision, reason }),
                check,
            ),
            agent,
            before.revisions@.org.0,
            before.network_id,
        ).len() == 0,
{
}

/// Once a network is gone the routes hold no peer, and the agent closes its
/// connections.
pub proof fn law_gone_network_is_emptied(
    before: ManagedState,
    after: ManagedState,
    msg: ServerMsg,
    check: PolicyCheck,
    agent: AgentWiring,
)
    requires
        msg_moves(before, after, msg, check),
        msg_result(before, msg, check) == Absorbed::Cleared,
    ensures
        after.routes.networks().len() == 1,
        after.routes.networks()[0].1.peers.len() == 0,
        agent_steps(&msg, Absorbed::Cleared, agent, before.revisions@.org.0, before.network_id).contains(ControlStep::ClosePool),
{
    let steps = agent_steps(&msg, Absorbed::Cleared, agent, before.revisions@.org.0, before.network_id);
    assert(agent_cleared(agent)[1] == ControlStep::ClosePool);
    assert(steps[1] == ControlStep::ClosePool);
}

/// Only news that the network is gone take it down.
pub proof fn law_only_absence_takes_down(
    before: ManagedState,
    msg: ServerMsg,
    check: PolicyCheck,
    agent: AgentWiring,
    i: int,
)
    requires
        0 <= i < agent_steps(&msg, msg_result(before, msg, check), agent, before.revisions@.org.0, before.network_id).len(),
        tears_down(agent_steps(&msg, msg_result(before, msg, check), agent, before.revisions@.org.0, before.network_id)[i]),
    ensures
        msg_result(before, msg, check) == Absorbed::Cleared,
{
    let result = msg_result(before, msg, check);
    if result == Absorbed::Applied {
        if msg is Snapshot {
            let snap = &msg->Snapshot_0;
            let steps = agent_applied(snap, member_of(snap, before.network_id), agent);
            assert forall|j: int| 0 <= j < steps.len() implies !tears_down(#[trigger] steps[j]) by {}
        }
    }
}

/// A full state at the revisions in force is taken over again: peers and keys
/// can change without a new revision.
pub proof fn law_equal_revisions_apply_again(
    before: ManagedState,
    after: ManagedState,
    snap: EndpointSnapshot,
    check: PolicyCheck,
)
    requires
        msg_moves(before, after, ServerMsg::Snapshot(snap), check),
        is_member(snap.memberships@, before.network_id),
        policies_pass(opt_text(snap.policy_verifying_key), check),
        snap.version == before.revisions@.org.0,
        snap.memberships@[membership_place(snap.memberships@, before.network_id)].version
            == before.revisions@.network.0,
    ensures
        msg_result(before, ServerMsg::Snapshot(snap), check) == Absorbed::Applied,
        after.revisions@ == before.revisions@,
        after.routes.networks() == seq![
            (
                before.network_id,
                membership_slice(
                    snap.memberships@[membership_place(
                        snap.memberships@,
                        before.network_id,
                    )]@,
                    before.self_endpoint_id@,
                    before.self_hostname@,
                ),
            ),
        ],
{
}

/// With a policy whose signature is bad, the last good state stays as it is and
/// nothing is set off.
pub proof fn law_bad_signature_keeps_the_last_good_state(
    before: ManagedState,
    after: ManagedState,
    snap: EndpointSnapshot,
    check: PolicyCheck,
    agent: AgentWiring,
    driver: DriverWiring,
)
    requires
        msg_moves(before, after, ServerMsg::Snapshot(snap), check),
        is_member(snap.memberships@, before.network_id),
        !policies_pass(opt_text(snap.policy_verifying_key), check),
    ensures
        unchanged(before, after),
        agent_steps(
            &ServerMsg::Snapshot(snap),
            msg_result(before, ServerMsg::Snapshot(snap), check),
            agent,
            before.revisions@.org.0,
            before.network_id,
        ).len() == 0,
        driver_steps(
            &ServerMsg::Snapshot(snap),
            msg_result(before, ServerMsg::Snapshot(snap), check),
            driver,
            before.revisions@.org.0,
            before.network_id,
        ).len() == 0,
{
}

/// An embedded endpoint in its conversation with the control plane.
pub struct ManagedDriver {
    pub state: ManagedState,
    /// A new enrolment was asked for: the conversation is over.
    pub stopped: bool,
}

impl ManagedDriver {
    pub fn new(state: ManagedState) -> (r: ManagedDriver)
        ensures
            r.state == state,
            !r.stopped,
    {
        ManagedDriver { state, stopped: false }
    }

    /// Takes the next message in. Once a new enrolment was asked for, no
    /// further message is handled.
    pub fn receive<'a>(&mut self, msg: &'a ServerMsg, check: PolicyCheck, wiring: DriverWiring) -> (r:
        Vec<ControlStep<'a>>)
        requires
            old(self).state.wf(),
        ensures
            final(self).state.wf(),
            final(self).stopped == (old(self).stopped || msg is ForceReenroll),
            old(self).stopped ==> final(self).state == old(self).state && r@ == Seq::<
                ControlStep,
            >::empty(),
            !old(self).stopped ==> {
                &&& msg_moves(old(self).state, final(self).state, *msg, check)
                &&& r@ == driver_steps(
                    msg,
                    msg_result(old(self).state, *msg, check),
                    wiring,
                    old(self).state.revisions@.org.0,
                    old(self).state.network_id,
                )
            },
    {
        if self.stopped {
            return Vec::new();
        }
        if let ServerMsg::ForceReenroll { .. } = msg {
            self.stopped = true;
        }
        self.state.drive(msg, check, wiring)
    }
}

/// A message that came in, and what was in force when it did.
pub struct Heard {
    pub msg: ServerMsg,
    pub result: Absorbed,
    pub known: u64,
}

/// The messages of a row that are handled: up to the first that asks for a new
/// enrolment, and with it.
pub open spec fn handled(row: Seq<Heard>) -> Seq<Heard>
    decreases row.len(),
{
    if row.len() == 0 {
        row
    } else if row[0].msg is ForceReenroll {
        row.take(1)
    } else {
        seq![row[0]] + handled(row.drop_first())
    }
}

/// All steps that a row of messages leads to, one message after the other.
pub open spec fn conversation<'a>(row: Seq<Heard>, stopped: bool, w: DriverWiring, id: u128) -> Seq<
    ControlStep<'a>,
>
    decreases row.len(),
{
    if row.len() == 0 || stopped {
        Seq::empty()
    } else {
        driver_steps(&row[0].msg, row[0].result, w, row[0].known, id) + conversation(
            row.drop_first(),
            row[0].msg is ForceReenroll,
            w,
            id,
        )
    }
}

/// The numbers of the pongs among some steps, in order.
pub open spec fn pongs(steps: Seq<ControlStep>) -> Seq<u64>
    decreases steps.len(),
{
    if steps.len() == 0 {
        Seq::empty()
    } else {
        match steps[0] {
            ControlStep::SendPong(nonce) => seq![nonce] + pongs(steps.drop_first()),
            _ => pongs(steps.drop_first()),
        }
    }
}

/// The numbers of the pings of a row, in order.
pub open spec fn pings(row: Seq<Heard>) -> Seq<u64>
    decreases row.len(),
{
    if row.len() == 0 {
        Seq::empty()
    } else {
        match row[0].msg {
            ServerMsg::Ping { nonce } => seq![nonce] + pings(row.drop_first()),
            _ => pings(row.drop_first()),
        }
    }
}

proof fn lemma_pongs_join(a: Seq<ControlStep>, b: Seq<ControlStep>)
    ensures
        pongs(a + b) == pongs(a) + pongs(b),
    decreases a.len(),
{
    if a.len() == 0 {
        assert(a + b =~= b);
        assert(pongs(a) + pongs(b) =~= pongs(b));
    } else {
        lemma_pongs_join(a.drop_first(), b);
        assert((a + b).drop_first() =~= a.drop_first() + b);
        assert(pongs(a + b) =~= pongs(a) + pongs(b));
    }
}

proof fn lemma_no_pongs(steps: Seq<ControlStep>)
    requires
        forall|i: int| 0 <= i < steps.len() ==> !((#[trigger] steps[i]) is SendPong),
    ensures
        pongs(steps) == Seq::<u64>::empty(),
    decreases steps.len(),
{
    if steps.len() > 0 {
        assert forall|i: int| 0 <= i < steps.drop_first().len() implies !((
        #[trigger] steps.drop_first()[i]) is SendPong) by {
            assert(steps.drop_first()[i] == steps[i + 1]);
        }
        lemma_no_pongs(steps.drop_first());
    }
}

/// The pongs that one message leads to: that of a ping, and none otherwise.
#[verifier::spinoff_prover]
proof fn lemma_pongs_of(h: Heard, w: DriverWiring, id: u128)
    ensures
        pongs(driver_steps(&h.msg, h.result, w, h.known, id)) == pings(seq![h]),
{
    let steps = driver_steps(&h.msg, h.result, w, h.known, id);
    assert(seq![h].drop_first() =~= Seq::<Heard>::empty());
    assert(pings(seq![h].drop_first()) =~= Seq::<u64>::empty());
    match h.msg {
        ServerMsg::Ping { nonce } => {
            assert(steps[0] == ControlStep::SendPong(nonce));
            lemma_no_pongs(steps.drop_first());
            assert(pongs(steps) =~= seq![nonce]);
            assert(pings(seq![h]) =~= seq![nonce]);
        },
        _ => {
            lemma_no_pongs(steps);
            assert(pings(seq![h]) =~= Seq::<u64>::empty());
        },
    }
}

proof fn lemma_pings_first(row: Seq<Heard>)
    requires
        row.len() > 0,
    ensures
        pings(row) == pings(seq![row[0]]) + pings(row.drop_first()),
{
    let one = seq![row[0]];
    assert(one.drop_first() =~= Seq::<Heard>::empty());
    assert(pings(one.drop_first()) =~= Seq::<u64>::empty());
    assert(pings(row) =~= pings(one) + pings(row.drop_first()));
}

/// A conversation goes on with what the rest of its row leads to.
proof fn lemma_conversation_first(row: Seq<Heard>, w: DriverWiring, id: u128) -> (first: Seq<
    ControlStep<'static>,
>)
    requires
        row.len() > 0,
    ensures
        pongs(first) == pings(seq![row[0]]),
        conversation(row, false, w, id) == first + conversation(
            row.drop_first(),
            row[0].msg is ForceReenroll,
            w,
            id,
        ),
        first == driver_steps(&row[0].msg, row[0].result, w, row[0].known, id),
{
    lemma_pongs_of(row[0], w, id);
    driver_steps(&row[0].msg, row[0].result, w, row[0].known, id)
}

/// Every ping is answered by a pong with its own number, in order, until a new
/// enrolment is asked for; nothing is handled after that. Beside these there
/// are no pongs.
#[verifier::spinoff_prover]
#[verifier::rlimit(40)]
pub proof fn law_each_ping_is_answered(row: Seq<Heard>, w: DriverWiring, id: u128)
    ensures
        pongs(conversation(row, false, w, id)) == pings(handled(row)),
        conversation(row, false, w, id) == conversation(handled(row), false, w, id),
    decreases row.len(),
{
    if row.len() > 0 {
        let first = lemma_conversation_first(row, w, id);
        let rest = row.drop_first();
        let ends = row[0].msg is ForceReenroll;
        let kept = handled(row).drop_first();
        assert(handled(row)[0] == row[0]);
        let same = lemma_conversation_first(handled(row), w, id);
        assert(first == same);
        lemma_pongs_join(first, conversation(rest, ends, w, id));
        lemma_pings_first(handled(row));
        if ends {
            assert(kept =~= Seq::<Heard>::empty());
            assert(pings(kept) =~= Seq::<u64>::empty());
            assert(conversation(rest, true, w, id) =~= Seq::<ControlStep>::empty());
            assert(conversation(kept, true, w, id) =~= Seq::<ControlStep>::empty());
        } else {
            law_each_ping_is_answered(rest, w, id);
            assert(kept =~= handled(rest));
        }
    }
}

} // verus!
