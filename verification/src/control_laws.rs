//! What a message of the control plane brings about.

use crate::control::{
    agent_applied, agent_cleared, agent_steps, answer_to, driver_steps, metered, msg_moves,
    msg_result, poll_steps, refusal, remote, revision_of, wakes, Absorbed, AgentWiring, ControlStep,
    DriverWiring, FileSend, ManagedState, Manager, ManagerState, PolicySource, ServeStart,
    ServerMsg, TunnelOpen,
};
use crate::membership::{texts, views, SplitTunnelMode, SubnetRouteView};
use crate::net::Ipv4Net;
use crate::network_laws::{
    last_of_its_key, law_delta_sets_the_peers, law_known_networks_are_found, lists_key,
};
use crate::policy_key::{is_curve_point, is_hex, policy_key, unhexed};
use crate::sync::{
    after_delta, after_snapshot, lemma_membership_place, lists_peer, ConnectivityRelay,
    EndpointSnapshot, ManagedRevisionSnapshot, NetworkMembershipSnapshot, NetworkRevision,
    OrgRevision, PolicyCheck, SnapshotDelta,
};
use crate::text::lower;
use vstd::prelude::*;

verus! {

/// A full state moves the revisions in force to its own exactly where neither
/// is smaller, and a change of one network where that network's is not.
pub proof fn law_news_that_are_not_older_move_the_revisions(
    current: ManagedRevisionSnapshot,
    org: u64,
    network: u64,
)
    ensures
        current.org.0 <= org && current.network.0 <= network ==> {
            let next = after_snapshot(current, OrgRevision(org), NetworkRevision(network));
            next.org.0 == org && next.network.0 == network
        },
        org < current.org.0 || network < current.network.0 ==> after_snapshot(
            current,
            OrgRevision(org),
            NetworkRevision(network),
        ) == current,
        current.network.0 <= network ==> after_delta(current, NetworkRevision(network)).network.0
            == network,
        network < current.network.0 ==> after_delta(current, NetworkRevision(network)) == current,
{
}

/// The first membership of a network stands at a place.
pub open spec fn first_of_network(
    memberships: Seq<NetworkMembershipSnapshot>,
    id: u128,
    at: int,
) -> bool {
    &&& 0 <= at < memberships.len()
    &&& memberships[at].network_id == id
    &&& forall|i: int| 0 <= i < at ==> (#[trigger] memberships[i]).network_id != id
}

/// None of the memberships is of a network.
pub open spec fn lacks_network(memberships: Seq<NetworkMembershipSnapshot>, id: u128) -> bool {
    forall|i: int| 0 <= i < memberships.len() ==> (#[trigger] memberships[i]).network_id != id
}

/// One of the peers of a membership has this id.
pub open spec fn names_peer(m: NetworkMembershipSnapshot, endpoint_id: Seq<char>) -> bool {
    exists|i: int|
        0 <= i < m.ipv4_peers@.len() && (#[trigger] m.ipv4_peers@[i])@.endpoint_id == endpoint_id
}

/// A full state with a membership of this network takes force where neither of
/// its revisions is smaller than those in force and its policies are signed, or
/// no key to check them with was given. The routes then hold what the
/// membership lists, and this endpoint under its name.
#[verifier::rlimit(40)]
pub proof fn law_memberships_take_force(
    before: ManagedState,
    after: ManagedState,
    snap: EndpointSnapshot,
    check: PolicyCheck,
    at: int,
)
    requires
        msg_moves(before, after, ServerMsg::Snapshot(snap), check),
        first_of_network(snap.memberships@, before.network_id, at),
        before.revisions@.org.0 <= snap.version,
        before.revisions@.network.0 <= snap.memberships@[at].version,
        snap.policy_verifying_key is None || (check.network_valid && check.org_valid),
    ensures
        msg_result(before, ServerMsg::Snapshot(snap), check) == Absorbed::Applied,
        after.revisions@.org.0 == snap.version,
        after.revisions@.network.0 == snap.memberships@[at].version,
        after.network_id == before.network_id,
        after.self_endpoint_id == before.self_endpoint_id,
        after.self_hostname == before.self_hostname,
        after.routes.version_of() == snap.memberships@[at].version,
        after.routes.seq_of() == before.routes.seq_of().wrapping_add(1),
        after.routes.networks().len() == 1,
        after.routes.networks()[0].0 == before.network_id,
        ({
            let m = snap.memberships@[at];
            let held = after.routes.networks()[0].1;
            let own = before.self_endpoint_id@;
            let name = if m.self_hostname@.len() > 0 {
                m.self_hostname@
            } else {
                before.self_hostname@
            };
            let n = m.ipv4_peers@.len();
            &&& held.subnet_routes == views(m.subnet_routes@)
            &&& held.hostname_routes == views(m.hostname_routes@)
            &&& held.exit_nodes == views(m.exit_nodes@)
            &&& held.profile == m.device_profile@
            &&& held.dns_suffix == m.dns.suffix@
            &&& held.network_name == lower(m.network_name@)
            &&& held.self_endpoint_id == own
            &&& held.peer_cidr is None
            &&& n <= held.peers.len()
            &&& forall|i: int| 0 <= i < n ==> #[trigger] held.peers[i] == m.ipv4_peers@[i]@
            &&& name.len() == 0 || names_peer(m, own) ==> held.peers.len() == n
            &&& name.len() > 0 && !names_peer(m, own) ==> {
                &&& held.peers.len() == n + 1
                &&& held.peers[n as int].endpoint_id == own
                &&& held.peers[n as int].ip == m.assigned_ipv4
                &&& held.peers[n as int].hostname == name
                &&& held.peers[n as int].tags == texts(m.self_tags@)
                &&& held.peers[n as int].ssh_host_key is None
            }
        }),
{
    let m = snap.memberships@[at];
    lemma_membership_place(snap.memberships@, before.network_id, at);
    if names_peer(m, before.self_endpoint_id@) {
        let i = choose|i: int|
            0 <= i < m.ipv4_peers@.len() && (#[trigger] m.ipv4_peers@[i])@.endpoint_id
                == before.self_endpoint_id@;
        assert(m@.ipv4_peers[i].endpoint_id == before.self_endpoint_id@);
    }
    if lists_peer(m@.ipv4_peers, before.self_endpoint_id@) {
        let i = choose|i: int|
            0 <= i < m@.ipv4_peers.len() && (#[trigger] m@.ipv4_peers[i]).endpoint_id
                == before.self_endpoint_id@;
        assert(m.ipv4_peers@[i]@.endpoint_id == before.self_endpoint_id@);
    }
}

/// A text is a key to check policies with exactly where it is made of 64
/// hexadecimal digits whose 32 bytes are a point of the curve.
pub proof fn law_what_is_a_policy_key(text: Seq<char>)
    ensures
        policy_key(Some(text)) is Some ==> {
            &&& text.len() == 64
            &&& forall|i: int| 0 <= i < 64 ==> is_hex(#[trigger] text[i])
            &&& unhexed(text) == policy_key(Some(text))
            &&& is_curve_point(policy_key(Some(text))->0)
        },
        text.len() == 64 && unhexed(text) is Some && is_curve_point(unhexed(text)->0)
            ==> policy_key(Some(text)) == unhexed(text),
        policy_key(None) is None,
{
}

/// The revision of a network is the one that stands first for it.
pub proof fn law_first_revision_counts(revisions: Seq<(u128, u64)>, id: u128, at: int)
    requires
        0 <= at < revisions.len(),
        revisions[at].0 == id,
        forall|i: int| 0 <= i < at ==> (#[trigger] revisions[i]).0 != id,
    ensures
        revision_of(revisions, id) == Some(revisions[at].1),
    decreases revisions.len(),
{
    if at > 0 {
        assert(revisions[0].0 != id);
        let rest = revisions.drop_first();
        assert forall|i: int| 0 <= i < at - 1 implies (#[trigger] rest[i]).0 != id by {
            assert(rest[i] == revisions[i + 1]);
        }
        law_first_revision_counts(rest, id, at - 1);
    }
}

/// A network for which no revision is given has none.
pub proof fn law_missing_revisions_are_not_made_up(revisions: Seq<(u128, u64)>, id: u128)
    requires
        forall|i: int| 0 <= i < revisions.len() ==> (#[trigger] revisions[i]).0 != id,
    ensures
        revision_of(revisions, id) is None,
    decreases revisions.len(),
{
    if revisions.len() > 0 {
        assert(revisions[0].0 != id);
        let rest = revisions.drop_first();
        assert forall|i: int| 0 <= i < rest.len() implies (#[trigger] rest[i]).0 != id by {
            assert(rest[i] == revisions[i + 1]);
        }
        law_missing_revisions_are_not_made_up(rest, id);
    }
}

/// The routes hold this network alone, with nothing in it.
pub open spec fn holds_nothing(state: ManagedState) -> bool {
    &&& state.routes.networks().len() == 1
    &&& state.routes.networks()[0].0 == state.network_id
    &&& ({
        let held = state.routes.networks()[0].1;
        &&& held.peers.len() == 0
        &&& held.subnet_routes.len() == 0
        &&& held.hostname_routes.len() == 0
        &&& held.exit_nodes.len() == 0
        &&& held.profile.exit_node_endpoint_id is None
        &&& held.profile.allow_local_lan
        &&& held.profile.split_tunnel_mode == SplitTunnelMode::Exclude
        &&& held.profile.split_tunnel_cidrs.len() == 0
        &&& held.dns_suffix == "tunnet"@
        &&& held.network_name.len() == 0
        &&& held.self_endpoint_id == state.self_endpoint_id@
        &&& held.peer_cidr is None
    })
}

/// A full state without a membership of this network, which gives a revision
/// for it, empties the network where neither revision is smaller than those in
/// force. Without a revision for it nothing changes.
pub proof fn law_left_networks_are_emptied(
    before: ManagedState,
    after: ManagedState,
    snap: EndpointSnapshot,
    check: PolicyCheck,
    at: int,
)
    requires
        msg_moves(before, after, ServerMsg::Snapshot(snap), check),
        lacks_network(snap.memberships@, before.network_id),
        0 <= at <= snap.network_revisions@.len(),
        forall|i: int|
            0 <= i < at ==> (#[trigger] snap.network_revisions@[i]).0 != before.network_id,
        at < snap.network_revisions@.len() ==> snap.network_revisions@[at].0 == before.network_id,
    ensures
        at < snap.network_revisions@.len() && before.revisions@.org.0 <= snap.version
            && before.revisions@.network.0 <= snap.network_revisions@[at].1 ==> {
            &&& msg_result(before, ServerMsg::Snapshot(snap), check) == Absorbed::Cleared
            &&& holds_nothing(after)
            &&& after.network_id == before.network_id
            &&& after.self_endpoint_id == before.self_endpoint_id
            &&& after.revisions@.org.0 == snap.version
            &&& after.revisions@.network.0 == snap.network_revisions@[at].1
        },
        at == snap.network_revisions@.len() || snap.version < before.revisions@.org.0
            || snap.network_revisions@[at].1 < before.revisions@.network.0 ==> {
            &&& msg_result(before, ServerMsg::Snapshot(snap), check) == Absorbed::Ignored
            &&& after.routes == before.routes
            &&& after.revisions@ == before.revisions@
        },
{
    lemma_membership_place(
        snap.memberships@,
        before.network_id,
        snap.memberships@.len() as int,
    );
    if at < snap.network_revisions@.len() {
        law_first_revision_counts(snap.network_revisions@, before.network_id, at);
    } else {
        law_missing_revisions_are_not_made_up(snap.network_revisions@, before.network_id);
    }
}

/// A revocation empties the network that it names where neither of its
/// revisions is smaller than those in force, and changes nothing otherwise.
pub proof fn law_revoked_networks_are_emptied(
    before: ManagedState,
    after: ManagedState,
    network_id: u128,
    org_revision: u64,
    network_revision: u64,
    reason: String,
    check: PolicyCheck,
)
    requires
        msg_moves(
            before,
            after,
            (ServerMsg::MembershipRevoked { network_id, org_revision, network_revision, reason }),
            check,
        ),
    ensures
        network_id == before.network_id && before.revisions@.org.0 <= org_revision
            && before.revisions@.network.0 <= network_revision ==> {
            &&& holds_nothing(after)
            &&& after.network_id == before.network_id
            &&& after.revisions@.org.0 == org_revision
            &&& after.revisions@.network.0 == network_revision
        },
        network_id != before.network_id || org_revision < before.revisions@.org.0
            || network_revision < before.revisions@.network.0 ==> after.routes == before.routes
            && after.revisions@ == before.revisions@,
{
}

/// A change of the network's peers whose revision is not smaller than the one
/// in force takes force and moves the network's revision alone; an older one
/// changes nothing.
pub proof fn law_deltas_take_force(
    before: ManagedState,
    after: ManagedState,
    delta: SnapshotDelta,
    check: PolicyCheck,
)
    requires
        msg_moves(before, after, ServerMsg::Delta(delta), check),
    ensures
        before.revisions@.network.0 <= delta.version ==> {
            &&& msg_result(before, ServerMsg::Delta(delta), check) == Absorbed::Applied
            &&& after.revisions@.network.0 == delta.version
            &&& after.revisions@.org.0 == before.revisions@.org.0
        },
        delta.version < before.revisions@.network.0 ==> {
            &&& msg_result(before, ServerMsg::Delta(delta), check) == Absorbed::Ignored
            &&& after.routes == before.routes
            &&& after.revisions@ == before.revisions@
        },
{
}

/// A message about neither memberships nor peers leaves routes and revisions
/// as they are.
pub proof fn law_requests_leave_the_network_alone(
    before: ManagedState,
    after: ManagedState,
    msg: ServerMsg,
    check: PolicyCheck,
)
    requires
        msg_moves(before, after, msg, check),
        !(msg is Snapshot) && !(msg is Delta) && !(msg is MembershipRevoked),
    ensures
        after.routes == before.routes,
        after.revisions@ == before.revisions@,
        after.network_id == before.network_id,
{
}

/// Once a membership has taken force a full agent replaces the policy first,
/// brings everything that is connected in line with the membership, and saves
/// the state last.
#[verifier::rlimit(40)]
pub proof fn law_agent_follows_the_membership<'a>(
    snap: EndpointSnapshot,
    id: u128,
    at: int,
    w: AgentWiring,
    known: u64,
)
    requires
        first_of_network(snap.memberships@, id, at),
    ensures
        ({
            let m = &snap.memberships@[at];
            let steps = agent_steps(&ServerMsg::Snapshot(snap), Absorbed::Applied, w, known, id);
            &&& steps[0] == ControlStep::ReplacePolicy(m)
            &&& steps[1] == ControlStep::SyncKnownHosts(m)
            &&& steps[2] == ControlStep::SetCloudRelays(&snap.connectivity_relays)
            &&& steps[3] == ControlStep::ReconcilePool
            &&& steps.last() == ControlStep::SaveSnapshot(&snap)
            &&& steps.len() == 6 + (if w.dataplane {
                2int
            } else {
                0
            }) + (if w.routes {
                1int
            } else {
                0
            })
            &&& w.dataplane ==> steps.contains(ControlStep::ReconcileDirectState)
                && steps.contains(ControlStep::BringUp)
            &&& w.routes ==> steps.contains(ControlStep::ApplyRoutes(m))
            &&& w.posture ==> steps.contains(
                ControlStep::ApplyAgentPolicy(PolicySource::Membership(m)),
            )
            &&& !w.posture ==> steps.contains(
                ControlStep::ReportEffectiveConfig(PolicySource::Membership(m)),
            )
        }),
{
    lemma_membership_place(snap.memberships@, id, at);
    let m = &snap.memberships@[at];
    let steps = agent_steps(&ServerMsg::Snapshot(snap), Absorbed::Applied, w, known, id);
    assert(steps == agent_applied(&snap, m, w));
    let d: int = if w.dataplane {
        1
    } else {
        0
    };
    let r: int = if w.routes {
        1
    } else {
        0
    };
    assert(w.dataplane ==> steps[4] == ControlStep::ReconcileDirectState);
    assert(w.routes ==> steps[4 + d] == ControlStep::ApplyRoutes(m));
    assert(w.posture ==> steps[4 + d + r] == ControlStep::ApplyAgentPolicy(
        PolicySource::Membership(m),
    ));
    assert(!w.posture ==> steps[4 + d + r] == ControlStep::ReportEffectiveConfig(
        PolicySource::Membership(m),
    ));
    assert(w.dataplane ==> steps[5 + d + r] == ControlStep::BringUp);
}

/// Once its network is gone a full agent holds its connections against the
/// empty network, closes them, clears the routes and takes the dataplane down,
/// as far as they are connected.
pub proof fn law_agent_takes_a_gone_network_down(snap: EndpointSnapshot, w: AgentWiring, known: u64, id: u128)
    ensures
        ({
            let steps = agent_steps(&ServerMsg::Snapshot(snap), Absorbed::Cleared, w, known, id);
            &&& steps[0] == ControlStep::ReconcilePool
            &&& steps[1] == ControlStep::ClosePool
            &&& w.routes ==> steps.contains(ControlStep::ClearRoutes)
            &&& w.dataplane ==> steps.contains(ControlStep::BringDown)
            &&& steps.last() == ControlStep::SaveSnapshot(&snap)
            &&& steps.len() == 3 + (if w.routes {
                1int
            } else {
                0
            }) + (if w.dataplane {
                1int
            } else {
                0
            })
        }),
{
    let steps = agent_steps(&ServerMsg::Snapshot(snap), Absorbed::Cleared, w, known, id);
    let r: int = if w.routes {
        1
    } else {
        0
    };
    assert(w.routes ==> steps[2] == ControlStep::ClearRoutes);
    assert(w.dataplane ==> steps[2 + r] == ControlStep::BringDown);
}

/// The same for a revocation, which leaves no state to save.
pub proof fn law_agent_takes_a_revoked_network_down(
    network_id: u128,
    org_revision: u64,
    network_revision: u64,
    reason: String,
    w: AgentWiring,
    known: u64,
    id: u128,
)
    ensures
        ({
            let steps = agent_steps(
                &(ServerMsg::MembershipRevoked {
                    network_id,
                    org_revision,
                    network_revision,
                    reason,
                }),
                Absorbed::Cleared,
                w,
                known,
                id,
            );
            &&& steps[0] == ControlStep::ReconcilePool
            &&& steps[1] == ControlStep::ClosePool
            &&& w.routes ==> steps.contains(ControlStep::ClearRoutes)
            &&& w.dataplane ==> steps.contains(ControlStep::BringDown)
        }),
{
    let steps = agent_cleared(w);
    let r: int = if w.routes {
        1
    } else {
        0
    };
    assert(w.routes ==> steps[2] == ControlStep::ClearRoutes);
    assert(w.dataplane ==> steps[2 + r] == ControlStep::BringDown);
}

/// Steps that were asked for are these alone.
pub open spec fn just<'a>(steps: Seq<ControlStep<'a>>, step: ControlStep<'a>) -> bool {
    steps.len() == 1 && steps[0] == step
}

/// One step follows another and there are no more.
pub open spec fn both<'a>(
    steps: Seq<ControlStep<'a>>,
    first: ControlStep<'a>,
    second: ControlStep<'a>,
) -> bool {
    steps.len() == 2 && steps[0] == first && steps[1] == second
}

/// A full agent carries out each request, with the ids and settings that it
/// came with; what goes to the posture engine or the register of sessions needs
/// one to be connected.
#[verifier::rlimit(40)]
pub proof fn law_agent_carries_requests_out(msg: ServerMsg, result: Absorbed, w: AgentWiring, known: u64, id: u128)
    ensures
        ({
            let steps = agent_steps(&msg, result, w, known, id);
            match &msg {
                ServerMsg::Ping { nonce } => {
                    &&& steps.len() == (if w.poll_client {
                        2int
                    } else {
                        1
                    })
                    &&& steps[0] == ControlStep::SendPong(*nonce)
                    &&& w.poll_client ==> steps[1] == ControlStep::Poll(known)
                },
                ServerMsg::Delta(_) => result == Absorbed::Applied ==> {
                    &&& steps[0] == ControlStep::ReconcilePool
                    &&& w.dataplane ==> steps[1] == ControlStep::ReconcileDirectState
                },
                ServerMsg::StartServe(req) => just(steps, ControlStep::StartServe(req)),
                ServerMsg::ReconcileServes { serve_ids } => just(
                    steps,
                    ControlStep::ReconcileServes(serve_ids),
                ),
                ServerMsg::StopServe { serve_id } => both(
                    steps,
                    (ControlStep::StopServe { serve_id }),
                    (ControlStep::SendServeStopped { serve_id }),
                ),
                ServerMsg::OpenTunnel(req) => just(steps, ControlStep::OpenTunnel(req)),
                ServerMsg::StopTunnel { tunnel_id } => both(
                    steps,
                    (ControlStep::StopTunnel { tunnel_id }),
                    (ControlStep::SendTunnelStopped { tunnel_id }),
                ),
                ServerMsg::KillSshSession { session_id } => if w.ssh_registry {
                    just(steps, (ControlStep::KillSshSession { session_id }))
                } else {
                    steps.len() == 0
                },
                ServerMsg::SendFile(req) => just(steps, ControlStep::SendFile(req)),
                ServerMsg::AcceptTransfer { transfer_id } => just(
                    steps,
                    (ControlStep::AcceptTransfer { transfer_id }),
                ),
                ServerMsg::RejectTransfer(req) => just(steps, ControlStep::RejectTransfer(req)),
                ServerMsg::SetSendConsent(req) => just(steps, ControlStep::SetSendConsent(req)),
                ServerMsg::PostureRecheck => if w.posture {
                    just(steps, ControlStep::RecheckPosture)
                } else {
                    steps.len() == 0
                },
                ServerMsg::PostureConfigUpdate(config) => if w.posture {
                    just(steps, ControlStep::ApplyPostureConfig(config))
                } else {
                    steps.len() == 0
                },
                ServerMsg::AgentConfigUpdate { policy } => if w.posture {
                    just(steps, ControlStep::ApplyAgentPolicy(PolicySource::Message(policy)))
                } else {
                    steps.len() == 0
                },
                ServerMsg::PostureStatus(verdict) => if w.posture {
                    just(steps, ControlStep::ChangePostureStatus(verdict))
                } else {
                    steps.len() == 0
                },
                _ => true,
            }
        }),
{
}

/// An embedded endpoint hands each request to its manager where there is one.
/// What cannot be started is refused by its id, what is stopped is reported as
/// stopped whether or not there is a manager, and other requests are dropped.
#[verifier::rlimit(40)]
pub proof fn law_driver_carries_requests_out(msg: ServerMsg, result: Absorbed, w: DriverWiring, known: u64, id: u128)
    ensures
        ({
            let steps = driver_steps(&msg, result, w, known, id);
            let serves = w.serve == ManagerState::Ready;
            let tunnels = w.tunnel == ManagerState::Ready;
            let sends = w.send == ManagerState::Ready;
            match &msg {
                ServerMsg::Ping { nonce } => {
                    &&& steps.len() == (if w.poll_client {
                        2int
                    } else {
                        1
                    })
                    &&& steps[0] == ControlStep::SendPong(*nonce)
                    &&& w.poll_client ==> steps[1] == ControlStep::Poll(known)
                },
                ServerMsg::Delta(_) => if result == Absorbed::Applied && w.pool {
                    just(steps, ControlStep::ReconcilePool)
                } else {
                    steps.len() == 0
                },
                ServerMsg::ForceReenroll { .. } => just(steps, ControlStep::StopDriver),
                ServerMsg::StartServe(req) => if serves {
                    just(steps, ControlStep::StartServe(req))
                } else {
                    just(
                        steps,
                        (ControlStep::RefuseServe { serve_id: &req.serve_id, state: w.serve }),
                    )
                },
                ServerMsg::ReconcileServes { serve_ids } => if serves {
                    just(steps, ControlStep::ReconcileServes(serve_ids))
                } else {
                    steps.len() == 0
                },
                ServerMsg::StopServe { serve_id } => if serves {
                    both(
                        steps,
                        (ControlStep::StopServe { serve_id }),
                        (ControlStep::SendServeStopped { serve_id }),
                    )
                } else {
                    just(steps, (ControlStep::SendServeStopped { serve_id }))
                },
                ServerMsg::OpenTunnel(req) => if tunnels {
                    just(steps, ControlStep::OpenTunnel(req))
                } else {
                    just(
                        steps,
                        (ControlStep::RefuseTunnel { tunnel_id: &req.tunnel_id, state: w.tunnel }),
                    )
                },
                ServerMsg::StopTunnel { tunnel_id } => if tunnels {
                    both(
                        steps,
                        (ControlStep::StopTunnel { tunnel_id }),
                        (ControlStep::SendTunnelStopped { tunnel_id }),
                    )
                } else {
                    just(steps, (ControlStep::SendTunnelStopped { tunnel_id }))
                },
                ServerMsg::SendFile(req) => if sends {
                    just(steps, ControlStep::SendFile(req))
                } else if w.send == ManagerState::Disabled {
                    just(
                        steps,
                        (ControlStep::RefuseTransfer {
                            transfer_id: &req.transfer_id,
                            state: w.send,
                        }),
                    )
                } else {
                    steps.len() == 0
                },
                ServerMsg::AcceptTransfer { transfer_id } => if sends {
                    just(steps, (ControlStep::AcceptTransfer { transfer_id }))
                } else {
                    steps.len() == 0
                },
                ServerMsg::RejectTransfer(req) => if sends {
                    just(steps, ControlStep::RejectTransfer(req))
                } else {
                    steps.len() == 0
                },
                ServerMsg::SetSendConsent(req) => if sends {
                    just(steps, ControlStep::SetSendConsent(req))
                } else {
                    steps.len() == 0
                },
                ServerMsg::AgentConfigUpdate { policy } => if w.effective_config {
                    just(steps, ControlStep::ReportEffectiveConfig(PolicySource::Message(policy)))
                } else {
                    steps.len() == 0
                },
                _ => true,
            }
        }),
{
}

/// Once a membership has taken force an embedded endpoint puts its policy in
/// force, writes its host keys out, brings what is connected in line with it
/// and saves the state.
#[verifier::rlimit(40)]
pub proof fn law_driver_follows_the_membership(
    snap: EndpointSnapshot,
    id: u128,
    at: int,
    w: DriverWiring,
    known: u64,
)
    requires
        first_of_network(snap.memberships@, id, at),
    ensures
        ({
            let m = &snap.memberships@[at];
            let steps = driver_steps(&ServerMsg::Snapshot(snap), Absorbed::Applied, w, known, id);
            let polled = poll_steps(&snap, Absorbed::Applied, w, id);
            &&& steps[0] == ControlStep::ReplacePolicy(m)
            &&& steps[1] == ControlStep::SyncKnownHosts(m)
            &&& w.mesh ==> steps.contains(ControlStep::SetCloudRelays(&snap.connectivity_relays))
            &&& w.pool ==> steps.contains(ControlStep::ReconcilePool)
            &&& steps.contains(ControlStep::SaveSnapshot(&snap))
            &&& w.effective_config ==> steps.last() == ControlStep::ReportEffectiveConfig(
                PolicySource::Membership(m),
            )
            &&& polled[0] == ControlStep::ReplacePolicy(m)
            &&& polled[1] == ControlStep::SyncKnownHosts(m)
            &&& w.pool ==> polled.len() == 3 && polled[2] == ControlStep::ReconcilePool
            &&& !w.pool ==> polled.len() == 2
        }),
{
    lemma_membership_place(snap.memberships@, id, at);
    let steps = driver_steps(&ServerMsg::Snapshot(snap), Absorbed::Applied, w, known, id);
    let h: int = if w.mesh {
        1
    } else {
        0
    };
    let p: int = if w.pool {
        1
    } else {
        0
    };
    assert(w.mesh ==> steps[2] == ControlStep::SetCloudRelays(&snap.connectivity_relays));
    assert(w.pool ==> steps[2 + h] == ControlStep::ReconcilePool);
    assert(steps[2 + h + p] == ControlStep::SaveSnapshot(&snap));
}

/// Once its network is gone an embedded endpoint with connections closes them,
/// saves the state and reports what settings are left.
pub proof fn law_driver_takes_a_gone_network_down(snap: EndpointSnapshot, w: DriverWiring, known: u64, id: u128)
    ensures
        ({
            let steps = driver_steps(&ServerMsg::Snapshot(snap), Absorbed::Cleared, w, known, id);
            let polled = poll_steps(&snap, Absorbed::Cleared, w, id);
            &&& w.pool ==> steps[0] == ControlStep::ReconcilePool && steps[1]
                == ControlStep::ClosePool
            &&& steps.contains(ControlStep::SaveSnapshot(&snap))
            &&& w.effective_config ==> steps.last() == ControlStep::ReportEffectiveConfig(
                PolicySource::Snapshot(&snap),
            )
            &&& w.pool ==> both(polled, ControlStep::ReconcilePool, ControlStep::ClosePool)
            &&& !w.pool ==> polled.len() == 0
        }),
{
    let steps = driver_steps(&ServerMsg::Snapshot(snap), Absorbed::Cleared, w, known, id);
    let p: int = if w.pool {
        2
    } else {
        0
    };
    assert(steps[p] == ControlStep::SaveSnapshot(&snap));
}

/// The relays whose traffic is counted are those marked so, each once for each
/// time it is listed and in the order of the list.
#[verifier::rlimit(40)]
pub proof fn law_metered_relays_are_the_marked_ones(relays: Seq<ConnectivityRelay>)
    ensures
        forall|i: int|
            0 <= i < relays.len() && (#[trigger] relays[i]).metering ==> metered(relays).contains(
                relays[i].url@,
            ),
        forall|u: Seq<char>| #[trigger]
            metered(relays).contains(u) ==> exists|i: int|
                0 <= i < relays.len() && (#[trigger] relays[i]).metering && relays[i].url@ == u,
        metered(relays).len() == relays.filter(|r: ConnectivityRelay| r.metering).len(),
    decreases relays.len(),
{
    let marked = |r: ConnectivityRelay| r.metering;
    if relays.len() > 0 {
        let rest = relays.drop_last();
        law_metered_relays_are_the_marked_ones(rest);
        reveal(Seq::filter);
        assert(relays.filter(marked).len() == metered(relays).len());
        assert forall|i: int| 0 <= i < relays.len() && (#[trigger] relays[i]).metering implies metered(
            relays,
        ).contains(relays[i].url@) by {
            if i < rest.len() {
                assert(rest[i] == relays[i]);
                let at = choose|at: int|
                    0 <= at < metered(rest).len() && metered(rest)[at] == rest[i].url@;
                assert(metered(relays)[at] == relays[i].url@);
            } else {
                assert(metered(relays).last() == relays[i].url@);
            }
        }
        assert forall|u: Seq<char>| #[trigger] metered(relays).contains(u) implies exists|i: int|
            0 <= i < relays.len() && (#[trigger] relays[i]).metering && relays[i].url@ == u by {
            if metered(rest).contains(u) {
                let i = choose|i: int|
                    0 <= i < rest.len() && (#[trigger] rest[i]).metering && rest[i].url@ == u;
                assert(relays[i] == rest[i]);
            } else {
                let at = choose|at: int| 0 <= at < metered(relays).len() && metered(relays)[at] == u;
                if at < metered(rest).len() {
                    assert(metered(rest)[at] == u);
                }
                assert(relays[relays.len() - 1].metering);
            }
        }
    } else {
        reveal(Seq::filter);
    }
}

/// The networks that are reached through others are those of the routes that
/// lead through another member.
pub proof fn law_remote_networks_are_those_of_others(subnets: Seq<SubnetRouteView>, own: Seq<char>)
    ensures
        forall|i: int|
            0 <= i < subnets.len() && (#[trigger] subnets[i]).via_endpoint_id != own ==> remote(
                subnets,
                own,
            ).contains(subnets[i].cidr),
        forall|n: Ipv4Net| #[trigger]
            remote(subnets, own).contains(n) ==> exists|i: int|
                0 <= i < subnets.len() && (#[trigger] subnets[i]).via_endpoint_id != own
                    && subnets[i].cidr == n,
    decreases subnets.len(),
{
    if subnets.len() > 0 {
        let rest = subnets.drop_last();
        law_remote_networks_are_those_of_others(rest, own);
        assert forall|i: int|
            0 <= i < subnets.len() && (#[trigger] subnets[i]).via_endpoint_id != own implies remote(
            subnets,
            own,
        ).contains(subnets[i].cidr) by {
            if i < rest.len() {
                assert(rest[i] == subnets[i]);
                let at = choose|at: int|
                    0 <= at < remote(rest, own).len() && remote(rest, own)[at] == rest[i].cidr;
                assert(remote(subnets, own)[at] == subnets[i].cidr);
            } else {
                assert(remote(subnets, own).last() == subnets[i].cidr);
            }
        }
        assert forall|n: Ipv4Net| #[trigger] remote(subnets, own).contains(n) implies exists|i: int|
            0 <= i < subnets.len() && (#[trigger] subnets[i]).via_endpoint_id != own
                && subnets[i].cidr == n by {
            if remote(rest, own).contains(n) {
                let i = choose|i: int|
                    0 <= i < rest.len() && (#[trigger] rest[i]).via_endpoint_id != own
                        && rest[i].cidr == n;
                assert(subnets[i] == rest[i]);
            } else {
                let at = choose|at: int|
                    0 <= at < remote(subnets, own).len() && remote(subnets, own)[at] == n;
                if at < remote(rest, own).len() {
                    assert(remote(rest, own)[at] == n);
                }
                assert(subnets[subnets.len() - 1].via_endpoint_id != own);
            }
        }
    }
}

/// The poll that a ping sets off is taken over only where it brings a
/// membership of this network at revisions other than those in force.
pub proof fn law_what_a_ping_wakes(
    snap: EndpointSnapshot,
    current: ManagedRevisionSnapshot,
    id: u128,
    at: int,
)
    ensures
        first_of_network(snap.memberships@, id, at) ==> (wakes(snap, current, id) <==> snap.version
            != current.org.0 || snap.memberships@[at].version != current.network.0),
        lacks_network(snap.memberships@, id) ==> !wakes(snap, current, id),
{
    if first_of_network(snap.memberships@, id, at) {
        lemma_membership_place(snap.memberships@, id, at);
    }
    if lacks_network(snap.memberships@, id) {
        lemma_membership_place(snap.memberships@, id, snap.memberships@.len() as int);
    }
}

/// Whatever was started is reported by its id: as ready, or as failed with the
/// error. A transfer that was begun is reported only where it failed.
pub proof fn law_starts_are_reported<'a>(
    serve: &'a ServeStart,
    tunnel: &'a TunnelOpen,
    file: &'a FileSend,
    error: &'a String,
)
    ensures
        answer_to(ControlStep::StartServe(serve), None) == Some(
            ControlStep::SendServeReady { serve_id: &serve.serve_id },
        ),
        answer_to(ControlStep::StartServe(serve), Some(error)) == Some(
            ControlStep::SendServeFailed { serve_id: &serve.serve_id, error },
        ),
        answer_to(ControlStep::OpenTunnel(tunnel), None) == Some(
            ControlStep::SendTunnelReady { tunnel_id: &tunnel.tunnel_id },
        ),
        answer_to(ControlStep::OpenTunnel(tunnel), Some(error)) == Some(
            ControlStep::SendTunnelFailed { tunnel_id: &tunnel.tunnel_id, error },
        ),
        answer_to(ControlStep::SendFile(file), None) is None,
        answer_to(ControlStep::SendFile(file), Some(error)) == Some(
            ControlStep::SendTransferFailed {
                transfer_id: &file.transfer_id,
                error,
                rejected: false,
            },
        ),
{
}

/// A manager that is there refuses nothing; one that is not says which feature
/// is missing, but for transfers without a manager.
pub proof fn law_refusals(what: Manager, state: ManagerState)
    ensures
        refusal(what, ManagerState::Ready) is None,
        state != ManagerState::Ready ==> (refusal(what, state) is None <==> what == Manager::Send
            && state == ManagerState::Missing),
        refusal(Manager::Serve, ManagerState::Disabled) == Some("serve feature disabled"@),
        refusal(Manager::Tunnel, ManagerState::Disabled) == Some("tunnel feature disabled"@),
        refusal(Manager::Send, ManagerState::Disabled) == Some("send feature disabled"@),
{
}

/// A change that takes force alters the peers of this network as it says and
/// leaves every other network as it is. Of a network that is not known yet the
/// revision alone moves.
#[verifier::rlimit(40)]
pub proof fn law_deltas_change_the_peers(
    before: ManagedState,
    after: ManagedState,
    delta: SnapshotDelta,
    check: PolicyCheck,
    at: int,
    key: Seq<char>,
)
    requires
        before.wf(),
        msg_moves(before, after, ServerMsg::Delta(delta), check),
        before.revisions@.network.0 <= delta.version,
    ensures
        0 <= at < before.routes.networks().len() && before.routes.networks()[at].0
            == before.network_id ==> {
            let networks = before.routes.networks();
            let old_peers = networks[at].1.peers;
            let peers = after.routes.networks()[at].1.peers;
            let added = views(delta.added@);
            let removed = texts(delta.removed@);
            let own = before.self_endpoint_id@;
            &&& after.routes.networks().len() == networks.len()
            &&& after.routes.networks()[at].0 == before.network_id
            &&& forall|i: int|
                0 <= i < networks.len() && i != at ==> #[trigger] after.routes.networks()[i]
                    == networks[i]
            &&& lists_key(peers, key) <==> key != own && (lists_key(added, key) || (lists_key(
                old_peers,
                key,
            ) && !removed.contains(key)))
            &&& forall|j: int|
                0 <= j < added.len() && #[trigger] last_of_its_key(added, j)
                    && added[j].endpoint_id == key && key != own ==> peers.contains(added[j])
            &&& after.routes.version_of() == delta.version
            &&& after.routes.seq_of() == before.routes.seq_of().wrapping_add(1)
        },
        (forall|i: int|
            0 <= i < before.routes.networks().len() ==> (
            #[trigger] before.routes.networks()[i]).0 != before.network_id) ==> after.routes
            == before.routes,
{
    let networks = before.routes.networks();
    before.routes.lemma_wf();
    law_known_networks_are_found(networks, before.network_id);
    if 0 <= at < networks.len() && networks[at].0 == before.network_id {
        law_delta_sets_the_peers(
            networks[at].1,
            views(delta.added@),
            texts(delta.removed@),
            before.self_endpoint_id@,
            before.routes.model().network_name,
            key,
        );
    }
}

/// Where a key to check policies with was given, a membership of which either
/// policy is not validly signed changes nothing.
pub proof fn law_unsigned_policies_change_nothing(
    before: ManagedState,
    after: ManagedState,
    snap: EndpointSnapshot,
    check: PolicyCheck,
    at: int,
)
    requires
        msg_moves(before, after, ServerMsg::Snapshot(snap), check),
        first_of_network(snap.memberships@, before.network_id, at),
        snap.policy_verifying_key is Some,
        policy_key(Some(snap.policy_verifying_key->0@)) is Some,
        !check.network_valid || !check.org_valid,
    ensures
        msg_result(before, ServerMsg::Snapshot(snap), check) == Absorbed::Ignored,
        after.routes == before.routes,
        after.revisions@ == before.revisions@,
{
    lemma_membership_place(snap.memberships@, before.network_id, at);
}

/// An embedded endpoint whose network was revoked closes its connections, where
/// it has any; a revocation that changed nothing sets nothing off, for it as for
/// a full agent.
pub proof fn law_driver_takes_a_revoked_network_down(
    network_id: u128,
    org_revision: u64,
    network_revision: u64,
    reason: String,
    result: Absorbed,
    driver: DriverWiring,
    agent: AgentWiring,
    known: u64,
    id: u128,
)
    ensures
        ({
            let msg = ServerMsg::MembershipRevoked {
                network_id,
                org_revision,
                network_revision,
                reason,
            };
            let steps = driver_steps(&msg, result, driver, known, id);
            &&& result == Absorbed::Cleared && driver.pool ==> both(
                steps,
                ControlStep::ReconcilePool,
                ControlStep::ClosePool,
            )
            &&& result != Absorbed::Cleared || !driver.pool ==> steps.len() == 0
            &&& result != Absorbed::Cleared ==> agent_steps(&msg, result, agent, known, id).len()
                == 0
        }),
{
}

/// A full state that was not taken over sets nothing off.
pub proof fn law_ignored_states_set_nothing_off(
    snap: EndpointSnapshot,
    driver: DriverWiring,
    agent: AgentWiring,
    known: u64,
    id: u128,
)
    ensures
        agent_steps(&ServerMsg::Snapshot(snap), Absorbed::Ignored, agent, known, id).len() == 0,
        driver_steps(&ServerMsg::Snapshot(snap), Absorbed::Ignored, driver, known, id).len() == 0,
        poll_steps(&snap, Absorbed::Ignored, driver, id).len() == 0,
{
}

} // verus!
