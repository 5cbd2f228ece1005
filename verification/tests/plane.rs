use tunnet::accept::{
    acknowledges, auth_accept, join_accept, join_ended, tunnel_accept, AcceptClose, ConnectAsk,
    recording_accept, ConnectReply, ConnectRun, GrantClaim, JoinOutcome, RecordingStep,
    MAX_CONNECT_REQUEST,
};
use tunnet::dataplane::{
    bring_down_outcome, bring_up_outcome, desired_routes, membership_desired, peer_ips,
    route_snapshot, DataPlane, DataPlaneError, DnsFault, PlaneAction, PlaneAsk, PlaneReply,
    PlaneStep, RouteFault,
};
use tunnet::membership::{DeviceProfile, DnsConfig, PeerEntry, SubnetRoute};
use tunnet::net::Ipv4Net;
use tunnet::routing::RoutingTable;
use tunnet::supervisor::{
    plane_start_order, plane_stop_order, restart_limit, shutdown_wait_secs, start_order,
    stop_order, supervision_strategy, AgentParts, Child, Strategy,
};
use tunnet::sync::{EndpointSnapshot, NetworkMembershipSnapshot};

fn plane() -> DataPlane {
    DataPlane::new(true, true, false, 0)
}

/// Brings the plane up, with an interface that cannot be built where `broken`.
fn bring_up(p: &mut DataPlane, broken: bool) -> (Vec<PlaneAction>, Result<(), DataPlaneError>) {
    let mut done = Vec::new();
    let mut step: PlaneStep = p.bring_up();
    loop {
        done.extend(step.actions);
        let reply = match step.ask {
            PlaneAsk::Done(outcome) => return (done, outcome),
            PlaneAsk::CheckConflicts => PlaneReply::Conflicts(0),
            PlaneAsk::StartDns => PlaneReply::DnsStarted(Ok(())),
            PlaneAsk::BuildTun => PlaneReply::TunBuilt(if broken {
                Err("no such device".to_string())
            } else {
                Ok(Some(9))
            }),
            PlaneAsk::ApplyDns => PlaneReply::DnsApplied(Ok(true)),
            PlaneAsk::ReconcileRoutes => PlaneReply::Routed(Ok(())),
        };
        step = p.answer(reply);
    }
}

#[test]
fn bring_down_is_idempotent() {
    let mut p = plane();
    assert!(p.bring_down().is_empty());
    assert!(p.bring_down().is_empty());
    let status = p.status();
    assert!(!status.up);
    assert_eq!(status.generation, 0);
}

#[test]
fn concurrent_bring_down_calls_serialize() {
    let mut p = plane();
    bring_up(&mut p, false).1.unwrap();
    assert!(!p.bring_down().is_empty());
    for _ in 0..7 {
        assert!(p.bring_down().is_empty());
    }
    assert!(!p.status().up);
}

#[test]
fn bring_up_failure_or_cycle_leaves_no_residue() {
    let mut p = plane();
    let (actions, outcome) = bring_up(&mut p, true);
    match outcome {
        Err(DataPlaneError::Tun(why)) => assert_eq!(why, "no such device"),
        other => panic!("expected the failure, got {other:?}"),
    }
    let status = p.status();
    assert!(!status.up);
    assert_eq!(status.generation, 0);
    assert!(!p.published && !p.dns_running);
    assert!(actions.contains(&PlaneAction::StopDns));
    assert!(actions.contains(&PlaneAction::ClearRoutes));
    // A cycle.
    let (actions, outcome) = bring_up(&mut p, false);
    outcome.unwrap();
    assert_eq!(p.status().generation, 1);
    assert!(p.status().up && p.published);
    assert_eq!(actions.last(), Some(&PlaneAction::ReportUp));
    let actions = p.bring_down();
    assert_eq!(actions.first(), Some(&PlaneAction::Unpublish));
    assert_eq!(actions.last(), Some(&PlaneAction::ReportDown));
    assert!(!p.status().up && !p.published);
}

#[test]
fn supervised_restart_reconstructs_valid_state() {
    // A plane that is started anew while another was up comes up again.
    let mut p = DataPlane::new(true, false, true, 4);
    let mut step = p.workers_ended();
    assert!(step.actions.contains(&PlaneAction::Unpublish));
    loop {
        let reply = match step.ask {
            PlaneAsk::Done(outcome) => {
                outcome.unwrap();
                break;
            }
            PlaneAsk::CheckConflicts => PlaneReply::Conflicts(0),
            PlaneAsk::BuildTun => PlaneReply::TunBuilt(Ok(None)),
            PlaneAsk::ReconcileRoutes => PlaneReply::Routed(Err(RouteFault::Failed("kernel".to_string()))),
            other => panic!("unexpected {other:?}"),
        };
        step = p.answer(reply);
    }
    assert!(p.status().up);
    assert_eq!(p.status().generation, 5);
}

#[test]
fn conflicts_keep_a_plane_down() {
    let mut p = plane();
    p.bring_up();
    let step = p.answer(PlaneReply::Conflicts(2));
    match step.ask {
        PlaneAsk::Done(Err(e)) => assert!(e.to_text().contains("2 conflict(s)")),
        other => panic!("expected the conflict, got {other:?}"),
    }
    assert!(!p.status().up);
}

#[test]
fn outcomes_are_worded() {
    assert!(bring_up_outcome(false, Ok(())).is_ok());
    assert_eq!(
        bring_up_outcome(true, Ok(())).unwrap_err(),
        "data plane bring-up timed out"
    );
    let failed = || Err(DataPlaneError::Tun("x".to_string()));
    assert!(bring_up_outcome(false, failed())
        .unwrap_err()
        .starts_with("data plane bring-up failed: "));
    assert!(bring_down_outcome(false, failed())
        .unwrap_err()
        .starts_with("data plane bring-down failed: "));
    assert_eq!(
        bring_down_outcome(true, Ok(())).unwrap_err(),
        "data plane bring-down timed out"
    );
}

fn snapshot() -> EndpointSnapshot {
    let mut profile = DeviceProfile::default();
    profile.exit_node_endpoint_id = Some("exit".to_string());
    EndpointSnapshot {
        version: 1,
        memberships: vec![NetworkMembershipSnapshot {
            network_id: 7,
            network_name: "office".to_string(),
            assigned_ipv4: 1,
            prefix: 24,
            mtu: 1280,
            ipv4_peers: vec![],
            subnet_routes: vec![
                SubnetRoute {
                    cidr: Ipv4Net::new(0x0a01_0000, 16).unwrap(),
                    via_endpoint_id: "me".to_string(),
                    via_ip: 1,
                },
                SubnetRoute {
                    cidr: Ipv4Net::new(0x0a02_0000, 16).unwrap(),
                    via_endpoint_id: "other".to_string(),
                    via_ip: 2,
                },
            ],
            hostname_routes: vec![],
            exit_nodes: vec![],
            device_profile: profile,
            dns: DnsConfig::default(),
            self_tags: vec![],
            self_hostname: "me".to_string(),
            version: 1,
        }],
        network_revisions: vec![],
        connectivity_relays: vec![],
        policy_verifying_key: None,
    }
}

#[test]
fn routes_that_are_wished_for() {
    let snap = snapshot();
    let known = route_snapshot(Some(&snap), false, 7, "me");
    assert_eq!(known.remote_subnets.len(), 1);
    assert!(known.has_exit);
    let unknown = route_snapshot(Some(&snap), false, 8, "me");
    assert!(unknown.remote_subnets.is_empty() && !unknown.has_exit);
    assert!(!route_snapshot(Some(&snap), true, 7, "me").has_exit);
    let mut routes = RoutingTable::new();
    routes.replace(
        &[PeerEntry {
            ip: 5,
            endpoint_id: "b".repeat(64),
            hostname: "gw".to_string(),
            tags: vec![],
            ssh_host_key: None,
        }],
        &[],
        &[],
        &[],
        &DeviceProfile::default(),
        &DnsConfig::default(),
        "office",
        7,
        "me",
        1,
    );
    assert_eq!(peer_ips(&routes), vec![5]);
    let direct = plane();
    let wished = desired_routes(&direct, "tun0", Some(3), &routes, known, vec![], &vec![8]);
    assert_eq!(wished.tun_if_index, Some(3));
    assert_eq!(wished.peer_routes.len(), 1);
    assert_eq!(wished.peer_routes[0].to_text(), "0.0.0.5/32");
    let managed = DataPlane::new(false, true, false, 0);
    let known = route_snapshot(Some(&snap), false, 7, "me");
    let host = Ipv4Net::host(6);
    let wished = desired_routes(&managed, "tun0", None, &routes, known, vec![host], &vec![]);
    assert!(wished.has_exit);
    assert_eq!(wished.peer_routes[0].to_text(), "0.0.0.6/32");
    let wished = membership_desired(
        "tun0",
        Some(2),
        &DeviceProfile::default(),
        &vec![],
        false,
        vec![host],
    );
    assert_eq!(wished.peer_routes.len(), 1);
}

#[test]
fn parts_stop_before_what_they_use() {
    let parts = AgentParts {
        control: true,
        posture: true,
        presences: 2,
        update: true,
    };
    let started = start_order(parts);
    let stopped = stop_order(parts);
    assert_eq!(started.len(), stopped.len());
    assert!(started.iter().all(|c| stopped.contains(c)));
    let place = |c: Child| stopped.iter().position(|x| *x == c).unwrap();
    assert!(place(Child::Control) < place(Child::DataPlaneSupervisor));
    assert!(place(Child::Presence(1)) < place(Child::SshRegistry));
    assert_eq!(plane_start_order(), vec![Child::Route, Child::DataPlane]);
    assert_eq!(plane_stop_order(), vec![Child::DataPlane, Child::Route]);
    assert_eq!(restart_limit(Child::Control).times, 10);
    assert_eq!(restart_limit(Child::Update).within_secs, 300);
    assert_eq!(supervision_strategy(true), Strategy::RestForOne);
    assert_eq!(supervision_strategy(false), Strategy::OneForOne);
    assert_eq!(shutdown_wait_secs(Child::DataPlane), Some(20));
    assert_eq!(shutdown_wait_secs(Child::Update), None);
}

#[test]
fn connections_are_refused_with_words() {
    assert_eq!(tunnel_accept(true, false), None);
    assert_eq!(tunnel_accept(true, true), Some(AcceptClose::DataplaneDown));
    assert_eq!(AcceptClose::DataplaneDown.words(), (1, "dataplane_down"));
    assert_eq!(auth_accept(false, Some(true)), Some(AcceptClose::NotDirect));
    assert_eq!(auth_accept(true, Some(false)), Some(AcceptClose::AuthFailed));
    assert_eq!(auth_accept(true, None), None);
    assert_eq!(join_accept(false), Some(AcceptClose::NotCoordinator));
    assert_eq!(join_accept(true), None);
    assert_eq!(AcceptClose::GrantDenied.words(), (401, "grant_denied"));
    let end = join_ended(JoinOutcome::Admitted(Some(3)), true, true);
    assert_eq!(end.project, Some(3));
    assert_eq!(end.close, AcceptClose::JoinDone);
    let end = join_ended(JoinOutcome::Pending(Some(3)), true, true);
    assert_eq!((end.project, end.announce), (None, Some(3)));
    assert_eq!(
        join_ended(JoinOutcome::Failed, true, true).close,
        AcceptClose::JoinFailed
    );
}

fn closed(ask: ConnectAsk) -> (Option<Vec<u8>>, AcceptClose) {
    match ask {
        ConnectAsk::Close { reply, close } => (reply, close),
        other => panic!("expected the end, got {other:?}"),
    }
}

fn up_to_grant(body: &[u8]) -> ConnectRun {
    let (mut run, first) = ConnectRun::new("peer", true);
    assert!(matches!(first, ConnectAsk::OpenStream));
    assert!(matches!(
        run.answer(ConnectReply::Ready(true)),
        ConnectAsk::ReadLength
    ));
    let length = (body.len() as u32).to_be_bytes().to_vec();
    match run.answer(ConnectReply::Length(Some(length))) {
        ConnectAsk::ReadBody(n) => assert_eq!(n, body.len()),
        other => panic!("expected to read, got {other:?}"),
    }
    assert!(matches!(
        run.answer(ConnectReply::Body(Some(body.to_vec()))),
        ConnectAsk::ReadGrant
    ));
    run
}

fn grant(id: &str) -> ConnectReply {
    ConnectReply::Grant(Some(GrantClaim {
        endpoint_id: id.to_string(),
        network_id: 7,
    }))
}

#[test]
fn granted_requests_are_served() {
    let mut run = up_to_grant(b"{\"type\":\"connect_request\"}");
    assert!(matches!(run.answer(grant("peer")), ConnectAsk::CheckRevoked(7)));
    assert!(matches!(run.answer(ConnectReply::Ready(true)), ConnectAsk::FindKey(7)));
    assert!(matches!(run.answer(ConnectReply::Ready(true)), ConnectAsk::VerifyGrant(7)));
    assert!(matches!(run.answer(ConnectReply::Ready(true)), ConnectAsk::FindNetwork(7)));
    assert!(matches!(run.answer(ConnectReply::Ready(true)), ConnectAsk::Handle));
    let (reply, close) = closed(run.answer(ConnectReply::Handled(Some(vec![5, 6]))));
    assert_eq!(reply.unwrap(), vec![0, 0, 0, 2, 5, 6]);
    assert_eq!(close, AcceptClose::Served);
}

#[test]
fn requests_without_a_grant_are_not_served() {
    let mut run = up_to_grant(b"{}");
    assert_eq!(
        closed(run.answer(ConnectReply::Grant(None))).1,
        AcceptClose::MissingGrant
    );
    let mut run = up_to_grant(b"{}");
    assert_eq!(closed(run.answer(grant("another"))).1, AcceptClose::GrantDenied);
    let mut run = up_to_grant(b"{}");
    run.answer(grant("peer"));
    assert_eq!(
        closed(run.answer(ConnectReply::Ready(false))).1,
        AcceptClose::GrantDenied
    );
    let (run, first) = ConnectRun::new("peer", false);
    assert_eq!(closed(first).1, AcceptClose::NotDirect);
    assert_eq!(run.remote, "peer");
}

#[test]
fn requests_that_are_too_long_are_not_read() {
    let (mut run, _) = ConnectRun::new("peer", true);
    run.answer(ConnectReply::Ready(true));
    let length = (MAX_CONNECT_REQUEST as u32 + 1).to_be_bytes().to_vec();
    assert_eq!(
        closed(run.answer(ConnectReply::Length(Some(length)))).1,
        AcceptClose::TooLarge
    );
    let (mut run, _) = ConnectRun::new("peer", true);
    run.answer(ConnectReply::Ready(true));
    assert_eq!(
        closed(run.answer(ConnectReply::Length(None))).1,
        AcceptClose::BadRequest
    );
}

#[test]
fn acknowledgements_need_no_answer() {
    let mut run = up_to_grant(b"{\"type\":\"connect_accepted\"}");
    assert_eq!(run.kind.as_deref(), Some("connect_accepted"));
    assert!(acknowledges(&run.kind));
    run.answer(grant("peer"));
    for _ in 0..3 {
        run.answer(ConnectReply::Ready(true));
    }
    let (reply, close) = closed(run.answer(ConnectReply::Ready(true)));
    assert_eq!((reply, close), (None, AcceptClose::Served));
    assert!(!acknowledges(&None));
    let run = up_to_grant(b"no json");
    assert_eq!(run.kind, None);
}

#[test]
fn failures_say_where_they_come_from() {
    let mut plane = DataPlane::new(false, true, false, 0);
    plane.bring_up();
    plane.answer(PlaneReply::Conflicts(0));
    plane.answer(PlaneReply::DnsStarted(Ok(())));
    plane.answer(PlaneReply::TunBuilt(Ok(Some(7))));
    let step = plane.answer(PlaneReply::DnsApplied(Err(DnsFault::Refused("no".to_string()))));
    match step.ask {
        PlaneAsk::Done(Err(e)) => {
            assert_eq!(e.to_text(), "PeerDNS failed: OS configuration: no")
        }
        other => panic!("{other:?}"),
    }
    assert_eq!(
        DnsFault::CutShort("gone".to_string()).to_text(),
        "configuration task: gone"
    );
    assert_eq!(RouteFault::TimedOut.to_text(), "route apply timed out");
}

#[test]
fn unread_request_is_bad() {
    let (mut run, _) = ConnectRun::new("peer", true);
    run.answer(ConnectReply::Ready(true));
    run.answer(ConnectReply::Length(Some(vec![0, 0, 0, 9])));
    assert_eq!(
        closed(run.answer(ConnectReply::Body(None))).1,
        AcceptClose::BadRequest
    );
}

#[test]
fn recordings_need_a_store() {
    assert_eq!(recording_accept(false, true), RecordingStep::Ignore);
    assert_eq!(recording_accept(true, false), RecordingStep::NoStore);
    assert_eq!(recording_accept(true, true), RecordingStep::Take);
}
