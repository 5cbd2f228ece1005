use tunnet::control::{
    heartbeat, metered_relay_urls, poll_period, refusal_text, remote_subnets, set_send_consent,
    start_ended, Absorbed, AgentWiring, ControlStep, DriverWiring, FileSend, ManagedDriver,
    ManagedState, Manager, ManagerState, PolicySource, SendConfig, ServeStart, ServerMsg,
    SocketTarget, TunnelOpen,
};
use tunnet::membership::{DeviceProfile, DnsConfig, PeerEntry, SubnetRoute};
use tunnet::net::Ipv4Net;
use tunnet::net_text::parse_ipv4;
use tunnet::policy_key::{accept_key, parse_policy_vk};
use tunnet::routing::RoutingTable;
use tunnet::sync::{
    apply_delta, apply_membership, membership_for_network, ConnectivityRelay, EndpointSnapshot,
    ManagedRevisions, NetworkMembershipSnapshot, NetworkRevision, OrgRevision, PolicyCheck,
    SnapshotDelta,
};

const UNSIGNED: PolicyCheck = PolicyCheck {
    network_valid: false,
    org_valid: false,
};

/// A compressed curve point: the base point of Ed25519.
const BASE_POINT: &str = "5866666666666666666666666666666666666666666666666666666666666666";

fn ip(s: &str) -> u32 {
    parse_ipv4(s).unwrap()
}

fn peer(endpoint: &str, addr: &str, hostname: &str) -> PeerEntry {
    PeerEntry {
        ip: ip(addr),
        endpoint_id: endpoint.to_string(),
        hostname: hostname.to_string(),
        tags: vec![],
        ssh_host_key: None,
    }
}

fn membership(version: u64) -> NetworkMembershipSnapshot {
    NetworkMembershipSnapshot {
        network_id: 0,
        network_name: "office".to_string(),
        assigned_ipv4: ip("10.7.0.1"),
        prefix: 24,
        mtu: 1280,
        ipv4_peers: vec![peer(&"b".repeat(64), "10.7.0.2", "peer")],
        subnet_routes: vec![],
        hostname_routes: vec![],
        exit_nodes: vec![],
        device_profile: DeviceProfile::default(),
        dns: DnsConfig::default(),
        self_tags: vec![],
        self_hostname: "self".to_string(),
        version,
    }
}

fn snapshot(version: u64, memberships: Vec<NetworkMembershipSnapshot>) -> EndpointSnapshot {
    EndpointSnapshot {
        version,
        memberships,
        network_revisions: vec![(0, version * 10)],
        connectivity_relays: vec![],
        policy_verifying_key: None,
    }
}

fn state(org: u64, network: u64) -> ManagedState {
    ManagedState {
        routes: RoutingTable::new(),
        revisions: ManagedRevisions::new(org, network),
        network_id: 0,
        self_endpoint_id: "a".repeat(64),
        self_hostname: "self".to_string(),
    }
}

fn driver() -> DriverWiring {
    DriverWiring {
        mesh: true,
        pool: true,
        effective_config: true,
        poll_client: true,
        serve: ManagerState::Ready,
        tunnel: ManagerState::Ready,
        send: ManagerState::Ready,
    }
}

fn agent() -> AgentWiring {
    AgentWiring {
        routes: true,
        dataplane: true,
        posture: true,
        ssh_registry: true,
        poll_client: true,
    }
}

#[test]
fn network_revision_never_overwrites_org_revision() {
    let mut revisions = ManagedRevisions::new(7, 100);
    assert!(revisions.apply_delta(NetworkRevision(101)));
    assert_eq!(revisions.load().org, OrgRevision(7));
    assert_eq!(revisions.load().network, NetworkRevision(101));
    assert!(revisions.apply_snapshot(OrgRevision(8), NetworkRevision(102)));
    assert_eq!(revisions.load().org, OrgRevision(8));
}

#[test]
fn policy_create_update_delete_apply_without_restart() {
    let mut routes = RoutingTable::new();
    let self_id = "a".repeat(64);
    let mut revisions = ManagedRevisions::new(7, 100);
    for network_revision in [101, 102, 103] {
        assert!(apply_membership(
            &membership(network_revision),
            UNSIGNED,
            None,
            &mut routes,
            &mut revisions,
            8,
            &self_id,
            "self",
        ));
    }
    assert_eq!(revisions.load().org, OrgRevision(8));
    assert_eq!(revisions.load().network, NetworkRevision(103));
}

#[test]
fn authoritative_membership_removal_revokes_transport_immediately() {
    let mut routes = RoutingTable::new();
    let self_id = "a".repeat(64);
    let peer = "b".repeat(64);
    let mut revisions = ManagedRevisions::new(1, 1);
    assert!(apply_membership(
        &membership(2),
        UNSIGNED,
        None,
        &mut routes,
        &mut revisions,
        2,
        &self_id,
        "self",
    ));
    assert!(routes.lookup_endpoint(&peer).is_some());
    assert!(revisions.accept_absence(3, 3));
    routes.clear_managed(0, &self_id);
    assert!(routes.lookup_endpoint(&peer).is_none());
}

#[test]
fn stale_completion_cannot_mutate_live_state() {
    let mut revisions = ManagedRevisions::new(1, 1);
    let mut applied = 0;
    if revisions.apply_snapshot(OrgRevision(3), NetworkRevision(30)) {
        applied = 30;
    }
    assert_eq!(applied, 30);
    if revisions.apply_snapshot(OrgRevision(2), NetworkRevision(20)) {
        applied = 20;
    }
    assert_eq!(applied, 30);
}

#[test]
fn concurrent_out_of_order_results_remain_monotonic() {
    let mut revisions = ManagedRevisions::new(1, 1);
    assert!(revisions.apply_snapshot(OrgRevision(3), NetworkRevision(30)));
    assert!(!revisions.apply_snapshot(OrgRevision(2), NetworkRevision(20)));
    assert_eq!(revisions.load().org, OrgRevision(3));
    assert_eq!(revisions.load().network, NetworkRevision(30));
}

#[test]
fn apply_delta_bumps_version() {
    let mut routes = RoutingTable::new();
    let self_id = "a".repeat(64);
    let peer_a = "b".repeat(64);
    routes.replace(
        &[],
        &[],
        &[],
        &[],
        &DeviceProfile::default(),
        &DnsConfig::default(),
        "office",
        0,
        &self_id,
        1,
    );
    let mut revisions = ManagedRevisions::new(1, 1);
    let delta = SnapshotDelta {
        added: vec![peer(&peer_a, "10.7.0.5", "alice")],
        removed: vec![],
        version: 42,
    };
    apply_delta(&mut routes, &mut revisions, &delta, &self_id, 0, "office");
    assert_eq!(revisions.load().org, OrgRevision(1));
    assert_eq!(revisions.load().network, NetworkRevision(42));
    assert_eq!(routes.version(), 42);
    assert!(routes.lookup_endpoint(&peer_a).is_some());
}

#[test]
fn membership_lists_the_endpoint_itself() {
    let mut routes = RoutingTable::new();
    let self_id = "a".repeat(64);
    let mut revisions = ManagedRevisions::new(0, 0);
    assert!(apply_membership(
        &membership(1),
        UNSIGNED,
        None,
        &mut routes,
        &mut revisions,
        1,
        &self_id,
        "self",
    ));
    assert_eq!(routes.resolve_dns_a("self.tunnet"), Some(ip("10.7.0.1")));
    assert_eq!(routes.resolve_dns_a("peer.tunnet"), Some(ip("10.7.0.2")));
}

#[test]
fn bad_signatures_stop_a_membership_once_a_key_is_known() {
    let mut routes = RoutingTable::new();
    let mut revisions = ManagedRevisions::new(0, 0);
    let good = PolicyCheck {
        network_valid: true,
        org_valid: true,
    };
    let half = PolicyCheck {
        network_valid: true,
        org_valid: false,
    };
    let m = membership(1);
    let key = Some(BASE_POINT);
    assert!(!apply_membership(&m, half, key, &mut routes, &mut revisions, 1, "a", "self"));
    assert_eq!(revisions.load().network, NetworkRevision(0));
    assert!(apply_membership(&m, good, key, &mut routes, &mut revisions, 1, "a", "self"));
    // What is no key at all is as good as none.
    assert!(apply_membership(&m, half, Some("zz"), &mut routes, &mut revisions, 1, "a", "self"));
}

#[test]
fn policy_keys_are_points_of_the_curve_in_hexadecimal() {
    let bytes = parse_policy_vk(Some(BASE_POINT)).unwrap();
    assert_eq!(bytes.len(), 32);
    assert_eq!(bytes[0], 0x58);
    assert_eq!(bytes[31], 0x66);
    assert!(parse_policy_vk(Some(&BASE_POINT.to_uppercase())).is_some());
    assert!(parse_policy_vk(None).is_none());
    assert!(parse_policy_vk(Some("5866")).is_none());
    assert!(parse_policy_vk(Some(&"x".repeat(64))).is_none());
    // No point has this y coordinate.
    let mut no_point = "02".to_string();
    no_point.push_str(&"00".repeat(31));
    assert!(parse_policy_vk(Some(&no_point)).is_none());
    // Whether 32 bytes are a point decides.
    assert!(accept_key(vec![1; 32], true).is_some());
    assert!(accept_key(vec![1; 32], false).is_none());
    assert!(accept_key(vec![1; 31], true).is_none());
}

#[test]
fn missing_membership_is_named() {
    let snap = snapshot(1, vec![membership(1)]);
    assert_eq!(membership_for_network(&snap, 0).unwrap().network_name, "office");
    let id = 0x0102_0304_0506_0708_090a_0b0c_0d0e_0f10;
    let text = "network 01020304-0506-0708-090a-0b0c0d0e0f10 not in snapshot";
    assert_eq!(membership_for_network(&snap, id).unwrap_err(), text);
}

#[test]
fn stale_news_leave_everything_as_it_is() {
    let mut s = state(5, 50);
    let old = ServerMsg::Snapshot(snapshot(4, vec![membership(60)]));
    assert_eq!(s.absorb(&old, UNSIGNED), Absorbed::Ignored);
    assert_eq!(s.revisions.load().org, OrgRevision(5));
    assert!(s.drive(&old, UNSIGNED, driver()).is_empty());
    let delta = ServerMsg::Delta(SnapshotDelta {
        version: 49,
        added: vec![peer(&"c".repeat(64), "10.7.0.9", "late")],
        removed: vec![],
    });
    assert_eq!(s.absorb(&delta, UNSIGNED), Absorbed::Ignored);
    assert!(s.routes.peers().is_empty());
}

#[test]
fn snapshot_is_taken_over_in_order() {
    let mut s = state(1, 1);
    let msg = ServerMsg::Snapshot(snapshot(2, vec![membership(20)]));
    let steps = s.handle_server(&msg, UNSIGNED, agent());
    let snap = snapshot(2, vec![membership(20)]);
    let m = membership(20);
    assert_eq!(
        steps,
        vec![
            ControlStep::ReplacePolicy(&m),
            ControlStep::SyncKnownHosts(&m),
            ControlStep::SetCloudRelays(&snap.connectivity_relays),
            ControlStep::ReconcilePool,
            ControlStep::ReconcileDirectState,
            ControlStep::ApplyRoutes(&m),
            ControlStep::ApplyAgentPolicy(PolicySource::Membership(&m)),
            ControlStep::BringUp,
            ControlStep::SaveSnapshot(&snap),
        ]
    );
    assert_eq!(s.routes.peers().len(), 2);
    assert_eq!(s.revisions.load().network, NetworkRevision(20));
}

#[test]
fn gone_network_is_emptied_and_taken_down() {
    let mut s = state(1, 1);
    s.handle_server(
        &ServerMsg::Snapshot(snapshot(2, vec![membership(20)])),
        UNSIGNED,
        agent(),
    );
    let mut embedded = state(1, 1);
    let gone = ServerMsg::Snapshot(snapshot(3, vec![]));
    assert_eq!(
        embedded.drive(&gone, UNSIGNED, driver()).last(),
        Some(&ControlStep::ReportEffectiveConfig(PolicySource::Snapshot(&snapshot(3, vec![]))))
    );
    let steps = s.handle_server(&gone, UNSIGNED, agent());
    assert!(steps.contains(&ControlStep::BringDown));
    assert!(steps.contains(&ControlStep::ClosePool));
    assert!(s.routes.peers().is_empty());
    assert_eq!(s.revisions.load().network, NetworkRevision(30));
}

#[test]
fn revocation_of_another_network_is_not_ours() {
    let mut s = state(1, 1);
    s.absorb(
        &ServerMsg::Snapshot(snapshot(2, vec![membership(20)])),
        UNSIGNED,
    );
    let other = ServerMsg::MembershipRevoked {
        network_id: 9,
        org_revision: 100,
        network_revision: 100,
        reason: "left".to_string(),
    };
    assert_eq!(s.absorb(&other, UNSIGNED), Absorbed::Ignored);
    assert_eq!(s.routes.peers().len(), 2);
    let ours = ServerMsg::MembershipRevoked {
        network_id: 0,
        org_revision: 100,
        network_revision: 100,
        reason: "left".to_string(),
    };
    assert_eq!(s.absorb(&ours, UNSIGNED), Absorbed::Cleared);
    assert!(s.routes.peers().is_empty());
}

#[test]
fn ping_is_answered_and_wakes_a_poll() {
    let mut s = state(2, 20);
    assert_eq!(
        s.drive(&ServerMsg::Ping { nonce: 77 }, UNSIGNED, driver()),
        vec![ControlStep::SendPong(77), ControlStep::Poll(2)]
    );
    assert_eq!(s.poll_now(true), vec![ControlStep::Poll(2)]);
    assert!(s.poll_now(false).is_empty());
    assert_eq!(s.known_version(), 2);
    // The state that is in force already is not taken over again.
    let same = snapshot(2, vec![membership(20)]);
    assert!(s.ping_polled(Some(&same), UNSIGNED, driver()).is_empty());
    let next = snapshot(2, vec![membership(21)]);
    assert!(!s.ping_polled(Some(&next), UNSIGNED, driver()).is_empty());
    assert_eq!(s.revisions.load().network, NetworkRevision(21));
}

#[test]
fn failed_poll_marks_the_policy_stale() {
    let mut s = state(2, 20);
    assert_eq!(s.poll_once(None, UNSIGNED, driver()), vec![ControlStep::MarkAclStale]);
    assert_eq!(s.poll_completed(None, UNSIGNED, agent()), vec![ControlStep::MarkAclStale]);
}

#[test]
fn reenrolment_stops_the_driver() {
    let mut s = state(2, 20);
    let reenroll = ServerMsg::ForceReenroll {
        reason: "expired".to_string(),
    };
    assert_eq!(s.drive(&reenroll, UNSIGNED, driver()), vec![ControlStep::StopDriver]);
}

#[test]
fn conversation_starts_with_hello_and_ends_with_reenrolment() {
    let mut d = ManagedDriver::new(state(7, 20));
    // The organisation's revision is named, not the network's.
    assert_eq!(
        d.state.hello("1.2.3"),
        ControlStep::SendHello {
            endpoint_id: "self",
            agent_version: "1.2.3",
            known_version: 7,
        }
    );
    let mut quiet = driver();
    quiet.poll_client = false;
    for nonce in [3, 9] {
        assert_eq!(
            d.receive(&ServerMsg::Ping { nonce }, UNSIGNED, quiet),
            vec![ControlStep::SendPong(nonce)]
        );
    }
    let reenroll = ServerMsg::ForceReenroll {
        reason: "expired".to_string(),
    };
    assert_eq!(d.receive(&reenroll, UNSIGNED, quiet), vec![ControlStep::StopDriver]);
    assert!(d.stopped);
    assert!(d.receive(&ServerMsg::Ping { nonce: 4 }, UNSIGNED, quiet).is_empty());
}

fn serve(id: &str) -> ServeStart {
    ServeStart {
        serve_id: id.to_string(),
        port: 8080,
        protocol: "http".to_string(),
        internal_hostname: "web".to_string(),
        certificate_pem: None,
        private_key_pem: None,
        access_mode: "all".to_string(),
        allowed_tags: vec![],
        allowed_endpoint_ids: vec![],
        target: Some(SocketTarget::V4 {
            ip: ip("127.0.0.1"),
            port: 80,
        }),
    }
}

#[test]
fn requests_keep_their_ids() {
    let mut s = state(2, 20);
    let start = ServerMsg::StartServe(serve("s1"));
    let mut w = driver();
    w.serve = ManagerState::Ready;
    let want = serve("s1");
    assert_eq!(s.drive(&start, UNSIGNED, w), vec![ControlStep::StartServe(&want)]);
    let id = "s1".to_string();
    let error = "port in use".to_string();
    let step = ControlStep::StartServe(&want);
    assert_eq!(start_ended(step, None), Some(ControlStep::SendServeReady { serve_id: &id }));
    assert_eq!(
        start_ended(step, Some(&error)),
        Some(ControlStep::SendServeFailed {
            serve_id: &id,
            error: &error,
        })
    );
    w.serve = ManagerState::Missing;
    assert_eq!(
        s.drive(&start, UNSIGNED, w),
        vec![ControlStep::RefuseServe {
            serve_id: &id,
            state: ManagerState::Missing,
        }]
    );
    let stop = ServerMsg::StopServe {
        serve_id: id.clone(),
    };
    assert_eq!(
        s.handle_server(&stop, UNSIGNED, agent()),
        vec![
            ControlStep::StopServe { serve_id: &id },
            ControlStep::SendServeStopped { serve_id: &id },
        ]
    );
}

#[test]
fn membership_says_which_routes_are_wished_for() {
    let s = state(2, 20);
    let mut m = membership(20);
    m.subnet_routes = vec![
        SubnetRoute {
            cidr: Ipv4Net::new(ip("192.168.7.0"), 24).unwrap(),
            via_endpoint_id: s.self_endpoint_id.clone(),
            via_ip: ip("10.7.0.1"),
        },
        SubnetRoute {
            cidr: Ipv4Net::new(ip("192.168.8.0"), 24).unwrap(),
            via_endpoint_id: "e".repeat(64),
            via_ip: ip("10.7.0.2"),
        },
    ];
    let peer_route = Ipv4Net::host(ip("10.7.0.2"));
    let wished = s.wished_routes(&m, "tunnet0", Some(4), vec![peer_route]);
    assert_eq!(
        wished.remote_subnets,
        vec![Ipv4Net::new(ip("192.168.8.0"), 24).unwrap()]
    );
    assert_eq!(wished.peer_routes, vec![peer_route]);
    assert_eq!(wished.tun_if_index, Some(4));
    assert!(!wished.has_exit);
}

#[test]
fn heartbeats_carry_relay_usage_only_when_there_is_some() {
    let beat = ControlStep::SendHeartbeat {
        active_conns: 2,
        bytes_tx: 30,
        bytes_rx: 40,
    };
    assert_eq!(heartbeat((2, 30, 40), 0), vec![beat]);
    assert_eq!(heartbeat((2, 30, 40), 9), vec![beat, ControlStep::SendRelayUsage(9)]);
}

#[test]
fn polls_are_at_least_five_seconds_apart() {
    assert_eq!(poll_period(0), 5);
    assert_eq!(poll_period(5), 5);
    assert_eq!(poll_period(30), 30);
}

#[test]
fn managers_that_are_not_there_say_why() {
    assert_eq!(
        refusal_text(Manager::Serve, ManagerState::Disabled).as_deref(),
        Some("serve feature disabled")
    );
    assert_eq!(
        refusal_text(Manager::Serve, ManagerState::Missing).as_deref(),
        Some("serve manager not available")
    );
    assert_eq!(
        refusal_text(Manager::Tunnel, ManagerState::Missing).as_deref(),
        Some("tunnel manager not available")
    );
    assert_eq!(refusal_text(Manager::Send, ManagerState::Missing), None);
    let open = TunnelOpen {
        tunnel_id: "t1".to_string(),
        edge_addr: "edge:443".to_string(),
        subdomain: "me".to_string(),
        public_hostname: "me.example".to_string(),
        local_port: 3000,
        protocol: "http".to_string(),
        auth_token: "token".to_string(),
        redirect_rules: vec![],
        target: None,
    };
    let error = "unreachable".to_string();
    assert_eq!(
        start_ended(ControlStep::OpenTunnel(&open), Some(&error)),
        Some(ControlStep::SendTunnelFailed {
            tunnel_id: &open.tunnel_id,
            error: &error,
        })
    );
    let file = FileSend {
        transfer_id: "f1".to_string(),
        path: "/tmp/a".to_string(),
        target: "peer".to_string(),
        message: None,
    };
    assert_eq!(start_ended(ControlStep::SendFile(&file), None), None);
    assert_eq!(
        start_ended(ControlStep::SendFile(&file), Some(&error)),
        Some(ControlStep::SendTransferFailed {
            transfer_id: &file.transfer_id,
            error: &error,
            rejected: false,
        })
    );
}

#[test]
fn consent_keeps_what_is_not_given() {
    let before = SendConfig {
        consent: 1,
        inbox_path: "/inbox".to_string(),
        pin_blobs: true,
    };
    let after = set_send_consent(before, None, None, false);
    assert_eq!(after.consent, 1);
    assert_eq!(after.inbox_path, "/inbox");
    assert!(!after.pin_blobs);
    let after = set_send_consent(after, Some(2), Some("/new".to_string()), true);
    assert_eq!(after.consent, 2);
    assert_eq!(after.inbox_path, "/new");
}

#[test]
fn only_metered_relays_are_told_to_the_mesh() {
    let relays = vec![
        ConnectivityRelay {
            url: "https://a/".to_string(),
            metering: true,
        },
        ConnectivityRelay {
            url: "https://b/".to_string(),
            metering: false,
        },
    ];
    assert_eq!(metered_relay_urls(&relays), vec!["https://a/".to_string()]);
}

#[test]
fn own_subnets_are_not_remote() {
    let route = |addr: &str, via: &str| SubnetRoute {
        cidr: Ipv4Net::new(ip(addr), 24).unwrap(),
        via_endpoint_id: via.to_string(),
        via_ip: 0,
    };
    let list = vec![route("10.1.0.0", "me"), route("10.2.0.0", "other")];
    let remote = remote_subnets(&list, "me");
    assert_eq!(remote.len(), 1);
    assert_eq!(remote[0].to_text(), "10.2.0.0/24");
}

#[test]
fn equal_revisions_apply_again() {
    let mut s = state(2, 20);
    let first = ServerMsg::Snapshot(snapshot(2, vec![membership(20)]));
    assert_eq!(s.absorb(&first, UNSIGNED), Absorbed::Applied);
    let mut changed = membership(20);
    changed.ipv4_peers[0].hostname = "renamed".to_string();
    let again = ServerMsg::Snapshot(snapshot(2, vec![changed]));
    assert_eq!(s.absorb(&again, UNSIGNED), Absorbed::Applied);
    assert!(s.routes.lookup_hostname("renamed").is_some());
    assert!(s.routes.lookup_hostname("peer").is_none());
    assert_eq!(s.revisions.load().network, NetworkRevision(20));
}

#[test]
fn bad_signature_keeps_the_last_good_state() {
    let mut s = state(2, 20);
    let first = ServerMsg::Snapshot(snapshot(2, vec![membership(20)]));
    assert_eq!(s.absorb(&first, UNSIGNED), Absorbed::Applied);
    let mut next = snapshot(3, vec![membership(30)]);
    next.policy_verifying_key =
        Some("d75a980182b10ab7d54bfed3c964073a0ee172f3daa62325af021a68f707511a".to_string());
    let forged = PolicyCheck {
        network_valid: true,
        org_valid: false,
    };
    assert!(s.handle_server(&ServerMsg::Snapshot(next), forged, agent()).is_empty());
    assert_eq!(s.revisions.load().org, OrgRevision(2));
    assert_eq!(s.routes.peers().len(), 2);
}
