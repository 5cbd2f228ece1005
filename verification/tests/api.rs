use tunnet::conn_pool::NANOS_PER_SEC;
use tunnet::endpoint::EndpointId;
use tunnet::json::{bool_field, field_or, item_fields, text_field, u64_field};
use tunnet::local_api::{
    approved_message, authority_for, build_diag, build_netcheck, check_invite_expiry,
    classify_error, denied_message, direct_firewall_accept, direct_firewall_add, direct_firewall_off, direct_firewall_show,
    direct_keep_alive, direct_policy_clear, direct_policy_set, expiry_by_sign, expiry_fields, firewall_stats_for_network,
    idle_permissions, iroh_relay_status, kick_message, map_error, meta_permissions,
    network_id_or_error, node_mode, parse_network_id, ping_target, probe_failed, reload_message, reload_routes,
    removed_rule_message, reports_stop, require_direct_coord, resolve_peer, seconds_left,
    serve_plan, start_serve, start_tunnel, ApiErrorCode, Authority, FirewallAction,
    FirewallDirection, FirewallStats, FirewallSwitch, LocalUi, NodeModeApi, Permission, PingNext,
    PingRun, Protocol, RelayState, TransferDirection, TunnelStart,
};
use tunnet::membership::{
    DeviceProfile, DnsConfig, ExitNodeInfo, HostnameRoute, PeerEntry, SplitTunnelMode, SubnetRoute,
};
use tunnet::net::Ipv4Net;
use tunnet::net_text::parse_ipv4;
use tunnet::pool::ConnPool;
use tunnet::routing::RoutingTable;
use tunnet::ssh_api::{
    get_ssh_cast, list_ssh_recordings, list_ssh_sessions, poll_ssh_auth, ssh_auth_state, ssh_cast,
};
use tunnet::summaries::{
    build_dns_status, build_meta, build_network_summary, build_node_summary, build_routes, features,
    idle_meta, idle_node_summary, peer_summaries, DirectRecord, ManagedRecord, NodeFacts, PersistedState,
    Presence,
};
use tunnet::sync::NetworkMembershipSnapshot;
use tunnet::tunnel_mesh::TunnelMesh;

const NOW: u64 = 1_000 * NANOS_PER_SEC;
const NETWORK: u128 = 0x0102_0304_0506_0708_090a_0b0c_0d0e_0f10;
const NETWORK_TEXT: &str = "01020304-0506-0708-090a-0b0c0d0e0f10";

fn ip(s: &str) -> u32 {
    parse_ipv4(s).unwrap()
}

fn id(c: char) -> String {
    c.to_string().repeat(64)
}

fn entry(endpoint: &str, addr: &str, hostname: &str) -> PeerEntry {
    PeerEntry {
        ip: ip(addr),
        endpoint_id: endpoint.to_string(),
        hostname: hostname.to_string(),
        tags: vec!["web".to_string()],
        ssh_host_key: Some("ssh-ed25519 AAAA".to_string()),
    }
}

fn table() -> RoutingTable {
    let mut routes = RoutingTable::new();
    routes.replace(
        &[entry(&id('b'), "10.7.0.5", "gw"), entry(&id('c'), "10.7.0.6", "db")],
        &[],
        &[],
        &[],
        &DeviceProfile::default(),
        &DnsConfig::default(),
        "office",
        NETWORK,
        &id('a'),
        1,
    );
    routes
}

#[test]
fn errors_are_classified_by_what_they_say() {
    let cases = [
        ("Network NOT found", ApiErrorCode::NotFound),
        ("no pending request", ApiErrorCode::NotFound),
        ("cast missing", ApiErrorCode::NotFound),
        ("access denied", ApiErrorCode::Denied),
        ("only the coordinator can perform this action", ApiErrorCode::Denied),
        ("not enrolled yet", ApiErrorCode::NotEnrolled),
        ("this command requires Managed mode", ApiErrorCode::NotEnrolled),
        ("data plane bring-up failed", ApiErrorCode::DataPlaneDown),
        ("invite expiry must be positive", ApiErrorCode::InvalidRequest),
        ("usage: tunnet", ApiErrorCode::InvalidRequest),
        ("something else", ApiErrorCode::Internal),
        // The first that fits counts.
        ("invalid: not found", ApiErrorCode::NotFound),
    ];
    for (text, code) in cases {
        assert_eq!(classify_error(text), code, "{text}");
    }
    let e = map_error("peer rejected".to_string());
    assert_eq!(e.code, ApiErrorCode::Denied);
    assert_eq!(e.message, "peer rejected");
}

#[test]
fn network_ids_are_read() {
    assert_eq!(parse_network_id(NETWORK_TEXT).unwrap(), NETWORK);
    assert_eq!(
        parse_network_id("00000000-0000-0000-0000-000000000000").unwrap(),
        0
    );
    let e = parse_network_id("nonsense").unwrap_err();
    assert_eq!(e.code, ApiErrorCode::InvalidRequest);
    assert!(e.message.starts_with("invalid network_id: "));
    assert!(e.message.len() > "invalid network_id: ".len());
    assert_eq!(
        network_id_or_error(Err("why".to_string())).unwrap_err().message,
        "invalid network_id: why"
    );
}

#[test]
fn modes() {
    assert_eq!(node_mode(true, true), NodeModeApi::Direct);
    assert_eq!(node_mode(false, true), NodeModeApi::Managed);
    assert_eq!(node_mode(false, false), NodeModeApi::Idle);
}

#[test]
fn control_plane_takes_permissions_away() {
    let all = vec![
        Permission::StatusRead,
        Permission::EventsRead,
        Permission::Lifecycle,
        Permission::DataPlaneWrite,
        Permission::Serve,
        Permission::Tunnel,
        Permission::Other(1),
    ];
    assert_eq!(meta_permissions(&all, None), all);
    let ui = LocalUi {
        enabled: true,
        allow_disconnect: false,
        allow_serve: true,
        allow_tunnel: false,
    };
    assert_eq!(
        meta_permissions(&all, Some(ui)),
        vec![
            Permission::StatusRead,
            Permission::EventsRead,
            Permission::Lifecycle,
            Permission::Serve,
            Permission::Other(1)
        ]
    );
    let off = LocalUi {
        enabled: false,
        ..ui
    };
    assert_eq!(
        meta_permissions(&all, Some(off)),
        vec![Permission::StatusRead, Permission::EventsRead]
    );
    assert_eq!(
        idle_permissions(&all),
        vec![
            Permission::StatusRead,
            Permission::EventsRead,
            Permission::Lifecycle
        ]
    );
}

#[test]
fn expiry_counts_down_to_zero() {
    assert_eq!(seconds_left((100, 0), (90, 500_000_000)), 9);
    assert_eq!(seconds_left((100, 0), (100, 0)), 0);
    assert_eq!(seconds_left((100, 0), (200, 0)), 0);
    let at = Some("1970-01-01T00:01:40Z".to_string());
    assert_eq!(expiry_fields(at.clone(), (40, 0)), (at.clone(), Some(60)));
    assert_eq!(expiry_fields(at.clone(), (400, 0)), (at, Some(0)));
    assert_eq!(expiry_fields(Some("soon".to_string()), (0, 0)), (None, None));
    assert_eq!(expiry_fields(None, (0, 0)), (None, None));
}

#[test]
fn invitations_last_for_a_while() {
    assert!(check_invite_expiry("7d").is_ok());
    assert!(check_invite_expiry("1 hour 30 minutes").is_ok());
    assert_eq!(
        check_invite_expiry("0s").unwrap_err(),
        "invite expiry must be positive"
    );
    assert_eq!(
        check_invite_expiry("-2h").unwrap_err(),
        "invite expiry must be positive"
    );
    assert_eq!(
        check_invite_expiry("whenever").unwrap_err(),
        "invalid invite expiry"
    );
    assert!(expiry_by_sign(Some(1)).is_ok());
    assert!(expiry_by_sign(Some(0)).is_err());
}

fn stats() -> FirewallStats {
    FirewallStats {
        enabled: true,
        conntrack_entries: 4,
        packets_allowed: 9,
        packets_denied: 2,
        packets_rejected: 3,
        suggested_rules: 1,
    }
}

#[test]
fn firewall_figures() {
    assert_eq!(firewall_stats_for_network(Some(stats())), (Some(5), Some(4)));
    assert_eq!(firewall_stats_for_network(None), (None, None));
    assert_eq!(direct_firewall_show(Some(stats()), false), stats());
    let none = direct_firewall_show(None, true);
    assert!(none.enabled);
    assert_eq!(none.packets_denied, 0);
    let off = direct_firewall_off(FirewallSwitch {
        enabled: true,
        version: 7,
    });
    assert_eq!((off.enabled, off.version), (false, 8));
}

#[test]
fn firewall_rules_are_read() {
    let head = direct_firewall_add("inbound", "reject", "TCP").unwrap();
    assert_eq!(head.direction, FirewallDirection::In);
    assert_eq!(head.action, FirewallAction::Reject);
    assert_eq!(head.protocol, Protocol::Tcp);
    assert_eq!(
        direct_firewall_add("sideways", "allow", "tcp").unwrap_err(),
        "direction must be 'in' or 'out'"
    );
    assert_eq!(
        direct_firewall_add("out", "drop", "tcp").unwrap_err(),
        "action must be 'allow', 'deny', or 'reject'"
    );
    assert_eq!(
        direct_firewall_add("out", "deny", "sctp").unwrap_err(),
        "protocol must be tcp|udp|icmp|any"
    );
    assert_eq!(
        direct_firewall_add("out", "deny", "icmpv6").unwrap().protocol,
        Protocol::Icmpv6
    );
}

#[test]
fn relay_states_in_a_word() {
    let relay = |connected: bool, why: Option<&str>| RelayState {
        connected,
        auth_denied: why.map(|s| s.to_string()),
    };
    assert_eq!(iroh_relay_status(&vec![]), "disabled");
    assert_eq!(
        iroh_relay_status(&vec![relay(false, Some("x")), relay(true, None)]),
        "connected"
    );
    assert_eq!(iroh_relay_status(&vec![relay(false, None)]), "disconnected");
    assert_eq!(
        iroh_relay_status(&vec![relay(false, None), relay(false, Some("quota"))]),
        "auth_denied: quota"
    );
    assert_eq!(iroh_relay_status(&vec![relay(false, Some(""))]), "auth_denied");
}

#[test]
fn node_checks() {
    let good = build_netcheck(61, ip("10.7.0.1"), true, "tunnet", 3);
    assert!(good.ok);
    let details: Vec<&str> = good.checks.iter().map(|c| c.detail.as_str()).collect();
    assert_eq!(details, vec!["uptime 61s", "10.7.0.1", "suffix .tunnet", "version 3"]);
    let bad = build_netcheck(0, 0, false, "tunnet", 0);
    assert!(!bad.ok);
    assert!(bad.checks[0].pass);
    assert!(bad.checks[1..].iter().all(|c| !c.pass));
    assert_eq!(bad.checks[2].detail, "PeerDNS not active");
    let diag = build_diag(&table(), "me");
    assert_eq!(diag.total_peers, 2);
    assert_eq!(diag.notes[1], "mesh peers known: 2");
}

#[test]
fn peers_by_address_name_or_key() {
    let routes = table();
    assert_eq!(resolve_peer(&routes, "10.7.0.5").unwrap().hostname, "gw");
    assert_eq!(resolve_peer(&routes, "db").unwrap().ip, ip("10.7.0.6"));
    assert_eq!(resolve_peer(&routes, &id('c')).unwrap().hostname, "db");
    assert!(resolve_peer(&routes, "10.7.0.9").is_none());
    assert!(resolve_peer(&routes, "nobody").is_none());
}

#[test]
fn ping_targets() {
    let routes = table();
    let own = ip("10.7.0.5");
    let e = ping_target(&routes, "nobody", &id('a'), own).unwrap_err();
    assert_eq!(e.code, ApiErrorCode::NotFound);
    assert_eq!(
        e.message,
        "no peer matches `nobody` (try hostname, IP, or endpoint id)"
    );
    let e = ping_target(&routes, "gw", &id('a'), own).unwrap_err();
    assert_eq!(e.code, ApiErrorCode::InvalidRequest);
    assert_eq!(
        e.message,
        "`gw` is this node (10.7.0.5 / gw). Ping the other machine's mesh IP instead"
    );
    assert!(ping_target(&routes, "db", &id('C'), own).is_err());
    assert_eq!(ping_target(&routes, "db", &id('a'), own).unwrap().hostname, "db");
}

#[test]
fn probes_are_counted() {
    assert_eq!(PingRun::new(0).count, 1);
    assert_eq!(PingRun::new(1000).count, 64);
    let mut run = PingRun::new(3);
    assert_eq!(run.probe_ended(true), PingNext::Probe(2));
    assert_eq!(run.probe_ended(false), PingNext::Probe(3));
    assert_eq!(
        run.probe_ended(true),
        PingNext::Summary {
            transmitted: 3,
            received: 2
        }
    );
}

#[test]
fn services_have_defaults() {
    let plan = serve_plan(
        "tcp",
        false,
        false,
        None,
        None,
        "fresh".to_string(),
        None,
        "node",
        "office",
    )
    .unwrap();
    assert_eq!(plan.internal_hostname, "node.office.tunnet");
    assert_eq!(plan.id, "fresh");
    assert_eq!(plan.access_mode, "all_peers");
    let e = start_serve("https", true, false, None, None, None, "node", "office").unwrap_err();
    assert!(e.starts_with("HTTPS serve needs an internal CA leaf cert."));
    let given = start_serve(
        "https",
        true,
        true,
        Some("web.tunnet".to_string()),
        Some("id".to_string()),
        Some("tags".to_string()),
        "node",
        "office",
    )
    .unwrap();
    assert_eq!(given.internal_hostname, "web.tunnet");
    assert_eq!(given.id, "id");
    assert_eq!(given.access_mode, "tags");
    // Fresh ids differ.
    let fresh = || start_serve("tcp", false, false, None, None, None, "n", "o").unwrap().id;
    let one = fresh();
    assert_eq!(one.len(), 36);
    // A random id says so, and of which variant it is.
    assert_eq!(&one[14..15], "4");
    assert!("89ab".contains(&one[19..20]));
    assert_ne!(one, fresh());
}

#[test]
fn public_tunnels_need_a_control_plane() {
    assert!(matches!(start_tunnel(false, false, "tcp", 80), TunnelStart::Managed));
    assert!(matches!(
        start_tunnel(true, true, "http", 80),
        TunnelStart::LocalInspect
    ));
    match start_tunnel(true, true, "tcp", 80) {
        TunnelStart::Refused(why) => assert_eq!(
            why,
            "--inspect in Direct mode requires http/https (got tcp)"
        ),
        other => panic!("expected a refusal, got {other:?}"),
    }
    match start_tunnel(true, false, "http", 8080) {
        TunnelStart::Refused(why) => assert!(why.contains("`tunnet tunnel 8080 --inspect`")),
        other => panic!("expected a refusal, got {other:?}"),
    }
    assert!(reports_stop("edge-1", false, true));
    assert!(!reports_stop("local", false, true));
    assert!(!reports_stop("edge-1", true, false));
    assert!(!reports_stop("edge-1", false, false));
}

#[test]
fn direct_networks_have_a_coordinator() {
    assert!(require_direct_coord(true).is_ok());
    assert_eq!(
        require_direct_coord(false).unwrap_err(),
        "only the coordinator can perform this action"
    );
    assert_eq!(authority_for(true, false), Authority::Running);
    assert_eq!(authority_for(false, true), Authority::Load);
    assert_eq!(authority_for(false, false), Authority::Refused);
    assert_eq!(kick_message(true, "x"), "Kicked x");
    assert_eq!(
        kick_message(false, "x"),
        "Queued kick for x (docs not ready; will apply shortly)"
    );
    assert_eq!(denied_message("x"), "Denied x");
    assert_eq!(removed_rule_message(3), "Removed rule 3");
    assert!(approved_message("x").starts_with("Approved x."));
    assert_eq!(TransferDirection::Outbound.as_str(), "outbound");
}

#[test]
fn hosts_are_kept_alive_in_both_places() {
    let routes = table();
    let peer = EndpointId::parse(&id('b')).unwrap();
    let mut pool = ConnPool::new(peer, 0);
    let mut mesh = TunnelMesh::new(false);
    pool.set_keep_alive(false);
    let said = direct_keep_alive(&mut pool, &mut mesh, &routes, "gw", true, NOW);
    assert_eq!(said, "Keep-alive enabled for gw");
    assert!(mesh.keep_alive_for(peer, None));
    let closed = tunnet::conn_pool::ConnStatus::Closed {
        by_authorization: false,
    };
    assert!(pool.peer_snapshot(peer, closed, NOW).keep_alive);
    let said = direct_keep_alive(&mut pool, &mut mesh, &routes, "gw", false, NOW);
    assert_eq!(said, "Keep-alive disabled for gw");
    assert!(!mesh.keep_alive_for(peer, Some("gw")));
    assert!(!pool.peer_snapshot(peer, closed, NOW).keep_alive);
}

#[test]
fn reload_keeps_the_members() {
    let mut routes = table();
    let dns = DnsConfig {
        suffix: "corp".to_string(),
    };
    reload_routes(&mut routes, &dns, "office", NETWORK, &id('a'));
    assert_eq!(routes.version(), 2);
    assert_eq!(routes.resolve_dns_a("gw.corp"), Some(ip("10.7.0.5")));
    assert_eq!(routes.resolve_dns_a("gw.tunnet"), None);
    assert_eq!(
        reload_message("corp", "info"),
        "reloaded firewall, dns (suffix=corp), keep-alive from tunnet.toml; logging.level=info"
    );
}

#[test]
fn peers_are_summed_up() {
    let routes = table();
    let mut mesh = TunnelMesh::new(false);
    let gw = EndpointId::parse(&id('b')).unwrap();
    mesh.set_peer_state(gw, 1, "connected", true, "direct", false, NOW);
    mesh.record_rx(gw, 11, NOW);
    let presence = vec![Presence {
        endpoint_id: id('c'),
        online: Some(false),
        last_seen_secs_ago: Some(50),
    }];
    let later = NOW + 2 * NANOS_PER_SEC;
    let all = peer_summaries(&routes, &mesh, &presence, &id('a'), None, later);
    assert_eq!(all.len(), 2);
    assert_eq!(all[0].network_id, NETWORK_TEXT);
    assert_eq!(all[0].ip, "10.7.0.5");
    assert_eq!(all[0].online, Some(true));
    assert_eq!(all[0].conn_state, "connected");
    assert_eq!(all[0].last_seen_secs_ago, Some(2));
    assert_eq!(all[0].bytes_in, 11);
    assert_eq!(all[1].online, Some(false));
    assert_eq!(all[1].conn_state, "idle");
    assert_eq!(all[1].last_seen_secs_ago, Some(50));
    // Not this node, and not another network's.
    assert_eq!(peer_summaries(&routes, &mesh, &presence, &id('b'), None, NOW).len(), 1);
    assert!(peer_summaries(&routes, &mesh, &presence, &id('a'), Some(1), NOW).is_empty());
    // Nothing heard is not offline.
    let silent = peer_summaries(&routes, &mesh, &vec![], &id('a'), Some(NETWORK), NOW);
    assert_eq!(silent[1].online, None);
}

fn facts() -> NodeFacts {
    NodeFacts {
        self_id: id('a'),
        self_ip: ip("10.7.0.1"),
        relay_status: "connected".to_string(),
        expires_at: None,
        expires_in_secs: None,
        firewalls: vec![(NETWORK, stats())],
    }
}

#[test]
fn networks_are_summed_up() {
    let routes = table();
    let mesh = TunnelMesh::new(true);
    let managed = PersistedState::Managed(ManagedRecord {
        network_id: NETWORK,
        network_name: "office".to_string(),
        organization_id: "org".to_string(),
        control_url: "https://control".to_string(),
        management_url: None,
        dashboard_url: Some("https://dash".to_string()),
    });
    let f = facts();
    let none = vec![];
    let s = build_network_summary(&managed, &f, &routes, &mesh, &none, NETWORK, "", NOW).unwrap();
    assert_eq!((s.mode.as_str(), s.role.as_str()), ("managed", "managed"));
    assert_eq!((s.peers_total, s.peers_online), (2, 0));
    assert_eq!(s.firewall_drops, Some(5));
    assert_eq!(s.relay_status, "connected");
    assert!(s.keep_alive && s.with_control);
    let e = build_network_summary(&managed, &f, &routes, &mesh, &none, 0, "", NOW).unwrap_err();
    assert_eq!(
        e.message,
        "network 00000000-0000-0000-0000-000000000000 not found"
    );
    let direct = PersistedState::Direct(vec![DirectRecord {
        network_id: NETWORK,
        network_name: "home".to_string(),
        ip: ip("10.7.0.2"),
        coordinator: true,
    }]);
    let s = build_network_summary(&direct, &f, &routes, &mesh, &none, NETWORK, "", NOW).unwrap();
    assert_eq!((s.mode.as_str(), s.role.as_str()), ("direct", "coordinator"));
    assert_eq!(s.relay_status, "n/a");
    assert_eq!(s.ip, "10.7.0.2");
    let e =
        build_network_summary(&direct, &f, &routes, &mesh, &none, 0, "gone", NOW).unwrap_err();
    assert_eq!(e.message, "gone");
    let node = build_node_summary(
        &direct, &f, &routes, &mesh, &none, "node", "1.0", true, 61, 3, NOW,
    );
    assert_eq!(node.mode, NodeModeApi::Direct);
    assert_eq!(node.networks.len(), 1);
    assert_eq!(node.networks[0].network_name, "home");
    let idle = idle_node_summary("1.0");
    assert_eq!(idle.mode, NodeModeApi::Idle);
    assert!(idle.networks.is_empty() && idle.on_demand.is_none());
    assert_eq!(features(true), vec!["node", "events"]);
    assert_eq!(
        features(false),
        vec!["node", "networks", "events", "dns", "routes", "diag"]
    );
}

#[test]
fn name_service_status() {
    let routes = table();
    let s = build_dns_status(&routes, None, true, false, Some("127.0.0.1:53".to_string()));
    assert_eq!(s.suffix, "tunnet");
    assert!(s.cached_entries > 0);
    assert_eq!(s.bind.as_deref(), Some("127.0.0.1:53"));
    assert_eq!(s.resolver_endpoint, s.bind);
}

#[test]
fn routes_are_reported() {
    let gateway = id('b');
    let stranger = "feedfacecafe".to_string();
    let net = |s: &str, len: u8| Ipv4Net::new(ip(s), len).unwrap();
    let mut profile = DeviceProfile::default();
    profile.exit_node_endpoint_id = Some(gateway.clone());
    profile.split_tunnel_mode = SplitTunnelMode::Exclude;
    profile.split_tunnel_cidrs = vec![net("192.168.0.0", 16)];
    let m = NetworkMembershipSnapshot {
        network_id: NETWORK,
        network_name: "office".to_string(),
        assigned_ipv4: ip("10.7.0.1"),
        prefix: 24,
        mtu: 1280,
        ipv4_peers: vec![],
        subnet_routes: vec![
            SubnetRoute {
                cidr: net("10.1.0.0", 16),
                via_endpoint_id: gateway.clone(),
                via_ip: ip("10.7.0.5"),
            },
            SubnetRoute {
                cidr: net("10.2.0.0", 16),
                via_endpoint_id: stranger.clone(),
                via_ip: ip("10.7.0.9"),
            },
        ],
        hostname_routes: vec![HostnameRoute {
            hostname: "wiki.internal".to_string(),
            via_endpoint_id: gateway.clone(),
            via_ip: ip("10.7.0.5"),
            is_wildcard: false,
            target_ip: Some(ip("10.0.0.50")),
        }],
        exit_nodes: vec![],
        device_profile: profile,
        dns: DnsConfig::default(),
        self_tags: vec![],
        self_hostname: "me".to_string(),
        version: 1,
    };
    let mut routes = RoutingTable::new();
    let mut exit_profile = DeviceProfile::default();
    exit_profile.exit_node_endpoint_id = Some(gateway.clone());
    routes.replace(
        &[entry(&gateway, "10.7.0.5", "gw")],
        &[],
        &[],
        &[ExitNodeInfo {
            endpoint_id: gateway.clone(),
            via_ip: ip("10.7.0.5"),
            allowed_cidrs: vec![net("0.0.0.0", 0)],
        }],
        &exit_profile,
        &DnsConfig::default(),
        "office",
        NETWORK,
        &id('a'),
        1,
    );
    let info = build_routes(&routes, Some(&m), &stranger);
    assert_eq!(info.subnet_routes[0].cidr, "10.1.0.0/16");
    assert_eq!(info.subnet_routes[0].via_hostname, "gw");
    assert!(!info.subnet_routes[0].advertised_by_self);
    assert_eq!(info.subnet_routes[1].via_hostname, "feedface");
    assert!(info.subnet_routes[1].advertised_by_self);
    assert_eq!(
        info.hostname_routes[0].target_ip.as_deref(),
        Some("10.0.0.50")
    );
    assert_eq!(info.exit_node.unwrap().hostname, "gw");
    assert_eq!(info.split_tunnel_mode, "exclude");
    assert_eq!(info.split_tunnel_cidrs, vec!["192.168.0.0/16"]);
    let none = build_routes(&routes, None, "me");
    assert!(none.subnet_routes.is_empty() && none.exit_node.is_none());
    assert_eq!(none.split_tunnel_mode, "exclude");
}

#[test]
fn documents_are_read() {
    let doc = "{\"a\": \"x\", \"b\": 7, \"c\": true, \"d\": [1, \"two\"], \"e\": null}";
    assert_eq!(text_field(doc, "a", "b").as_deref(), Some("x"));
    assert_eq!(text_field(doc, "z", "a").as_deref(), Some("x"));
    // What is there but is no text counts as there.
    assert_eq!(text_field(doc, "b", "a"), None);
    assert_eq!(u64_field(doc, "z", "b"), Some(7));
    assert_eq!(u64_field(doc, "a", "b"), None);
    assert_eq!(bool_field(doc, "c"), Some(true));
    assert_eq!(bool_field(doc, "a"), None);
    assert_eq!(item_fields(doc, "d"), vec!["1", "\"two\""]);
    assert!(item_fields(doc, "a").is_empty());
    assert_eq!(field_or(doc, "e", "a").as_deref(), Some("null"));
    assert_eq!(field_or("no json", "a", "b"), None);
}

#[test]
fn ssh_sessions_are_listed() {
    let raw = "{\"sessions\":[{\"id\":\"s1\",\"srcEndpointId\":\"e1\",\"dst_endpoint_id\":\"e2\",\"targetUser\":\"root\",\"status\":\"active\",\"recorded\":true,\"startedAt\":\"2024-01-01\",\"durationMs\":5},{}]}";
    let list = list_ssh_sessions(raw);
    assert_eq!(list.len(), 2);
    assert_eq!(list[0].id, "s1");
    assert_eq!(list[0].src_endpoint_id, "e1");
    assert_eq!(list[0].dst_endpoint_id, "e2");
    assert_eq!(list[0].target_user, "root");
    assert_eq!(list[0].started_at, "2024-01-01");
    assert_eq!(list[0].duration_ms, Some(5));
    assert!(list[0].recorded);
    assert_eq!(list[1].id, "");
    assert!(!list[1].recorded);
    assert!(list_ssh_sessions("{}").is_empty());
    let raw = "{\"recordings\":[{\"sessionId\":\"s1\",\"byteSize\":9,\"createdAt\":\"x\"}]}";
    let list = list_ssh_recordings(raw);
    assert_eq!(list[0].session_id, "s1");
    assert_eq!(list[0].byte_size, 9);
}

#[test]
fn ssh_casts_and_logins() {
    assert_eq!(get_ssh_cast("{}", "s1").unwrap_err(), "cast missing");
    let cast = get_ssh_cast("{\"castText\":\"abc\"}", "s1").unwrap();
    assert_eq!((cast.cast_text.as_str(), cast.session_id.as_str()), ("abc", "s1"));
    assert_eq!(cast.content_sha256, "");
    assert!(ssh_cast(None, None, None, "s1").is_err());
    assert_eq!(
        poll_ssh_auth("{\"status\":\"approved\",\"proofToken\":\"t\"}"),
        ("approved".to_string(), Some("t".to_string()))
    );
    assert_eq!(poll_ssh_auth("{}"), ("failed".to_string(), None));
    assert_eq!(ssh_auth_state(None, None).0, "failed");
}

#[test]
fn meta_says_what_the_client_may_do() {
    let all = vec![Permission::StatusRead, Permission::Serve, Permission::Lifecycle];
    let ui = LocalUi {
        enabled: true,
        allow_disconnect: true,
        allow_serve: false,
        allow_tunnel: true,
    };
    let meta = build_meta(1, "9.9.9", false, true, &all, Some(ui));
    assert_eq!(meta.mode, NodeModeApi::Managed);
    assert_eq!(meta.daemon_version, "9.9.9");
    assert_eq!(meta.permissions, vec![Permission::StatusRead, Permission::Lifecycle]);
    assert_eq!(meta.features.len(), 6);
    let idle = idle_meta(1, "9.9.9", &all);
    assert_eq!(idle.mode, NodeModeApi::Idle);
    assert_eq!(idle.features, vec!["node", "events"]);
    assert_eq!(idle.permissions, vec![Permission::StatusRead, Permission::Lifecycle]);
}

#[test]
fn policy_is_published_by_the_coordinator() {
    assert_eq!(
        direct_policy_set(true, true, true),
        Ok("Published firewall policy to network.".to_string())
    );
    assert_eq!(
        direct_policy_set(false, true, true),
        Err("only the coordinator can perform this action".to_string())
    );
    assert_eq!(direct_policy_set(true, false, false), Err("parse policy toml".to_string()));
    assert_eq!(
        direct_policy_set(true, true, false),
        Err("docs membership not ready".to_string())
    );
    assert_eq!(
        direct_policy_clear(true, true),
        Ok("Cleared published firewall policy.".to_string())
    );
    assert_eq!(
        direct_policy_clear(true, false),
        Err("docs membership not ready".to_string())
    );
    assert!(direct_policy_clear(false, true).is_err());
    assert_eq!(
        direct_firewall_accept(true),
        Ok("Accepted pending firewall suggestion.".to_string())
    );
    assert_eq!(
        direct_firewall_accept(false),
        Err("no pending firewall suggestion".to_string())
    );
}

#[test]
fn failed_probe_is_named() {
    let e = probe_failed(3, "closed");
    assert_eq!(e.code, ApiErrorCode::Internal);
    assert_eq!(e.message, "seq=3 timeout/error: closed");
}
