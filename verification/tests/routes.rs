use tunnet::endpoint::EndpointId;
use tunnet::membership::{
    DeviceProfile, DnsConfig, ExitNodeInfo, HostnameRoute, PeerEntry, SplitTunnelMode, SubnetRoute,
};
use tunnet::net::Ipv4Net;
use tunnet::net_text::parse_ipv4;
use tunnet::routing::RoutingTable;

fn ip(s: &str) -> u32 {
    parse_ipv4(s).unwrap()
}

fn cidr(s: &str, len: u8) -> Ipv4Net {
    Ipv4Net::new(ip(s), len).unwrap()
}

fn peer(endpoint: &str, addr: &str, hostname: &str) -> PeerEntry {
    PeerEntry {
        ip: ip(addr),
        endpoint_id: endpoint.to_string(),
        hostname: hostname.to_string(),
        tags: vec![],
        ssh_host_key: None,
    }
}

fn dns() -> DnsConfig {
    DnsConfig::default()
}

fn profile() -> DeviceProfile {
    DeviceProfile::default()
}

#[test]
fn lookup_prefers_direct_peer_over_subnet() {
    let mut table = RoutingTable::new();
    let self_id = "a".repeat(64);
    let gateway = "b".repeat(64);
    table.replace(
        &[peer(&gateway, "10.7.0.5", "gw")],
        &[SubnetRoute {
            cidr: cidr("10.0.0.0", 24),
            via_endpoint_id: gateway.clone(),
            via_ip: ip("10.7.0.5"),
        }],
        &[],
        &[],
        &profile(),
        &dns(),
        "office",
        0,
        &self_id,
        1,
    );
    let found = table.lookup_ip(ip("10.0.0.100")).unwrap();
    assert_eq!(found.endpoint_hex, gateway);
    let ep = EndpointId::parse(&gateway).unwrap();
    assert!(table.lookup_endpoint(&ep.to_hex()).is_some());
}

#[test]
fn lookup_endpoint_matches_iroh_display_hex() {
    let mut table = RoutingTable::new();
    let self_id = "a".repeat(64);
    let ep = iroh_base::SecretKey::generate().public();
    let canonical = format!("{ep}");
    table.replace(
        &[peer(&canonical, "10.7.0.5", "gw")],
        &[],
        &[],
        &[],
        &profile(),
        &dns(),
        "office",
        0,
        &self_id,
        1,
    );
    assert_eq!(
        table.lookup_endpoint(&canonical).unwrap().endpoint_hex,
        canonical
    );
    assert!(table.lookup_endpoint_in(0, &canonical).is_some());
}

#[test]
fn longest_prefix_match() {
    let mut table = RoutingTable::new();
    let self_id = "a".repeat(64);
    let gw_wide = "b".repeat(64);
    let gw_narrow = "c".repeat(64);
    table.replace(
        &[
            peer(&gw_wide, "10.7.0.5", "wide"),
            peer(&gw_narrow, "10.7.0.6", "narrow"),
        ],
        &[
            SubnetRoute {
                cidr: cidr("10.0.0.0", 16),
                via_endpoint_id: gw_wide.clone(),
                via_ip: ip("10.7.0.5"),
            },
            SubnetRoute {
                cidr: cidr("10.0.1.0", 24),
                via_endpoint_id: gw_narrow.clone(),
                via_ip: ip("10.7.0.6"),
            },
        ],
        &[],
        &[],
        &profile(),
        &dns(),
        "office",
        0,
        &self_id,
        1,
    );
    let found = table.lookup_ip(ip("10.0.1.50")).unwrap();
    assert_eq!(found.endpoint_hex, gw_narrow);
    let found = table.lookup_ip(ip("10.0.2.50")).unwrap();
    assert_eq!(found.endpoint_hex, gw_wide);
}

#[test]
fn advertised_subnets_excluded_from_remote_lookup() {
    let mut table = RoutingTable::new();
    let self_id = "a".repeat(64);
    table.replace(
        &[],
        &[SubnetRoute {
            cidr: cidr("10.0.0.0", 24),
            via_endpoint_id: self_id.clone(),
            via_ip: ip("10.7.0.1"),
        }],
        &[],
        &[],
        &profile(),
        &dns(),
        "office",
        0,
        &self_id,
        1,
    );
    assert!(table.lookup_ip(ip("10.0.0.100")).is_none());
    assert!(table.is_advertised_destination(ip("10.0.0.100")));
}

#[test]
fn hostname_route_exact_and_wildcard() {
    let mut table = RoutingTable::new();
    let self_id = "a".repeat(64);
    let gw = "b".repeat(64);
    table.replace(
        &[peer(&gw, "10.7.0.5", "gw")],
        &[],
        &[
            HostnameRoute {
                hostname: "wiki.internal".to_string(),
                via_endpoint_id: gw.clone(),
                via_ip: ip("10.7.0.5"),
                is_wildcard: false,
                target_ip: Some(ip("10.0.0.50")),
            },
            HostnameRoute {
                hostname: "internal".to_string(),
                via_endpoint_id: gw.clone(),
                via_ip: ip("10.7.0.5"),
                is_wildcard: true,
                target_ip: None,
            },
        ],
        &[],
        &profile(),
        &dns(),
        "office",
        0,
        &self_id,
        1,
    );
    let exact = table.lookup_hostname_route("wiki.internal").unwrap();
    assert!(!exact.is_wildcard);
    assert_eq!(exact.target_ip, Some(ip("10.0.0.50")));
    let wild = table.lookup_hostname("api.internal").unwrap();
    assert_eq!(wild.endpoint_hex, gw);
    assert!(table.lookup_hostname_route("other.com").is_none());
}

#[test]
fn peer_dns_resolves_self() {
    let mut table = RoutingTable::new();
    let self_id = "a".repeat(64);
    let self_ip: u32 = ip("10.7.0.3");
    // Managed snapshots exclude self from peers; inject like apply_membership.
    table.replace(
        &[peer(&self_id, "10.7.0.3", "desktop-t85djls")],
        &[],
        &[],
        &[],
        &profile(),
        &dns(),
        "default",
        0,
        &self_id,
        1,
    );
    assert_eq!(table.resolve_dns_a("desktop-t85djls.tunnet"), Some(self_ip));
    assert_eq!(
        table.resolve_dns_a("desktop-t85djls.default.tunnet"),
        Some(self_ip)
    );
    assert_eq!(
        table.resolve_dns_ptr(self_ip).as_deref(),
        Some("desktop-t85djls.default.tunnet")
    );
}

#[test]
fn peer_dns_resolves_peers_but_stream_hostname_routes_have_no_a_record() {
    let mut table = RoutingTable::new();
    let self_id = "a".repeat(64);
    let gw = "b".repeat(64);
    table.replace(
        &[peer(&gw, "10.7.0.5", "db-server")],
        &[],
        &[HostnameRoute {
            hostname: "wiki.internal".to_string(),
            via_endpoint_id: gw.clone(),
            via_ip: ip("10.7.0.5"),
            is_wildcard: false,
            target_ip: None,
        }],
        &[],
        &profile(),
        &dns(),
        "office",
        0,
        &self_id,
        1,
    );
    assert_eq!(
        table.resolve_dns_a("db-server.tunnet"),
        Some(ip("10.7.0.5"))
    );
    assert_eq!(
        table.resolve_dns_a("db-server.office.tunnet"),
        Some(ip("10.7.0.5"))
    );
    assert_eq!(table.resolve_dns_a("wiki.internal.tunnet"), None);
    assert!(table.lookup_hostname_route("wiki.internal").is_some());
}

#[test]
fn apply_peer_delta_add_and_remove() {
    let mut table = RoutingTable::new();
    let self_id = "a".repeat(64);
    let peer_a = "b".repeat(64);
    let peer_b = "c".repeat(64);
    let nid = 0;
    table.replace(
        &[peer(&peer_a, "10.7.0.5", "alice")],
        &[],
        &[],
        &[],
        &profile(),
        &dns(),
        "office",
        nid,
        &self_id,
        1,
    );
    assert!(table.lookup_endpoint(&peer_a).is_some());
    assert!(table.lookup_endpoint(&peer_b).is_none());

    table.apply_peer_delta(
        nid,
        &[peer(&peer_b, "10.7.0.6", "bob")],
        &[],
        2,
        &self_id,
        "office",
    );
    assert_eq!(table.version(), 2);
    assert!(table.lookup_endpoint(&peer_b).is_some());

    table.apply_peer_delta(
        nid,
        &[],
        std::slice::from_ref(&peer_a),
        3,
        &self_id,
        "office",
    );
    assert_eq!(table.version(), 3);
    assert!(table.lookup_endpoint(&peer_a).is_none());
    assert!(table.lookup_endpoint(&peer_b).is_some());
}

#[test]
fn wildcard_hostname_route_never_aliases_the_gateway_ip() {
    let mut table = RoutingTable::new();
    let self_id = "a".repeat(64);
    let gw = "b".repeat(64);
    let nid = 0;
    table.replace(
        &[peer(&gw, "10.7.0.5", "gw")],
        &[],
        &[HostnameRoute {
            hostname: "internal".to_string(),
            via_endpoint_id: gw.clone(),
            via_ip: ip("10.7.0.5"),
            is_wildcard: true,
            target_ip: None,
        }],
        &[],
        &profile(),
        &dns(),
        "office",
        nid,
        &self_id,
        1,
    );
    assert_eq!(table.resolve_dns_a("api.internal.tunnet"), None);

    table.apply_peer_delta(
        nid,
        &[peer(&"d".repeat(64), "10.7.0.7", "dave")],
        &[],
        2,
        &self_id,
        "office",
    );
    assert_eq!(table.resolve_dns_a("api.internal.tunnet"), None);
}

#[test]
fn overlapping_plans_rejected_without_precedence() {
    let mut table = RoutingTable::new();
    let self_id = "a".repeat(64);
    let a = "b".repeat(64);
    let b = "c".repeat(64);
    let net_a = uuid::Uuid::new_v4().as_u128();
    let net_b = uuid::Uuid::new_v4().as_u128();
    let plan = cidr("10.90.0.0", 24);
    table.replace_network_with_plan(
        net_a,
        &[peer(&a, "10.90.0.1", "a")],
        &dns(),
        "a",
        &self_id,
        1,
        Some(plan),
    );
    table.replace_network_with_plan(
        net_b,
        &[peer(&b, "10.90.0.2", "b")],
        &dns(),
        "b",
        &self_id,
        1,
        Some(plan),
    );
    assert!(table.lookup_endpoint(&b).is_none());
    assert!(table.lookup_endpoint(&a).is_some());
}

/// Shared fixture: one peer acting as an exit node for 0.0.0.0/0.
fn exit_node_table() -> (RoutingTable, String) {
    let mut table = RoutingTable::new();
    let self_id = "a".repeat(64);
    let exit = "b".repeat(64);
    let mut profile = profile();
    profile.exit_node_endpoint_id = Some(exit.clone());
    profile.split_tunnel_mode = SplitTunnelMode::Exclude;
    table.replace(
        &[peer(&exit, "10.7.0.5", "exit")],
        &[],
        &[],
        &[ExitNodeInfo {
            endpoint_id: exit.clone(),
            via_ip: ip("10.7.0.5"),
            allowed_cidrs: vec![cidr("0.0.0.0", 0)],
        }],
        &profile,
        &dns(),
        "office",
        0,
        &self_id,
        1,
    );
    (table, exit)
}

/// With an exit node configured, multicast passed the internet catch-all
/// and was tunneled to the exit peer, pushing LAN service announcements
/// off-box continuously.
#[test]
fn multicast_is_never_routed_to_the_exit_node() {
    let (table, _) = exit_node_table();
    for group in ["224.0.0.251", "224.76.78.75", "239.255.255.250"] {
        assert!(
            table.lookup_ip(ip(group)).is_none(),
            "{group} must not be routed off-box"
        );
    }
}

/// Broadcast leaked by a different path: the `0.0.0.0/0` an exit node
/// contributes to the subnet table matched it before the catch-all.
#[test]
fn broadcast_is_never_routed_to_the_exit_node() {
    let (table, _) = exit_node_table();
    assert!(
        table
            .lookup_ip(ip("255.255.255.255"))
            .is_none()
    );
}

/// The fix must not disturb what the exit node is actually for.
#[test]
fn ordinary_internet_traffic_still_reaches_the_exit_node() {
    let (table, exit) = exit_node_table();
    assert_eq!(
        table
            .lookup_ip(ip("8.8.8.8"))
            .unwrap()
            .endpoint_hex,
        exit
    );
}

#[test]
fn exit_node_catches_internet_traffic() {
    let mut table = RoutingTable::new();
    let self_id = "a".repeat(64);
    let exit = "b".repeat(64);
    let mut profile = profile();
    profile.exit_node_endpoint_id = Some(exit.clone());
    profile.split_tunnel_mode = SplitTunnelMode::Exclude;
    table.replace(
        &[peer(&exit, "10.7.0.5", "exit")],
        &[],
        &[],
        &[ExitNodeInfo {
            endpoint_id: exit.clone(),
            via_ip: ip("10.7.0.5"),
            allowed_cidrs: vec![cidr("0.0.0.0", 0)],
        }],
        &profile,
        &dns(),
        "office",
        0,
        &self_id,
        1,
    );
    let found = table.lookup_ip(ip("8.8.8.8")).unwrap();
    assert_eq!(found.endpoint_hex, exit);
}

#[test]
fn exit_node_skips_rfc1918_when_allow_local_lan() {
    let mut table = RoutingTable::new();
    let self_id = "a".repeat(64);
    let exit = "b".repeat(64);
    let mut profile = profile();
    profile.exit_node_endpoint_id = Some(exit.clone());
    profile.allow_local_lan = true;
    table.replace(
        &[peer(&exit, "10.7.0.5", "exit")],
        &[],
        &[],
        &[ExitNodeInfo {
            endpoint_id: exit.clone(),
            via_ip: ip("10.7.0.5"),
            allowed_cidrs: vec![cidr("0.0.0.0", 0)],
        }],
        &profile,
        &dns(),
        "office",
        0,
        &self_id,
        1,
    );
    assert!(table.lookup_ip(ip("192.168.1.50")).is_none());
    assert_eq!(
        table
            .lookup_ip(ip("1.1.1.1"))
            .unwrap()
            .endpoint_hex,
        exit
    );
}

#[test]
fn inbound_source_allows_exit_return_path_not_foreign_mesh_ip() {
    let (table, exit) = exit_node_table();
    let exit_id = EndpointId::parse(&exit).unwrap();
    let other = EndpointId::parse(&"c".repeat(64)).unwrap();
    let net = 0;
    assert!(table.inbound_source_ok(net, ip("10.7.0.5"), exit_id));
    assert!(table.inbound_source_ok(net, ip("8.8.8.8"), exit_id));
    assert!(!table.inbound_source_ok(net, ip("8.8.8.8"), other));
    assert!(!table.inbound_source_ok(net, ip("10.7.0.5"), other));
}

#[test]
fn inbound_source_allows_subnet_router_lan_return() {
    let mut table = RoutingTable::new();
    let self_id = "a".repeat(64);
    let gateway = "b".repeat(64);
    table.replace(
        &[peer(&gateway, "10.7.0.5", "gw")],
        &[SubnetRoute {
            cidr: cidr("10.0.0.0", 24),
            via_endpoint_id: gateway.clone(),
            via_ip: ip("10.7.0.5"),
        }],
        &[],
        &[],
        &profile(),
        &dns(),
        "office",
        0,
        &self_id,
        1,
    );
    let gw = EndpointId::parse(&gateway).unwrap();
    let net = 0;
    assert!(table.inbound_source_ok(net, ip("10.7.0.5"), gw));
    assert!(table.inbound_source_ok(net, ip("10.0.0.100"), gw));
    assert!(!table.inbound_source_ok(
        net,
        ip("10.0.0.100"),
        EndpointId::parse(&"c".repeat(64)).unwrap()
    ));
}

#[test]
fn names_lead_back_to_their_addresses() {
    let mut table = RoutingTable::new();
    let members = [("a", "10.7.0.3", "alpha"), ("b", "10.7.0.4", "beta"), ("c", "10.7.0.5", "gamma")];
    let peers: Vec<PeerEntry> = members
        .iter()
        .map(|(id, addr, name)| peer(&id.repeat(64), addr, name))
        .collect();
    table.replace(
        &peers,
        &[],
        &[],
        &[],
        &profile(),
        &dns(),
        "office",
        0,
        &"a".repeat(64),
        1,
    );
    for (_, addr, name) in members {
        let full = table.resolve_dns_ptr(ip(addr)).unwrap();
        assert_eq!(full, format!("{name}.office.tunnet"));
        assert_eq!(table.resolve_dns_a(&full), Some(ip(addr)));
    }
}

#[test]
fn rebuilding_moves_the_counter_whatever_the_version() {
    let (mut table, gateway) = exit_node_table();
    let (version, seq) = (table.version(), table.change_seq());
    table.rebuild(Some(version));
    assert_eq!((table.version(), table.change_seq()), (version, seq + 1));
    table.rebuild(None);
    assert_eq!((table.version(), table.change_seq()), (version + 1, seq + 2));
    assert!(table.lookup_endpoint(&gateway).is_some());
}
