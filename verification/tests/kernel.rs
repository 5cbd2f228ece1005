use tunnet::forward::Platform;
use tunnet::kernel_route::{spec_from_route, spec_to_route, specs_from_routes, KernelRoute};
use tunnet::membership::{DeviceProfile, SplitTunnelMode};
use tunnet::net::{cidr_overlaps, Ipv4Net};
use tunnet::net_text::parse_ipv4;
use tunnet::route_engine::{RouteAction, RouteEngine, RouteReply, RouteRun};
use tunnet::route_spec::{in_add_order, in_del_order, RouteSpec};
use tunnet::system_routes::{
    desired_direct, desired_from_membership, DesiredRoutes, OsErrorKind, RouteError, RouteKind,
    RouteOp,
};
use tunnet::underlay::{default_uplink_name, GatewayAddrs, IpAddr, UnderlayInfo};

fn ip(s: &str) -> u32 {
    parse_ipv4(s).unwrap()
}

fn cidr(s: &str) -> Ipv4Net {
    let (addr, len) = s.split_once('/').unwrap();
    Ipv4Net::new(ip(addr), len.parse().unwrap()).unwrap()
}

fn gw() -> u32 {
    ip("192.168.1.1")
}

fn underlay() -> UnderlayInfo {
    UnderlayInfo {
        interface_index: 2,
        interface_name: "eth0".to_string(),
        gateway: Some(IpAddr::V4(gw())),
        dns_servers: vec![],
    }
}

fn spec_tun(dest: &str, idx: u32) -> RouteSpec {
    RouteSpec {
        dest: cidr(dest),
        gateway: None,
        if_index: idx,
        if_name: "tun0".to_string(),
    }
}

fn spec_gw(dest: &str, gateway: u32, idx: u32) -> RouteSpec {
    RouteSpec {
        dest: cidr(dest),
        gateway: Some(gateway),
        if_index: idx,
        if_name: "eth0".to_string(),
    }
}

/// The kernel's routing table, with routes that it refuses to add or delete.
#[derive(Default)]
struct Kernel {
    routes: Vec<RouteSpec>,
    fail_add: Vec<RouteSpec>,
    fail_delete: Vec<RouteSpec>,
    add_calls: Vec<RouteSpec>,
    delete_calls: Vec<RouteSpec>,
}

fn has(list: &[RouteSpec], spec: &RouteSpec) -> bool {
    list.iter().any(|s| s.is_same_route(spec))
}

fn mock_failure(op: &'static str, spec: &RouteSpec) -> RouteError {
    RouteError::Native {
        op,
        route: spec.to_text(),
        detail: "mock".to_string(),
    }
}

impl Kernel {
    fn with(routes: &[RouteSpec]) -> Kernel {
        Kernel {
            routes: routes.iter().map(|r| r.copy()).collect(),
            ..Kernel::default()
        }
    }

    fn serve(&mut self, action: RouteAction) -> Result<RouteReply, Result<(), RouteError>> {
        match action {
            RouteAction::Done(r) => Err(r),
            RouteAction::List => Ok(RouteReply::Listed(Ok(self
                .routes
                .iter()
                .map(|r| r.copy())
                .collect()))),
            RouteAction::Add(spec) => {
                self.add_calls.push(spec.copy());
                if has(&self.fail_add, &spec) {
                    return Ok(RouteReply::Changed(Err(mock_failure("add", &spec))));
                }
                if !has(&self.routes, &spec) {
                    self.routes.push(spec);
                }
                Ok(RouteReply::Changed(Ok(())))
            }
            RouteAction::Delete(spec) => {
                self.delete_calls.push(spec.copy());
                if has(&self.fail_delete, &spec) {
                    return Ok(RouteReply::Changed(Err(mock_failure("delete", &spec))));
                }
                self.routes.retain(|k| !k.is_same_route(&spec));
                Ok(RouteReply::Changed(Ok(())))
            }
        }
    }

    fn run(
        &mut self,
        engine: &mut RouteEngine,
        mut run: RouteRun,
        first: RouteAction,
    ) -> Result<(), RouteError> {
        let mut action = first;
        loop {
            match self.serve(action) {
                Err(outcome) => return outcome,
                Ok(reply) => action = run.step(engine, reply),
            }
        }
    }

    fn reconcile(
        &mut self,
        engine: &mut RouteEngine,
        desired: DesiredRoutes,
    ) -> Result<(), RouteError> {
        let run = engine.reconcile(desired, &None, None)?;
        self.run(engine, run, RouteAction::List)
    }

    fn clear(&mut self, engine: &mut RouteEngine) -> Result<(), RouteError> {
        let (run, first) = engine.clear();
        self.run(engine, run, first)
    }
}

fn peer_routes(routes: &[&str]) -> DesiredRoutes {
    DesiredRoutes {
        ifname: "tun0".to_string(),
        tun_if_index: Some(9),
        profile: DeviceProfile::default(),
        remote_subnets: vec![],
        peer_routes: routes.iter().map(|r| cidr(r)).collect(),
        has_exit: false,
        underlay_hosts: vec![],
        underlay: Some(underlay()),
    }
}

fn mesh_desired() -> DesiredRoutes {
    peer_routes(&["10.99.0.5/32"])
}

fn exit_desired() -> DesiredRoutes {
    let profile = DeviceProfile {
        exit_node_endpoint_id: Some("abc".to_string()),
        allow_local_lan: true,
        split_tunnel_mode: SplitTunnelMode::Exclude,
        ..Default::default()
    };
    DesiredRoutes {
        ifname: "tun0".to_string(),
        tun_if_index: Some(9),
        profile,
        remote_subnets: vec![],
        peer_routes: vec![],
        has_exit: true,
        underlay_hosts: vec![ip("1.2.3.4")],
        underlay: Some(underlay()),
    }
}

fn owns(engine: &RouteEngine, dest: &str) -> bool {
    engine.owned_routes().iter().any(|s| s.dest == cidr(dest))
}

#[test]
fn successful_add_updates_tracked_state() {
    let mut kernel = Kernel::default();
    let mut r = RouteEngine::new();
    kernel.reconcile(&mut r, mesh_desired()).unwrap();
    assert!(owns(&r, "10.99.0.5/32"));
    assert!(kernel.routes.iter().any(|s| s.dest == cidr("10.99.0.5/32")));
    assert!(!kernel.routes.iter().any(|s| s.dest == cidr("10.99.0.0/24")));
}

#[test]
fn failed_add_does_not_update_tracked_state() {
    let mut kernel = Kernel {
        fail_add: vec![spec_tun("10.99.0.5/32", 9)],
        ..Kernel::default()
    };
    let mut r = RouteEngine::new();
    assert!(kernel.reconcile(&mut r, mesh_desired()).is_err());
    assert!(!owns(&r, "10.99.0.5/32"));
    assert!(kernel.routes.is_empty());
}

#[test]
fn failed_add_is_retried_on_next_reconcile() {
    let mut kernel = Kernel {
        fail_add: vec![spec_tun("10.99.0.5/32", 9)],
        ..Kernel::default()
    };
    let mut r = RouteEngine::new();
    assert!(kernel.reconcile(&mut r, mesh_desired()).is_err());
    kernel.fail_add.clear();
    kernel.reconcile(&mut r, mesh_desired()).unwrap();
    assert_eq!(kernel.add_calls.len(), 2);
    assert!(owns(&r, "10.99.0.5/32"));
}

#[test]
fn successful_delete_removes_tracked_state() {
    let mut kernel = Kernel::default();
    let mut r = RouteEngine::new();
    kernel.reconcile(&mut r, mesh_desired()).unwrap();
    kernel.clear(&mut r).unwrap();
    assert!(r.owned_routes().is_empty());
    assert!(kernel.routes.is_empty());
}

#[test]
fn failed_delete_does_not_falsely_mark_absent() {
    let ident = spec_tun("10.99.0.5/32", 9);
    let mut kernel = Kernel::default();
    let mut r = RouteEngine::new();
    kernel.reconcile(&mut r, mesh_desired()).unwrap();
    kernel.fail_delete.push(ident.copy());
    assert!(kernel.clear(&mut r).is_err());
    assert!(has(&r.owned_routes(), &ident));
    assert!(!kernel.routes.is_empty());
}

#[test]
fn external_kernel_removal_is_restored() {
    let mut kernel = Kernel::default();
    let mut r = RouteEngine::new();
    kernel.reconcile(&mut r, mesh_desired()).unwrap();
    kernel.routes.clear();
    kernel.reconcile(&mut r, mesh_desired()).unwrap();
    assert_eq!(kernel.add_calls.len(), 2);
    assert!(!kernel.routes.is_empty());
}

#[test]
fn stale_in_memory_state_is_corrected_from_kernel() {
    let mut kernel = Kernel::default();
    let mut r = RouteEngine::new();
    kernel.reconcile(&mut r, mesh_desired()).unwrap();
    kernel.routes.clear();
    kernel.reconcile(&mut r, mesh_desired()).unwrap();
    assert_eq!(r.owned_routes().len(), kernel.routes.len());
}

#[test]
fn restart_with_existing_routes_does_not_duplicate() {
    let mut kernel = Kernel::with(&[spec_tun("10.99.0.5/32", 9)]);
    let mut r = RouteEngine::new();
    kernel.reconcile(&mut r, mesh_desired()).unwrap();
    assert!(kernel.add_calls.is_empty());
    assert_eq!(r.owned_routes().len(), 1);
}

#[test]
fn wrong_gateway_is_corrected() {
    let old = spec_gw("1.2.3.4/32", ip("10.0.0.1"), 2);
    let mut kernel = Kernel::with(&[old.copy()]);
    let mut r = RouteEngine::new();
    r.adopt(&old);
    kernel.reconcile(&mut r, exit_desired()).unwrap();
    assert!(kernel
        .routes
        .iter()
        .any(|s| s.gateway == Some(gw()) && s.dest.prefix_len() == 32));
    assert!(!kernel
        .routes
        .iter()
        .any(|s| s.gateway == Some(ip("10.0.0.1"))));
}

#[test]
fn wrong_interface_is_corrected() {
    let wrong = spec_tun("10.99.0.0/24", 99);
    let mut kernel = Kernel::with(&[wrong.copy()]);
    let mut r = RouteEngine::new();
    r.adopt(&wrong);
    kernel.reconcile(&mut r, mesh_desired()).unwrap();
    assert!(kernel.routes.iter().all(|s| s.if_index == 9));
}

#[test]
fn gateway_change_replaces_escape_routes() {
    let mut kernel = Kernel::default();
    let mut r = RouteEngine::new();
    kernel.reconcile(&mut r, exit_desired()).unwrap();
    let mut next = exit_desired();
    let mut u = underlay();
    u.gateway = Some(IpAddr::V4(ip("192.168.2.1")));
    next.underlay = Some(u);
    kernel.reconcile(&mut r, next).unwrap();
    assert!(kernel
        .routes
        .iter()
        .any(|s| s.gateway == Some(ip("192.168.2.1"))));
    assert!(!kernel
        .routes
        .iter()
        .any(|s| s.gateway == Some(gw()) && s.dest.prefix_len() == 32));
}

#[test]
fn underlay_interface_change_is_handled() {
    let mut kernel = Kernel::default();
    let mut r = RouteEngine::new();
    kernel.reconcile(&mut r, exit_desired()).unwrap();
    let mut next = exit_desired();
    let mut u = underlay();
    u.interface_index = 7;
    u.interface_name = "wlan0".to_string();
    next.underlay = Some(u);
    kernel.reconcile(&mut r, next).unwrap();
    assert!(kernel
        .routes
        .iter()
        .filter(|s| s.gateway.is_some())
        .all(|s| s.if_index == 7));
}

#[test]
fn default_tun_installed_after_escape_routes() {
    let mut kernel = Kernel::default();
    let mut r = RouteEngine::new();
    kernel.reconcile(&mut r, exit_desired()).unwrap();
    let adds = &kernel.add_calls;
    let default_pos = adds
        .iter()
        .position(|s| s.is_default_tun())
        .expect("default");
    let escape_pos = adds
        .iter()
        .position(|s| s.is_host_escape())
        .expect("escape");
    assert!(escape_pos < default_pos);
}

#[test]
fn default_route_refused_without_underlay() {
    let mut kernel = Kernel::default();
    let mut r = RouteEngine::new();
    let mut d = exit_desired();
    d.underlay = Some(UnderlayInfo {
        interface_index: 2,
        interface_name: "eth0".to_string(),
        gateway: None,
        dns_servers: vec![],
    });
    kernel.reconcile(&mut r, d).unwrap();
    assert!(!kernel.routes.iter().any(|s| s.is_default_tun()));
}

#[test]
fn cleanup_does_not_remove_unrelated_routes() {
    let unrelated = spec_gw("8.8.8.8/32", gw(), 2);
    let mut kernel = Kernel::with(&[unrelated.copy()]);
    let mut r = RouteEngine::new();
    kernel.reconcile(&mut r, mesh_desired()).unwrap();
    assert!(has(&kernel.routes, &unrelated));
    kernel.clear(&mut r).unwrap();
    assert!(has(&kernel.routes, &unrelated));
}

#[test]
fn unallocated_broad_route_is_not_claimed() {
    let mesh = spec_tun("10.7.0.0/24", 9);
    let host = spec_tun("10.7.0.2/32", 9);
    let mut kernel = Kernel::with(&[mesh.copy(), host.copy()]);
    let mut r = RouteEngine::new();
    kernel
        .reconcile(&mut r, peer_routes(&["10.7.0.2/32"]))
        .unwrap();
    assert!(!has(&kernel.routes, &mesh));
    assert!(has(&kernel.routes, &host));
}

#[test]
fn exact_peer_route_installed_without_broad_route() {
    let mut kernel = Kernel::default();
    let mut r = RouteEngine::new();
    kernel
        .reconcile(&mut r, peer_routes(&["10.7.0.2/32"]))
        .unwrap();
    assert!(kernel.routes.iter().any(|s| s.dest == cidr("10.7.0.2/32")));
}

#[test]
fn desired_includes_rfc1918_when_allow_local_lan() {
    let d = exit_desired();
    let set = d.kinds(Some(gw()), true);
    assert!(set.contains(&RouteKind::ViaTun(cidr("0.0.0.0/0"))));
    assert!(set.contains(&RouteKind::ViaGw {
        cidr: cidr("10.0.0.0/8"),
        gw: gw(),
    }));
    assert!(set.contains(&RouteKind::ViaGw {
        cidr: cidr("1.2.3.4/32"),
        gw: gw(),
    }));
}

#[test]
fn failed_escape_keeps_the_default_route_out() {
    let mut kernel = Kernel {
        fail_add: vec![spec_gw("1.2.3.4/32", gw(), 2)],
        ..Kernel::default()
    };
    let mut r = RouteEngine::new();
    assert!(kernel.reconcile(&mut r, exit_desired()).is_err());
    assert!(!kernel.routes.iter().any(|s| s.is_default_tun()));
    // Once it can be added the default route follows.
    kernel.fail_add.clear();
    kernel.reconcile(&mut r, exit_desired()).unwrap();
    assert!(kernel.routes.iter().any(|s| s.is_default_tun()));
}

#[test]
fn obedient_kernel_ends_up_with_what_is_wanted() {
    let mut kernel = Kernel::default();
    let mut r = RouteEngine::new();
    kernel
        .reconcile(&mut r, peer_routes(&["10.7.0.2/32", "10.7.0.3/32"]))
        .unwrap();
    kernel
        .reconcile(&mut r, peer_routes(&["10.7.0.3/32"]))
        .unwrap();
    assert_eq!(kernel.routes.len(), 1);
    assert!(owns(&r, "10.7.0.3/32"));
    // The same again does nothing.
    let calls = kernel.add_calls.len() + kernel.delete_calls.len();
    kernel
        .reconcile(&mut r, peer_routes(&["10.7.0.3/32"]))
        .unwrap();
    assert_eq!(kernel.add_calls.len() + kernel.delete_calls.len(), calls);
}

#[test]
fn unreadable_routes_stop_a_run() {
    let mut r = RouteEngine::new();
    let mut run = r.reconcile(mesh_desired(), &None, None).unwrap();
    let reply = RouteReply::Listed(Err(RouteError::List("no netlink".to_string())));
    match run.step(&mut r, reply) {
        RouteAction::Done(Err(RouteError::List(why))) => assert_eq!(why, "no netlink"),
        _ => panic!("expected the failure"),
    }
    assert!(r.owned_routes().is_empty());
}

#[test]
fn several_failures_are_reported_together() {
    let mut kernel = Kernel {
        fail_add: vec![spec_tun("10.7.0.2/32", 9), spec_tun("10.7.0.3/32", 9)],
        ..Kernel::default()
    };
    let mut r = RouteEngine::new();
    match kernel.reconcile(&mut r, peer_routes(&["10.7.0.2/32", "10.7.0.3/32"])) {
        Err(RouteError::Multiple(all)) => assert_eq!(all.len(), 2),
        other => panic!("expected both failures, got {other:?}"),
    }
}

#[test]
fn interface_that_is_not_there_is_an_error() {
    let mut r = RouteEngine::new();
    let mut d = mesh_desired();
    d.tun_if_index = None;
    assert!(r.reconcile(d, &None, None).is_err());
    let mut d = mesh_desired();
    d.tun_if_index = None;
    assert!(r.reconcile(d, &None, Some(9)).is_ok());
    // What was asked for last can be asked for again.
    assert!(r.reconcile_last(&None, Some(9)).is_some());
    assert!(RouteEngine::new().reconcile_last(&None, Some(9)).is_none());
}

#[test]
fn escapes_are_added_first_and_deleted_last() {
    let default = spec_tun("0.0.0.0/0", 9);
    let escape = spec_gw("1.2.3.4/32", gw(), 2);
    let list = vec![default.copy(), escape.copy()];
    let add = in_add_order(&list);
    assert!(add[0].is_host_escape());
    assert!(add[1].is_default_tun());
    let del = in_del_order(&add);
    assert!(del[0].is_default_tun());
    assert!(del[1].is_host_escape());
}

#[test]
fn os_errors_are_told_apart() {
    let spec = spec_tun("10.7.0.2/32", 9);
    let make = |kind| RouteError::from_io(RouteOp::Add, Some(&spec), kind, "why".to_string());
    assert!(make(OsErrorKind::AlreadyExists).is_idempotent_add());
    assert!(make(OsErrorKind::NotFound).is_idempotent_delete());
    assert!(!make(OsErrorKind::Other).is_idempotent_add());
    assert!(matches!(
        make(OsErrorKind::PermissionDenied),
        RouteError::PermissionDenied { op: "add", .. }
    ));
    let text = make(OsErrorKind::Other).to_text();
    assert!(text.contains("why") && text.contains("10.7.0.2/32"));
}

#[test]
fn wishes_from_membership_and_peers() {
    let d = desired_direct("tun0", Some(9), &vec![ip("10.7.0.2")], &vec![]);
    assert_eq!(d.peer_routes[0].to_text(), "10.7.0.2/32");
    assert!(!d.exit_exclude());
    let mut profile = DeviceProfile::default();
    profile.exit_node_endpoint_id = Some("abc".to_string());
    let d = desired_from_membership("tun0", Some(9), &profile, &vec![], true, &vec![1]);
    assert!(d.exit_exclude());
    assert_eq!(d.underlay_hosts, vec![1]);
}

#[test]
fn gateways_prefer_ipv4_and_the_interfaces_own() {
    let v4 = GatewayAddrs {
        ipv4: vec![1, 2],
        ipv6: vec![3],
    };
    let v6 = GatewayAddrs {
        ipv4: vec![],
        ipv6: vec![3],
    };
    assert_eq!(v4.first(), Some(IpAddr::V4(1)));
    assert_eq!(v6.first(), Some(IpAddr::V6(3)));
    let info = UnderlayInfo::from_interface(2, "eth0".to_string(), &None, &Some(v4), vec![]);
    assert_eq!(info.gateway_v4(), Some(1));
    let own = UnderlayInfo::from_interface(2, "eth0".to_string(), &Some(v6), &None, vec![]);
    assert_eq!(own.gateway_v4(), None);
    assert_eq!(default_uplink_name(&Some(own)).as_deref(), Some("eth0"));
    assert_eq!(default_uplink_name(&None), None);
}

#[test]
fn networks_of_addresses() {
    let net = cidr("10.1.2.3/24");
    assert_eq!(net.network(), ip("10.1.2.0"));
    assert_eq!(net.broadcast(), ip("10.1.2.255"));
    assert!(net.contains(ip("10.1.2.77")) && !net.contains(ip("10.1.3.0")));
    assert_eq!(net.trunc().to_text(), "10.1.2.0/24");
    assert_eq!(net.to_text(), "10.1.2.3/24");
    assert!(Ipv4Net::new(0, 33).is_none());
    assert!(cidr_overlaps(&cidr("10.0.0.0/8"), &net));
    assert!(!cidr_overlaps(&cidr("11.0.0.0/8"), &net));
    for bad in ["", "1.2.3", "1.2.3.4.5", "256.1.1.1", "01.2.3.4", "1.2.3.4 ", "a.b.c.d"] {
        assert_eq!(parse_ipv4(bad), None, "{bad}");
    }
    assert_eq!(parse_ipv4("1.2.3.4"), Some(0x0102_0304));
    assert_eq!(parse_ipv4("255.255.255.255"), Some(u32::MAX));
}

#[test]
fn kernel_gives_a_route_back() {
    let net = Ipv4Net::new(parse_ipv4("10.1.2.3").unwrap(), 24).unwrap();
    let tun = RouteSpec {
        dest: net,
        gateway: None,
        if_index: 7,
        if_name: "tunnet0".to_string(),
    };
    let handed = spec_to_route(&tun, Platform::Linux);
    assert_eq!(handed.destination, IpAddr::V4(parse_ipv4("10.1.2.0").unwrap()));
    assert_eq!(handed.prefix, 24);
    assert_eq!(handed.metric, Some(1));
    assert_eq!(spec_to_route(&tun, Platform::Macos).metric, None);
    let back = spec_from_route(&handed).unwrap();
    assert_eq!(back.dest, net.trunc());
    assert_eq!(back.if_index, 7);
    assert_eq!(back.if_name, "tunnet0");
    let gw = parse_ipv4("192.168.1.1");
    let escape = RouteSpec {
        dest: net,
        gateway: gw,
        if_index: 2,
        if_name: String::new(),
    };
    let handed = spec_to_route(&escape, Platform::Windows);
    assert_eq!(handed.gateway, Some(IpAddr::V4(gw.unwrap())));
    assert_eq!(handed.if_name, None);
    assert_eq!(handed.metric, None);
}

#[test]
fn foreign_routes_are_not_looked_at() {
    let route = |destination: IpAddr, prefix: u8, gateway: Option<IpAddr>, if_index: Option<u32>| {
        KernelRoute {
            destination,
            prefix,
            gateway,
            if_index,
            if_name: None,
            metric: None,
        }
    };
    let v4 = IpAddr::V4(parse_ipv4("10.0.0.0").unwrap());
    let listed = vec![
        route(IpAddr::V6(1), 64, None, Some(1)),
        route(v4, 33, None, Some(1)),
        route(v4, 8, Some(IpAddr::V6(1)), Some(1)),
        route(v4, 8, None, None),
        route(v4, 8, None, Some(4)),
    ];
    let seen = specs_from_routes(&listed);
    assert_eq!(seen.len(), 1);
    assert_eq!(seen[0].if_index, 4);
    assert_eq!(seen[0].if_name, "");
}

#[test]
fn peers_are_routed_one_by_one() {
    let d = desired_direct("tunnet0", Some(7), &vec![ip("10.7.0.2"), ip("10.7.0.3")], &vec![gw()]);
    let kinds = d.kinds(Some(gw()), true);
    assert_eq!(kinds.len(), 2);
    assert!(kinds.contains(&RouteKind::ViaTun(cidr("10.7.0.2/32"))));
    assert!(kinds.contains(&RouteKind::ViaTun(cidr("10.7.0.3/32"))));
}
