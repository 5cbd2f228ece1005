//! Bringing the kernel's routes in line with what the data plane wants.
//!
//! The caller performs the kernel operations; the machine here decides which,
//! in which order, and what the node owns afterwards.

use crate::membership::{copy_nets, default_profile, DeviceProfile, ProfileView, SplitTunnelMode};
use crate::net::Ipv4Net;
use crate::route_spec::{
    insert_route, ordered, route_text, route_views, RouteSpec, RouteView,
};
use crate::text::{contains_text, decimal, occurs, u64_text};
use crate::underlay::UnderlayInfo;
use vstd::prelude::*;

verus! {

/// A route by what it is for: into the tunnel, or around it through a gateway.
#[derive(Debug, Clone, Copy, PartialEq, Eq, Structural)]
pub enum RouteKind {
    ViaTun(Ipv4Net),
    ViaGw { cidr: Ipv4Net, gw: u32 },
}

#[derive(Debug, Clone, Copy, PartialEq, Eq, Structural)]
pub enum RouteOp {
    Add,
    Delete,
    List,
}

/// The name of a route operation.
pub open spec fn op_name(op: RouteOp) -> Seq<char> {
    match op {
        RouteOp::Add => "add"@,
        RouteOp::Delete => "delete"@,
        RouteOp::List => "list"@,
    }
}

impl RouteOp {
    pub fn as_str(self) -> (r: &'static str)
        ensures
            r@ == op_name(self),
    {
        match self {
            RouteOp::Add => "add",
            RouteOp::Delete => "delete",
            RouteOp::List => "list",
        }
    }
}

#[derive(Debug)]
pub enum RouteError {
    AlreadyExists,
    NotFound,
    PermissionDenied { op: &'static str, route: String },
    InvalidInterface { route: String },
    InvalidGateway { route: String },
    Native { op: &'static str, route: String, detail: String },
    List(String),
    Multiple(Vec<RouteError>),
}

/// The kinds of operating system failure that matter for routes.
#[derive(Debug, Clone, Copy, PartialEq, Eq, Structural)]
pub enum OsErrorKind {
    AlreadyExists,
    NotFound,
    PermissionDenied,
    Other,
}

/// The text of an error.
pub open spec fn route_error_text(e: RouteError) -> Seq<char> {
    match e {
        RouteError::AlreadyExists => "route already exists"@,
        RouteError::NotFound => "route not found"@,
        RouteError::PermissionDenied { op, route } => "permission denied for route "@ + op@ + ": "@
            + route@,
        RouteError::InvalidInterface { route } => "invalid interface for route "@ + route@,
        RouteError::InvalidGateway { route } => "invalid gateway for route "@ + route@,
        RouteError::Native { op, route, detail } => op@ + " "@ + route@ + ": "@ + detail@,
        RouteError::List(s) => "failed to list kernel routes: "@ + s@,
        RouteError::Multiple(v) => decimal(v@.len()) + " route operation(s) failed"@,
    }
}

/// What an operating system failure of a route operation means.
pub open spec fn os_failure(
    e: RouteError,
    op: RouteOp,
    route: Seq<char>,
    kind: OsErrorKind,
    msg: Seq<char>,
) -> bool {
    match kind {
        OsErrorKind::AlreadyExists => e is AlreadyExists,
        OsErrorKind::NotFound => e is NotFound,
        OsErrorKind::PermissionDenied => e matches RouteError::PermissionDenied { op: o, route: r }
            && o@ == op_name(op) && r@ == route,
        OsErrorKind::Other => if occurs("gateway"@, msg) {
            e matches RouteError::InvalidGateway { route: r } && r@ == route
        } else if occurs("if_index"@, msg) || occurs("if_name"@, msg) || occurs("prefix"@, msg) {
            e matches RouteError::InvalidInterface { route: r } && r@ == route
        } else if op == RouteOp::List {
            e matches RouteError::List(m) && m@ == msg
        } else {
            e matches RouteError::Native { op: o, route: r, detail } && o@ == op_name(op) && r@
                == route && detail@ == msg
        },
    }
}

impl RouteError {
    pub fn is_idempotent_add(&self) -> (r: bool)
        ensures
            r == (*self is AlreadyExists),
    {
        matches!(self, RouteError::AlreadyExists)
    }

    pub fn is_idempotent_delete(&self) -> (r: bool)
        ensures
            r == (*self is NotFound),
    {
        matches!(self, RouteError::NotFound)
    }

    /// The error for an operating system failure, given by its kind and message.
    pub fn from_io(op: RouteOp, spec: Option<&RouteSpec>, kind: OsErrorKind, msg: String) -> (r:
        RouteError)
        ensures
            os_failure(
                r,
                op,
                match spec {
                    Some(s) => route_text(s@),
                    None => Seq::empty(),
                },
                kind,
                msg@,
            ),
    {
        let route = match spec {
            Some(s) => s.to_text(),
            None => String::new(),
        };
        proof {
            assert(spec is None ==> route@ =~= Seq::<char>::empty());
        }
        match kind {
            OsErrorKind::AlreadyExists => RouteError::AlreadyExists,
            OsErrorKind::NotFound => RouteError::NotFound,
            OsErrorKind::PermissionDenied => RouteError::PermissionDenied {
                op: op.as_str(),
                route,
            },
            OsErrorKind::Other => {
                if contains_text(msg.as_str(), "gateway") {
                    RouteError::InvalidGateway { route }
                } else if contains_text(msg.as_str(), "if_index") || contains_text(
                    msg.as_str(),
                    "if_name",
                ) || contains_text(msg.as_str(), "prefix") {
                    RouteError::InvalidInterface { route }
                } else if op == RouteOp::List {
                    RouteError::List(msg)
                } else {
                    RouteError::Native { op: op.as_str(), route, detail: msg }
                }
            },
        }
    }

    pub fn to_text(&self) -> (r: String)
        ensures
            r@ == route_error_text(*self),
    {
        match self {
            RouteError::AlreadyExists => "route already exists".to_owned(),
            RouteError::NotFound => "route not found".to_owned(),
            RouteError::PermissionDenied { op, route } => {
                let mut out = "permission denied for route ".to_owned();
                out.append(op);
                out.append(": ");
                out.append(route.as_str());
                out
            },
            RouteError::InvalidInterface { route } => {
                let mut out = "invalid interface for route ".to_owned();
                out.append(route.as_str());
                out
            },
            RouteError::InvalidGateway { route } => {
                let mut out = "invalid gateway for route ".to_owned();
                out.append(route.as_str());
                out
            },
            RouteError::Native { op, route, detail } => {
                let mut out = (*op).to_owned();
                out.append(" ");
                out.append(route.as_str());
                out.append(": ");
                out.append(detail.as_str());
                out
            },
            RouteError::List(s) => {
                let mut out = "failed to list kernel routes: ".to_owned();
                out.append(s.as_str());
                out
            },
            RouteError::Multiple(v) => {
                let mut out = u64_text(v.len() as u64);
                out.append(" route operation(s) failed");
                out
            },
        }
    }
}

/// What the data plane wants of the kernel's routes.
#[derive(Debug)]
pub struct DesiredRoutes {
    pub ifname: String,
    pub tun_if_index: Option<u32>,
    pub profile: DeviceProfile,
    pub remote_subnets: Vec<Ipv4Net>,
    /// One route per active peer, to its address alone.
    pub peer_routes: Vec<Ipv4Net>,
    pub has_exit: bool,
    pub underlay_hosts: Vec<u32>,
    /// Given where the underlay need not be looked up.
    pub underlay: Option<UnderlayInfo>,
}

/// The private ranges.
pub open spec fn is_private_net(n: Ipv4Net) -> bool {
    ||| n.base() == 0x0a00_0000 && n.bits() == 8
    ||| n.base() == 0xac10_0000 && n.bits() == 12
    ||| n.base() == 0xc0a8_0000 && n.bits() == 16
}

/// Everything leaves through an exit, but for what is listed.
pub open spec fn exit_excluding(has_exit: bool, p: ProfileView) -> bool {
    (has_exit || p.exit_node_endpoint_id is Some) && p.split_tunnel_mode == SplitTunnelMode::Exclude
}

impl DesiredRoutes {
    /// Peer routes lead to single hosts.
    pub open spec fn wf(self) -> bool {
        forall|i: int|
            0 <= i < self.peer_routes@.len() ==> (#[trigger] self.peer_routes@[i]).bits() == 32
    }

    /// Everything leaves through an exit, but for what is listed.
    pub open spec fn excludes(self) -> bool {
        exit_excluding(self.has_exit, self.profile@)
    }

    /// A network that is to be reached through the tunnel.
    pub open spec fn tunnelled(self, n: Ipv4Net, allow_default: bool) -> bool {
        ||| self.remote_subnets@.contains(n)
        ||| self.peer_routes@.contains(n)
        ||| self.profile.split_tunnel_mode == SplitTunnelMode::Include
            && self.profile.split_tunnel_cidrs@.contains(n)
        ||| self.excludes() && allow_default && n.base() == 0 && n.bits() == 0
    }

    /// A network that is to be reached around the tunnel.
    pub open spec fn escaping(self, n: Ipv4Net) -> bool {
        &&& self.excludes()
        &&& {
            ||| self.profile.split_tunnel_cidrs@.contains(n)
            ||| self.profile.allow_local_lan && is_private_net(n)
            ||| n.bits() == 32 && self.underlay_hosts@.contains(n.base())
        }
    }

    /// A wanted route by its kind.
    pub open spec fn kind_wanted(
        self,
        k: RouteKind,
        gateway: Option<u32>,
        allow_default: bool,
    ) -> bool {
        match k {
            RouteKind::ViaTun(n) => self.tunnelled(n, allow_default),
            RouteKind::ViaGw { cidr, gw } => gateway == Some(gw) && self.escaping(cidr),
        }
    }

    /// A wanted route of the kernel.
    pub open spec fn wanted(
        self,
        r: RouteView,
        gateway: Option<u32>,
        underlay_if: Option<(u32, Seq<char>)>,
        tun_if: (u32, Seq<char>),
        allow_default: bool,
    ) -> bool {
        match r.gateway {
            None => (r.if_index, r.if_name) == tun_if && self.tunnelled(r.dest, allow_default),
            Some(gw) => underlay_if == Some((r.if_index, r.if_name)) && gateway == Some(gw)
                && self.escaping(r.dest),
        }
    }

    /// Whether everything leaves through an exit, but for what is listed.
    pub fn exit_exclude(&self) -> (r: bool)
        ensures
            r == self.excludes(),
    {
        (self.has_exit || self.profile.exit_node_endpoint_id.is_some())
            && self.profile.split_tunnel_mode == SplitTunnelMode::Exclude
    }

    /// The wanted routes by kind, none twice.
    pub fn kinds(&self, gateway: Option<u32>, allow_default: bool) -> (r: Vec<RouteKind>)
        requires
            self.wf(),
        ensures
            r@.no_duplicates(),
            forall|k: RouteKind| #[trigger]
                r@.contains(k) <==> self.kind_wanted(k, gateway, allow_default),
    {
        let mut out: Vec<RouteKind> = Vec::new();
        add_tun_kinds(&mut out, &self.remote_subnets);
        add_tun_kinds(&mut out, &self.peer_routes);
        match self.profile.split_tunnel_mode {
            SplitTunnelMode::Include => {
                add_tun_kinds(&mut out, &self.profile.split_tunnel_cidrs);
            },
            SplitTunnelMode::Exclude => {
                if self.exit_exclude() {
                    if allow_default {
                        let everything = Ipv4Net::new(0, 0);
                        if let Some(n) = everything {
                            add_kind(&mut out, RouteKind::ViaTun(n));
                        }
                    }
                    if let Some(gw) = gateway {
                        add_gw_kinds(&mut out, &self.profile.split_tunnel_cidrs, gw);
                        if self.profile.allow_local_lan {
                            let lans = rfc1918_nets();
                            add_gw_kinds(&mut out, &lans, gw);
                        }
                        let hosts = host_nets(&self.underlay_hosts);
                        add_gw_kinds(&mut out, &hosts, gw);
                    }
                }
            },
        }
        proof {
            broadcast use crate::net::lemma_net_eq;

            assert forall|k: RouteKind| #[trigger] out@.contains(k) <==> self.kind_wanted(
                k,
                gateway,
                allow_default,
            ) by {}
        }
        out
    }

    /// The wanted routes of the kernel, in order.
    pub fn to_specs(
        &self,
        gateway: Option<u32>,
        underlay_if: Option<(u32, &String)>,
        tun_if: (u32, &String),
        allow_default: bool,
    ) -> (r: Vec<RouteSpec>)
        requires
            self.wf(),
        ensures
            ordered(route_views(r@)),
            forall|x: RouteView| #[trigger]
                route_views(r@).contains(x) <==> self.wanted(
                    x,
                    gateway,
                    match underlay_if {
                        Some(u) => Some((u.0, u.1@)),
                        None => None,
                    },
                    (tun_if.0, tun_if.1@),
                    allow_default,
                ),
    {
        let kinds = self.kinds(gateway, allow_default);
        let ghost under: Option<(u32, Seq<char>)> = match underlay_if {
            Some(u) => Some((u.0, u.1@)),
            None => None,
        };
        let ghost tun: (u32, Seq<char>) = (tun_if.0, tun_if.1@);
        let mut out: Vec<RouteSpec> = Vec::new();
        let mut i: usize = 0;
        while i < kinds.len()
            invariant
                i <= kinds@.len(),
                ordered(route_views(out@)),
                under == (match underlay_if {
                    Some(u) => Some((u.0, u.1@)),
                    None => None,
                }),
                tun == (tun_if.0, tun_if.1@),
                forall|x: RouteView| #[trigger]
                    route_views(out@).contains(x) <==> exists|j: int|
                        0 <= j < i && kind_route(#[trigger] kinds@[j], under, tun, x),
            decreases kinds@.len() - i,
        {
            let ghost before = route_views(out@);
            match kinds[i] {
                RouteKind::ViaTun(cidr) => {
                    let spec = RouteSpec {
                        dest: cidr,
                        gateway: None,
                        if_index: tun_if.0,
                        if_name: tun_if.1.clone(),
                    };
                    insert_route(&mut out, &spec);
                    assert(forall|x: RouteView|
                        kind_route(kinds@[i as int], under, tun, x) <==> x == spec@);
                },
                RouteKind::ViaGw { cidr, gw } => {
                    if let Some(u) = underlay_if {
                        let spec = RouteSpec {
                            dest: cidr,
                            gateway: Some(gw),
                            if_index: u.0,
                            if_name: u.1.clone(),
                        };
                        insert_route(&mut out, &spec);
                        assert(forall|x: RouteView|
                            kind_route(kinds@[i as int], under, tun, x) <==> x == spec@);
                    } else {
                        assert(forall|x: RouteView| !kind_route(kinds@[i as int], under, tun, x));
                    }
                },
            }
            proof {
                assert forall|x: RouteView| #[trigger]
                    route_views(out@).contains(x) <==> exists|j: int|
                        0 <= j < i + 1 && kind_route(#[trigger] kinds@[j], under, tun, x) by {
                    if route_views(out@).contains(x) {
                        if before.contains(x) {
                            let j = choose|j: int|
                                0 <= j < i && kind_route(#[trigger] kinds@[j], under, tun, x);
                            assert(kind_route(kinds@[j], under, tun, x));
                        } else {
                            assert(kind_route(kinds@[i as int], under, tun, x));
                        }
                    }
                    if exists|j: int|
                        0 <= j < i + 1 && kind_route(#[trigger] kinds@[j], under, tun, x) {
                        let j = choose|j: int|
                            0 <= j < i + 1 && kind_route(#[trigger] kinds@[j], under, tun, x);
                        if j < i {
                            assert(before.contains(x));
                        }
                    }
                }
            }
            i = i + 1;
        }
        proof {
            assert forall|x: RouteView| #[trigger]
                route_views(out@).contains(x) <==> self.wanted(
                    x,
                    gateway,
                    under,
                    tun,
                    allow_default,
                ) by {
                if route_views(out@).contains(x) {
                    let j = choose|j: int|
                        0 <= j < kinds@.len() && kind_route(#[trigger] kinds@[j], under, tun, x);
                    assert(kinds@.contains(kinds@[j]));
                }
                if self.wanted(x, gateway, under, tun, allow_default) {
                    let k = match x.gateway {
                        None => RouteKind::ViaTun(x.dest),
                        Some(gw) => RouteKind::ViaGw { cidr: x.dest, gw },
                    };
                    assert(kinds@.contains(k));
                    let j = choose|j: int| 0 <= j < kinds@.len() && kinds@[j] == k;
                    assert(kind_route(kinds@[j], under, tun, x));
                }
            }
        }
        out
    }
}

/// The kernel route of a kind.
spec fn kind_route(
    k: RouteKind,
    under: Option<(u32, Seq<char>)>,
    tun: (u32, Seq<char>),
    x: RouteView,
) -> bool {
    match k {
        RouteKind::ViaTun(n) => x == (RouteView {
            dest: n,
            gateway: None,
            if_index: tun.0,
            if_name: tun.1,
        }),
        RouteKind::ViaGw { cidr, gw } => under matches Some(u) && x == (RouteView {
            dest: cidr,
            gateway: Some(gw),
            if_index: u.0,
            if_name: u.1,
        }),
    }
}

fn rfc1918_nets() -> (r: Vec<Ipv4Net>)
    ensures
        forall|n: Ipv4Net| #[trigger] r@.contains(n) <==> is_private_net(n),
{
    let mut out: Vec<Ipv4Net> = Vec::new();
    if let Some(n) = Ipv4Net::new(0x0a00_0000, 8) {
        out.push(n);
    }
    if let Some(n) = Ipv4Net::new(0xac10_0000, 12) {
        out.push(n);
    }
    if let Some(n) = Ipv4Net::new(0xc0a8_0000, 16) {
        out.push(n);
    }
    proof {
        broadcast use crate::net::lemma_net_eq;

        assert forall|n: Ipv4Net| #[trigger] out@.contains(n) <==> is_private_net(n) by {
            if is_private_net(n) {
                assert(n == out@[0] || n == out@[1] || n == out@[2]);
            }
        }
    }
    out
}

fn host_nets(hosts: &Vec<u32>) -> (r: Vec<Ipv4Net>)
    ensures
        forall|n: Ipv4Net| #[trigger]
            r@.contains(n) <==> n.bits() == 32 && hosts@.contains(n.base()),
{
    let mut out: Vec<Ipv4Net> = Vec::new();
    let mut i: usize = 0;
    while i < hosts.len()
        invariant
            i <= hosts@.len(),
            out@.len() == i,
            forall|j: int|
                0 <= j < i ==> (#[trigger] out@[j]).bits() == 32 && out@[j].base() == hosts@[j],
        decreases hosts@.len() - i,
    {
        out.push(Ipv4Net::host(hosts[i]));
        i = i + 1;
    }
    proof {
        broadcast use crate::net::lemma_net_eq;

        assert forall|n: Ipv4Net| #[trigger] out@.contains(n) <==> n.bits() == 32 && hosts@.contains(
            n.base(),
        ) by {
            if out@.contains(n) {
                let j = choose|j: int| 0 <= j < out@.len() && out@[j] == n;
                assert(hosts@[j] == n.base());
            }
            if n.bits() == 32 && hosts@.contains(n.base()) {
                let j = choose|j: int| 0 <= j < hosts@.len() && hosts@[j] == n.base();
                assert(out@[j] == n);
            }
        }
    }
    out
}

fn add_kind(out: &mut Vec<RouteKind>, k: RouteKind)
    requires
        old(out)@.no_duplicates(),
    ensures
        final(out)@.no_duplicates(),
        forall|x: RouteKind| #[trigger]
            final(out)@.contains(x) <==> x == k || old(out)@.contains(x),
{
    let mut i: usize = 0;
    while i < out.len()
        invariant
            i <= out@.len(),
            *out == *old(out),
            old(out)@.no_duplicates(),
            forall|j: int| 0 <= j < i ==> #[trigger] out@[j] != k,
        decreases out@.len() - i,
    {
        if out[i] == k {
            return;
        }
        i = i + 1;
    }
    let ghost before = out@;
    out.push(k);
    proof {
        assert forall|x: RouteKind| #[trigger] out@.contains(x) <==> x == k || before.contains(
            x,
        ) by {
            if before.contains(x) {
                let j = choose|j: int| 0 <= j < before.len() && before[j] == x;
                assert(out@[j] == x);
            }
            if x == k {
                assert(out@[before.len() as int] == x);
            }
            if out@.contains(x) && x != k {
                let j = choose|j: int| 0 <= j < out@.len() && out@[j] == x;
                assert(before[j] == x);
            }
        }
    }
}

fn add_tun_kinds(out: &mut Vec<RouteKind>, nets: &Vec<Ipv4Net>)
    requires
        old(out)@.no_duplicates(),
    ensures
        final(out)@.no_duplicates(),
        forall|x: RouteKind| #[trigger]
            final(out)@.contains(x) <==> old(out)@.contains(x) || (x matches RouteKind::ViaTun(n)
                && nets@.contains(n)),
{
    let ghost start = out@;
    let mut i: usize = 0;
    while i < nets.len()
        invariant
            i <= nets@.len(),
            out@.no_duplicates(),
            forall|x: RouteKind| #[trigger]
                out@.contains(x) <==> start.contains(x) || (x matches RouteKind::ViaTun(n)
                    && nets@.take(i as int).contains(n)),
        decreases nets@.len() - i,
    {
        let ghost before = out@;
        add_kind(out, RouteKind::ViaTun(nets[i]));
        proof {
            lemma_take_contains(nets@, i as int);
        }
        i = i + 1;
    }
    proof {
        assert(nets@.take(i as int) =~= nets@);
    }
}

fn add_gw_kinds(out: &mut Vec<RouteKind>, nets: &Vec<Ipv4Net>, gw: u32)
    requires
        old(out)@.no_duplicates(),
    ensures
        final(out)@.no_duplicates(),
        forall|x: RouteKind| #[trigger]
            final(out)@.contains(x) <==> old(out)@.contains(x) || (x matches RouteKind::ViaGw {
                cidr,
                gw: g,
            } && g == gw && nets@.contains(cidr)),
{
    let ghost start = out@;
    let mut i: usize = 0;
    while i < nets.len()
        invariant
            i <= nets@.len(),
            out@.no_duplicates(),
            forall|x: RouteKind| #[trigger]
                out@.contains(x) <==> start.contains(x) || (x matches RouteKind::ViaGw {
                    cidr,
                    gw: g,
                } && g == gw && nets@.take(i as int).contains(cidr)),
        decreases nets@.len() - i,
    {
        let ghost before = out@;
        add_kind(out, RouteKind::ViaGw { cidr: nets[i], gw });
        proof {
            lemma_take_contains(nets@, i as int);
        }
        i = i + 1;
    }
    proof {
        assert(nets@.take(i as int) =~= nets@);
    }
}

proof fn lemma_take_contains(s: Seq<Ipv4Net>, i: int)
    requires
        0 <= i < s.len(),
    ensures
        forall|n: Ipv4Net| #[trigger]
            s.take(i + 1).contains(n) <==> n == s[i] || s.take(i).contains(n),
{
    assert forall|n: Ipv4Net| #[trigger] s.take(i + 1).contains(n) <==> n == s[i] || s.take(
        i,
    ).contains(n) by {
        if s.take(i + 1).contains(n) {
            let j = choose|j: int| 0 <= j < i + 1 && (#[trigger] s.take(i + 1)[j]) == n;
            if j < i {
                assert(s.take(i)[j] == n);
            }
        }
        if s.take(i).contains(n) {
            let j = choose|j: int| 0 <= j < i && (#[trigger] s.take(i)[j]) == n;
            assert(s.take(i + 1)[j] == n);
        }
        if n == s[i] {
            assert(s.take(i + 1)[i] == n);
        }
    }
}

/// What a network's membership asks of the routes. The tunnel's interface is the one that was looked up.
pub fn desired_from_membership(
    ifname: &str,
    tun_if_index: Option<u32>,
    profile: &DeviceProfile,
    remote_subnets: &Vec<Ipv4Net>,
    has_exit: bool,
    underlay_hosts: &Vec<u32>,
) -> (r: DesiredRoutes)
    ensures
        r.wf(),
        r.ifname@ == ifname@,
        r.tun_if_index == tun_if_index,
        r.profile@ == profile@,
        r.remote_subnets@ == remote_subnets@,
        r.peer_routes@ == Seq::<Ipv4Net>::empty(),
        r.has_exit == has_exit,
        r.underlay_hosts@ == underlay_hosts@,
        r.underlay is None,
{
    DesiredRoutes {
        ifname: ifname.to_owned(),
        tun_if_index,
        profile: profile.copy(),
        remote_subnets: copy_nets(remote_subnets),
        peer_routes: Vec::new(),
        has_exit,
        underlay_hosts: copy_addrs(underlay_hosts),
        underlay: None,
    }
}

/// What peers without a control plane ask of the routes: one route to each.
pub fn desired_direct(
    ifname: &str,
    tun_if_index: Option<u32>,
    peer_ips: &Vec<u32>,
    underlay_hosts: &Vec<u32>,
) -> (r: DesiredRoutes)
    ensures
        r.wf(),
        r.ifname@ == ifname@,
        r.tun_if_index == tun_if_index,
        r.profile@ == default_profile(),
        r.remote_subnets@ == Seq::<Ipv4Net>::empty(),
        r.peer_routes@.len() == peer_ips@.len(),
        forall|i: int|
            0 <= i < peer_ips@.len() ==> (#[trigger] r.peer_routes@[i]).base() == peer_ips@[i],
        !r.has_exit,
        r.underlay_hosts@ == underlay_hosts@,
        r.underlay is None,
{
    let mut peer_routes: Vec<Ipv4Net> = Vec::new();
    let mut i: usize = 0;
    while i < peer_ips.len()
        invariant
            i <= peer_ips@.len(),
            peer_routes@.len() == i,
            forall|j: int|
                0 <= j < i ==> (#[trigger] peer_routes@[j]).base() == peer_ips@[j]
                    && peer_routes@[j].bits() == 32,
        decreases peer_ips@.len() - i,
    {
        peer_routes.push(Ipv4Net::host(peer_ips[i]));
        i = i + 1;
    }
    DesiredRoutes {
        ifname: ifname.to_owned(),
        tun_if_index,
        profile: DeviceProfile::default(),
        remote_subnets: Vec::new(),
        peer_routes,
        has_exit: false,
        underlay_hosts: copy_addrs(underlay_hosts),
        underlay: None,
    }
}

fn copy_addrs(v: &Vec<u32>) -> (r: Vec<u32>)
    ensures
        r@ == v@,
{
    let mut out: Vec<u32> = Vec::new();
    let mut i: usize = 0;
    while i < v.len()
        invariant
            i <= v@.len(),
            out@ =~= v@.take(i as int),
        decreases v@.len() - i,
    {
        out.push(v[i]);
        i = i + 1;
    }
    out
}

/// Without a control plane the tunnel takes nothing but single hosts, and
/// nothing goes around it: the range that a network hands addresses out of
/// never becomes a route.
pub proof fn law_peers_are_routed_one_by_one(d: DesiredRoutes, n: Ipv4Net, allow_default: bool)
    requires
        d.wf(),
        d.profile@ == default_profile(),
        d.remote_subnets@.len() == 0,
        !d.has_exit,
    ensures
        d.tunnelled(n, allow_default) <==> d.peer_routes@.contains(n),
        d.tunnelled(n, allow_default) ==> n.bits() == 32,
        !d.escaping(n),
{
    assert(!d.remote_subnets@.contains(n));
    let p = d.profile@;
    assert(p.split_tunnel_cidrs == default_profile().split_tunnel_cidrs);
    assert(!p.split_tunnel_cidrs.contains(n));
    if d.peer_routes@.contains(n) {
        let i = choose|i: int| 0 <= i < d.peer_routes@.len() && d.peer_routes@[i] == n;
        assert(d.peer_routes@[i].bits() == 32);
    }
}

/// What goes into the tunnel: the networks behind other members, the peers,
/// what the profile lists to be tunnelled, and everything where it leaves
/// through an exit and a default is allowed. Nothing else does.
pub proof fn law_what_goes_into_the_tunnel(
    d: DesiredRoutes,
    gateway: Option<u32>,
    allow_default: bool,
    n: Ipv4Net,
)
    ensures
        d.kind_wanted(RouteKind::ViaTun(n), gateway, allow_default) <==> {
            ||| exists|i: int| 0 <= i < d.remote_subnets@.len() && #[trigger] d.remote_subnets@[i]
                == n
            ||| exists|i: int| 0 <= i < d.peer_routes@.len() && #[trigger] d.peer_routes@[i] == n
            ||| d.profile.split_tunnel_mode == SplitTunnelMode::Include && exists|i: int|
                0 <= i < d.profile.split_tunnel_cidrs@.len()
                    && #[trigger] d.profile.split_tunnel_cidrs@[i] == n
            ||| allow_default && n.base() == 0 && n.bits() == 0 && d.profile.split_tunnel_mode
                == SplitTunnelMode::Exclude && (d.has_exit || d.profile.exit_node_endpoint_id
                is Some)
        },
{
}

/// What goes around the tunnel, through the gateway of the underlay where there
/// is one: with everything else leaving through an exit, the networks that the
/// profile lists, the private ranges where the LAN is left alone, and the
/// hosts that the tunnel itself needs. Nothing else does.
pub proof fn law_what_goes_around_the_tunnel(
    d: DesiredRoutes,
    gateway: Option<u32>,
    allow_default: bool,
    n: Ipv4Net,
    gw: u32,
)
    ensures
        d.kind_wanted(RouteKind::ViaGw { cidr: n, gw }, gateway, allow_default) <==> {
            &&& gateway == Some(gw)
            &&& d.profile.split_tunnel_mode == SplitTunnelMode::Exclude
            &&& d.has_exit || d.profile.exit_node_endpoint_id is Some
            &&& {
                ||| exists|i: int|
                    0 <= i < d.profile.split_tunnel_cidrs@.len()
                        && #[trigger] d.profile.split_tunnel_cidrs@[i] == n
                ||| d.profile.allow_local_lan && (n.base() == 0x0a00_0000 && n.bits() == 8
                    || n.base() == 0xac10_0000 && n.bits() == 12 || n.base() == 0xc0a8_0000
                    && n.bits() == 16)
                ||| n.bits() == 32 && exists|i: int|
                    0 <= i < d.underlay_hosts@.len() && #[trigger] d.underlay_hosts@[i] == n.base()
            }
        },
{
}

/// The kernel gets exactly one route for each kind that is wanted: into the
/// tunnel on the tunnel's interface and without a gateway, around it on the
/// underlay's interface and through its gateway.
pub proof fn law_kernel_routes_are_the_wanted_kinds(
    d: DesiredRoutes,
    r: RouteView,
    gateway: Option<u32>,
    underlay_if: Option<(u32, Seq<char>)>,
    tun_if: (u32, Seq<char>),
    allow_default: bool,
)
    ensures
        r.gateway is None ==> (d.wanted(r, gateway, underlay_if, tun_if, allow_default) <==> {
            &&& r.if_index == tun_if.0
            &&& r.if_name == tun_if.1
            &&& d.kind_wanted(RouteKind::ViaTun(r.dest), gateway, allow_default)
        }),
        r.gateway matches Some(gw) ==> (d.wanted(
            r,
            gateway,
            underlay_if,
            tun_if,
            allow_default,
        ) <==> {
            &&& underlay_if == Some((r.if_index, r.if_name))
            &&& d.kind_wanted(RouteKind::ViaGw { cidr: r.dest, gw }, gateway, allow_default)
        }),
{
}

} // verus!
