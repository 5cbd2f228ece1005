//! What a control plane says of a network: its peers, routes, exits and device settings.

use crate::net::Ipv4Net;
use vstd::prelude::*;

verus! {

/// The characters of each text of a list.
pub open spec fn texts(v: Seq<String>) -> Seq<Seq<char>> {
    Seq::new(v.len(), |i: int| v[i]@)
}

/// The characters of an optional text.
pub open spec fn opt_text(o: Option<String>) -> Option<Seq<char>> {
    match o {
        Some(s) => Some(s@),
        None => None,
    }
}

/// The views of the items of a list.
pub open spec fn views<T: View>(v: Seq<T>) -> Seq<T::V> {
    Seq::new(v.len(), |i: int| v[i]@)
}

/// A copy of a list of texts.
pub fn copy_texts(v: &Vec<String>) -> (r: Vec<String>)
    ensures
        texts(r@) == texts(v@),
{
    let mut out: Vec<String> = Vec::new();
    let mut i: usize = 0;
    while i < v.len()
        invariant
            i <= v@.len(),
            texts(out@) =~= texts(v@).take(i as int),
        decreases v@.len() - i,
    {
        out.push(v[i].clone());
        proof {
            assert(texts(out@) =~= texts(v@).take(i as int).push(v@[i as int]@));
        }
        i = i + 1;
    }
    proof {
        assert(texts(v@).take(i as int) =~= texts(v@));
    }
    out
}

/// A copy of an optional text.
pub fn copy_opt_text(o: &Option<String>) -> (r: Option<String>)
    ensures
        opt_text(r) == opt_text(*o),
{
    match o {
        Some(s) => Some(s.clone()),
        None => None,
    }
}

/// A copy of a list of networks.
pub fn copy_nets(v: &Vec<Ipv4Net>) -> (r: Vec<Ipv4Net>)
    ensures
        r@ == v@,
{
    let mut out: Vec<Ipv4Net> = Vec::new();
    let mut i: usize = 0;
    while i < v.len()
        invariant
            i <= v@.len(),
            out@ =~= v@.take(i as int),
        decreases v@.len() - i,
    {
        out.push(v[i]);
        i = i + 1;
    }
    out
}

/// A member of a network.
#[derive(Debug, PartialEq, Eq)]
pub struct PeerEntry {
    pub ip: u32,
    pub endpoint_id: String,
    pub hostname: String,
    pub tags: Vec<String>,
    pub ssh_host_key: Option<String>,
}

pub struct PeerEntryView {
    pub ip: u32,
    pub endpoint_id: Seq<char>,
    pub hostname: Seq<char>,
    pub tags: Seq<Seq<char>>,
    pub ssh_host_key: Option<Seq<char>>,
}

impl View for PeerEntry {
    type V = PeerEntryView;

    open spec fn view(&self) -> PeerEntryView {
        PeerEntryView {
            ip: self.ip,
            endpoint_id: self.endpoint_id@,
            hostname: self.hostname@,
            tags: texts(self.tags@),
            ssh_host_key: opt_text(self.ssh_host_key),
        }
    }
}

impl PeerEntry {
    pub fn copy(&self) -> (r: PeerEntry)
        ensures
            r@ == self@,
    {
        PeerEntry {
            ip: self.ip,
            endpoint_id: self.endpoint_id.clone(),
            hostname: self.hostname.clone(),
            tags: copy_texts(&self.tags),
            ssh_host_key: copy_opt_text(&self.ssh_host_key),
        }
    }
}

/// A network behind a member.
#[derive(Debug, PartialEq, Eq)]
pub struct SubnetRoute {
    pub cidr: Ipv4Net,
    pub via_endpoint_id: String,
    pub via_ip: u32,
}

pub struct SubnetRouteView {
    pub cidr: Ipv4Net,
    pub via_endpoint_id: Seq<char>,
    pub via_ip: u32,
}

impl View for SubnetRoute {
    type V = SubnetRouteView;

    open spec fn view(&self) -> SubnetRouteView {
        SubnetRouteView {
            cidr: self.cidr,
            via_endpoint_id: self.via_endpoint_id@,
            via_ip: self.via_ip,
        }
    }
}

impl SubnetRoute {
    pub fn copy(&self) -> (r: SubnetRoute)
        ensures
            r@ == self@,
    {
        SubnetRoute {
            cidr: self.cidr,
            via_endpoint_id: self.via_endpoint_id.clone(),
            via_ip: self.via_ip,
        }
    }
}

/// A host name, or all names under a suffix, served by a member.
#[derive(Debug, PartialEq, Eq)]
pub struct HostnameRoute {
    pub hostname: String,
    pub via_endpoint_id: String,
    pub via_ip: u32,
    pub is_wildcard: bool,
    pub target_ip: Option<u32>,
}

pub struct HostnameRouteView {
    pub hostname: Seq<char>,
    pub via_endpoint_id: Seq<char>,
    pub via_ip: u32,
    pub is_wildcard: bool,
    pub target_ip: Option<u32>,
}

impl View for HostnameRoute {
    type V = HostnameRouteView;

    open spec fn view(&self) -> HostnameRouteView {
        HostnameRouteView {
            hostname: self.hostname@,
            via_endpoint_id: self.via_endpoint_id@,
            via_ip: self.via_ip,
            is_wildcard: self.is_wildcard,
            target_ip: self.target_ip,
        }
    }
}

impl HostnameRoute {
    pub fn copy(&self) -> (r: HostnameRoute)
        ensures
            r@ == self@,
    {
        HostnameRoute {
            hostname: self.hostname.clone(),
            via_endpoint_id: self.via_endpoint_id.clone(),
            via_ip: self.via_ip,
            is_wildcard: self.is_wildcard,
            target_ip: self.target_ip,
        }
    }
}

/// A member that carries traffic to other networks.
#[derive(Debug, PartialEq, Eq)]
pub struct ExitNodeInfo {
    pub endpoint_id: String,
    pub via_ip: u32,
    pub allowed_cidrs: Vec<Ipv4Net>,
}

pub struct ExitNodeView {
    pub endpoint_id: Seq<char>,
    pub via_ip: u32,
    pub allowed_cidrs: Seq<Ipv4Net>,
}

impl View for ExitNodeInfo {
    type V = ExitNodeView;

    open spec fn view(&self) -> ExitNodeView {
        ExitNodeView {
            endpoint_id: self.endpoint_id@,
            via_ip: self.via_ip,
            allowed_cidrs: self.allowed_cidrs@,
        }
    }
}

impl ExitNodeInfo {
    pub fn copy(&self) -> (r: ExitNodeInfo)
        ensures
            r@ == self@,
    {
        ExitNodeInfo {
            endpoint_id: self.endpoint_id.clone(),
            via_ip: self.via_ip,
            allowed_cidrs: copy_nets(&self.allowed_cidrs),
        }
    }
}

/// Whether the listed networks are the ones tunnelled, or the ones left out.
#[derive(Debug, Clone, Copy, PartialEq, Eq, Structural)]
pub enum SplitTunnelMode {
    Include,
    Exclude,
}

/// The routing settings of a device.
#[derive(Debug, PartialEq, Eq)]
pub struct DeviceProfile {
    pub exit_node_endpoint_id: Option<String>,
    pub allow_local_lan: bool,
    pub split_tunnel_mode: SplitTunnelMode,
    pub split_tunnel_cidrs: Vec<Ipv4Net>,
}

pub struct ProfileView {
    pub exit_node_endpoint_id: Option<Seq<char>>,
    pub allow_local_lan: bool,
    pub split_tunnel_mode: SplitTunnelMode,
    pub split_tunnel_cidrs: Seq<Ipv4Net>,
}

impl View for DeviceProfile {
    type V = ProfileView;

    open spec fn view(&self) -> ProfileView {
        ProfileView {
            exit_node_endpoint_id: opt_text(self.exit_node_endpoint_id),
            allow_local_lan: self.allow_local_lan,
            split_tunnel_mode: self.split_tunnel_mode,
            split_tunnel_cidrs: self.split_tunnel_cidrs@,
        }
    }
}

/// No exit node, nothing tunnelled beyond the mesh, the local LAN left alone.
pub open spec fn default_profile() -> ProfileView {
    ProfileView {
        exit_node_endpoint_id: None,
        allow_local_lan: true,
        split_tunnel_mode: SplitTunnelMode::Exclude,
        split_tunnel_cidrs: Seq::empty(),
    }
}

impl Default for DeviceProfile {
    fn default() -> (r: DeviceProfile)
        ensures
            r@ == default_profile(),
    {
        DeviceProfile {
            exit_node_endpoint_id: None,
            allow_local_lan: true,
            split_tunnel_mode: SplitTunnelMode::Exclude,
            split_tunnel_cidrs: Vec::new(),
        }
    }
}

impl DeviceProfile {
    pub fn copy(&self) -> (r: DeviceProfile)
        ensures
            r@ == self@,
    {
        DeviceProfile {
            exit_node_endpoint_id: copy_opt_text(&self.exit_node_endpoint_id),
            allow_local_lan: self.allow_local_lan,
            split_tunnel_mode: self.split_tunnel_mode,
            split_tunnel_cidrs: copy_nets(&self.split_tunnel_cidrs),
        }
    }
}

/// The name service settings of a network.
#[derive(Debug, PartialEq, Eq)]
pub struct DnsConfig {
    pub suffix: String,
}

impl Default for DnsConfig {
    fn default() -> (r: DnsConfig)
        ensures
            r.suffix@ == "tunnet"@,
    {
        DnsConfig { suffix: "tunnet".to_owned() }
    }
}

/// A copy of a list of peers.
pub fn copy_peers(v: &[PeerEntry]) -> (r: Vec<PeerEntry>)
    ensures
        views(r@) == views(v@),
{
    let mut out: Vec<PeerEntry> = Vec::new();
    let mut i: usize = 0;
    while i < v.len()
        invariant
            i <= v@.len(),
            views(out@) =~= views(v@).take(i as int),
        decreases v@.len() - i,
    {
        let p = v[i].copy();
        out.push(p);
        proof {
            assert(views(out@) =~= views(v@).take(i as int).push(v@[i as int]@));
        }
        i = i + 1;
    }
    proof {
        assert(views(v@).take(i as int) =~= views(v@));
    }
    out
}

/// A copy of a list of subnet routes.
pub fn copy_subnets(v: &[SubnetRoute]) -> (r: Vec<SubnetRoute>)
    ensures
        views(r@) == views(v@),
{
    let mut out: Vec<SubnetRoute> = Vec::new();
    let mut i: usize = 0;
    while i < v.len()
        invariant
            i <= v@.len(),
            views(out@) =~= views(v@).take(i as int),
        decreases v@.len() - i,
    {
        let p = v[i].copy();
        out.push(p);
        proof {
            assert(views(out@) =~= views(v@).take(i as int).push(v@[i as int]@));
        }
        i = i + 1;
    }
    proof {
        assert(views(v@).take(i as int) =~= views(v@));
    }
    out
}

/// A copy of a list of host name routes.
pub fn copy_hostname_routes(v: &[HostnameRoute]) -> (r: Vec<HostnameRoute>)
    ensures
        views(r@) == views(v@),
{
    let mut out: Vec<HostnameRoute> = Vec::new();
    let mut i: usize = 0;
    while i < v.len()
        invariant
            i <= v@.len(),
            views(out@) =~= views(v@).take(i as int),
        decreases v@.len() - i,
    {
        let p = v[i].copy();
        out.push(p);
        proof {
            assert(views(out@) =~= views(v@).take(i as int).push(v@[i as int]@));
        }
        i = i + 1;
    }
    proof {
        assert(views(v@).take(i as int) =~= views(v@));
    }
    out
}

/// A copy of a list of exit nodes.
pub fn copy_exits(v: &[ExitNodeInfo]) -> (r: Vec<ExitNodeInfo>)
    ensures
        views(r@) == views(v@),
{
    let mut out: Vec<ExitNodeInfo> = Vec::new();
    let mut i: usize = 0;
    while i < v.len()
        invariant
            i <= v@.len(),
            views(out@) =~= views(v@).take(i as int),
        decreases v@.len() - i,
    {
        let p = v[i].copy();
        out.push(p);
        proof {
            assert(views(out@) =~= views(v@).take(i as int).push(v@[i as int]@));
        }
        i = i + 1;
    }
    proof {
        assert(views(v@).take(i as int) =~= views(v@));
    }
    out
}

} // verus!
