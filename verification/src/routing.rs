//! The routing table of a node: what is known of each of its networks, and the
//! lookup tables built from it.

use crate::endpoint::EndpointId;
use crate::lookup::{
    dns_a, dns_ptr, dns_txt, host_peer, host_route, member_at, member_with_key, offers_address,
    offers_everything, route_of, serves_host, source_ok,
};
use crate::membership::{
    copy_exits, copy_hostname_routes, copy_peers, copy_subnets, default_profile, opt_text, texts,
    views, DeviceProfile, DnsConfig, ExitNodeInfo, HostnameRoute, PeerEntry, PeerEntryView,
    SubnetRoute,
};
use crate::net::{cidr_overlaps, Ipv4Net};
use crate::tables::{
    built, empty_tables, seen_all, seen_opt, slice_views, HostnameRouteInfo, NetworkSlice, PeerInfo,
    SliceView, TableModel, Tables,
};
use crate::text::{lower, to_lower};
use std::sync::Arc;
use vstd::prelude::*;

verus! {

/// The networks, by ascending identifier.
pub open spec fn ascending(s: Seq<(u128, SliceView)>) -> bool {
    forall|i: int, j: int| 0 <= i < j < s.len() ==> (#[trigger] s[i]).0 < (#[trigger] s[j]).0
}

/// How many networks come before an identifier.
pub open spec fn slice_place(s: Seq<(u128, SliceView)>, id: u128) -> int
    decreases s.len(),
{
    if s.len() == 0 || s[0].0 >= id {
        0
    } else {
        1 + slice_place(s.skip(1), id)
    }
}

/// A network is known.
pub open spec fn has_slice(s: Seq<(u128, SliceView)>, id: u128) -> bool {
    slice_place(s, id) < s.len() && s[slice_place(s, id)].0 == id
}

/// The networks with one set.
pub open spec fn with_slice(s: Seq<(u128, SliceView)>, id: u128, v: SliceView) -> Seq<
    (u128, SliceView),
> {
    if has_slice(s, id) {
        s.update(slice_place(s, id), (id, v))
    } else {
        s.insert(slice_place(s, id), (id, v))
    }
}

/// The networks without one.
pub open spec fn without_slice(s: Seq<(u128, SliceView)>, id: u128) -> Seq<(u128, SliceView)> {
    if has_slice(s, id) {
        s.remove(slice_place(s, id))
    } else {
        s
    }
}

/// Another network's address plan overlaps.
pub open spec fn plan_conflict(s: Seq<(u128, SliceView)>, id: u128, plan: Ipv4Net) -> bool {
    exists|i: int|
        #![trigger s[i]]
        0 <= i < s.len() && s[i].0 != id && (s[i].1.peer_cidr matches Some(other) && exists|ip: u32|
            #[trigger] plan.holds(ip) && other.holds(ip))
}

/// The peers that a delta leaves: neither this node nor one of the removed.
pub open spec fn kept_peers(
    peers: Seq<PeerEntryView>,
    removed: Seq<Seq<char>>,
    self_id: Seq<char>,
) -> Seq<PeerEntryView>
    decreases peers.len(),
{
    if peers.len() == 0 {
        Seq::empty()
    } else {
        let before = kept_peers(peers.drop_last(), removed, self_id);
        if peers.last().endpoint_id != self_id && !removed.contains(peers.last().endpoint_id) {
            before.push(peers.last())
        } else {
            before
        }
    }
}

/// The place of the first peer with a key text; the number of peers when there is none.
pub open spec fn peer_place(peers: Seq<PeerEntryView>, id: Seq<char>) -> int
    decreases peers.len(),
{
    if peers.len() == 0 {
        0
    } else if peers[0].endpoint_id == id {
        0
    } else {
        1 + peer_place(peers.skip(1), id)
    }
}

/// The peers with the added ones set; this node is never added.
pub open spec fn merged_peers(
    peers: Seq<PeerEntryView>,
    added: Seq<PeerEntryView>,
    self_id: Seq<char>,
) -> Seq<PeerEntryView>
    decreases added.len(),
{
    if added.len() == 0 {
        peers
    } else {
        let before = merged_peers(peers, added.drop_last(), self_id);
        let p = added.last();
        if p.endpoint_id == self_id {
            before
        } else if peer_place(before, p.endpoint_id) < before.len() {
            before.update(peer_place(before, p.endpoint_id), p)
        } else {
            before.push(p)
        }
    }
}

/// A network after a peer delta. Its routes, exits and settings stay.
pub open spec fn slice_after_delta(
    s: SliceView,
    added: Seq<PeerEntryView>,
    removed: Seq<Seq<char>>,
    self_id: Seq<char>,
    network_name: Seq<char>,
) -> SliceView {
    SliceView {
        peers: merged_peers(kept_peers(s.peers, removed, self_id), added, self_id),
        network_name: if network_name.len() == 0 {
            s.network_name
        } else {
            lower(network_name)
        },
        ..s
    }
}

pub proof fn lemma_slice_place(s: Seq<(u128, SliceView)>, id: u128)
    ensures
        0 <= slice_place(s, id) <= s.len(),
        forall|i: int| 0 <= i < slice_place(s, id) ==> (#[trigger] s[i]).0 < id,
        slice_place(s, id) < s.len() ==> s[slice_place(s, id)].0 >= id,
    decreases s.len(),
{
    if s.len() > 0 && s[0].0 < id {
        let rest = s.skip(1);
        lemma_slice_place(rest, id);
        assert forall|i: int| 0 <= i < slice_place(s, id) implies (#[trigger] s[i]).0 < id by {
            if i > 0 {
                assert(rest[i - 1] == s[i]);
            }
        }
    }
}

proof fn lemma_slice_place_is(s: Seq<(u128, SliceView)>, id: u128, k: int)
    requires
        0 <= k <= s.len(),
        forall|i: int| 0 <= i < k ==> (#[trigger] s[i]).0 < id,
        k < s.len() ==> s[k].0 >= id,
    ensures
        slice_place(s, id) == k,
{
    lemma_slice_place(s, id);
    let at = slice_place(s, id);
    if at < k {
        assert(s[at].0 < id);
    }
    if at > k {
        assert(s[k].0 < id);
    }
}

/// Setting a network keeps the order, and the network is then the one that was set.
pub proof fn law_set_network_is_kept(s: Seq<(u128, SliceView)>, id: u128, v: SliceView)
    requires
        ascending(s),
    ensures
        ascending(with_slice(s, id, v)),
        has_slice(with_slice(s, id, v), id),
        with_slice(s, id, v)[slice_place(with_slice(s, id, v), id)] == (id, v),
{
    lemma_slice_place(s, id);
    let at = slice_place(s, id);
    let r = with_slice(s, id, v);
    if has_slice(s, id) {
        assert(forall|i: int| 0 <= i < r.len() && i != at ==> #[trigger] r[i] == s[i]);
    } else {
        assert forall|i: int, j: int| 0 <= i < j < r.len() implies (#[trigger] r[i]).0 < (
        #[trigger] r[j]).0 by {
            let a = if i < at {
                i
            } else {
                i - 1
            };
            let b = if j < at {
                j
            } else {
                j - 1
            };
            if i != at {
                assert(r[i] == s[a]);
            }
            if j != at {
                assert(r[j] == s[b]);
            }
            if i == at && at < s.len() {
                assert(s[at].0 > id);
                assert(s[at].0 <= s[b].0);
            }
        }
    }
    assert(r[at] == (id, v));
    assert forall|i: int| 0 <= i < at implies (#[trigger] r[i]).0 < id by {
        assert(r[i] == s[i]);
    }
    lemma_slice_place_is(r, id, at);
}

/// A removed network is gone, and the order is kept.
pub proof fn law_removed_network_is_gone(s: Seq<(u128, SliceView)>, id: u128)
    requires
        ascending(s),
    ensures
        ascending(without_slice(s, id)),
        !has_slice(without_slice(s, id), id),
{
    lemma_slice_place(s, id);
    let at = slice_place(s, id);
    let r = without_slice(s, id);
    lemma_slice_place(r, id);
    if has_slice(s, id) {
        assert(forall|i: int|
            0 <= i < r.len() ==> #[trigger] r[i] == (if i < at {
                s[i]
            } else {
                s[i + 1]
            }));
        let k = slice_place(r, id);
        if has_slice(r, id) {
            if k < at {
                assert(s[k].0 == id);
            } else {
                assert(s[k + 1].0 == id);
                assert(s[at].0 < s[k + 1].0);
            }
        }
    }
}

/// A network that stands in the list is known.
pub proof fn lemma_known_place(s: Seq<(u128, SliceView)>, id: u128, i: int)
    requires
        ascending(s),
        0 <= i < s.len(),
        s[i].0 == id,
    ensures
        has_slice(s, id),
        slice_place(s, id) == i,
{
    assert forall|j: int| 0 <= j < i implies (#[trigger] s[j]).0 < id by {
        assert(s[j].0 < s[i].0);
    }
    lemma_slice_place_is(s, id, i);
}

/// What a node knows of its networks, with the tables built from it.
pub struct RoutingTable {
    tables: Tables,
    slices: Vec<(u128, NetworkSlice)>,
    version: u64,
    change_seq: u64,
}

impl RoutingTable {
    /// The networks, by ascending identifier.
    pub closed spec fn networks(self) -> Seq<(u128, SliceView)> {
        slice_views(self.slices@)
    }

    /// What the lookup tables hold.
    pub closed spec fn model(self) -> TableModel {
        self.tables.model()
    }

    /// The version of the membership last taken over.
    pub closed spec fn version_of(self) -> u64 {
        self.version
    }

    /// How often the tables were rebuilt, modulo 2^64.
    pub closed spec fn seq_of(self) -> u64 {
        self.change_seq
    }

    /// The tables are those of the networks.
    pub closed spec fn wf(self) -> bool {
        &&& self.tables.wf()
        &&& ascending(self.networks())
        &&& self.model() == built(self.networks())
    }

    /// What `wf` says of the tables.
    pub proof fn lemma_wf(self)
        requires
            self.wf(),
        ensures
            ascending(self.networks()),
            self.model() == built(self.networks()),
    {
    }

    /// A table that knows no network.
    pub fn new() -> (r: RoutingTable)
        ensures
            r.wf(),
            r.networks() == Seq::<(u128, SliceView)>::empty(),
            r.model() == empty_tables(),
            r.version_of() == 0,
            r.seq_of() == 0,
    {
        let r = RoutingTable {
            tables: Tables::empty(),
            slices: Vec::new(),
            version: 0,
            change_seq: 0,
        };
        proof {
            assert(r.networks() =~= Seq::<(u128, SliceView)>::empty());
        }
        r
    }

    /// The version of the membership last taken over.
    pub fn version(&self) -> (r: u64)
        ensures
            r == self.version_of(),
    {
        self.version
    }

    /// Moves with every change of the tables, also when the version does not.
    pub fn change_seq(&self) -> (r: u64)
        ensures
            r == self.seq_of(),
    {
        self.change_seq
    }

    /// Builds the tables anew. Without a version the next one is taken. The
    /// change counter moves even where the version does not.
    pub fn rebuild(&mut self, version: Option<u64>)
        requires
            ascending(old(self).networks()),
        ensures
            final(self).wf(),
            final(self).networks() == old(self).networks(),
            final(self).seq_of() == old(self).seq_of().wrapping_add(1),
            final(self).version_of() == (match version {
                Some(v) => v,
                None => old(self).version_of().saturating_add(1),
            }),
    {
        self.change_seq = self.change_seq.wrapping_add(1);
        self.version = match version {
            Some(v) => v,
            None => self.version.saturating_add(1),
        };
        self.tables = Tables::build(&self.slices);
    }

    fn find_slice(&self, id: u128) -> (r: usize)
        ensures
            r == slice_place(self.networks(), id),
            r <= self.networks().len(),
            self.networks().len() == self.slices@.len(),
    {
        let ghost s = self.networks();
        let mut i: usize = 0;
        while i < self.slices.len() && self.slices[i].0 < id
            invariant
                i <= self.slices@.len(),
                s == self.networks(),
                s.len() == self.slices@.len(),
                forall|j: int| 0 <= j < i ==> (#[trigger] s[j]).0 < id,
            decreases self.slices@.len() - i,
        {
            i = i + 1;
        }
        proof {
            lemma_slice_place_is(s, id, i as int);
        }
        i
    }

    fn set_slice(&mut self, id: u128, v: NetworkSlice)
        requires
            ascending(old(self).networks()),
        ensures
            ascending(final(self).networks()),
            final(self).networks() == with_slice(old(self).networks(), id, v@),
            final(self).version_of() == old(self).version_of(),
            final(self).seq_of() == old(self).seq_of(),
    {
        let ghost before = self.networks();
        let at: usize = self.find_slice(id);
        proof {
            law_set_network_is_kept(before, id, v@);
        }
        if at < self.slices.len() && self.slices[at].0 == id {
            self.slices[at] = (id, v);
        } else {
            self.slices.insert(at, (id, v));
        }
        proof {
            assert(self.networks() =~= with_slice(before, id, v@));
        }
    }

    /// Replaces everything by one network.
    pub fn replace(
        &mut self,
        peers: &[PeerEntry],
        subnet_routes: &[SubnetRoute],
        hostname_routes: &[HostnameRoute],
        exit_nodes: &[ExitNodeInfo],
        profile: &DeviceProfile,
        dns: &DnsConfig,
        network_name: &str,
        network_id: u128,
        self_endpoint_id: &str,
        version: u64,
    )
        requires
            old(self).wf(),
        ensures
            final(self).wf(),
            final(self).networks() == seq![
                (
                    network_id,
                    SliceView {
                        peers: views(peers@),
                        subnet_routes: views(subnet_routes@),
                        hostname_routes: views(hostname_routes@),
                        exit_nodes: views(exit_nodes@),
                        profile: profile@,
                        dns_suffix: dns.suffix@,
                        network_name: lower(network_name@),
                        self_endpoint_id: self_endpoint_id@,
                        peer_cidr: None,
                    },
                ),
            ],
            final(self).version_of() == version,
            final(self).seq_of() == old(self).seq_of().wrapping_add(1),
    {
        let slice = NetworkSlice {
            peers: copy_peers(peers),
            subnet_routes: copy_subnets(subnet_routes),
            hostname_routes: copy_hostname_routes(hostname_routes),
            exit_nodes: copy_exits(exit_nodes),
            profile: profile.copy(),
            dns_suffix: dns.suffix.clone(),
            network_name: to_lower(network_name),
            self_endpoint_id: self_endpoint_id.to_owned(),
            peer_cidr: None,
        };
        self.slices.clear();
        self.slices.push((network_id, slice));
        proof {
            assert(self.networks() =~= seq![(network_id, slice@)]);
        }
        self.rebuild(Some(version));
    }

    /// Forgets everything but that the network exists; the version stays.
    pub fn clear_managed(&mut self, network_id: u128, self_endpoint_id: &str)
        requires
            old(self).wf(),
        ensures
            final(self).wf(),
            final(self).networks() == seq![
                (
                    network_id,
                    SliceView {
                        peers: Seq::empty(),
                        subnet_routes: Seq::empty(),
                        hostname_routes: Seq::empty(),
                        exit_nodes: Seq::empty(),
                        profile: default_profile(),
                        dns_suffix: "tunnet"@,
                        network_name: Seq::empty(),
                        self_endpoint_id: self_endpoint_id@,
                        peer_cidr: None,
                    },
                ),
            ],
            final(self).version_of() == old(self).version_of(),
            final(self).seq_of() == old(self).seq_of().wrapping_add(1),
    {
        let version: u64 = self.version();
        let peers: Vec<PeerEntry> = Vec::new();
        let subnets: Vec<SubnetRoute> = Vec::new();
        let hosts: Vec<HostnameRoute> = Vec::new();
        let exits: Vec<ExitNodeInfo> = Vec::new();
        let profile = DeviceProfile::default();
        let dns = DnsConfig::default();
        let no_name = String::new();
        proof {
            assert(views(peers@) =~= Seq::empty());
            assert(views(subnets@) =~= Seq::empty());
            assert(views(hosts@) =~= Seq::empty());
            assert(views(exits@) =~= Seq::empty());
            assert(lower(no_name@) =~= Seq::<char>::empty());
        }
        self.replace(
            peers.as_slice(),
            subnets.as_slice(),
            hosts.as_slice(),
            exits.as_slice(),
            &profile,
            &dns,
            no_name.as_str(),
            network_id,
            self_endpoint_id,
            version,
        );
    }

    fn conflicts(&self, network_id: u128, plan: &Ipv4Net) -> (r: bool)
        ensures
            r == plan_conflict(self.networks(), network_id, *plan),
    {
        let ghost s = self.networks();
        let mut i: usize = 0;
        while i < self.slices.len()
            invariant
                i <= self.slices@.len(),
                s == self.networks(),
                s.len() == self.slices@.len(),
                forall|j: int|
                    #![trigger s[j]]
                    0 <= j < i ==> !(s[j].0 != network_id && (s[j].1.peer_cidr matches Some(other)
                        && exists|ip: u32| #[trigger] plan.holds(ip) && other.holds(ip))),
            decreases self.slices@.len() - i,
        {
            let entry = &self.slices[i];
            assert(s[i as int] == (entry.0, entry.1@));
            if entry.0 != network_id {
                if let Some(other) = entry.1.peer_cidr {
                    if cidr_overlaps(plan, &other) {
                        return true;
                    }
                }
            }
            i = i + 1;
        }
        false
    }

    /// Sets the peers of one network and keeps the others.
    pub fn replace_network(
        &mut self,
        network_id: u128,
        peers: &[PeerEntry],
        dns: &DnsConfig,
        network_name: &str,
        self_endpoint_id: &str,
        version: u64,
    )
        requires
            old(self).wf(),
        ensures
            final(self).wf(),
            final(self).networks() == with_slice(
                old(self).networks(),
                network_id,
                direct_slice(
                    views(peers@),
                    dns.suffix@,
                    network_name@,
                    self_endpoint_id@,
                    None,
                ),
            ),
            final(self).version_of() == version,
            final(self).seq_of() == old(self).seq_of().wrapping_add(1),
    {
        self.replace_network_with_plan(
            network_id,
            peers,
            dns,
            network_name,
            self_endpoint_id,
            version,
            None,
        );
    }

    /// Sets the peers of one network with its address plan. A plan that overlaps
    /// another network's is refused and nothing changes.
    pub fn replace_network_with_plan(
        &mut self,
        network_id: u128,
        peers: &[PeerEntry],
        dns: &DnsConfig,
        network_name: &str,
        self_endpoint_id: &str,
        version: u64,
        peer_cidr: Option<Ipv4Net>,
    )
        requires
            old(self).wf(),
        ensures
            final(self).wf(),
            peer_cidr matches Some(plan) && plan_conflict(
                old(self).networks(),
                network_id,
                plan,
            ) ==> *final(self) == *old(self),
            !(peer_cidr matches Some(plan) && plan_conflict(
                old(self).networks(),
                network_id,
                plan,
            )) ==> {
                &&& final(self).networks() == with_slice(
                    old(self).networks(),
                    network_id,
                    direct_slice(
                        views(peers@),
                        dns.suffix@,
                        network_name@,
                        self_endpoint_id@,
                        peer_cidr,
                    ),
                )
                &&& final(self).version_of() == version
                &&& final(self).seq_of() == old(self).seq_of().wrapping_add(1)
            },
    {
        if let Some(plan) = peer_cidr {
            if self.conflicts(network_id, &plan) {
                return;
            }
        }
        let slice = NetworkSlice {
            peers: copy_peers(peers),
            subnet_routes: Vec::new(),
            hostname_routes: Vec::new(),
            exit_nodes: Vec::new(),
            profile: DeviceProfile::default(),
            dns_suffix: dns.suffix.clone(),
            network_name: to_lower(network_name),
            self_endpoint_id: self_endpoint_id.to_owned(),
            peer_cidr,
        };
        proof {
            assert(slice@.subnet_routes =~= Seq::empty());
            assert(slice@.hostname_routes =~= Seq::empty());
            assert(slice@.exit_nodes =~= Seq::empty());
        }
        self.set_slice(network_id, slice);
        self.rebuild(Some(version));
    }

    /// Forgets one network.
    pub fn remove_network(&mut self, network_id: u128)
        requires
            old(self).wf(),
        ensures
            final(self).wf(),
            final(self).networks() == without_slice(old(self).networks(), network_id),
            final(self).version_of() == old(self).version_of().saturating_add(1),
            final(self).seq_of() == old(self).seq_of().wrapping_add(1),
    {
        let ghost before = self.networks();
        let at: usize = self.find_slice(network_id);
        proof {
            law_removed_network_is_gone(before, network_id);
        }
        if at < self.slices.len() && self.slices[at].0 == network_id {
            let _gone = self.slices.remove(at);
        }
        proof {
            assert(self.networks() =~= without_slice(before, network_id));
        }
        self.rebuild(None);
    }

    /// Takes over a change of one network's peers. A network that is not known
    /// waits for its full membership, and nothing changes.
    pub fn apply_peer_delta(
        &mut self,
        network_id: u128,
        added: &[PeerEntry],
        removed: &[String],
        version: u64,
        self_endpoint_id: &str,
        network_name: &str,
    )
        requires
            old(self).wf(),
        ensures
            final(self).wf(),
            !has_slice(old(self).networks(), network_id) ==> *final(self) == *old(self),
            has_slice(old(self).networks(), network_id) ==> {
                let at = slice_place(old(self).networks(), network_id);
                &&& final(self).networks() == old(self).networks().update(
                    at,
                    (
                        network_id,
                        slice_after_delta(
                            old(self).networks()[at].1,
                            views(added@),
                            texts(removed@),
                            self_endpoint_id@,
                            network_name@,
                        ),
                    ),
                )
                &&& final(self).version_of() == version
                &&& final(self).seq_of() == old(self).seq_of().wrapping_add(1)
            },
    {
        let ghost before = self.networks();
        let at: usize = self.find_slice(network_id);
        if !(at < self.slices.len() && self.slices[at].0 == network_id) {
            return;
        }
        let self_id = self_endpoint_id.to_owned();
        let kept = keep_peers(&self.slices[at].1.peers, removed, &self_id);
        let merged = merge_peers(kept, added, &self_id);
        let ghost old_slice = self.slices@[at as int].1;
        assert(before[at as int] == (network_id, old_slice@));
        self.slices[at].1.peers = merged;
        if network_name.unicode_len() > 0 {
            self.slices[at].1.network_name = to_lower(network_name);
        }
        proof {
            assert(self.networks() =~= before.update(
                at as int,
                (
                    network_id,
                    slice_after_delta(
                        before[at as int].1,
                        views(added@),
                        texts(removed@),
                        self_endpoint_id@,
                        network_name@,
                    ),
                ),
            ));
        }
        self.rebuild(Some(version));
    }

    /// The member with an address in a network.
    pub fn lookup_network_ip(&self, network_id: u128, ip: u32) -> (r: Option<Arc<PeerInfo>>)
        ensures
            seen_opt(r) == member_at(self.model(), network_id, ip),
    {
        self.tables.lookup_network_ip(network_id, ip)
    }

    /// The first member of a network with a key.
    pub fn lookup_endpoint_in(&self, network_id: u128, hex: &str) -> (r: Option<Arc<PeerInfo>>)
        ensures
            seen_opt(r) == member_with_key(self.model().members, network_id, hex@),
    {
        let key = hex.to_owned();
        self.tables.lookup_endpoint_in(network_id, &key)
    }

    /// A mesh address is accepted from the endpoint that owns it. Any other
    /// source is accepted from the endpoint that packets for it are sent to, in
    /// the same network.
    pub fn inbound_source_ok(&self, network_id: u128, src: u32, endpoint: EndpointId) -> (r: bool)
        requires
            self.wf(),
        ensures
            r == source_ok(self.model(), network_id, src, endpoint),
    {
        self.tables.inbound_source_ok(network_id, src, endpoint)
    }

    /// The member that a packet for an address is sent to: the owner of the
    /// address, the gateway of the longest network around it, or the exit node.
    pub fn lookup_ip(&self, ip: u32) -> (r: Option<Arc<PeerInfo>>)
        requires
            self.wf(),
        ensures
            seen_opt(r) == route_of(self.model(), ip),
    {
        self.tables.lookup_ip(ip)
    }

    /// The exit node for everything that nothing else covers.
    pub fn exit_node(&self) -> (r: Option<Arc<PeerInfo>>)
        ensures
            seen_opt(r) == self.model().exit_node,
    {
        self.tables.exit_node()
    }

    /// Whether this node offers a way to everywhere.
    pub fn is_exit_node(&self) -> (r: bool)
        ensures
            r == offers_everything(self.model().advertised),
    {
        self.tables.is_exit_node()
    }

    /// The member with a key, in whatever network.
    pub fn lookup_endpoint(&self, hex: &str) -> (r: Option<Arc<PeerInfo>>)
        ensures
            r is Some <==> self.model().by_endpoint.contains_key(hex@),
            r matches Some(p) ==> p@ == self.model().by_endpoint[hex@],
    {
        self.tables.lookup_endpoint(hex)
    }

    /// The member that a host name leads to: its own name first, then its routes.
    pub fn lookup_hostname(&self, host: &str) -> (r: Option<Arc<PeerInfo>>)
        ensures
            seen_opt(r) == host_peer(self.model(), host@),
    {
        self.tables.lookup_hostname(host)
    }

    /// The route for a host name: the exact one, else the longest wildcard.
    pub fn lookup_hostname_route(&self, host: &str) -> (r: Option<Arc<HostnameRouteInfo>>)
        ensures
            seen_opt(r) == host_route(self.model(), host@),
    {
        self.tables.lookup_hostname_route(host)
    }

    /// Whether this node offers a network around the address.
    pub fn is_advertised_destination(&self, ip: u32) -> (r: bool)
        ensures
            r == offers_address(self.model().advertised, ip),
    {
        self.tables.is_advertised_destination(ip)
    }

    /// Whether this node serves the host name.
    pub fn is_advertised_hostname(&self, host: &str) -> (r: bool)
        ensures
            r == serves_host(self.model().advertised_hostnames, host@),
    {
        self.tables.is_advertised_hostname(host)
    }

    /// The networks that this node offers.
    pub fn advertised_subnets(&self) -> (r: Vec<Ipv4Net>)
        ensures
            r@ == self.model().advertised,
    {
        self.tables.advertised_subnets()
    }

    /// Every member of every network.
    pub fn peers(&self) -> (r: Vec<Arc<PeerInfo>>)
        ensures
            seen_all(r@) == self.model().members,
    {
        self.tables.peers()
    }

    pub fn dns_suffix(&self) -> (r: String)
        ensures
            r@ == self.model().dns_suffix,
    {
        self.tables.dns_suffix()
    }

    /// The name of the first network that has one.
    pub fn network_name(&self) -> (r: String)
        ensures
            r@ == self.model().network_name,
    {
        self.tables.network_name()
    }

    /// How many names the tables answer to.
    pub fn cached_entry_count(&self) -> (r: usize)
        requires
            self.model().by_hostname.len() + self.model().hostname_exact.len()
                + self.model().wildcards.len() <= usize::MAX,
        ensures
            r == self.model().by_hostname.len() + self.model().hostname_exact.len()
                + self.model().wildcards.len(),
    {
        self.tables.cached_entry_count()
    }

    /// The SSH host key that a name stands for.
    pub fn resolve_dns_txt(&self, name: &str) -> (r: Option<String>)
        ensures
            opt_text(r) == dns_txt(self.model(), name@),
    {
        self.tables.resolve_dns_txt(name)
    }

    /// The address that a name stands for. Host name routes have none: a packet
    /// cannot carry the name that such a route needs.
    pub fn resolve_dns_a(&self, name: &str) -> (r: Option<u32>)
        ensures
            r == dns_a(self.model(), name@),
    {
        self.tables.resolve_dns_a(name)
    }

    /// The full name of the member that an address leads to.
    pub fn resolve_dns_ptr(&self, ip: u32) -> (r: Option<String>)
        ensures
            opt_text(r) == dns_ptr(self.model(), ip),
    {
        self.tables.resolve_dns_ptr(ip)
    }
}

impl Default for RoutingTable {
    fn default() -> (r: RoutingTable)
        ensures
            r.wf(),
            r.networks() == Seq::<(u128, SliceView)>::empty(),
    {
        RoutingTable::new()
    }
}

/// A network that has peers alone.
pub open spec fn direct_slice(
    peers: Seq<PeerEntryView>,
    dns_suffix: Seq<char>,
    network_name: Seq<char>,
    self_endpoint_id: Seq<char>,
    peer_cidr: Option<Ipv4Net>,
) -> SliceView {
    SliceView {
        peers,
        subnet_routes: Seq::empty(),
        hostname_routes: Seq::empty(),
        exit_nodes: Seq::empty(),
        profile: default_profile(),
        dns_suffix,
        network_name: lower(network_name),
        self_endpoint_id,
        peer_cidr,
    }
}

fn listed(texts_in: &[String], s: &String) -> (r: bool)
    ensures
        r == texts(texts_in@).contains(s@),
{
    let ghost all = texts(texts_in@);
    let mut i: usize = 0;
    while i < texts_in.len()
        invariant
            i <= texts_in@.len(),
            all == texts(texts_in@),
            forall|j: int| 0 <= j < i ==> #[trigger] all[j] != s@,
        decreases texts_in@.len() - i,
    {
        assert(all[i as int] == texts_in@[i as int]@);
        if texts_in[i] == *s {
            return true;
        }
        i = i + 1;
    }
    false
}

fn keep_peers(peers: &Vec<PeerEntry>, removed: &[String], self_id: &String) -> (r: Vec<PeerEntry>)
    ensures
        views(r@) == kept_peers(views(peers@), texts(removed@), self_id@),
{
    let ghost all = views(peers@);
    let mut out: Vec<PeerEntry> = Vec::new();
    let mut i: usize = 0;
    proof {
        assert(all.take(0) =~= Seq::<PeerEntryView>::empty());
        assert(views(out@) =~= Seq::<PeerEntryView>::empty());
    }
    while i < peers.len()
        invariant
            i <= peers@.len(),
            all == views(peers@),
            views(out@) == kept_peers(all.take(i as int), texts(removed@), self_id@),
        decreases peers@.len() - i,
    {
        let p = &peers[i];
        let ghost before = out@;
        proof {
            assert(all.take(i as int + 1).drop_last() =~= all.take(i as int));
            assert(all.take(i as int + 1).last() == p@);
        }
        if !(p.endpoint_id == *self_id) && !listed(removed, &p.endpoint_id) {
            out.push(p.copy());
            proof {
                assert(views(out@) =~= views(before).push(p@));
            }
        }
        i = i + 1;
    }
    proof {
        assert(all.take(i as int) =~= all);
    }
    out
}

proof fn lemma_peer_place_is(peers: Seq<PeerEntryView>, id: Seq<char>, k: int)
    requires
        0 <= k <= peers.len(),
        forall|i: int| 0 <= i < k ==> (#[trigger] peers[i]).endpoint_id != id,
        k < peers.len() ==> peers[k].endpoint_id == id,
    ensures
        peer_place(peers, id) == k,
    decreases peers.len(),
{
    if peers.len() > 0 && k > 0 {
        let rest = peers.skip(1);
        assert(peers[0].endpoint_id != id);
        assert forall|i: int| 0 <= i < k - 1 implies (#[trigger] rest[i]).endpoint_id != id by {
            assert(rest[i] == peers[i + 1]);
        }
        lemma_peer_place_is(rest, id, k - 1);
    }
}

fn merge_peers(peers: Vec<PeerEntry>, added: &[PeerEntry], self_id: &String) -> (r: Vec<PeerEntry>)
    ensures
        views(r@) == merged_peers(views(peers@), views(added@), self_id@),
{
    let ghost start = views(peers@);
    let ghost all = views(added@);
    let mut out = peers;
    let mut i: usize = 0;
    proof {
        assert(all.take(0) =~= Seq::<PeerEntryView>::empty());
    }
    while i < added.len()
        invariant
            i <= added@.len(),
            all == views(added@),
            views(out@) == merged_peers(start, all.take(i as int), self_id@),
        decreases added@.len() - i,
    {
        let p = &added[i];
        proof {
            assert(all.take(i as int + 1).drop_last() =~= all.take(i as int));
            assert(all.take(i as int + 1).last() == p@);
        }
        if !(p.endpoint_id == *self_id) {
            let ghost before = views(out@);
            let mut k: usize = 0;
            while k < out.len() && !(out[k].endpoint_id == p.endpoint_id)
                invariant
                    k <= out@.len(),
                    before == views(out@),
                    forall|j: int| 0 <= j < k ==> (#[trigger] before[j]).endpoint_id != p@.endpoint_id,
                decreases out@.len() - k,
            {
                assert(before[k as int] == out@[k as int]@);
                k = k + 1;
            }
            proof {
                if k < out@.len() {
                    assert(before[k as int] == out@[k as int]@);
                }
                lemma_peer_place_is(before, p@.endpoint_id, k as int);
            }
            if k < out.len() {
                out[k] = p.copy();
                proof {
                    assert(views(out@) =~= before.update(k as int, p@));
                }
            } else {
                out.push(p.copy());
                proof {
                    assert(views(out@) =~= before.push(p@));
                }
            }
        }
        i = i + 1;
    }
    proof {
        assert(all.take(i as int) =~= all);
    }
    out
}

} // verus!
