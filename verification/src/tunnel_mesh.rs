//! Tunnel telemetry and keep-alive policy.
//!
//! The data plane writes here; heartbeats and status reports read. Every entry
//! of a peer has an owner, and a later owner's word stands against an earlier
//! one's.

use crate::conn_pool::{
    normalize_relay_url, OnDemandStats, PeerConnSnapshot, NANOS_PER_SEC,
};
use crate::endpoint::EndpointId;
use crate::membership::{copy_texts, texts};
use crate::peer_map::PeerMap;
use crate::text::{lower, to_lower, trim_end_of};
use vstd::hash_map::StringHashMap;
use vstd::prelude::*;

verus! {

/// What passed through the tunnel, counted modulo 2^64.
#[derive(Debug, Clone, Copy, PartialEq, Eq, Structural)]
pub struct TunnelCounters {
    pub bytes_tx: u64,
    pub bytes_rx: u64,
    pub packets_tx: u64,
    pub packets_rx: u64,
    pub dial_attempts: u64,
    pub dial_success: u64,
    pub dial_fail: u64,
    pub dials_suppressed: u64,
    pub queue_full: u64,
    pub stale_drops: u64,
    pub blocked_drops: u64,
    pub tun_write_drops: u64,
    pub send_errors: u64,
    pub too_large: u64,
    pub single_packets: u64,
    pub segmented_packets: u64,
    pub segments_tx: u64,
    pub segments_rx: u64,
    pub reassembly_malformed: u64,
    pub reassembly_expired: u64,
    pub reassembly_evicted: u64,
    pub tun_rx_packets: u64,
    pub tun_tx_packets: u64,
    pub tun_rx_bytes: u64,
    pub tun_tx_bytes: u64,
}

/// Nothing so far.
pub open spec fn no_counts() -> TunnelCounters {
    TunnelCounters {
        bytes_tx: 0,
        bytes_rx: 0,
        packets_tx: 0,
        packets_rx: 0,
        dial_attempts: 0,
        dial_success: 0,
        dial_fail: 0,
        dials_suppressed: 0,
        queue_full: 0,
        stale_drops: 0,
        blocked_drops: 0,
        tun_write_drops: 0,
        send_errors: 0,
        too_large: 0,
        single_packets: 0,
        segmented_packets: 0,
        segments_tx: 0,
        segments_rx: 0,
        reassembly_malformed: 0,
        reassembly_expired: 0,
        reassembly_evicted: 0,
        tun_rx_packets: 0,
        tun_tx_packets: 0,
        tun_rx_bytes: 0,
        tun_tx_bytes: 0,
    }
}

/// Whether a peer's path is a metered relay, and who said so.
#[derive(Debug, Clone, Copy, PartialEq, Eq, Structural)]
pub struct RelayFlag {
    pub owner: u64,
    pub metered: bool,
}

struct PeerSnap {
    owner: u64,
    state: String,
    keep_alive: bool,
    last_activity: u64,
    live: bool,
    path: String,
    bytes_in: u64,
    bytes_out: u64,
}

/// What is known of a peer's connection.
pub struct SnapView {
    pub owner: u64,
    pub state: Seq<char>,
    pub keep_alive: bool,
    pub last_activity: u64,
    pub live: bool,
    pub path: Seq<char>,
    pub bytes_in: u64,
    pub bytes_out: u64,
}

impl View for PeerSnap {
    type V = SnapView;

    closed spec fn view(&self) -> SnapView {
        SnapView {
            owner: self.owner,
            state: self.state@,
            keep_alive: self.keep_alive,
            last_activity: self.last_activity,
            live: self.live,
            path: self.path@,
            bytes_in: self.bytes_in,
            bytes_out: self.bytes_out,
        }
    }
}

/// The telemetry as a value.
pub struct MeshView {
    pub keep_alive: bool,
    pub hosts: Set<Seq<char>>,
    pub peers: Set<EndpointId>,
    pub urls: Seq<Seq<char>>,
    pub relays: Map<EndpointId, RelayFlag>,
    pub snaps: Map<EndpointId, SnapView>,
    pub active: u32,
    pub counters: TunnelCounters,
}

/// The peers with a live connection.
pub open spec fn live_peers(snaps: Map<EndpointId, SnapView>) -> Set<EndpointId> {
    snaps.dom().filter(|k: EndpointId| snaps[k].live)
}

/// A report on a peer is taken: its owner is not older than the last one, and
/// only the same owner may say that the connection is gone.
pub open spec fn report_taken(snaps: Map<EndpointId, SnapView>, peer: EndpointId, owner: u64, live: bool) -> bool {
    snaps.contains_key(peer) ==> owner >= snaps[peer].owner && (owner == snaps[peer].owner || live)
}

/// A list of normalised relay addresses, none twice, from a list of addresses.
pub open spec fn normalized_urls(urls: Seq<Seq<char>>) -> Seq<Seq<char>>
    decreases urls.len(),
{
    if urls.len() == 0 {
        Seq::empty()
    } else {
        let before = normalized_urls(urls.drop_last());
        let u = trim_end_of(urls.last(), '/');
        if before.contains(u) {
            before
        } else {
            before.push(u)
        }
    }
}

/// The addresses without trailing slashes, each once.
pub fn normalize_urls(urls: &Vec<String>) -> (r: Vec<String>)
    ensures
        texts(r@) == normalized_urls(texts(urls@)),
{
    let ghost all = texts(urls@);
    let mut out: Vec<String> = Vec::new();
    let mut i: usize = 0;
    proof {
        assert(all.take(0) =~= Seq::<Seq<char>>::empty());
        assert(texts(out@) =~= Seq::<Seq<char>>::empty());
    }
    while i < urls.len()
        invariant
            i <= urls@.len(),
            all == texts(urls@),
            texts(out@) == normalized_urls(all.take(i as int)),
        decreases urls@.len() - i,
    {
        proof {
            assert(all.take(i as int + 1).drop_last() =~= all.take(i as int));
            assert(all.take(i as int + 1).last() == urls@[i as int]@);
        }
        let u = normalize_relay_url(urls[i].as_str());
        let ghost before = out@;
        if !has_text(&out, &u) {
            out.push(u);
            proof {
                assert(texts(out@) =~= texts(before).push(u@));
            }
        }
        i = i + 1;
    }
    proof {
        assert(all.take(i as int) =~= all);
    }
    out
}

/// Tunnel telemetry and keep-alive policy.
pub struct TunnelMesh {
    keep_alive: bool,
    keep_alive_hosts: StringHashMap<()>,
    keep_alive_peers: PeerMap<()>,
    cloud_relay_urls: Vec<String>,
    peer_cloud_relay: PeerMap<RelayFlag>,
    snapshots: PeerMap<PeerSnap>,
    active_conns: u32,
    counters: TunnelCounters,
}

spec fn snap_views(m: Map<EndpointId, PeerSnap>) -> Map<EndpointId, SnapView> {
    m.map_values(|s: PeerSnap| s@)
}

proof fn lemma_snap_insert(m: Map<EndpointId, PeerSnap>, k: EndpointId, s: PeerSnap)
    ensures
        snap_views(m.insert(k, s)) == snap_views(m).insert(k, s@),
{
    assert(snap_views(m.insert(k, s)) =~= snap_views(m).insert(k, s@));
}

proof fn lemma_snap_remove(m: Map<EndpointId, PeerSnap>, k: EndpointId)
    ensures
        snap_views(m.remove(k)) == snap_views(m).remove(k),
{
    assert(snap_views(m.remove(k)) =~= snap_views(m).remove(k));
}

/// The live peers after a peer's entry was set.
proof fn lemma_live_insert(m: Map<EndpointId, SnapView>, k: EndpointId, s: SnapView)
    requires
        m.dom().finite(),
    ensures
        live_peers(m).finite(),
        live_peers(m.insert(k, s)).finite(),
        live_peers(m).contains(k) == (m.contains_key(k) && m[k].live),
        live_peers(m.insert(k, s)).len() == live_peers(m).len() + (if s.live {
            1int
        } else {
            0int
        }) - (if m.contains_key(k) && m[k].live {
            1int
        } else {
            0int
        }),
{
    let a = live_peers(m);
    let b = live_peers(m.insert(k, s));
    if s.live {
        assert(b =~= a.insert(k));
    } else {
        assert(b =~= a.remove(k));
    }
}

proof fn lemma_live_remove(m: Map<EndpointId, SnapView>, k: EndpointId)
    requires
        m.dom().finite(),
    ensures
        live_peers(m).finite(),
        live_peers(m.remove(k)).len() == live_peers(m).len() - (if m.contains_key(k) && m[k].live {
            1int
        } else {
            0int
        }),
{
    assert(live_peers(m.remove(k)) =~= live_peers(m).remove(k));
}

/// How the number of connections that is measured moves.
#[derive(Debug, Clone, Copy, PartialEq, Eq, Structural)]
pub enum GaugeMove {
    Up,
    Down,
    Stays,
}

/// A connection more, one less, or neither.
pub open spec fn gauge_move(was: bool, now_is: bool) -> GaugeMove {
    if !was && now_is {
        GaugeMove::Up
    } else if was && !now_is {
        GaugeMove::Down
    } else {
        GaugeMove::Stays
    }
}

/// The telemetry after a report on a peer's connection.
pub open spec fn told(
    before: TunnelMesh,
    after: TunnelMesh,
    peer: EndpointId,
    owner: u64,
    state: Seq<char>,
    live: bool,
    path: Seq<char>,
    keep_alive: bool,
    now: u64,
) -> bool {
    let snaps = before.state().snaps;
    let known = snaps.contains_key(peer);
    let next = snaps.insert(
        peer,
        SnapView {
            owner,
            state,
            keep_alive,
            last_activity: now,
            live,
            path,
            bytes_in: if known {
                snaps[peer].bytes_in
            } else {
                0
            },
            bytes_out: if known {
                snaps[peer].bytes_out
            } else {
                0
            },
        },
    );
    if report_taken(snaps, peer, owner, live) {
        after.state() == (MeshView {
            snaps: next,
            active: after.state().active,
            ..before.state()
        })
    } else {
        after.state() == before.state()
    }
}

/// The telemetry after an owner forgot a peer.
pub open spec fn cleared(before: TunnelMesh, after: TunnelMesh, peer: EndpointId, owner: u64) -> bool {
    let snaps = before.state().snaps;
    after.state() == (MeshView {
        snaps: if snaps.contains_key(peer) && snaps[peer].owner == owner {
            snaps.remove(peer)
        } else {
            snaps
        },
        relays: without_owner(before.state().relays, peer, owner),
        active: after.state().active,
        ..before.state()
    })
}

/// The telemetry after a packet of so many bytes went out to a peer.
pub open spec fn counted_out(m: MeshView, peer: EndpointId, bytes: u64, now: u64) -> MeshView {
    MeshView {
        counters: TunnelCounters {
            packets_tx: m.counters.packets_tx.wrapping_add(1),
            bytes_tx: m.counters.bytes_tx.wrapping_add(bytes),
            ..m.counters
        },
        snaps: if m.snaps.contains_key(peer) {
            m.snaps.insert(
                peer,
                SnapView {
                    bytes_out: (m.snaps[peer].bytes_out + bytes) as u64,
                    last_activity: now,
                    ..m.snaps[peer]
                },
            )
        } else {
            m.snaps
        },
        ..m
    }
}

/// The telemetry after a packet of so many bytes came in from a peer.
pub open spec fn counted_in(m: MeshView, peer: EndpointId, bytes: u64, now: u64) -> MeshView {
    MeshView {
        counters: TunnelCounters {
            packets_rx: m.counters.packets_rx.wrapping_add(1),
            bytes_rx: m.counters.bytes_rx.wrapping_add(bytes),
            ..m.counters
        },
        snaps: if m.snaps.contains_key(peer) {
            m.snaps.insert(
                peer,
                SnapView {
                    bytes_in: (m.snaps[peer].bytes_in + bytes) as u64,
                    last_activity: now,
                    ..m.snaps[peer]
                },
            )
        } else {
            m.snaps
        },
        ..m
    }
}

impl TunnelMesh {
    /// The telemetry as a value.
    pub closed spec fn state(self) -> MeshView {
        MeshView {
            keep_alive: self.keep_alive,
            hosts: self.keep_alive_hosts@.dom(),
            peers: self.keep_alive_peers@.dom(),
            urls: texts(self.cloud_relay_urls@),
            relays: self.peer_cloud_relay@,
            snaps: snap_views(self.snapshots@),
            active: self.active_conns,
            counters: self.counters,
        }
    }

    /// The number of active connections is the number of live peers, modulo 2^32.
    pub closed spec fn wf(self) -> bool {
        &&& self.keep_alive_peers.wf()
        &&& self.peer_cloud_relay.wf()
        &&& self.snapshots.wf()
        &&& self.active_conns as int == live_peers(self.state().snaps).len() as int
            % 0x1_0000_0000
    }

    /// What `wf` says of the number of active connections.
    pub proof fn lemma_wf(self)
        requires
            self.wf(),
        ensures
            self.state().active as int == live_peers(self.state().snaps).len() as int
                % 0x1_0000_0000,
            self.state().snaps.dom().finite(),
    {
        self.snapshots.lemma_finite();
        assert(self.state().snaps.dom() =~= self.snapshots@.dom());
    }

    pub fn new(keep_alive: bool) -> (r: TunnelMesh)
        ensures
            r.wf(),
            r.state() == (MeshView {
                keep_alive,
                hosts: Set::empty(),
                peers: Set::empty(),
                urls: Seq::empty(),
                relays: Map::empty(),
                snaps: Map::empty(),
                active: 0,
                counters: no_counts(),
            }),
    {
        let r = TunnelMesh {
            keep_alive,
            keep_alive_hosts: StringHashMap::new(),
            keep_alive_peers: PeerMap::new(),
            cloud_relay_urls: Vec::new(),
            peer_cloud_relay: PeerMap::new(),
            snapshots: PeerMap::new(),
            active_conns: 0,
            counters: TunnelCounters {
                bytes_tx: 0,
                bytes_rx: 0,
                packets_tx: 0,
                packets_rx: 0,
                dial_attempts: 0,
                dial_success: 0,
                dial_fail: 0,
                dials_suppressed: 0,
                queue_full: 0,
                stale_drops: 0,
                blocked_drops: 0,
                tun_write_drops: 0,
                send_errors: 0,
                too_large: 0,
                single_packets: 0,
                segmented_packets: 0,
                segments_tx: 0,
                segments_rx: 0,
                reassembly_malformed: 0,
                reassembly_expired: 0,
                reassembly_evicted: 0,
                tun_rx_packets: 0,
                tun_tx_packets: 0,
                tun_rx_bytes: 0,
                tun_tx_bytes: 0,
            },
        };
        proof {
            assert(r.state().hosts =~= Set::empty());
            assert(r.state().peers =~= Set::empty());
            assert(r.state().urls =~= Seq::empty());
            assert(r.state().snaps =~= Map::empty());
            assert(live_peers(r.state().snaps) =~= Set::empty());
        }
        r
    }

    /// Sets the metered relays, each without trailing slashes and once.
    pub fn set_cloud_relay_urls(&mut self, urls: &Vec<String>)
        requires
            old(self).wf(),
        ensures
            final(self).wf(),
            final(self).state() == (MeshView {
                urls: normalized_urls(texts(urls@)),
                ..old(self).state()
            }),
    {
        self.cloud_relay_urls = normalize_urls(urls);
    }

    /// The metered relays.
    pub fn cloud_relay_urls(&self) -> (r: Vec<String>)
        ensures
            texts(r@) == self.state().urls,
    {
        copy_texts(&self.cloud_relay_urls)
    }

    /// Whether a relay address is metered.
    pub fn is_cloud_relay_url(&self, url: &str) -> (r: bool)
        ensures
            r == self.state().urls.contains(trim_end_of(url@, '/')),
    {
        let u = normalize_relay_url(url);
        has_text(&self.cloud_relay_urls, &u)
    }

    /// Notes whether a peer's path is metered. An earlier owner's word is ignored.
    pub fn set_peer_cloud_relay(&mut self, peer: EndpointId, owner: u64, metered: bool)
        requires
            old(self).wf(),
        ensures
            final(self).wf(),
            ({
                let relays = old(self).state().relays;
                final(self).state() == (if relays.contains_key(peer) && owner
                    < relays[peer].owner {
                    old(self).state()
                } else {
                    MeshView {
                        relays: relays.insert(peer, RelayFlag { owner, metered }),
                        ..old(self).state()
                    }
                })
            }),
    {
        if let Some(flag) = self.peer_cloud_relay.get(&peer) {
            if owner < flag.owner {
                return;
            }
        }
        self.peer_cloud_relay.insert(peer, RelayFlag { owner, metered });
    }

    /// Forgets whether a peer's path is metered, if this owner said so last.
    pub fn clear_peer_cloud_relay(&mut self, peer: EndpointId, owner: u64)
        requires
            old(self).wf(),
        ensures
            final(self).wf(),
            final(self).state() == (MeshView {
                relays: without_owner(old(self).state().relays, peer, owner),
                ..old(self).state()
            }),
    {
        let mine = match self.peer_cloud_relay.get(&peer) {
            Some(flag) => flag.owner == owner,
            None => false,
        };
        if mine {
            let _flag = self.peer_cloud_relay.remove(&peer);
        }
    }

    /// Whether a peer's path is metered.
    pub fn peer_is_cloud_relay(&self, peer: EndpointId) -> (r: bool)
        requires
            self.wf(),
        ensures
            r == metered_peer(self.state(), peer),
    {
        match self.peer_cloud_relay.get(&peer) {
            Some(flag) => flag.metered,
            None => false,
        }
    }

    pub fn set_keep_alive(&mut self, enabled: bool)
        requires
            old(self).wf(),
        ensures
            final(self).wf(),
            final(self).state() == (MeshView { keep_alive: enabled, ..old(self).state() }),
    {
        self.keep_alive = enabled;
    }

    pub fn keep_alive_global(&self) -> (r: bool)
        ensures
            r == self.state().keep_alive,
    {
        self.keep_alive
    }

    /// Keeps connections to a host name alive.
    pub fn add_keep_alive_host(&mut self, hostname: &str)
        requires
            old(self).wf(),
        ensures
            final(self).wf(),
            final(self).state() == (MeshView {
                hosts: old(self).state().hosts.insert(lower(hostname@)),
                ..old(self).state()
            }),
    {
        self.keep_alive_hosts.insert(to_lower(hostname), ());
        proof {
            assert(self.state().hosts =~= old(self).state().hosts.insert(lower(hostname@)));
        }
    }

    pub fn remove_keep_alive_host(&mut self, hostname: &str)
        requires
            old(self).wf(),
        ensures
            final(self).wf(),
            final(self).state() == (MeshView {
                hosts: old(self).state().hosts.remove(lower(hostname@)),
                ..old(self).state()
            }),
    {
        let key = to_lower(hostname);
        self.keep_alive_hosts.remove(key.as_str());
        proof {
            assert(self.state().hosts =~= old(self).state().hosts.remove(lower(hostname@)));
        }
    }

    /// Keeps the connection to one peer alive, or no longer.
    pub fn set_peer_keep_alive(&mut self, peer: EndpointId, enabled: bool)
        requires
            old(self).wf(),
        ensures
            final(self).wf(),
            final(self).state() == (MeshView {
                peers: if enabled {
                    old(self).state().peers.insert(peer)
                } else {
                    old(self).state().peers.remove(peer)
                },
                ..old(self).state()
            }),
    {
        if enabled {
            self.keep_alive_peers.insert(peer, ());
            proof {
                assert(self.state().peers =~= old(self).state().peers.insert(peer));
            }
        } else {
            let _gone = self.keep_alive_peers.remove(&peer);
            proof {
                assert(self.state().peers =~= old(self).state().peers.remove(peer));
            }
        }
    }

    /// Whether a connection is kept alive: all are, the peer's is, or its host name's is.
    pub fn keep_alive_for(&self, peer: EndpointId, hostname: Option<&str>) -> (r: bool)
        requires
            self.wf(),
        ensures
            r == (self.state().keep_alive || self.state().peers.contains(peer) || (
            hostname matches Some(h) && self.state().hosts.contains(lower(h@)))),
    {
        if self.keep_alive {
            return true;
        }
        if self.keep_alive_peers.contains(&peer) {
            return true;
        }
        match hostname {
            Some(h) => {
                let key = to_lower(h);
                self.keep_alive_hosts.contains_key(key.as_str())
            },
            None => false,
        }
    }

    /// Active connections, bytes sent and bytes received.
    pub fn heartbeat_counters(&self) -> (r: (u32, u64, u64))
        ensures
            r == (
                self.state().active,
                self.state().counters.bytes_tx,
                self.state().counters.bytes_rx,
            ),
    {
        (self.active_conns, self.counters.bytes_tx, self.counters.bytes_rx)
    }

    pub fn on_demand_stats(&self) -> (r: OnDemandStats)
        ensures
            ({
                let c = self.state().counters;
                r == (OnDemandStats {
                    reconnect_attempts: c.dial_attempts,
                    reconnect_success: c.dial_success,
                    reconnect_fail: c.dial_fail,
                    packets_buffered: 0,
                    packets_dropped_timeout: c.stale_drops,
                    packets_dropped_blocked: c.blocked_drops,
                    dials_suppressed: c.dials_suppressed,
                    reconnect_latency_avg_us: 0,
                    reconnect_latency_max_us: 0,
                })
            }),
    {
        OnDemandStats {
            reconnect_attempts: self.counters.dial_attempts,
            reconnect_success: self.counters.dial_success,
            reconnect_fail: self.counters.dial_fail,
            packets_buffered: 0,
            packets_dropped_timeout: self.counters.stale_drops,
            packets_dropped_blocked: self.counters.blocked_drops,
            dials_suppressed: self.counters.dials_suppressed,
            reconnect_latency_avg_us: 0,
            reconnect_latency_max_us: 0,
        }
    }

    /// Bytes received from and sent to a peer.
    pub fn peer_bytes(&self, peer: EndpointId) -> (r: (u64, u64))
        requires
            self.wf(),
        ensures
            ({
                let snaps = self.state().snaps;
                r == (if snaps.contains_key(peer) {
                    (snaps[peer].bytes_in, snaps[peer].bytes_out)
                } else {
                    (0u64, 0u64)
                })
            }),
    {
        match self.snapshots.get(&peer) {
            Some(s) => (s.bytes_in, s.bytes_out),
            None => (0, 0),
        }
    }

    pub fn has_live(&self, peer: EndpointId) -> (r: bool)
        requires
            self.wf(),
        ensures
            r == live_peers(self.state().snaps).contains(peer),
    {
        match self.snapshots.get(&peer) {
            Some(s) => s.live,
            None => false,
        }
    }

    /// The report on a peer's connection.
    pub fn peer_snapshot(&self, peer: EndpointId, now: u64) -> (r: PeerConnSnapshot)
        requires
            self.wf(),
        ensures
            ({
                let m = self.state();
                let kept = m.keep_alive || m.peers.contains(peer);
                if m.snaps.contains_key(peer) {
                    let s = m.snaps[peer];
                    &&& r.state@ == s.state
                    &&& r.keep_alive == (kept || s.keep_alive)
                    &&& r.last_activity_secs_ago == now.saturating_sub(s.last_activity)
                        / NANOS_PER_SEC
                    &&& r.live == s.live
                    &&& r.path@ == s.path
                } else {
                    &&& r.state@ == "idle"@
                    &&& r.keep_alive == kept
                    &&& r.last_activity_secs_ago == u64::MAX
                    &&& !r.live
                    &&& r.path@ == "unknown"@
                }
            }),
    {
        let kept = self.keep_alive_for(peer, None);
        match self.snapshots.get(&peer) {
            Some(s) => PeerConnSnapshot {
                state: s.state.clone(),
                keep_alive: kept || s.keep_alive,
                last_activity_secs_ago: now.saturating_sub(s.last_activity) / NANOS_PER_SEC,
                live: s.live,
                path: s.path.clone(),
            },
            None => PeerConnSnapshot {
                state: "idle".to_owned(),
                keep_alive: kept,
                last_activity_secs_ago: u64::MAX,
                live: false,
                path: "unknown".to_owned(),
            },
        }
    }

    /// Takes a report on a peer's connection.
    pub fn set_peer_state(
        &mut self,
        peer: EndpointId,
        owner: u64,
        state: &str,
        live: bool,
        path: &str,
        keep_alive: bool,
        now: u64,
    )
        requires
            old(self).wf(),
        ensures
            final(self).wf(),
            told(*old(self), *final(self), peer, owner, state@, live, path@, keep_alive, now),
    {
        let mut was_live = false;
        let mut bytes_in: u64 = 0;
        let mut bytes_out: u64 = 0;
        if let Some(s) = self.snapshots.get(&peer) {
            if owner < s.owner {
                return;
            }
            if owner != s.owner && !live {
                return;
            }
            was_live = s.live;
            bytes_in = s.bytes_in;
            bytes_out = s.bytes_out;
        }
        let snap = PeerSnap {
            owner,
            state: state.to_owned(),
            keep_alive,
            last_activity: now,
            live,
            path: path.to_owned(),
            bytes_in,
            bytes_out,
        };
        proof {
            self.lemma_wf();
            lemma_snap_insert(self.snapshots@, peer, snap);
            lemma_live_insert(self.state().snaps, peer, snap@);
        }
        if !was_live && live {
            self.active_conns = self.active_conns.wrapping_add(1);
        } else if was_live && !live {
            self.active_conns = self.active_conns.wrapping_sub(1);
        }
        self.snapshots.insert(peer, snap);
    }

    /// Forgets a peer, if this owner reported on it last.
    pub fn clear_peer(&mut self, peer: EndpointId, owner: u64)
        requires
            old(self).wf(),
        ensures
            final(self).wf(),
            cleared(*old(self), *final(self), peer, owner),
    {
        let mut mine = false;
        let mut was_live = false;
        if let Some(s) = self.snapshots.get(&peer) {
            mine = s.owner == owner;
            was_live = s.live;
        }
        if mine {
            proof {
                self.lemma_wf();
                lemma_snap_remove(self.snapshots@, peer);
                lemma_live_remove(self.state().snaps, peer);
                lemma_live_insert(self.state().snaps, peer, self.state().snaps[peer]);
            }
            if was_live {
                self.active_conns = self.active_conns.wrapping_sub(1);
            }
            let _gone = self.snapshots.remove(&peer);
        }
        self.clear_peer_cloud_relay(peer, owner);
    }

    /// Takes a worker's report on a peer's connection, and says how the number
    /// of connections moves.
    pub fn publish_state(
        &mut self,
        peer: EndpointId,
        owner: u64,
        state: &str,
        live: bool,
        path: &str,
        keep_alive: bool,
        now: u64,
    ) -> (r: GaugeMove)
        requires
            old(self).wf(),
        ensures
            final(self).wf(),
            told(*old(self), *final(self), peer, owner, state@, live, path@, keep_alive, now),
            r == gauge_move(
                live_peers(old(self).state().snaps).contains(peer),
                live_peers(final(self).state().snaps).contains(peer),
            ),
    {
        let was = self.has_live(peer);
        self.set_peer_state(peer, owner, state, live, path, keep_alive, now);
        match (was, self.has_live(peer)) {
            (false, true) => GaugeMove::Up,
            (true, false) => GaugeMove::Down,
            _ => GaugeMove::Stays,
        }
    }

    /// Forgets a peer at the end of its worker, and says how the number of
    /// connections moves.
    pub fn forget_peer(&mut self, peer: EndpointId, owner: u64) -> (r: GaugeMove)
        requires
            old(self).wf(),
        ensures
            final(self).wf(),
            cleared(*old(self), *final(self), peer, owner),
            r == gauge_move(
                live_peers(old(self).state().snaps).contains(peer),
                live_peers(final(self).state().snaps).contains(peer),
            ),
            r != GaugeMove::Up,
    {
        let was = self.has_live(peer);
        self.clear_peer(peer, owner);
        if was && !self.has_live(peer) {
            GaugeMove::Down
        } else {
            GaugeMove::Stays
        }
    }

    /// Counts a packet to a peer, and says whether its path is metered.
    pub fn record_tx(&mut self, peer: EndpointId, bytes: u64, now: u64) -> (r: bool)
        requires
            old(self).wf(),
            old(self).state().snaps.contains_key(peer) ==> old(self).state().snaps[peer].bytes_out
                + bytes <= u64::MAX,
        ensures
            final(self).wf(),
            r == metered_peer(old(self).state(), peer),
            final(self).state() == counted_out(old(self).state(), peer, bytes, now),
    {
        self.counters.packets_tx = self.counters.packets_tx.wrapping_add(1);
        self.counters.bytes_tx = self.counters.bytes_tx.wrapping_add(bytes);
        self.note_bytes(peer, 0, bytes, now);
        self.peer_is_cloud_relay(peer)
    }

    /// Counts a packet from a peer.
    pub fn record_rx(&mut self, peer: EndpointId, bytes: u64, now: u64)
        requires
            old(self).wf(),
            old(self).state().snaps.contains_key(peer) ==> old(self).state().snaps[peer].bytes_in
                + bytes <= u64::MAX,
        ensures
            final(self).wf(),
            final(self).state() == counted_in(old(self).state(), peer, bytes, now),
    {
        self.counters.packets_rx = self.counters.packets_rx.wrapping_add(1);
        self.counters.bytes_rx = self.counters.bytes_rx.wrapping_add(bytes);
        self.note_bytes(peer, bytes, 0, now);
    }

    fn note_bytes(&mut self, peer: EndpointId, received: u64, sent: u64, now: u64)
        requires
            old(self).wf(),
            old(self).state().snaps.contains_key(peer) ==> old(self).state().snaps[peer].bytes_in
                + received <= u64::MAX && old(self).state().snaps[peer].bytes_out + sent
                <= u64::MAX,
        ensures
            final(self).wf(),
            ({
                let m = old(self).state();
                final(self).state() == (if m.snaps.contains_key(peer) {
                    MeshView {
                        snaps: m.snaps.insert(
                            peer,
                            SnapView {
                                bytes_in: (m.snaps[peer].bytes_in + received) as u64,
                                bytes_out: (m.snaps[peer].bytes_out + sent) as u64,
                                last_activity: now,
                                ..m.snaps[peer]
                            },
                        ),
                        ..m
                    }
                } else {
                    m
                })
            }),
    {
        let ghost snaps = self.state().snaps;
        if let Some(s) = self.snapshots.get(&peer) {
            assert(snaps[peer] == s@);
            let next = PeerSnap {
                owner: s.owner,
                state: s.state.clone(),
                keep_alive: s.keep_alive,
                last_activity: now,
                live: s.live,
                path: s.path.clone(),
                bytes_in: s.bytes_in + received,
                bytes_out: s.bytes_out + sent,
            };
            proof {
                self.lemma_wf();
                lemma_snap_insert(self.snapshots@, peer, next);
                lemma_live_insert(snaps, peer, next@);
            }
            self.snapshots.insert(peer, next);
        }
    }

    /// A dial was tried.
    pub fn inc_dial_attempt(&mut self)
        requires
            old(self).wf(),
        ensures
            final(self).wf(),
            final(self).state() == (MeshView {
                counters: TunnelCounters {
                    dial_attempts: old(self).state().counters.dial_attempts.wrapping_add(1),
                    ..old(self).state().counters
                },
                ..old(self).state()
            }),
    {
        self.counters.dial_attempts = self.counters.dial_attempts.wrapping_add(1);
    }

    /// A dial succeeded.
    pub fn inc_dial_success(&mut self)
        requires
            old(self).wf(),
        ensures
            final(self).wf(),
            final(self).state() == (MeshView {
                counters: TunnelCounters {
                    dial_success: old(self).state().counters.dial_success.wrapping_add(1),
                    ..old(self).state().counters
                },
                ..old(self).state()
            }),
    {
        self.counters.dial_success = self.counters.dial_success.wrapping_add(1);
    }

    /// A dial failed.
    pub fn inc_dial_fail(&mut self)
        requires
            old(self).wf(),
        ensures
            final(self).wf(),
            final(self).state() == (MeshView {
                counters: TunnelCounters {
                    dial_fail: old(self).state().counters.dial_fail.wrapping_add(1),
                    ..old(self).state().counters
                },
                ..old(self).state()
            }),
    {
        self.counters.dial_fail = self.counters.dial_fail.wrapping_add(1);
    }

    /// A dial was held back.
    pub fn inc_dials_suppressed(&mut self)
        requires
            old(self).wf(),
        ensures
            final(self).wf(),
            final(self).state() == (MeshView {
                counters: TunnelCounters {
                    dials_suppressed: old(self).state().counters.dials_suppressed.wrapping_add(1),
                    ..old(self).state().counters
                },
                ..old(self).state()
            }),
    {
        self.counters.dials_suppressed = self.counters.dials_suppressed.wrapping_add(1);
    }

    /// A packet found its peer's queue full.
    pub fn inc_queue_full(&mut self)
        requires
            old(self).wf(),
        ensures
            final(self).wf(),
            final(self).state() == (MeshView {
                counters: TunnelCounters {
                    queue_full: old(self).state().counters.queue_full.wrapping_add(1),
                    ..old(self).state().counters
                },
                ..old(self).state()
            }),
    {
        self.counters.queue_full = self.counters.queue_full.wrapping_add(1);
    }

    /// A packet grew too old to be sent.
    pub fn inc_stale(&mut self)
        requires
            old(self).wf(),
        ensures
            final(self).wf(),
            final(self).state() == (MeshView {
                counters: TunnelCounters {
                    stale_drops: old(self).state().counters.stale_drops.wrapping_add(1),
                    ..old(self).state().counters
                },
                ..old(self).state()
            }),
    {
        self.counters.stale_drops = self.counters.stale_drops.wrapping_add(1);
    }

    /// A packet was dropped because its peer is blocked.
    pub fn inc_blocked(&mut self)
        requires
            old(self).wf(),
        ensures
            final(self).wf(),
            final(self).state() == (MeshView {
                counters: TunnelCounters {
                    blocked_drops: old(self).state().counters.blocked_drops.wrapping_add(1),
                    ..old(self).state().counters
                },
                ..old(self).state()
            }),
    {
        self.counters.blocked_drops = self.counters.blocked_drops.wrapping_add(1);
    }

    /// A packet could not be written to the tunnel device.
    pub fn inc_tun_write_drop(&mut self)
        requires
            old(self).wf(),
        ensures
            final(self).wf(),
            final(self).state() == (MeshView {
                counters: TunnelCounters {
                    tun_write_drops: old(self).state().counters.tun_write_drops.wrapping_add(1),
                    ..old(self).state().counters
                },
                ..old(self).state()
            }),
    {
        self.counters.tun_write_drops = self.counters.tun_write_drops.wrapping_add(1);
    }

    /// A datagram could not be sent.
    pub fn inc_send_error(&mut self)
        requires
            old(self).wf(),
        ensures
            final(self).wf(),
            final(self).state() == (MeshView {
                counters: TunnelCounters {
                    send_errors: old(self).state().counters.send_errors.wrapping_add(1),
                    ..old(self).state().counters
                },
                ..old(self).state()
            }),
    {
        self.counters.send_errors = self.counters.send_errors.wrapping_add(1);
    }

    /// A packet could not be framed for its path.
    pub fn inc_too_large(&mut self)
        requires
            old(self).wf(),
        ensures
            final(self).wf(),
            final(self).state() == (MeshView {
                counters: TunnelCounters {
                    too_large: old(self).state().counters.too_large.wrapping_add(1),
                    ..old(self).state().counters
                },
                ..old(self).state()
            }),
    {
        self.counters.too_large = self.counters.too_large.wrapping_add(1);
    }

    /// A packet was sent in one datagram.
    pub fn inc_single(&mut self)
        requires
            old(self).wf(),
        ensures
            final(self).wf(),
            final(self).state() == (MeshView {
                counters: TunnelCounters {
                    single_packets: old(self).state().counters.single_packets.wrapping_add(1),
                    ..old(self).state().counters
                },
                ..old(self).state()
            }),
    {
        self.counters.single_packets = self.counters.single_packets.wrapping_add(1);
    }

    /// A packet was sent in segments.
    pub fn inc_segmented(&mut self)
        requires
            old(self).wf(),
        ensures
            final(self).wf(),
            final(self).state() == (MeshView {
                counters: TunnelCounters {
                    segmented_packets: old(self).state().counters.segmented_packets.wrapping_add(1),
                    ..old(self).state().counters
                },
                ..old(self).state()
            }),
    {
        self.counters.segmented_packets = self.counters.segmented_packets.wrapping_add(1);
    }

    /// A segment made no sense.
    pub fn inc_reassembly_malformed(&mut self)
        requires
            old(self).wf(),
        ensures
            final(self).wf(),
            final(self).state() == (MeshView {
                counters: TunnelCounters {
                    reassembly_malformed: old(self).state().counters.reassembly_malformed.wrapping_add(1),
                    ..old(self).state().counters
                },
                ..old(self).state()
            }),
    {
        self.counters.reassembly_malformed = self.counters.reassembly_malformed.wrapping_add(1);
    }

    /// An incomplete packet expired.
    pub fn inc_reassembly_expired(&mut self)
        requires
            old(self).wf(),
        ensures
            final(self).wf(),
            final(self).state() == (MeshView {
                counters: TunnelCounters {
                    reassembly_expired: old(self).state().counters.reassembly_expired.wrapping_add(1),
                    ..old(self).state().counters
                },
                ..old(self).state()
            }),
    {
        self.counters.reassembly_expired = self.counters.reassembly_expired.wrapping_add(1);
    }

    /// An incomplete packet was given up for want of room.
    pub fn inc_reassembly_evicted(&mut self)
        requires
            old(self).wf(),
        ensures
            final(self).wf(),
            final(self).state() == (MeshView {
                counters: TunnelCounters {
                    reassembly_evicted: old(self).state().counters.reassembly_evicted.wrapping_add(1),
                    ..old(self).state().counters
                },
                ..old(self).state()
            }),
    {
        self.counters.reassembly_evicted = self.counters.reassembly_evicted.wrapping_add(1);
    }

    /// Segments were sent.
    pub fn add_segments_tx(&mut self, n: u64)
        requires
            old(self).wf(),
        ensures
            final(self).wf(),
            final(self).state() == (MeshView {
                counters: TunnelCounters {
                    segments_tx: old(self).state().counters.segments_tx.wrapping_add(n),
                    ..old(self).state().counters
                },
                ..old(self).state()
            }),
    {
        self.counters.segments_tx = self.counters.segments_tx.wrapping_add(n);
    }

    /// Segments were received.
    pub fn add_segments_rx(&mut self, n: u64)
        requires
            old(self).wf(),
        ensures
            final(self).wf(),
            final(self).state() == (MeshView {
                counters: TunnelCounters {
                    segments_rx: old(self).state().counters.segments_rx.wrapping_add(n),
                    ..old(self).state().counters
                },
                ..old(self).state()
            }),
    {
        self.counters.segments_rx = self.counters.segments_rx.wrapping_add(n);
    }

    /// A packet was read from the tunnel device.
    pub fn record_tun_rx(&mut self, bytes: u64)
        requires
            old(self).wf(),
        ensures
            final(self).wf(),
            final(self).state() == (MeshView {
                counters: TunnelCounters {
                    tun_rx_packets: old(self).state().counters.tun_rx_packets.wrapping_add(1),
                    tun_rx_bytes: old(self).state().counters.tun_rx_bytes.wrapping_add(bytes),
                    ..old(self).state().counters
                },
                ..old(self).state()
            }),
    {
        self.counters.tun_rx_packets = self.counters.tun_rx_packets.wrapping_add(1);
        self.counters.tun_rx_bytes = self.counters.tun_rx_bytes.wrapping_add(bytes);
    }

    /// A packet was written to the tunnel device.
    pub fn record_tun_tx(&mut self, bytes: u64)
        requires
            old(self).wf(),
        ensures
            final(self).wf(),
            final(self).state() == (MeshView {
                counters: TunnelCounters {
                    tun_tx_packets: old(self).state().counters.tun_tx_packets.wrapping_add(1),
                    tun_tx_bytes: old(self).state().counters.tun_tx_bytes.wrapping_add(bytes),
                    ..old(self).state().counters
                },
                ..old(self).state()
            }),
    {
        self.counters.tun_tx_packets = self.counters.tun_tx_packets.wrapping_add(1);
        self.counters.tun_tx_bytes = self.counters.tun_tx_bytes.wrapping_add(bytes);
    }

    /// The counters as they stand.
    pub fn counters(&self) -> (r: TunnelCounters)
        ensures
            r == self.state().counters,
    {
        self.counters
    }
}

/// A peer's path is metered.
pub open spec fn metered_peer(m: MeshView, peer: EndpointId) -> bool {
    m.relays.contains_key(peer) && m.relays[peer].metered
}

/// The relay flags without a peer's, if the owner set it.
pub open spec fn without_owner(
    relays: Map<EndpointId, RelayFlag>,
    peer: EndpointId,
    owner: u64,
) -> Map<EndpointId, RelayFlag> {
    if relays.contains_key(peer) && relays[peer].owner == owner {
        relays.remove(peer)
    } else {
        relays
    }
}

pub fn has_text(list: &Vec<String>, s: &String) -> (r: bool)
    ensures
        r == texts(list@).contains(s@),
{
    let ghost all = texts(list@);
    let mut i: usize = 0;
    while i < list.len()
        invariant
            i <= list@.len(),
            all == texts(list@),
            forall|j: int| 0 <= j < i ==> #[trigger] all[j] != s@,
        decreases list@.len() - i,
    {
        assert(all[i as int] == list@[i as int]@);
        if list[i] == *s {
            return true;
        }
        i = i + 1;
    }
    false
}

/// Once a later owner has reported on a peer, an earlier owner can neither
/// change the entry nor take it away.
pub proof fn law_earlier_owner_is_ignored(
    snaps: Map<EndpointId, SnapView>,
    peer: EndpointId,
    owner: u64,
    live: bool,
)
    requires
        snaps.contains_key(peer),
        owner < snaps[peer].owner,
    ensures
        !report_taken(snaps, peer, owner, live),
        snaps[peer].owner != owner,
{
}

/// Only the owner of an entry can report that the connection is gone.
pub proof fn law_only_the_owner_reports_a_loss(
    snaps: Map<EndpointId, SnapView>,
    peer: EndpointId,
    owner: u64,
)
    requires
        snaps.contains_key(peer),
        report_taken(snaps, peer, owner, false),
    ensures
        snaps[peer].owner == owner,
{
}

} // verus!
