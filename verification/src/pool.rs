//! The connection pool: the slots of all peers, and what keeps them alive.

use crate::conn_pool::{
    dial_counted, dial_end, dial_once, dial_outcome, dial_wait, extra_dial_end, fresh_slot,
    get_step, has_live, live, no_metrics, normalize_relay_url, one_suppressed, peer_snapshot, remote_retry_cap,
    remote_retry_delay, state_name, wait_range, AdoptStep, ConnStatus, ConnectResult, DialContext,
    DialEnd, DialOutcome, Gate, GetStep, OnDemandStats, PeerConnSnapshot, PeerConnState, PeerSlot, PoolMetrics,
    SlotAccess, DEFAULT_IDLE_SECS, NANOS_PER_MS, NANOS_PER_SEC, REMOTE_RETRY_CAP_MS,
};
use crate::conn_pool::{adopted, blocked, reconciled, reconciled_extra, shut_slot, swept, touched};
use crate::endpoint::EndpointId;
use crate::membership::texts;
use crate::peer_map::PeerMap;
use crate::text::{lower, to_lower, trim_end_of};
use crate::tunnel_mesh::{has_text, normalize_urls, normalized_urls};
use vstd::hash_map::StringHashMap;
use vstd::prelude::*;

verus! {

/// Who may be connected to, as of a generation of the membership.
#[derive(Debug)]
pub struct TransportAuth {
    pub generation: u64,
    pub members: Vec<EndpointId>,
}

pub struct AuthView {
    pub generation: u64,
    pub members: Seq<EndpointId>,
}

impl View for TransportAuth {
    type V = AuthView;

    open spec fn view(&self) -> AuthView {
        AuthView { generation: self.generation, members: self.members@ }
    }
}

/// What membership says of a peer. Without membership everyone is let in.
pub open spec fn membership_of(auth: Option<AuthView>, peer: EndpointId) -> Gate {
    match auth {
        Some(a) => Gate { allows: a.members.contains(peer), generation: a.generation },
        None => Gate { allows: true, generation: 0 },
    }
}

/// Whether a peer is let in: membership has to allow it, and a peer that was
/// revoked stays out until the generation is another one. `pins` holds the
/// generation in which each peer was last revoked.
pub open spec fn gate_of(
    auth: Option<AuthView>,
    pins: Map<EndpointId, u64>,
    peer: EndpointId,
) -> Gate {
    let g = membership_of(auth, peer);
    Gate {
        allows: g.allows && !(pins.contains_key(peer) && pins[peer] == g.generation),
        generation: g.generation,
    }
}

fn listed(v: &Vec<EndpointId>, peer: &EndpointId) -> (r: bool)
    ensures
        r == v@.contains(*peer),
{
    let mut i: usize = 0;
    while i < v.len()
        invariant
            i <= v@.len(),
            forall|j: int| 0 <= j < i ==> v@[j] != *peer,
        decreases v@.len() - i,
    {
        if v[i] == *peer {
            assert(v@[i as int] == *peer);
            return true;
        }
        i = i + 1;
    }
    false
}

/// Whether a connection is open, by the list of those that are.
pub open spec fn status_in(conn: Option<u64>, open: Seq<u64>) -> ConnStatus {
    match conn {
        Some(c) => if open.contains(c) {
            ConnStatus::Open
        } else {
            ConnStatus::Closed { by_authorization: false }
        },
        None => ConnStatus::Closed { by_authorization: false },
    }
}

fn status_of(conn: Option<u64>, open: &Vec<u64>) -> (r: ConnStatus)
    ensures
        r == status_in(conn, open@),
{
    let c = match conn {
        Some(c) => c,
        None => {
            return ConnStatus::Closed { by_authorization: false };
        },
    };
    let mut i: usize = 0;
    while i < open.len()
        invariant
            i <= open@.len(),
            conn == Some(c),
            forall|j: int| 0 <= j < i ==> open@[j] != c,
        decreases open@.len() - i,
    {
        if open[i] == c {
            assert(open@[i as int] == c);
            return ConnStatus::Open;
        }
        i = i + 1;
    }
    ConnStatus::Closed { by_authorization: false }
}

/// Something that happens to every slot.
#[derive(Clone, Copy, Debug, PartialEq, Eq, Structural)]
pub enum SlotChange {
    /// Membership has changed.
    Membership,
    /// Membership has changed; the slots are those of a secondary protocol.
    MembershipExtra,
    /// The data plane goes down.
    Shut,
    /// Time has passed.
    Idle { timeout: u64, now: u64 },
}

/// What a change depends on besides the slot.
pub struct Surroundings {
    pub auth: Option<AuthView>,
    pub pins: Map<EndpointId, u64>,
    pub keep_alive: bool,
    pub kept: Set<EndpointId>,
    pub open: Seq<u64>,
}

/// A peer's slot after a change, and the connection that is to be closed.
pub open spec fn changed(
    s: PeerSlot,
    peer: EndpointId,
    change: SlotChange,
    by: Surroundings,
) -> (PeerSlot, Option<u64>) {
    match change {
        SlotChange::Membership => reconciled(
            s,
            gate_of(by.auth, by.pins, peer),
            status_in(s.conn, by.open),
        ),
        SlotChange::MembershipExtra => reconciled_extra(s, gate_of(by.auth, by.pins, peer)),
        SlotChange::Shut => (shut_slot(s), s.conn),
        SlotChange::Idle { timeout, now } => swept(
            s,
            by.keep_alive,
            by.kept.contains(peer),
            timeout,
            now,
        ),
    }
}

/// All slots after a change.
pub open spec fn changed_all(
    m: Map<EndpointId, PeerSlot>,
    change: SlotChange,
    by: Surroundings,
) -> Map<EndpointId, PeerSlot> {
    m.map_entries(|k: EndpointId, s: PeerSlot| changed(s, k, change, by).0)
}

/// A change closes a connection.
pub open spec fn closes(
    m: Map<EndpointId, PeerSlot>,
    change: SlotChange,
    by: Surroundings,
    conn: u64,
) -> bool {
    exists|k: EndpointId|
        #[trigger] m.contains_key(k) && changed(m[k], k, change, by).1 == Some(conn)
}

/// A change closes a connection of a secondary protocol.
pub open spec fn closes_extra(
    extra: Seq<Map<EndpointId, PeerSlot>>,
    change: SlotChange,
    by: Surroundings,
    conn: u64,
) -> bool {
    exists|i: int| 0 <= i < extra.len() && closes(#[trigger] extra[i], change, by, conn)
}

/// The sum of all values.
pub open spec fn total(m: Map<EndpointId, u64>) -> nat
    decreases m.dom().len(),
    when m.dom().finite()
{
    if m.dom().len() == 0 {
        0
    } else {
        let k = m.dom().choose();
        m[k] as nat + total(m.remove(k))
    }
}

/// The sum of all values is one of them and the sum of the others.
pub proof fn lemma_total(m: Map<EndpointId, u64>, k: EndpointId)
    requires
        m.dom().finite(),
        m.contains_key(k),
    ensures
        total(m) == m[k] as nat + total(m.remove(k)),
    decreases m.dom().len(),
{
    let c = m.dom().choose();
    assert(m.dom().len() > 0) by {
        if m.dom().len() == 0 {
            assert(m.dom() =~= Set::empty());
        }
    }
    assert(m.dom().contains(c));
    if c != k {
        let rest = m.remove(c);
        assert(rest.dom() =~= m.dom().remove(c));
        lemma_total(rest, k);
        let other = m.remove(k);
        assert(other.dom() =~= m.dom().remove(k));
        lemma_total(other, c);
        assert(rest.remove(k) =~= other.remove(c));
    }
}

/// The peers with an open connection.
pub open spec fn live_slots(m: Map<EndpointId, PeerSlot>, open: Seq<u64>) -> Set<EndpointId> {
    m.dom().filter(|k: EndpointId| live(m[k], status_in(m[k].conn, open)))
}

/// The pool as a value.
pub struct PoolView {
    pub local: EndpointId,
    pub auth: Option<AuthView>,
    /// The generation in which each peer was last revoked.
    pub pins: Map<EndpointId, u64>,
    pub entries: Map<EndpointId, PeerSlot>,
    pub extra: Seq<Map<EndpointId, PeerSlot>>,
    pub keep_alive: bool,
    pub idle_timeout: u64,
    pub hosts: Set<Seq<char>>,
    pub kept: Set<EndpointId>,
    pub metrics: PoolMetrics,
    pub bytes_in: Map<EndpointId, u64>,
    pub bytes_out: Map<EndpointId, u64>,
    pub urls: Seq<Seq<char>>,
    pub relays: Map<EndpointId, bool>,
}

/// The slot of a peer; a fresh one if there is none yet.
pub open spec fn slot_or_fresh(m: Map<EndpointId, PeerSlot>, peer: EndpointId, now: u64) -> PeerSlot {
    if m.contains_key(peer) {
        m[peer]
    } else {
        fresh_slot(now)
    }
}

/// A count, or nothing yet.
pub open spec fn count_of(m: Map<EndpointId, u64>, peer: EndpointId) -> u64 {
    if m.contains_key(peer) {
        m[peer]
    } else {
        0
    }
}

/// The connections of a node: one slot for every peer, and one for every peer
/// and secondary protocol.
pub struct ConnPool {
    local: EndpointId,
    auth: Option<TransportAuth>,
    pins: PeerMap<u64>,
    entries: PeerMap<PeerSlot>,
    extra: Vec<PeerMap<PeerSlot>>,
    keep_alive: bool,
    idle_timeout: u64,
    keep_alive_hosts: StringHashMap<()>,
    keep_alive_peers: PeerMap<()>,
    metrics: PoolMetrics,
    bytes_in: PeerMap<u64>,
    bytes_out: PeerMap<u64>,
    cloud_relay_urls: Vec<String>,
    peer_cloud_relay: PeerMap<bool>,
}

spec fn extra_views(v: Seq<PeerMap<PeerSlot>>) -> Seq<Map<EndpointId, PeerSlot>> {
    Seq::new(v.len(), |i: int| v[i]@)
}

spec fn auth_view(a: Option<TransportAuth>) -> Option<AuthView> {
    match a {
        Some(a) => Some(a@),
        None => None,
    }
}

fn gate(auth: &Option<TransportAuth>, pins: &PeerMap<u64>, peer: &EndpointId) -> (r: Gate)
    requires
        pins.wf(),
    ensures
        r == gate_of(auth_view(*auth), pins@, *peer),
{
    let (allows, generation): (bool, u64) = match auth {
        Some(a) => (listed(&a.members, peer), a.generation),
        None => (true, 0),
    };
    let pinned = match pins.get(peer) {
        Some(g) => *g == generation,
        None => false,
    };
    Gate { allows: allows && !pinned, generation }
}

/// Lets a change happen to every slot of a table.
fn change_all(
    entries: &mut PeerMap<PeerSlot>,
    change: SlotChange,
    auth: &Option<TransportAuth>,
    pins: &PeerMap<u64>,
    keep_alive: bool,
    kept: &PeerMap<()>,
    open: &Vec<u64>,
    out: &mut Vec<u64>,
)
    requires
        old(entries).wf(),
        pins.wf(),
        kept.wf(),
    ensures
        final(entries).wf(),
        ({
            let by = Surroundings {
                auth: auth_view(*auth),
                pins: pins@,
                keep_alive,
                kept: kept@.dom(),
                open: open@,
            };
            &&& final(entries)@ == changed_all(old(entries)@, change, by)
            &&& forall|c: u64| #[trigger]
                final(out)@.contains(c) <==> old(out)@.contains(c) || closes(
                    old(entries)@,
                    change,
                    by,
                    c,
                )
        }),
{
    let ghost by = Surroundings {
        auth: auth_view(*auth),
        pins: pins@,
        keep_alive,
        kept: kept@.dom(),
        open: open@,
    };
    let ghost before = entries@;
    let ghost first = out@;
    let keys = entries.keys();
    let mut i: usize = 0;
    while i < keys.len()
        invariant
            i <= keys@.len(),
            keys@.no_duplicates(),
            forall|k: EndpointId| #[trigger] keys@.contains(k) <==> before.contains_key(k),
            entries.wf(),
            pins.wf(),
            kept.wf(),
            by == (Surroundings {
                auth: auth_view(*auth),
                pins: pins@,
                keep_alive,
                kept: kept@.dom(),
                open: open@,
            }),
            entries@.dom() == before.dom(),
            forall|j: int|
                0 <= j < i ==> entries@[#[trigger] keys@[j]] == changed(
                    before[keys@[j]],
                    keys@[j],
                    change,
                    by,
                ).0,
            forall|j: int| i <= j < keys@.len() ==> entries@[#[trigger] keys@[j]] == before[keys@[j]],
            forall|c: u64| #[trigger]
                out@.contains(c) <==> first.contains(c) || exists|j: int|
                    0 <= j < i && changed(before[#[trigger] keys@[j]], keys@[j], change, by).1
                        == Some(c),
        decreases keys@.len() - i,
    {
        let peer = keys[i];
        let ghost prior = out@;
        proof {
            assert(keys@.contains(keys@[i as int]));
        }
        let mut slot = match entries.get(&peer) {
            Some(s) => *s,
            None => PeerSlot::new(0),
        };
        let g = gate(auth, pins, &peer);
        let status = status_of(slot.conn, open);
        let close = match change {
            SlotChange::Membership => slot.reconcile(g, status),
            SlotChange::MembershipExtra => slot.reconcile_extra(g),
            SlotChange::Shut => slot.shut(),
            SlotChange::Idle { timeout, now } => {
                let kept_peer = kept.contains(&peer);
                slot.sweep(keep_alive, kept_peer, timeout, now)
            },
        };
        entries.insert(peer, slot);
        if let Some(c) = close {
            out.push(c);
        }
        proof {
            assert((slot, close) == changed(before[peer], peer, change, by));
            assert(entries@.dom() =~= before.dom());
            assert forall|c: u64| #[trigger] out@.contains(c) <==> first.contains(c) || exists|j: int|
                0 <= j < i + 1 && changed(before[#[trigger] keys@[j]], keys@[j], change, by).1
                    == Some(c) by {
                if out@.contains(c) {
                    let a = choose|a: int| 0 <= a < out@.len() && out@[a] == c;
                    if a < prior.len() {
                        assert(prior[a] == c);
                        assert(prior.contains(c));
                    } else {
                        assert(changed(before[keys@[i as int]], keys@[i as int], change, by).1
                            == Some(c));
                    }
                }
                if first.contains(c) || exists|j: int|
                    0 <= j < i + 1 && changed(before[#[trigger] keys@[j]], keys@[j], change, by).1
                        == Some(c) {
                    if close == Some(c) {
                        assert(out@[prior.len() as int] == c);
                    } else {
                        assert(prior.contains(c));
                        let a = choose|a: int| 0 <= a < prior.len() && prior[a] == c;
                        assert(out@[a] == c);
                    }
                }
            }
        }
        i = i + 1;
    }
    proof {
        let after = changed_all(before, change, by);
        assert forall|k: EndpointId| before.contains_key(k) implies entries@[k] == #[trigger] after[k] by {
            assert(keys@.contains(k));
            let j = choose|j: int| 0 <= j < keys@.len() && keys@[j] == k;
            assert(entries@[keys@[j]] == after[k]);
        }
        assert(entries@ =~= after);
        assert forall|c: u64| #[trigger] out@.contains(c) <==> first.contains(c) || closes(
            before,
            change,
            by,
            c,
        ) by {
            if closes(before, change, by, c) {
                let k = choose|k: EndpointId| #[trigger]
                    before.contains_key(k) && changed(before[k], k, change, by).1 == Some(c);
                assert(keys@.contains(k));
                let j = choose|j: int| 0 <= j < keys@.len() && keys@[j] == k;
                assert(changed(before[keys@[j]], keys@[j], change, by).1 == Some(c));
            }
            if exists|j: int|
                0 <= j < i && changed(before[#[trigger] keys@[j]], keys@[j], change, by).1 == Some(c) {
                let j = choose|j: int|
                    0 <= j < i && changed(before[#[trigger] keys@[j]], keys@[j], change, by).1
                        == Some(c);
                assert(keys@.contains(keys@[j]));
            }
        }
    }
}

fn sum(m: &PeerMap<u64>) -> (r: u64)
    requires
        m.wf(),
        total(m@) <= u64::MAX,
    ensures
        r == total(m@),
{
    let keys = m.keys();
    let ghost all = m@;
    let ghost mut rest = m@;
    let mut acc: u64 = 0;
    let mut i: usize = 0;
    proof {
        m.lemma_finite();
    }
    while i < keys.len()
        invariant
            i <= keys@.len(),
            m.wf(),
            all == m@,
            keys@.no_duplicates(),
            forall|k: EndpointId| #[trigger] keys@.contains(k) <==> all.contains_key(k),
            rest.dom().finite(),
            forall|k: EndpointId| #[trigger]
                rest.contains_key(k) <==> all.contains_key(k) && !keys@.take(i as int).contains(k),
            forall|k: EndpointId| rest.contains_key(k) ==> #[trigger] rest[k] == all[k],
            acc + total(rest) == total(all),
            total(all) <= u64::MAX,
        decreases keys@.len() - i,
    {
        let k = keys[i];
        proof {
            assert(keys@.contains(keys@[i as int]));
            let done = keys@.take(i as int);
            if done.contains(k) {
                let j = choose|j: int| 0 <= j < done.len() && done[j] == k;
                assert(keys@[j] == keys@[i as int]);
            }
            assert(rest.contains_key(k));
            lemma_total(rest, k);
            let next = keys@.take(i + 1);
            assert forall|x: EndpointId| next.contains(x) <==> done.contains(x) || x == k by {
                if next.contains(x) {
                    let j = choose|j: int| 0 <= j < next.len() && next[j] == x;
                    if j < i {
                        assert(done[j] == x);
                    }
                }
                if done.contains(x) {
                    let j = choose|j: int| 0 <= j < done.len() && done[j] == x;
                    assert(next[j] == x);
                }
                if x == k {
                    assert(next[i as int] == x);
                }
            }
        }
        let n: u64 = match m.get(&k) {
            Some(n) => *n,
            None => 0,
        };
        acc = acc + n;
        proof {
            rest = rest.remove(k);
        }
        i = i + 1;
    }
    proof {
        assert(keys@.take(i as int) =~= keys@);
        assert(rest.dom() =~= Set::empty()) by {
            assert forall|k: EndpointId| !rest.dom().contains(k) by {
                if rest.contains_key(k) {
                    assert(keys@.contains(k));
                }
            }
        }
    }
    acc
}

fn count_live(m: &PeerMap<PeerSlot>, open: &Vec<u64>) -> (r: u32)
    requires
        m.wf(),
    ensures
        r as int == live_slots(m@, open@).len() as int % 0x1_0000_0000,
        live_slots(m@, open@).finite(),
{
    let keys = m.keys();
    let ghost all = live_slots(m@, open@);
    let ghost mut seen: Set<EndpointId> = Set::empty();
    let mut n: u64 = 0;
    let mut i: usize = 0;
    while i < keys.len()
        invariant
            i <= keys@.len(),
            m.wf(),
            all == live_slots(m@, open@),
            keys@.no_duplicates(),
            forall|k: EndpointId| #[trigger] keys@.contains(k) <==> m@.contains_key(k),
            seen.finite(),
            n == seen.len(),
            n <= i,
            forall|k: EndpointId| #[trigger]
                seen.contains(k) <==> all.contains(k) && keys@.take(i as int).contains(k),
        decreases keys@.len() - i,
    {
        let k = keys[i];
        let ghost done = keys@.take(i as int);
        let ghost next = keys@.take(i + 1);
        proof {
            assert(keys@.contains(keys@[i as int]));
            if done.contains(k) {
                let j = choose|j: int| 0 <= j < done.len() && done[j] == k;
                assert(keys@[j] == keys@[i as int]);
            }
            assert forall|x: EndpointId| next.contains(x) <==> done.contains(x) || x == k by {
                if next.contains(x) {
                    let j = choose|j: int| 0 <= j < next.len() && next[j] == x;
                    if j < i {
                        assert(done[j] == x);
                    }
                }
                if done.contains(x) {
                    let j = choose|j: int| 0 <= j < done.len() && done[j] == x;
                    assert(next[j] == x);
                }
                if x == k {
                    assert(next[i as int] == x);
                }
            }
        }
        let up = match m.get(&k) {
            Some(slot) => has_live(
                &SlotAccess::Seen { slot: *slot, status: status_of(slot.conn, open) },
            ),
            None => false,
        };
        if up {
            n = n + 1;
            proof {
                seen = seen.insert(k);
            }
        }
        i = i + 1;
    }
    proof {
        assert(keys@.take(i as int) =~= keys@);
        assert(seen =~= all) by {
            assert forall|k: EndpointId| all.contains(k) implies seen.contains(k) by {
                assert(m@.contains_key(k));
                assert(keys@.contains(k));
            }
        }
    }
    (n % 0x1_0000_0000) as u32
}

/// A look at a peer's slot.
pub open spec fn access_of(m: Map<EndpointId, PeerSlot>, peer: EndpointId, status: ConnStatus) -> SlotAccess {
    if m.contains_key(peer) {
        SlotAccess::Seen { slot: m[peer], status }
    } else {
        SlotAccess::Absent
    }
}

fn access(m: &PeerMap<PeerSlot>, peer: &EndpointId, status: ConnStatus) -> (r: SlotAccess)
    requires
        m.wf(),
    ensures
        r == access_of(m@, *peer, status),
{
    match m.get(peer) {
        Some(slot) => SlotAccess::Seen { slot: *slot, status },
        None => SlotAccess::Absent,
    }
}

fn slot_for(m: &PeerMap<PeerSlot>, peer: &EndpointId, now: u64) -> (r: PeerSlot)
    requires
        m.wf(),
    ensures
        r == slot_or_fresh(m@, *peer, now),
{
    match m.get(peer) {
        Some(slot) => *slot,
        None => PeerSlot::new(now),
    }
}

impl ConnPool {
    /// The pool as a value.
    pub closed spec fn state(self) -> PoolView {
        PoolView {
            local: self.local,
            auth: auth_view(self.auth),
            pins: self.pins@,
            entries: self.entries@,
            extra: extra_views(self.extra@),
            keep_alive: self.keep_alive,
            idle_timeout: self.idle_timeout,
            hosts: self.keep_alive_hosts@.dom(),
            kept: self.keep_alive_peers@.dom(),
            metrics: self.metrics,
            bytes_in: self.bytes_in@,
            bytes_out: self.bytes_out@,
            urls: texts(self.cloud_relay_urls@),
            relays: self.peer_cloud_relay@,
        }
    }

    pub closed spec fn wf(self) -> bool {
        &&& self.pins.wf()
        &&& self.entries.wf()
        &&& forall|i: int| 0 <= i < self.extra@.len() ==> (#[trigger] self.extra@[i]).wf()
        &&& self.keep_alive_peers.wf()
        &&& self.bytes_in.wf()
        &&& self.bytes_out.wf()
        &&& self.peer_cloud_relay.wf()
    }

    /// What a change depends on.
    pub open spec fn around(self, open: Seq<u64>) -> Surroundings {
        Surroundings {
            auth: self.state().auth,
            pins: self.state().pins,
            keep_alive: self.state().keep_alive,
            kept: self.state().kept,
            open,
        }
    }

    /// A pool without connections, with a number of secondary protocols.
    /// Connections are kept alive until told otherwise.
    pub fn new(local: EndpointId, secondary: usize) -> (r: ConnPool)
        ensures
            r.wf(),
            r.state() == (PoolView {
                local,
                auth: None,
                pins: Map::empty(),
                entries: Map::empty(),
                extra: Seq::new(secondary as nat, |i: int| Map::empty()),
                keep_alive: true,
                idle_timeout: (DEFAULT_IDLE_SECS * NANOS_PER_SEC) as u64,
                hosts: Set::empty(),
                kept: Set::empty(),
                metrics: no_metrics(),
                bytes_in: Map::empty(),
                bytes_out: Map::empty(),
                urls: Seq::empty(),
                relays: Map::empty(),
            }),
    {
        let mut extra: Vec<PeerMap<PeerSlot>> = Vec::new();
        let mut i: usize = 0;
        while i < secondary
            invariant
                i <= secondary,
                extra@.len() == i,
                forall|j: int|
                    0 <= j < i ==> (#[trigger] extra@[j]).wf() && extra@[j]@ == Map::<
                        EndpointId,
                        PeerSlot,
                    >::empty(),
            decreases secondary - i,
        {
            extra.push(PeerMap::new());
            i = i + 1;
        }
        let r = ConnPool {
            local,
            auth: None,
            pins: PeerMap::new(),
            entries: PeerMap::new(),
            extra,
            keep_alive: true,
            idle_timeout: DEFAULT_IDLE_SECS * NANOS_PER_SEC,
            keep_alive_hosts: StringHashMap::new(),
            keep_alive_peers: PeerMap::new(),
            metrics: PoolMetrics::new(),
            bytes_in: PeerMap::new(),
            bytes_out: PeerMap::new(),
            cloud_relay_urls: Vec::new(),
            peer_cloud_relay: PeerMap::new(),
        };
        proof {
            assert(r.state().hosts =~= Set::empty());
            assert(r.state().kept =~= Set::empty());
            assert(r.state().urls =~= Seq::empty());
            assert(r.state().extra =~= Seq::new(
                secondary as nat,
                |i: int| Map::<EndpointId, PeerSlot>::empty(),
            ));
        }
        r
    }

    /// Sets who may be connected to.
    pub fn set_transport_auth(&mut self, auth: TransportAuth)
        requires
            old(self).wf(),
        ensures
            final(self).wf(),
            final(self).state() == (PoolView { auth: Some(auth@), ..old(self).state() }),
    {
        self.auth = Some(auth);
    }

    /// Who may be connected to, if that was set.
    pub fn transport_auth(&self) -> (r: Option<&TransportAuth>)
        ensures
            r is Some <==> self.state().auth is Some,
            r matches Some(a) ==> self.state().auth == Some(a@),
    {
        match &self.auth {
            Some(a) => Some(a),
            None => None,
        }
    }

    /// Whether a peer is let in, as of which generation.
    pub fn gate(&self, peer: EndpointId) -> (r: Gate)
        requires
            self.wf(),
        ensures
            r == gate_of(self.state().auth, self.state().pins, peer),
    {
        gate(&self.auth, &self.pins, &peer)
    }

    pub fn set_keep_alive(&mut self, enabled: bool)
        requires
            old(self).wf(),
        ensures
            final(self).wf(),
            final(self).state() == (PoolView { keep_alive: enabled, ..old(self).state() }),
    {
        self.keep_alive = enabled;
    }

    pub fn keep_alive(&self) -> (r: bool)
        ensures
            r == self.state().keep_alive,
    {
        self.keep_alive
    }

    pub fn keep_alive_global(&self) -> (r: bool)
        ensures
            r == self.state().keep_alive,
    {
        self.keep_alive
    }

    /// Sets after how many nanoseconds a connection counts as idle.
    pub fn set_idle_timeout(&mut self, timeout: u64)
        requires
            old(self).wf(),
        ensures
            final(self).wf(),
            final(self).state() == (PoolView { idle_timeout: timeout, ..old(self).state() }),
    {
        self.idle_timeout = timeout;
    }

    pub fn add_keep_alive_host(&mut self, hostname: &str)
        requires
            old(self).wf(),
        ensures
            final(self).wf(),
            final(self).state() == (PoolView {
                hosts: old(self).state().hosts.insert(lower(hostname@)),
                ..old(self).state()
            }),
    {
        self.keep_alive_hosts.insert(to_lower(hostname), ());
        proof {
            assert(self.state().hosts =~= old(self).state().hosts.insert(lower(hostname@)));
        }
    }

    pub fn remove_keep_alive_host(&mut self, hostname: &str)
        requires
            old(self).wf(),
        ensures
            final(self).wf(),
            final(self).state() == (PoolView {
                hosts: old(self).state().hosts.remove(lower(hostname@)),
                ..old(self).state()
            }),
    {
        let key = to_lower(hostname);
        self.keep_alive_hosts.remove(key.as_str());
        proof {
            assert(self.state().hosts =~= old(self).state().hosts.remove(lower(hostname@)));
        }
    }

    /// Keeps the connection to a peer alive, or no longer; the peer's slot
    /// knows as well.
    pub fn set_peer_keep_alive(&mut self, peer: EndpointId, enabled: bool, now: u64)
        requires
            old(self).wf(),
        ensures
            final(self).wf(),
            ({
                let p = old(self).state();
                final(self).state() == (PoolView {
                    kept: if enabled {
                        p.kept.insert(peer)
                    } else {
                        p.kept.remove(peer)
                    },
                    entries: p.entries.insert(
                        peer,
                        PeerSlot {
                            peer_keep_alive: enabled,
                            ..slot_or_fresh(p.entries, peer, now)
                        },
                    ),
                    ..p
                })
            }),
    {
        let mut slot = slot_for(&self.entries, &peer, now);
        slot.peer_keep_alive = enabled;
        self.entries.insert(peer, slot);
        if enabled {
            self.keep_alive_peers.insert(peer, ());
            proof {
                assert(self.state().kept =~= old(self).state().kept.insert(peer));
            }
        } else {
            let _gone = self.keep_alive_peers.remove(&peer);
            proof {
                assert(self.state().kept =~= old(self).state().kept.remove(peer));
            }
        }
    }

    pub fn on_demand_stats(&self) -> (r: OnDemandStats)
        ensures
            ({
                let m = self.state().metrics;
                r == (OnDemandStats {
                    reconnect_attempts: m.reconnect_attempts,
                    reconnect_success: m.reconnect_success,
                    reconnect_fail: m.reconnect_fail,
                    packets_buffered: m.packets_buffered,
                    packets_dropped_timeout: m.packets_dropped_timeout,
                    packets_dropped_blocked: m.packets_dropped_blocked,
                    dials_suppressed: m.dials_suppressed,
                    reconnect_latency_avg_us: if m.reconnect_success == 0 {
                        0
                    } else {
                        m.reconnect_latency_sum_us / m.reconnect_success
                    },
                    reconnect_latency_max_us: m.reconnect_latency_max_us,
                })
            }),
    {
        self.metrics.on_demand_stats()
    }

    /// Decides for a caller that wants a connection to a peer, with the
    /// cooldown for a rejection given.
    pub fn get_with(&mut self, peer: EndpointId, status: ConnStatus, now: u64, retry_ms: u64) -> (r:
        GetStep)
        requires
            old(self).wf(),
            now + retry_ms * NANOS_PER_MS <= u64::MAX,
        ensures
            final(self).wf(),
            ({
                let p = old(self).state();
                let out = get_step(
                    slot_or_fresh(p.entries, peer, now),
                    p.metrics,
                    gate_of(p.auth, p.pins, peer),
                    status,
                    now,
                    retry_ms,
                );
                &&& final(self).state() == (PoolView {
                    entries: p.entries.insert(peer, out.0),
                    metrics: out.1,
                    ..p
                })
                &&& r == out.2
            }),
    {
        let g = gate(&self.auth, &self.pins, &peer);
        let mut slot = slot_for(&self.entries, &peer, now);
        let r = slot.begin_get_with(&mut self.metrics, g, status, now, retry_ms);
        self.entries.insert(peer, slot);
        r
    }

    /// Decides for a caller that wants a connection to a peer. A rejection
    /// that comes to light cools down for between five and ten seconds.
    pub fn get(&mut self, peer: EndpointId, status: ConnStatus, now: u64) -> (r: GetStep)
        requires
            old(self).wf(),
            now + REMOTE_RETRY_CAP_MS * NANOS_PER_MS <= u64::MAX,
        ensures
            final(self).wf(),
            ({
                let p = old(self).state();
                exists|retry_ms: u64|
                    remote_retry_cap(0) / 2 <= retry_ms <= remote_retry_cap(0) && ({
                        let out = #[trigger] get_step(
                            slot_or_fresh(p.entries, peer, now),
                            p.metrics,
                            gate_of(p.auth, p.pins, peer),
                            status,
                            now,
                            retry_ms,
                        );
                        &&& final(self).state() == (PoolView {
                            entries: p.entries.insert(peer, out.0),
                            metrics: out.1,
                            ..p
                        })
                        &&& r == out.2
                    })
            }),
    {
        let retry_ms: u64 = remote_retry_delay(0);
        self.get_with(peer, status, now, retry_ms)
    }

    /// Counts a connect and classifies it.
    pub fn dial_once(&mut self, result: ConnectResult) -> (r: DialOutcome)
        requires
            old(self).wf(),
        ensures
            final(self).wf(),
            r == dial_outcome(result),
            final(self).state() == (PoolView {
                metrics: dial_counted(old(self).state().metrics, result),
                ..old(self).state()
            }),
    {
        dial_once(&mut self.metrics, result)
    }

    /// Takes the outcome of a dial in, with the wait after a failure given.
    pub fn dialled_with(
        &mut self,
        peer: EndpointId,
        ctx: DialContext,
        outcome: DialOutcome,
        status: ConnStatus,
        now: u64,
        wait_ms: u64,
    ) -> (r: DialEnd)
        requires
            old(self).wf(),
            now + wait_ms * NANOS_PER_MS <= u64::MAX,
        ensures
            final(self).wf(),
            ({
                let p = old(self).state();
                let out = dial_end(
                    slot_or_fresh(p.entries, peer, now),
                    p.metrics,
                    ctx,
                    p.local,
                    peer,
                    outcome,
                    gate_of(p.auth, p.pins, peer),
                    status,
                    now,
                    wait_ms,
                );
                &&& final(self).state() == (PoolView {
                    entries: p.entries.insert(peer, out.0),
                    metrics: out.1,
                    ..p
                })
                &&& r == out.2
            }),
    {
        let g = gate(&self.auth, &self.pins, &peer);
        let local = self.local;
        let mut slot = slot_for(&self.entries, &peer, now);
        let r = slot.finish_dial_with(
            &mut self.metrics,
            ctx,
            &local,
            &peer,
            outcome,
            g,
            status,
            now,
            wait_ms,
        );
        self.entries.insert(peer, slot);
        r
    }

    /// Takes the outcome of a dial in.
    pub fn dialled(
        &mut self,
        peer: EndpointId,
        ctx: DialContext,
        outcome: DialOutcome,
        status: ConnStatus,
        now: u64,
    ) -> (r: DialEnd)
        requires
            old(self).wf(),
            now + REMOTE_RETRY_CAP_MS * NANOS_PER_MS <= u64::MAX,
        ensures
            final(self).wf(),
            ({
                let p = old(self).state();
                let g = gate_of(p.auth, p.pins, peer);
                exists|wait_ms: u64|
                    wait_range(ctx, outcome, g, now, wait_ms) && ({
                        let out = #[trigger] dial_end(
                            slot_or_fresh(p.entries, peer, now),
                            p.metrics,
                            ctx,
                            p.local,
                            peer,
                            outcome,
                            g,
                            status,
                            now,
                            wait_ms,
                        );
                        &&& final(self).state() == (PoolView {
                            entries: p.entries.insert(peer, out.0),
                            metrics: out.1,
                            ..p
                        })
                        &&& r == out.2
                    })
            }),
    {
        let wait_ms: u64 = dial_wait(ctx, outcome, gate(&self.auth, &self.pins, &peer), now);
        self.dialled_with(peer, ctx, outcome, status, now, wait_ms)
    }

    /// Decides for a caller that wants a connection with a secondary protocol.
    pub fn get_alpn(
        &mut self,
        alpn: usize,
        peer: EndpointId,
        status: ConnStatus,
        now: u64,
        retry_ms: u64,
    ) -> (r: GetStep)
        requires
            old(self).wf(),
            alpn < old(self).state().extra.len(),
            now + retry_ms * NANOS_PER_MS <= u64::MAX,
        ensures
            final(self).wf(),
            ({
                let p = old(self).state();
                let table = p.extra[alpn as int];
                let out = get_step(
                    slot_or_fresh(table, peer, now),
                    p.metrics,
                    gate_of(p.auth, p.pins, peer),
                    status,
                    now,
                    retry_ms,
                );
                &&& final(self).state() == (PoolView {
                    extra: p.extra.update(alpn as int, table.insert(peer, out.0)),
                    metrics: out.1,
                    ..p
                })
                &&& r == out.2
            }),
    {
        let g = gate(&self.auth, &self.pins, &peer);
        let mut slot = slot_for(&self.extra[alpn], &peer, now);
        let r = slot.begin_get_with(&mut self.metrics, g, status, now, retry_ms);
        self.set_extra(alpn, peer, slot);
        r
    }

    /// Takes the outcome of a dial with a secondary protocol in.
    pub fn dialled_alpn(
        &mut self,
        alpn: usize,
        peer: EndpointId,
        ctx: DialContext,
        outcome: DialOutcome,
        now: u64,
        wait_ms: u64,
    ) -> (r: DialEnd)
        requires
            old(self).wf(),
            alpn < old(self).state().extra.len(),
            now + wait_ms * NANOS_PER_MS <= u64::MAX,
        ensures
            final(self).wf(),
            ({
                let p = old(self).state();
                let table = p.extra[alpn as int];
                let out = extra_dial_end(
                    slot_or_fresh(table, peer, now),
                    p.metrics,
                    ctx,
                    outcome,
                    gate_of(p.auth, p.pins, peer),
                    now,
                    wait_ms,
                );
                &&& final(self).state() == (PoolView {
                    extra: p.extra.update(alpn as int, table.insert(peer, out.0)),
                    metrics: out.1,
                    ..p
                })
                &&& r == out.2
            }),
    {
        let g = gate(&self.auth, &self.pins, &peer);
        let mut slot = slot_for(&self.extra[alpn], &peer, now);
        let r = slot.finish_extra_dial_with(&mut self.metrics, ctx, outcome, g, now, wait_ms);
        self.set_extra(alpn, peer, slot);
        r
    }

    fn set_extra(&mut self, alpn: usize, peer: EndpointId, slot: PeerSlot)
        requires
            old(self).wf(),
            alpn < old(self).state().extra.len(),
        ensures
            final(self).wf(),
            final(self).state() == (PoolView {
                extra: old(self).state().extra.update(
                    alpn as int,
                    old(self).state().extra[alpn as int].insert(peer, slot),
                ),
                ..old(self).state()
            }),
    {
        let ghost before = self.state().extra;
        let mut table = self.extra.remove(alpn);
        table.insert(peer, slot);
        self.extra.insert(alpn, table);
        proof {
            let now = self.extra@;
            assert forall|i: int| 0 <= i < now.len() implies (#[trigger] now[i]).wf() by {
                if i != alpn {
                    assert(now[i] == old(self).extra@[i]);
                }
            }
            assert(self.state().extra =~= before.update(
                alpn as int,
                before[alpn as int].insert(peer, slot),
            ));
        }
    }

    /// Takes an accepted connection in.
    pub fn adopt(&mut self, peer: EndpointId, conn: u64, status: ConnStatus, now: u64) -> (r:
        AdoptStep)
        requires
            old(self).wf(),
        ensures
            final(self).wf(),
            ({
                let p = old(self).state();
                let g = gate_of(p.auth, p.pins, peer);
                let out = adopted(
                    slot_or_fresh(p.entries, peer, now),
                    g,
                    p.local,
                    peer,
                    conn,
                    status,
                    now,
                );
                &&& r == out.1
                &&& final(self).state() == (if g.allows {
                    PoolView { entries: p.entries.insert(peer, out.0), ..p }
                } else {
                    p
                })
            }),
    {
        let g = gate(&self.auth, &self.pins, &peer);
        let local = self.local;
        let mut slot = slot_for(&self.entries, &peer, now);
        let r = slot.adopt(g, &local, &peer, conn, status, now);
        if g.allows {
            self.entries.insert(peer, slot);
        }
        r
    }

    /// Revokes a peer, whether the pool knows it or not: its slot is blocked,
    /// it is let in again only once the generation is another one, and its
    /// secondary protocols are forgotten. Hands out the connections to close.
    pub fn revoke_peer(&mut self, peer: EndpointId, now: u64) -> (r: Vec<u64>)
        requires
            old(self).wf(),
        ensures
            final(self).wf(),
            final(self).state() == revoked(old(self).state(), peer, now),
            forall|c: u64| #[trigger] r@.contains(c) <==> held_for(old(self).state(), peer, c),
    {
        let ghost p = self.state();
        let generation: u64 = gate(&self.auth, &self.pins, &peer).generation;
        let mut out: Vec<u64> = Vec::new();
        let mut slot = slot_for(&self.entries, &peer, now);
        if let Some(c) = slot.revoke(generation) {
            out.push(c);
            assert(out@[0] == c);
        }
        let ghost first = out@;
        self.entries.insert(peer, slot);
        self.pins.insert(peer, generation);
        self.forget_extra(peer, &mut out);
        proof {
            assert forall|c: u64| #[trigger] out@.contains(c) <==> held_for(p, peer, c) by {
                assert(first.contains(c) <==> p.entries.contains_key(peer) && p.entries[peer].conn
                    == Some(c));
            }
        }
        out
    }

    /// Forgets a peer.
    pub fn drop_peer(&mut self, peer: EndpointId)
        requires
            old(self).wf(),
        ensures
            final(self).wf(),
            final(self).state() == (PoolView {
                entries: old(self).state().entries.remove(peer),
                extra: without_peer(old(self).state().extra, peer),
                ..old(self).state()
            }),
    {
        let _gone = self.entries.remove(&peer);
        let mut out: Vec<u64> = Vec::new();
        self.forget_extra(peer, &mut out);
    }

    /// Forgets a peer's secondary protocols, and lists their connections.
    fn forget_extra(&mut self, peer: EndpointId, out: &mut Vec<u64>)
        requires
            old(self).wf(),
        ensures
            final(self).wf(),
            final(self).state() == (PoolView {
                extra: without_peer(old(self).state().extra, peer),
                ..old(self).state()
            }),
            forall|c: u64| #[trigger]
                final(out)@.contains(c) <==> old(out)@.contains(c) || held_extra(
                    old(self).state().extra,
                    peer,
                    c,
                ),
    {
        let ghost before = self.state();
        let ghost first = out@;
        let n: usize = self.extra.len();
        let mut i: usize = 0;
        while i < n
            invariant
                i <= n,
                n == self.extra@.len(),
                n == before.extra.len(),
                self.wf(),
                self.state() == (PoolView { extra: self.state().extra, ..before }),
                forall|j: int|
                    0 <= j < i ==> (#[trigger] self.state().extra[j]) == before.extra[j].remove(peer),
                forall|j: int| i <= j < n ==> (#[trigger] self.state().extra[j]) == before.extra[j],
                forall|c: u64| #[trigger]
                    out@.contains(c) <==> first.contains(c) || held_extra(
                        before.extra.take(i as int),
                        peer,
                        c,
                    ),
            decreases n - i,
        {
            let ghost prior = self.extra@;
            let ghost seen = self.state().extra;
            let ghost listed = out@;
            let mut table = self.extra.remove(i);
            proof {
                assert(prior[i as int].wf());
                assert(seen[i as int] == before.extra[i as int]);
            }
            let gone = table.remove(&peer);
            self.extra.insert(i, table);
            let close: Option<u64> = match gone {
                Some(slot) => slot.conn,
                None => None,
            };
            if let Some(c) = close {
                out.push(c);
            }
            proof {
                assert forall|c: u64| #[trigger] out@.contains(c) <==> first.contains(c)
                    || held_extra(before.extra.take(i + 1), peer, c) by {
                    lemma_held_extra(before.extra, i as int, peer, c);
                    assert(out@.contains(c) <==> listed.contains(c) || close == Some(c)) by {
                        if close is Some {
                            vstd::seq_lib::lemma_seq_contains_after_push(listed, close->0, c);
                        }
                    }
                }
                let now = self.extra@;
                assert forall|k: int| 0 <= k < now.len() implies (#[trigger] now[k]).wf() by {
                    if k != i {
                        assert(now[k] == prior[k]);
                    }
                }
                assert(self.state().extra =~= seen.update(i as int, seen[i as int].remove(peer)));
            }
            i = i + 1;
        }
        proof {
            assert(self.state().extra =~= without_peer(before.extra, peer));
            assert(before.extra.take(n as int) =~= before.extra);
        }
    }

    /// Notes traffic with a peer.
    pub fn touch_peer(&mut self, peer: EndpointId, status: ConnStatus, now: u64)
        requires
            old(self).wf(),
        ensures
            final(self).wf(),
            ({
                let p = old(self).state();
                final(self).state() == (if p.entries.contains_key(peer) {
                    PoolView {
                        entries: p.entries.insert(
                            peer,
                            touched(
                                p.entries[peer],
                                gate_of(p.auth, p.pins, peer).generation,
                                status,
                                now,
                            ),
                        ),
                        ..p
                    }
                } else {
                    p
                })
            }),
    {
        if self.entries.contains(&peer) {
            let g = gate(&self.auth, &self.pins, &peer);
            let mut slot = slot_for(&self.entries, &peer, now);
            slot.touch(g.generation, status, now);
            self.entries.insert(peer, slot);
        }
    }

    /// Whether a peer's slot holds an open connection.
    pub fn has_live(&self, peer: EndpointId, status: ConnStatus) -> (r: bool)
        requires
            self.wf(),
        ensures
            ({
                let m = self.state().entries;
                r == (m.contains_key(peer) && live(m[peer], status))
            }),
    {
        has_live(&access(&self.entries, &peer, status))
    }

    /// Whether any slot holds an open connection.
    pub fn has_any_live(&self, open: &Vec<u64>) -> (r: bool)
        requires
            self.wf(),
        ensures
            r == (exists|k: EndpointId| live_slots(self.state().entries, open@).contains(k)),
    {
        let keys = self.entries.keys();
        let mut i: usize = 0;
        while i < keys.len()
            invariant
                i <= keys@.len(),
                self.wf(),
                forall|k: EndpointId| #[trigger]
                    keys@.contains(k) <==> self.state().entries.contains_key(k),
                forall|j: int|
                    0 <= j < i ==> !live_slots(self.state().entries, open@).contains(
                        #[trigger] keys@[j],
                    ),
            decreases keys@.len() - i,
        {
            let k = keys[i];
            proof {
                assert(keys@.contains(keys@[i as int]));
            }
            if let Some(slot) = self.entries.get(&k) {
                let status = status_of(slot.conn, open);
                if has_live(&SlotAccess::Seen { slot: *slot, status }) {
                    assert(live_slots(self.state().entries, open@).contains(k));
                    return true;
                }
            }
            i = i + 1;
        }
        proof {
            assert forall|k: EndpointId| !live_slots(self.state().entries, open@).contains(k) by {
                if live_slots(self.state().entries, open@).contains(k) {
                    assert(keys@.contains(k));
                    let j = choose|j: int| 0 <= j < keys@.len() && keys@[j] == k;
                    assert(!live_slots(self.state().entries, open@).contains(keys@[j]));
                }
            }
        }
        false
    }

    /// The number of live connections, modulo 2^32, and the bytes sent and
    /// received in all.
    pub fn heartbeat_counters(&self, open: &Vec<u64>) -> (r: (u32, u64, u64))
        requires
            self.wf(),
            total(self.state().bytes_in) <= u64::MAX,
            total(self.state().bytes_out) <= u64::MAX,
        ensures
            r.0 as int == live_slots(self.state().entries, open@).len() as int % 0x1_0000_0000,
            r.1 == total(self.state().bytes_out),
            r.2 == total(self.state().bytes_in),
    {
        (count_live(&self.entries, open), sum(&self.bytes_out), sum(&self.bytes_in))
    }

    /// Counts bytes sent to a peer, and says whether they are to be metered.
    pub fn record_bytes_out(&mut self, peer: EndpointId, n: u64) -> (r: bool)
        requires
            old(self).wf(),
        ensures
            final(self).wf(),
            ({
                let p = old(self).state();
                &&& final(self).state() == (PoolView {
                    bytes_out: p.bytes_out.insert(
                        peer,
                        count_of(p.bytes_out, peer).wrapping_add(n),
                    ),
                    ..p
                })
                &&& r == (p.relays.contains_key(peer) && p.relays[peer])
            }),
    {
        let so_far: u64 = match self.bytes_out.get(&peer) {
            Some(b) => *b,
            None => 0,
        };
        self.bytes_out.insert(peer, so_far.wrapping_add(n));
        match self.peer_cloud_relay.get(&peer) {
            Some(metered) => *metered,
            None => false,
        }
    }

    /// Counts bytes received from a peer.
    pub fn record_bytes_in(&mut self, peer: EndpointId, n: u64)
        requires
            old(self).wf(),
        ensures
            final(self).wf(),
            final(self).state() == (PoolView {
                bytes_in: old(self).state().bytes_in.insert(
                    peer,
                    count_of(old(self).state().bytes_in, peer).wrapping_add(n),
                ),
                ..old(self).state()
            }),
    {
        let so_far: u64 = match self.bytes_in.get(&peer) {
            Some(b) => *b,
            None => 0,
        };
        self.bytes_in.insert(peer, so_far.wrapping_add(n));
    }

    /// Bytes received from and sent to a peer.
    pub fn peer_bytes(&self, peer: EndpointId) -> (r: (u64, u64))
        requires
            self.wf(),
        ensures
            r == (count_of(self.state().bytes_in, peer), count_of(self.state().bytes_out, peer)),
    {
        let inn: u64 = match self.bytes_in.get(&peer) {
            Some(b) => *b,
            None => 0,
        };
        let out: u64 = match self.bytes_out.get(&peer) {
            Some(b) => *b,
            None => 0,
        };
        (inn, out)
    }

    /// The report on a peer's connection.
    pub fn peer_snapshot(&self, peer: EndpointId, status: ConnStatus, now: u64) -> (r:
        PeerConnSnapshot)
        requires
            self.wf(),
        ensures
            r.path@ == "unknown"@,
            ({
                let p = self.state();
                let kept = p.keep_alive || p.kept.contains(peer);
                if p.entries.contains_key(peer) {
                    let slot = p.entries[peer];
                    &&& r.state@ == state_name(slot.state)
                    &&& r.keep_alive == (kept || slot.peer_keep_alive)
                    &&& r.last_activity_secs_ago == now.saturating_sub(slot.last_activity)
                        / NANOS_PER_SEC
                    &&& r.live == live(slot, status)
                } else {
                    &&& r.state@ == "idle"@
                    &&& r.keep_alive == kept
                    &&& r.last_activity_secs_ago == u64::MAX
                    &&& !r.live
                }
            }),
    {
        let kept = self.keep_alive || self.keep_alive_peers.contains(&peer);
        peer_snapshot(&access(&self.entries, &peer, status), kept, now)
    }

    /// Brings every slot in line with changed membership, and lists the
    /// connections to close.
    pub fn reconcile(&mut self, open: &Vec<u64>) -> (r: Vec<u64>)
        requires
            old(self).wf(),
        ensures
            final(self).wf(),
            ({
                let p = old(self).state();
                let by = old(self).around(open@);
                &&& final(self).state() == (PoolView {
                    entries: changed_all(p.entries, SlotChange::Membership, by),
                    extra: changed_each(p.extra, SlotChange::MembershipExtra, by),
                    ..p
                })
                &&& forall|c: u64| #[trigger]
                    r@.contains(c) <==> closes(p.entries, SlotChange::Membership, by, c)
                        || closes_extra(p.extra, SlotChange::MembershipExtra, by, c)
            }),
    {
        self.change(SlotChange::Membership, SlotChange::MembershipExtra, open)
    }

    /// Closes every connection because the data plane goes down, and lists
    /// them.
    pub fn close_all(&mut self) -> (r: Vec<u64>)
        requires
            old(self).wf(),
        ensures
            final(self).wf(),
            ({
                let p = old(self).state();
                let by = old(self).around(Seq::empty());
                &&& final(self).state() == (PoolView {
                    entries: changed_all(p.entries, SlotChange::Shut, by),
                    extra: changed_each(p.extra, SlotChange::Shut, by),
                    ..p
                })
                &&& forall|c: u64| #[trigger]
                    r@.contains(c) <==> closes(p.entries, SlotChange::Shut, by, c) || closes_extra(
                        p.extra,
                        SlotChange::Shut,
                        by,
                        c,
                    )
            }),
    {
        let open: Vec<u64> = Vec::new();
        proof {
            assert(open@ =~= Seq::empty());
        }
        self.change(SlotChange::Shut, SlotChange::Shut, &open)
    }

    /// Closes the connections that have been idle for the timeout, and lists
    /// them. Secondary protocols are not looked at.
    pub fn sweep_idle(&mut self, now: u64) -> (r: Vec<u64>)
        requires
            old(self).wf(),
        ensures
            final(self).wf(),
            ({
                let p = old(self).state();
                let by = old(self).around(Seq::empty());
                let change = SlotChange::Idle { timeout: p.idle_timeout, now };
                &&& final(self).state() == (PoolView {
                    entries: changed_all(p.entries, change, by),
                    ..p
                })
                &&& forall|c: u64| #[trigger]
                    r@.contains(c) <==> closes(p.entries, change, by, c)
            }),
    {
        let open: Vec<u64> = Vec::new();
        proof {
            assert(open@ =~= Seq::empty());
        }
        let mut out: Vec<u64> = Vec::new();
        change_all(
            &mut self.entries,
            SlotChange::Idle { timeout: self.idle_timeout, now },
            &self.auth,
            &self.pins,
            self.keep_alive,
            &self.keep_alive_peers,
            &open,
            &mut out,
        );
        out
    }

    fn change(&mut self, change: SlotChange, change_extra: SlotChange, open: &Vec<u64>) -> (r: Vec<
        u64,
    >)
        requires
            old(self).wf(),
        ensures
            final(self).wf(),
            ({
                let p = old(self).state();
                let by = old(self).around(open@);
                &&& final(self).state() == (PoolView {
                    entries: changed_all(p.entries, change, by),
                    extra: changed_each(p.extra, change_extra, by),
                    ..p
                })
                &&& forall|c: u64| #[trigger]
                    r@.contains(c) <==> closes(p.entries, change, by, c) || closes_extra(
                        p.extra,
                        change_extra,
                        by,
                        c,
                    )
            }),
    {
        let ghost before = self.state();
        let ghost by = self.around(open@);
        let mut out: Vec<u64> = Vec::new();
        change_all(
            &mut self.entries,
            change,
            &self.auth,
            &self.pins,
            self.keep_alive,
            &self.keep_alive_peers,
            open,
            &mut out,
        );
        let ghost first = out@;
        let n: usize = self.extra.len();
        let mut i: usize = 0;
        while i < n
            invariant
                i <= n,
                n == self.extra@.len(),
                n == before.extra.len(),
                self.wf(),
                by == (Surroundings {
                    auth: before.auth,
                    pins: before.pins,
                    keep_alive: before.keep_alive,
                    kept: before.kept,
                    open: open@,
                }),
                self.state() == (PoolView {
                    entries: self.state().entries,
                    extra: self.state().extra,
                    ..before
                }),
                self.state().entries == changed_all(before.entries, change, by),
                forall|j: int|
                    0 <= j < i ==> (#[trigger] self.state().extra[j]) == changed_all(
                        before.extra[j],
                        change_extra,
                        by,
                    ),
                forall|j: int| i <= j < n ==> (#[trigger] self.state().extra[j]) == before.extra[j],
                forall|c: u64| #[trigger]
                    out@.contains(c) <==> first.contains(c) || exists|j: int|
                        0 <= j < i && closes(#[trigger] before.extra[j], change_extra, by, c),
            decreases n - i,
        {
            let ghost prior = self.extra@;
            let ghost seen = self.state().extra;
            let ghost listed = out@;
            let mut table = self.extra.remove(i);
            let ghost was = table@;
            proof {
                assert(prior[i as int].wf());
                assert(seen[i as int] == before.extra[i as int]);
            }
            change_all(
                &mut table,
                change_extra,
                &self.auth,
                &self.pins,
                self.keep_alive,
                &self.keep_alive_peers,
                open,
                &mut out,
            );
            let ghost new_table = table@;
            self.extra.insert(i, table);
            proof {
                let now = self.extra@;
                assert forall|k: int| 0 <= k < now.len() implies (#[trigger] now[k]).wf() by {
                    if k != i {
                        assert(now[k] == prior[k]);
                    }
                }
                assert(self.state().extra =~= seen.update(i as int, new_table));
                assert forall|c: u64| #[trigger] out@.contains(c) <==> first.contains(c) || exists|
                    j: int,
                |
                    0 <= j < i + 1 && closes(#[trigger] before.extra[j], change_extra, by, c) by {
                    if closes(was, change_extra, by, c) {
                        assert(closes(before.extra[i as int], change_extra, by, c));
                    }
                    if listed.contains(c) && !first.contains(c) {
                        let j = choose|j: int|
                            0 <= j < i && closes(#[trigger] before.extra[j], change_extra, by, c);
                        assert(closes(before.extra[j], change_extra, by, c));
                    }
                }
            }
            i = i + 1;
        }
        proof {
            assert(self.state().extra =~= changed_each(before.extra, change_extra, by));
        }
        out
    }

    /// Sets the metered relays, each without trailing slashes and once. What
    /// was known of the peers' paths is forgotten.
    pub fn set_cloud_relay_urls(&mut self, urls: &Vec<String>)
        requires
            old(self).wf(),
        ensures
            final(self).wf(),
            final(self).state() == (PoolView {
                urls: normalized_urls(texts(urls@)),
                relays: Map::empty(),
                ..old(self).state()
            }),
    {
        self.cloud_relay_urls = normalize_urls(urls);
        self.peer_cloud_relay = PeerMap::new();
    }

    /// Notes the relay that a peer's path goes through, if it goes through one.
    pub fn path_selected(&mut self, peer: EndpointId, relay: Option<&str>)
        requires
            old(self).wf(),
        ensures
            final(self).wf(),
            final(self).state() == (PoolView {
                relays: old(self).state().relays.insert(
                    peer,
                    relay matches Some(u) && old(self).state().urls.contains(
                        trim_end_of(u@, '/'),
                    ),
                ),
                ..old(self).state()
            }),
    {
        let metered = match relay {
            Some(u) => {
                let key = normalize_relay_url(u);
                has_text(&self.cloud_relay_urls, &key)
            },
            None => false,
        };
        self.peer_cloud_relay.insert(peer, metered);
    }

    /// Notes that a peer's path is no longer watched.
    pub fn path_gone(&mut self, peer: EndpointId)
        requires
            old(self).wf(),
        ensures
            final(self).wf(),
            final(self).state() == (PoolView {
                relays: old(self).state().relays.remove(peer),
                ..old(self).state()
            }),
    {
        let _gone = self.peer_cloud_relay.remove(&peer);
    }
}

/// Every table without a peer.
pub open spec fn without_peer(
    extra: Seq<Map<EndpointId, PeerSlot>>,
    peer: EndpointId,
) -> Seq<Map<EndpointId, PeerSlot>> {
    Seq::new(extra.len(), |i: int| extra[i].remove(peer))
}

/// A peer's connection of a secondary protocol.
pub open spec fn held_extra(
    extra: Seq<Map<EndpointId, PeerSlot>>,
    peer: EndpointId,
    conn: u64,
) -> bool {
    exists|i: int|
        0 <= i < extra.len() && (#[trigger] extra[i]).contains_key(peer) && extra[i][peer].conn
            == Some(conn)
}

proof fn lemma_held_extra(
    extra: Seq<Map<EndpointId, PeerSlot>>,
    i: int,
    peer: EndpointId,
    conn: u64,
)
    requires
        0 <= i < extra.len(),
    ensures
        held_extra(extra.take(i + 1), peer, conn) <==> held_extra(extra.take(i), peer, conn) || (
        extra[i].contains_key(peer) && extra[i][peer].conn == Some(conn)),
{
    let small = extra.take(i);
    let big = extra.take(i + 1);
    if held_extra(small, peer, conn) {
        let j = choose|j: int|
            0 <= j < small.len() && (#[trigger] small[j]).contains_key(peer) && small[j][peer].conn
                == Some(conn);
        assert(big[j] == small[j]);
    }
    if held_extra(big, peer, conn) {
        let j = choose|j: int|
            0 <= j < big.len() && (#[trigger] big[j]).contains_key(peer) && big[j][peer].conn
                == Some(conn);
        if j < i {
            assert(small[j] == big[j]);
        }
    }
    assert(big[i] == extra[i]);
}

/// A peer's connection, of whatever protocol.
pub open spec fn held_for(p: PoolView, peer: EndpointId, conn: u64) -> bool {
    p.entries.contains_key(peer) && p.entries[peer].conn == Some(conn) || held_extra(
        p.extra,
        peer,
        conn,
    )
}

/// The pool after a peer was revoked.
pub open spec fn revoked(p: PoolView, peer: EndpointId, now: u64) -> PoolView {
    let generation = gate_of(p.auth, p.pins, peer).generation;
    PoolView {
        entries: p.entries.insert(
            peer,
            PeerSlot {
                dialing: false,
                ..blocked(slot_or_fresh(p.entries, peer, now), generation)
            },
        ),
        extra: without_peer(p.extra, peer),
        pins: p.pins.insert(peer, generation),
        ..p
    }
}

/// Every table after a change.
pub open spec fn changed_each(
    extra: Seq<Map<EndpointId, PeerSlot>>,
    change: SlotChange,
    by: Surroundings,
) -> Seq<Map<EndpointId, PeerSlot>> {
    Seq::new(extra.len(), |i: int| changed_all(extra[i], change, by))
}

/// After membership has been brought in line, a peer that it denies has no
/// connection, and every connection that such a peer had is closed.
pub proof fn law_denied_peers_lose_their_connections(p: PoolView, open: Seq<u64>, peer: EndpointId)
    requires
        p.entries.contains_key(peer),
        !gate_of(p.auth, p.pins, peer).allows,
    ensures
        ({
            let by = Surroundings { auth: p.auth, pins: p.pins, keep_alive: p.keep_alive, kept: p.kept, open };
            &&& changed_all(p.entries, SlotChange::Membership, by)[peer].conn is None
            &&& changed_all(p.entries, SlotChange::Membership, by)[peer].state is Blocked
            &&& p.entries[peer].conn matches Some(c) ==> closes(
                p.entries,
                SlotChange::Membership,
                by,
                c,
            )
        }),
{
}

/// While connections are kept alive, none is closed for being idle.
pub proof fn law_kept_connections_are_not_idle(p: PoolView, timeout: u64, now: u64)
    requires
        p.keep_alive,
    ensures
        ({
            let by = Surroundings {
                auth: p.auth,
                pins: p.pins,
                keep_alive: p.keep_alive,
                kept: p.kept,
                open: Seq::empty(),
            };
            let change = SlotChange::Idle { timeout, now };
            &&& changed_all(p.entries, change, by) == p.entries
            &&& forall|c: u64| !closes(p.entries, change, by, c)
        }),
{
    let by = Surroundings {
        auth: p.auth,
        pins: p.pins,
        keep_alive: p.keep_alive,
        kept: p.kept,
        open: Seq::empty(),
    };
    assert(changed_all(p.entries, SlotChange::Idle { timeout, now }, by) =~= p.entries);
}

/// A revocation holds for as long as the generation stays the same, whatever
/// membership says: the peer is not let in, no connection to it is handed out,
/// dialled, waited for or accepted, for any protocol, a dial that ends meanwhile
/// is closed, and bringing the slots in line with membership leaves it blocked.
/// With another generation membership alone decides again.
pub proof fn law_revocation_holds_until_the_generation_moves(
    p: PoolView,
    peer: EndpointId,
    at: u64,
    auth: Option<AuthView>,
    other: EndpointId,
    conn: u64,
    ctx: DialContext,
    status: ConnStatus,
    open: Seq<u64>,
    now: u64,
    wait_ms: u64,
)
    ensures
        ({
            let q = revoked(p, peer, at);
            let g = gate_of(auth, q.pins, peer);
            let slot = q.entries[peer];
            let by = Surroundings { auth, pins: q.pins, keep_alive: q.keep_alive, kept: q.kept, open };
            &&& slot.conn is None
            &&& state_name(slot.state) == "blocked"@
            &&& !slot.dialing
            &&& if membership_of(auth, peer).generation == membership_of(p.auth, peer).generation {
                &&& !g.allows
                &&& get_step(slot, q.metrics, g, status, now, wait_ms) == (
                    slot,
                    one_suppressed(q.metrics),
                    GetStep::Denied { close: None },
                )
                &&& get_step(fresh_slot(now), q.metrics, g, status, now, wait_ms).2 == (
                GetStep::Denied { close: None })
                &&& adopted(slot, g, p.local, peer, conn, status, now) == (slot, AdoptStep::Refused)
                &&& dial_end(
                    slot,
                    q.metrics,
                    ctx,
                    p.local,
                    peer,
                    DialOutcome::Connected { conn },
                    g,
                    status,
                    now,
                    wait_ms,
                ) == (slot, q.metrics, DialEnd::NotAuthorized { close_new: conn, close_old: None })
                &&& changed(slot, peer, SlotChange::Membership, by) == (slot, None::<u64>)
            } else {
                g == membership_of(auth, peer)
            }
        }),
        other != peer && !p.pins.contains_key(other) ==> gate_of(
            auth,
            revoked(p, peer, at).pins,
            other,
        ) == membership_of(auth, other),
{
}

/// A call for a connection, and the membership of its time.
pub struct Asked {
    pub auth: AuthView,
    pub status: ConnStatus,
    pub now: u64,
    pub retry_ms: u64,
}

/// The pool after a call for a connection to a peer, and what the caller gets.
pub open spec fn got(p: PoolView, peer: EndpointId, a: Asked) -> (PoolView, GetStep) {
    let out = get_step(
        slot_or_fresh(p.entries, peer, a.now),
        p.metrics,
        gate_of(Some(a.auth), p.pins, peer),
        a.status,
        a.now,
        a.retry_ms,
    );
    (
        PoolView {
            auth: Some(a.auth),
            entries: p.entries.insert(peer, out.0),
            metrics: out.1,
            ..p
        },
        out.2,
    )
}

/// The pool after a row of calls.
pub open spec fn got_all(p: PoolView, peer: EndpointId, row: Seq<Asked>) -> PoolView
    decreases row.len(),
{
    if row.len() == 0 {
        p
    } else {
        got(got_all(p, peer, row.drop_last()), peer, row.last()).0
    }
}

/// How many calls of a row came in the same generation as the call before.
pub open spec fn repeats(row: Seq<Asked>) -> nat
    decreases row.len(),
{
    if row.len() < 2 {
        0
    } else if row.last().auth.generation == row[row.len() - 2].auth.generation {
        repeats(row.drop_last()) + 1
    } else {
        repeats(row.drop_last())
    }
}

/// A peer that membership never lists is never dialled, however often it is
/// asked for and however often membership changes in between: every call is
/// denied, the peer is blocked as of the last generation, and a held-back dial
/// is counted for every call but the first one and the first one in each new
/// generation.
pub proof fn law_calls_for_a_denied_peer_in_a_row(p: PoolView, peer: EndpointId, row: Seq<Asked>)
    requires
        row.len() > 0,
        !p.entries.contains_key(peer),
        forall|i: int| 0 <= i < row.len() ==> !(#[trigger] row[i]).auth.members.contains(peer),
    ensures
        ({
            let q = got_all(p, peer, row);
            &&& got(got_all(p, peer, row.drop_last()), peer, row.last()).1 == (GetStep::Denied {
                close: None,
            })
            &&& q.entries.contains_key(peer)
            &&& q.entries[peer].conn is None
            &&& q.entries[peer].state == (PeerConnState::Blocked {
                generation: row.last().auth.generation,
            })
            &&& q.metrics == (PoolMetrics {
                dials_suppressed: q.metrics.dials_suppressed,
                ..p.metrics
            })
            &&& q.metrics.dials_suppressed as int == (p.metrics.dials_suppressed + repeats(row))
                % 0x1_0000_0000_0000_0000
        }),
    decreases row.len(),
{
    let before = row.drop_last();
    if before.len() > 0 {
        assert forall|i: int| 0 <= i < before.len() implies !(#[trigger] before[i]).auth.members.contains(
            peer,
        ) by {
            assert(before[i] == row[i]);
        }
        law_calls_for_a_denied_peer_in_a_row(p, peer, before);
        assert(before.last() == row[row.len() - 2]);
    } else {
        assert(got_all(p, peer, before) == p);
    }
}

} // verus!
