//! One worker per peer of the tunnel: when it dials, what it holds back, which
//! connection it keeps and what it sends.
//!
//! The worker is told what happened and answers with the actions to carry out,
//! in order. Times are nanoseconds on one monotonic clock.

use crate::buffers::{bytes_of, bytes_slice};
use crate::conn_pool::{incoming_wins, prefer_incoming, DEFAULT_IDLE_SECS, NANOS_PER_SEC};
use crate::drops::DropReason;
use crate::endpoint::EndpointId;
use crate::frame::{all_bytes, encode_logical, logical_frames, SINGLE_HEADER_LEN};
use crate::reassembly::{PartialView, Reassembly};
use crate::routing::RoutingTable;
use crate::tables::{seen_all, PeerView};
use bytes::Bytes;
use vstd::prelude::*;

verus! {

/// How many packets wait for one peer.
pub const PEER_QUEUE_CAP: usize = 32;

/// How many accepted connections wait for one peer.
pub const ACCEPT_QUEUE_CAP: usize = 4;

/// How old a packet may grow before it is dropped: one second.
pub const PACKET_MAX_AGE: u64 = 1_000_000_000;

/// How long no dial follows a failed one: half a second.
pub const DIAL_COOLDOWN: u64 = 500_000_000;

/// How many queued packets are sent in one go.
pub const OUTBOUND_DRAIN_BUDGET: usize = 8;

/// A packet on its way to a peer.
#[derive(Debug)]
pub struct OutboundPacket {
    pub network_id: u128,
    pub bytes: Bytes,
    pub enqueued_at: u64,
}

/// How an attempt to dial went.
#[derive(Clone, Copy, Debug, PartialEq, Eq, Structural)]
pub enum DialStart {
    InFlight,
    Started,
    Cooldown,
    Denied,
}

/// A connection: the number it is known by and which end opened it.
#[derive(Clone, Copy, Debug, PartialEq, Eq, Structural)]
pub struct PeerConn {
    pub stable_id: u64,
    pub opened_by_us: bool,
}

/// What the telemetry says of the connection.
#[derive(Clone, Copy, Debug, PartialEq, Eq, Structural)]
pub enum PeerPhase {
    Idle,
    Dialing,
    Backoff,
    Connected,
}

/// Why a connection is closed.
#[derive(Clone, Copy, Debug, PartialEq, Eq, Structural)]
pub enum CloseReason {
    TieBreak,
    Replaced,
    Idle,
    DataplaneDown,
}

/// Something to carry out for the worker.
#[derive(Clone, Copy, Debug, PartialEq, Eq, Structural)]
pub enum PeerAction {
    /// Report the phase; a connected peer is live and has a path.
    Publish(PeerPhase),
    /// Report whether the selected path is metered and, while the connection
    /// is open, that the peer is connected.
    RefreshPath,
    /// Forget whether the path was metered.
    ClearRelay,
    Dial,
    AbortDial,
    CountDialAttempt,
    CountDialSuppressed,
    CountDialSuccess,
    CountDialFail,
    CountSingle,
    /// A segment came in.
    CountSegmentReceived,
    /// A packet went out in this many segments.
    CountSegmented(u64),
    /// The packet of this many bytes is on its way.
    RecordSent(u64),
    Drop(DropReason),
    /// Drop every queued packet as too old.
    DropQueued,
    /// Close the connection that just came up.
    CloseIncoming(CloseReason),
    /// Close the connection in use.
    CloseLive(CloseReason),
    /// Forget what the telemetry holds of the peer.
    Forget,
}

pub open spec fn phase_label(p: PeerPhase) -> Seq<char> {
    match p {
        PeerPhase::Idle => "idle"@,
        PeerPhase::Dialing => "dialing"@,
        PeerPhase::Backoff => "backoff"@,
        PeerPhase::Connected => "connected"@,
    }
}

impl PeerPhase {
    pub fn as_str(&self) -> (r: &'static str)
        ensures
            r@ == phase_label(*self),
    {
        match *self {
            PeerPhase::Idle => "idle",
            PeerPhase::Dialing => "dialing",
            PeerPhase::Backoff => "backoff",
            PeerPhase::Connected => "connected",
        }
    }
}

pub open spec fn close_label(r: CloseReason) -> Seq<char> {
    match r {
        CloseReason::TieBreak => "tie_break"@,
        CloseReason::Replaced => "replaced"@,
        CloseReason::Idle => "idle"@,
        CloseReason::DataplaneDown => "dataplane_down"@,
    }
}

impl CloseReason {
    pub fn as_str(&self) -> (r: &'static str)
        ensures
            r@ == close_label(*self),
    {
        match *self {
            CloseReason::TieBreak => "tie_break",
            CloseReason::Replaced => "replaced",
            CloseReason::Idle => "idle",
            CloseReason::DataplaneDown => "dataplane_down",
        }
    }
}

/// How a peer is reached, as the telemetry names it: whether a path is
/// selected, and whether it goes over a relay.
pub open spec fn path_text(selected_is_relay: Option<bool>) -> Seq<char> {
    match selected_is_relay {
        Some(true) => "relay"@,
        Some(false) => "direct"@,
        None => "unknown"@,
    }
}

pub fn path_label(selected_is_relay: Option<bool>) -> (r: &'static str)
    ensures
        r@ == path_text(selected_is_relay),
{
    match selected_is_relay {
        Some(true) => "relay",
        Some(false) => "direct",
        None => "unknown",
    }
}

/// The end with the smaller key is the one that should open the connection.
pub fn we_are_preferred_initiator(local: &EndpointId, remote: &EndpointId) -> (r: bool)
    ensures
        r == (local.rank() < remote.rank()),
{
    local.is_below(remote)
}

/// When a packet is looked at again after an attempt to dial for it. A dial on
/// its way wakes the packet itself; during a cooldown it waits for the end of
/// it; a refused dial leaves it until it is too old.
pub open spec fn held_until(
    outcome: DialStart,
    cooldown_until: Option<u64>,
    enqueued_at: u64,
) -> Option<u64> {
    match outcome {
        DialStart::Started | DialStart::InFlight => None,
        DialStart::Cooldown => cooldown_until,
        DialStart::Denied => Some((enqueued_at + PACKET_MAX_AGE) as u64),
    }
}

pub fn hold_after_dial(outcome: DialStart, cooldown_until: Option<u64>, enqueued_at: u64) -> (r:
    Option<u64>)
    requires
        enqueued_at + PACKET_MAX_AGE <= u64::MAX,
    ensures
        r == held_until(outcome, cooldown_until, enqueued_at),
{
    match outcome {
        DialStart::Started | DialStart::InFlight => None,
        DialStart::Cooldown => cooldown_until,
        DialStart::Denied => Some(enqueued_at + PACKET_MAX_AGE),
    }
}

/// Whether a packet has grown too old to be sent.
pub open spec fn is_stale(enqueued_at: u64, now: u64) -> bool {
    now > enqueued_at + PACKET_MAX_AGE
}

/// Whether the routes know the peer, by its key's text or as a member.
pub open spec fn knows_peer(
    by_endpoint: Map<Seq<char>, PeerView>,
    members: Seq<PeerView>,
    hex: Seq<char>,
    peer: EndpointId,
) -> bool {
    by_endpoint.contains_key(hex) || exists|i: int|
        0 <= i < members.len() && (#[trigger] members[i]).endpoint == peer
}

/// Whether a peer may be dialled: it is authorised, and it is a member.
pub fn dial_permitted(gate_allows: bool, routes: &RoutingTable, hex: &str, peer: &EndpointId) -> (r:
    bool)
    ensures
        r == (gate_allows && knows_peer(
            routes.model().by_endpoint,
            routes.model().members,
            hex@,
            *peer,
        )),
{
    if !gate_allows {
        return false;
    }
    if routes.lookup_endpoint(hex).is_some() {
        return true;
    }
    let members = routes.peers();
    let mut i: usize = 0;
    while i < members.len()
        invariant
            gate_allows,
            i <= members@.len(),
            seen_all(members@) == routes.model().members,
            forall|j: int|
                0 <= j < i ==> (#[trigger] routes.model().members[j]).endpoint != *peer,
        decreases members@.len() - i,
    {
        let ghost known = routes.model().members;
        proof {
            assert(known[i as int] == members@[i as int]@);
        }
        if members[i].endpoint == *peer {
            proof {
                assert(known[i as int].endpoint == *peer);
            }
            return true;
        }
        i = i + 1;
    }
    false
}

/// What an attempt to dial comes to.
pub open spec fn dial_outcome(
    dialing: bool,
    cooldown_until: Option<u64>,
    permitted: bool,
    now: u64,
) -> DialStart {
    if dialing {
        DialStart::InFlight
    } else if cooldown_until is Some && now < cooldown_until->0 {
        DialStart::Cooldown
    } else if !permitted {
        DialStart::Denied
    } else {
        DialStart::Started
    }
}

/// What is done for an attempt to dial.
pub open spec fn dial_actions(outcome: DialStart) -> Seq<PeerAction> {
    match outcome {
        DialStart::Started => seq![
            PeerAction::CountDialAttempt,
            PeerAction::Dial,
            PeerAction::Publish(PeerPhase::Dialing),
        ],
        DialStart::Denied => seq![PeerAction::CountDialSuppressed],
        _ => Seq::empty(),
    }
}

/// The worker of one peer.
pub struct PeerWorker {
    pub local: EndpointId,
    pub peer: EndpointId,
    pub live: Option<PeerConn>,
    pub reassembly: Reassembly,
    pub packet_id: u32,
    pub dialing: bool,
    pub cooldown_until: Option<u64>,
    pub hold: Option<OutboundPacket>,
    pub retry_at: Option<u64>,
    pub last_activity: u64,
}

/// A packet that is held back is looked at again: a dial is on its way for it,
/// or a time is set.
pub open spec fn not_stuck(w: PeerWorker) -> bool {
    w.hold is Some ==> w.dialing || w.retry_at is Some
}

/// Nothing is left to put together.
pub open spec fn forgot(before: Reassembly, after: Reassembly) -> bool {
    &&& after.entries() == Seq::<PartialView>::empty()
    &&& after.limit() == before.limit()
    &&& after.expired_count() == before.expired_count()
}

/// What is done when the connection is gone.
pub open spec fn lost_actions() -> Seq<PeerAction> {
    seq![PeerAction::ClearRelay, PeerAction::Publish(PeerPhase::Idle)]
}

/// What becomes of a connection that came up.
#[derive(Clone, Copy, Debug, PartialEq, Eq, Structural)]
pub enum Install {
    /// It is closed already.
    Dead,
    /// The one in use is kept.
    Refused,
    /// It takes the place of the one in use.
    Replaces,
    /// It is the first.
    First,
}

/// Whether a connection that came up is taken into use: not when it is closed
/// already, nor when the one in use is open and is the one that both ends keep.
pub open spec fn install_outcome(
    local: EndpointId,
    peer: EndpointId,
    live: Option<PeerConn>,
    live_closed: bool,
    incoming: PeerConn,
    incoming_closed: bool,
) -> Install {
    if incoming_closed {
        Install::Dead
    } else {
        match live {
            Some(cur) => if !live_closed && !incoming_wins(
                local,
                peer,
                cur.opened_by_us,
                incoming.opened_by_us,
            ) {
                Install::Refused
            } else {
                Install::Replaces
            },
            None => Install::First,
        }
    }
}

pub open spec fn install_actions(outcome: Install) -> Seq<PeerAction> {
    match outcome {
        Install::Dead => Seq::empty(),
        Install::Refused => seq![PeerAction::CloseIncoming(CloseReason::TieBreak)],
        Install::Replaces => seq![
            PeerAction::CloseLive(CloseReason::Replaced),
            PeerAction::RefreshPath,
            PeerAction::Publish(PeerPhase::Connected),
        ],
        Install::First => seq![
            PeerAction::RefreshPath,
            PeerAction::Publish(PeerPhase::Connected),
        ],
    }
}

/// The worker after a connection came up.
pub open spec fn installed(
    before: PeerWorker,
    after: PeerWorker,
    incoming: PeerConn,
    outcome: Install,
) -> bool {
    if outcome == Install::Replaces || outcome == Install::First {
        &&& forgot(before.reassembly, after.reassembly)
        &&& after == (PeerWorker {
            live: Some(incoming),
            reassembly: after.reassembly,
            ..before
        })
    } else {
        after == before
    }
}

/// How sending one datagram went.
#[derive(Clone, Copy, Debug, PartialEq, Eq, Structural)]
pub enum SendOutcome {
    Sent,
    TooLarge,
    ConnectionLost,
    Failed,
}

/// What a worker sends for one packet.
pub struct SendPlan {
    pub actions: Vec<PeerAction>,
    /// The datagrams to send, in order.
    pub frames: Vec<Bytes>,
}

/// The number that a packet's segments carry: a packet that fits into one
/// datagram takes none.
pub open spec fn next_packet_id(id: u32, len: int, max: int) -> u32 {
    if SINGLE_HEADER_LEN + len > max {
        id.wrapping_add(1)
    } else {
        id
    }
}

pub open spec fn frame_count_actions(n: nat) -> Seq<PeerAction> {
    if n == 1 {
        seq![PeerAction::CountSingle]
    } else {
        seq![PeerAction::CountSegmented(n as u64)]
    }
}

/// A connection came up, by a dial of this end or by one of the peer's.
pub open spec fn came_up(
    before: PeerWorker,
    after: PeerWorker,
    conn: PeerConn,
    conn_closed: bool,
    live_closed: bool,
    dialled: bool,
    now: u64,
    actions: Seq<PeerAction>,
) -> bool {
    let outcome = install_outcome(
        before.local,
        before.peer,
        before.live,
        live_closed,
        conn,
        conn_closed,
    );
    &&& actions == if dialled {
        seq![PeerAction::CountDialSuccess] + install_actions(outcome)
    } else {
        install_actions(outcome)
    }
    &&& installed(
        (PeerWorker {
            dialing: before.dialing && !dialled,
            last_activity: now,
            retry_at: None,
            ..before
        }),
        after,
        conn,
        outcome,
    )
}

/// A worker with nothing to do looked whether the peer is to be dialled.
pub open spec fn woke(
    before: PeerWorker,
    after: PeerWorker,
    keep_alive: bool,
    permitted: bool,
    now: u64,
    actions: Seq<PeerAction>,
) -> bool {
    let tries = before.live is None && !before.dialing && before.hold is None
        && keep_alive && before.local.rank() < before.peer.rank();
    let outcome = dial_outcome(false, before.cooldown_until, permitted, now);
    &&& actions == if tries {
        dial_actions(outcome)
    } else {
        Seq::empty()
    }
    &&& after == (PeerWorker {
        dialing: before.dialing || (tries && outcome == DialStart::Started),
        ..before
    })
}

/// The packet that was held back came up for sending.
pub open spec fn flushed(
    before: PeerWorker,
    after: PeerWorker,
    now: u64,
    actions: Seq<PeerAction>,
    out: Option<OutboundPacket>,
) -> bool {
    match before.hold {
        None => actions == Seq::<PeerAction>::empty() && out is None && after == before,
        Some(pkt) => if is_stale(pkt.enqueued_at, now) {
            &&& actions == seq![PeerAction::Drop(DropReason::PacketStale)]
            &&& out is None
            &&& after == (PeerWorker { hold: None, ..before })
        } else {
            &&& actions == Seq::<PeerAction>::empty()
            &&& out == Some(pkt)
            &&& after == (PeerWorker { hold: None, last_activity: now, ..before })
        },
    }
}

/// A queued packet came up for sending.
pub open spec fn drained(
    before: PeerWorker,
    after: PeerWorker,
    pkt: OutboundPacket,
    now: u64,
    actions: Seq<PeerAction>,
    out: Option<OutboundPacket>,
) -> bool {
    if is_stale(pkt.enqueued_at, now) {
        &&& actions == seq![PeerAction::Drop(DropReason::PacketStale)]
        &&& out is None
        &&& after == before
    } else {
        &&& actions == Seq::<PeerAction>::empty()
        &&& out == Some(pkt)
        &&& after == (PeerWorker { last_activity: now, ..before })
    }
}

/// A packet for the peer was handed to the worker.
pub open spec fn handed(
    before: PeerWorker,
    after: PeerWorker,
    pkt: OutboundPacket,
    permitted: bool,
    now: u64,
    actions: Seq<PeerAction>,
    out: Option<OutboundPacket>,
) -> bool {
    let outcome = dial_outcome(
        before.dialing,
        before.cooldown_until,
        permitted,
        now,
    );
    if before.live is Some {
        &&& actions == Seq::<PeerAction>::empty()
        &&& out == Some(pkt)
        &&& after == (PeerWorker { last_activity: now, ..before })
    } else if is_stale(pkt.enqueued_at, now) {
        &&& actions == seq![PeerAction::Drop(DropReason::PacketStale)]
        &&& out is None
        &&& after == (PeerWorker { last_activity: now, ..before })
    } else {
        &&& actions == dial_actions(outcome)
        &&& out is None
        &&& after == (PeerWorker {
            last_activity: now,
            dialing: before.dialing || outcome == DialStart::Started,
            retry_at: held_until(outcome, before.cooldown_until, pkt.enqueued_at),
            hold: Some(pkt),
            ..before
        })
    }
}

/// A dial failed.
pub open spec fn backed_off(
    before: PeerWorker,
    after: PeerWorker,
    now: u64,
    actions: Seq<PeerAction>,
) -> bool {
    let until = (now + DIAL_COOLDOWN) as u64;
    let failed = PeerWorker {
        dialing: false,
        cooldown_until: Some(until),
        ..before
    };
    let head = seq![PeerAction::CountDialFail, PeerAction::DropQueued];
    let tail = seq![PeerAction::Publish(PeerPhase::Backoff)];
    match before.hold {
        None => actions == head + tail && after == failed,
        Some(pkt) => if is_stale(pkt.enqueued_at, now) {
            &&& actions == head + seq![PeerAction::Drop(DropReason::PacketStale)] + tail
            &&& after == (PeerWorker { hold: None, retry_at: None, ..failed })
        } else {
            &&& actions == head + tail
            &&& after == (PeerWorker { retry_at: Some(until), ..failed })
        },
    }
}

/// The time to look at the packet held back came.
pub open spec fn retried(
    before: PeerWorker,
    after: PeerWorker,
    permitted: bool,
    now: u64,
    actions: Seq<PeerAction>,
) -> bool {
    let outcome = dial_outcome(
        before.dialing,
        before.cooldown_until,
        permitted,
        now,
    );
    match before.hold {
        None => actions == Seq::<PeerAction>::empty() && after == (PeerWorker {
            retry_at: None,
            ..before
        }),
        Some(pkt) => if is_stale(pkt.enqueued_at, now) {
            &&& actions == seq![PeerAction::Drop(DropReason::PacketStale)]
            &&& after == (PeerWorker {
                retry_at: None,
                hold: None,
                ..before
            })
        } else {
            &&& actions == dial_actions(outcome)
            &&& after == (PeerWorker {
                dialing: before.dialing || outcome == DialStart::Started,
                retry_at: held_until(
                    outcome,
                    before.cooldown_until,
                    pkt.enqueued_at,
                ),
                ..before
            })
        },
    }
}

/// The connection was looked at for being idle.
pub open spec fn looked_at(
    before: PeerWorker,
    after: PeerWorker,
    keep_alive: bool,
    now: u64,
    actions: Seq<PeerAction>,
) -> bool {
    let idle = !keep_alive && before.live is Some && now > before.last_activity
        + DEFAULT_IDLE_SECS * NANOS_PER_SEC;
    if idle {
        &&& actions == seq![
            PeerAction::RefreshPath,
            PeerAction::CloseLive(CloseReason::Idle),
        ] + lost_actions()
        &&& forgot(before.reassembly, after.reassembly)
        &&& after == (PeerWorker {
            live: None,
            reassembly: after.reassembly,
            ..before
        })
    } else {
        &&& after == before
        &&& actions == if before.live is Some {
            seq![PeerAction::RefreshPath]
        } else {
            Seq::empty()
        }
    }
}

/// A worker ended.
pub open spec fn stopped(before: PeerWorker, after: PeerWorker, actions: Seq<PeerAction>) -> bool {
    &&& actions == (if before.dialing {
        seq![PeerAction::AbortDial]
    } else {
        Seq::empty()
    }) + (if before.live is Some {
        seq![PeerAction::CloseLive(CloseReason::DataplaneDown)]
    } else {
        Seq::empty()
    }) + seq![PeerAction::Forget]
    &&& after == (PeerWorker { dialing: false, live: None, ..before })
}

/// A packet was cut into datagrams for the connection in use.
pub open spec fn planned(
    before: PeerWorker,
    after: PeerWorker,
    pkt: OutboundPacket,
    closed: bool,
    max: Option<usize>,
    actions: Seq<PeerAction>,
    sent: Seq<Seq<u8>>,
) -> bool {
    let id = next_packet_id(
        before.packet_id,
        bytes_of(pkt.bytes).len() as int,
        max->0 as int,
    );
    let frames = logical_frames(
        pkt.network_id,
        bytes_of(pkt.bytes),
        max->0 as int,
        id,
    );
    let stale = seq![PeerAction::Drop(DropReason::PacketStale)];
    let too_large = seq![PeerAction::Drop(DropReason::DatagramTooLarge)];
    let none = Seq::<Seq<u8>>::empty();
    if before.live is None {
        &&& actions == stale
        &&& sent == none
        &&& after == before
    } else if closed {
        &&& actions == lost_actions() + stale
        &&& sent == none
        &&& forgot(before.reassembly, after.reassembly)
        &&& after == (PeerWorker {
            live: None,
            reassembly: after.reassembly,
            ..before
        })
    } else if max is None {
        &&& actions == too_large
        &&& sent == none
        &&& after == before
    } else if frames is None {
        &&& actions == too_large
        &&& sent == none
        &&& after == (PeerWorker { packet_id: id, ..before })
    } else {
        &&& actions == frame_count_actions(frames->0.len())
        &&& sent == frames->0
        &&& after == (PeerWorker { packet_id: id, ..before })
    }
}

/// A datagram went out, or failed to.
pub open spec fn went_out(
    before: PeerWorker,
    after: PeerWorker,
    outcome: SendOutcome,
    is_last: bool,
    len: u64,
    actions: Seq<PeerAction>,
    follows: bool,
) -> bool {
    &&& follows == (outcome == SendOutcome::Sent && !is_last)
    &&& match outcome {
        SendOutcome::Sent => {
            &&& after == before
            &&& actions == if is_last {
                seq![PeerAction::RecordSent(len), PeerAction::RefreshPath]
            } else {
                Seq::empty()
            }
        },
        SendOutcome::TooLarge => {
            &&& after == before
            &&& actions == seq![PeerAction::Drop(DropReason::DatagramTooLarge)]
        },
        SendOutcome::ConnectionLost => {
            &&& actions == lost_actions()
            &&& forgot(before.reassembly, after.reassembly)
            &&& after == (PeerWorker {
                live: None,
                reassembly: after.reassembly,
                ..before
            })
        },
        SendOutcome::Failed => {
            &&& after == before
            &&& actions == seq![PeerAction::Drop(DropReason::DatagramSend)]
        },
    }
}

pub(crate) fn no_actions() -> (r: Vec<PeerAction>)
    ensures
        r@ == Seq::<PeerAction>::empty(),
{
    Vec::new()
}

pub(crate) fn one_action(a: PeerAction) -> (r: Vec<PeerAction>)
    ensures
        r@ == seq![a],
{
    let mut v: Vec<PeerAction> = Vec::new();
    v.push(a);
    proof {
        assert(v@ =~= seq![a]);
    }
    v
}

impl PeerWorker {
    /// Expired packets are always reported at once.
    pub open spec fn wf(&self) -> bool {
        self.reassembly.wf() && self.reassembly.expired_count() == 0
    }

    /// A worker that has done nothing yet.
    pub fn new(local: EndpointId, peer: EndpointId, mtu: u16, now: u64) -> (r: PeerWorker)
        ensures
            r.wf(),
            r.reassembly.entries() == Seq::<PartialView>::empty(),
            r.reassembly.limit() == mtu,
            r.reassembly.expired_count() == 0,
            r == (PeerWorker {
                local,
                peer,
                live: None,
                reassembly: r.reassembly,
                packet_id: 0,
                dialing: false,
                cooldown_until: None,
                hold: None,
                retry_at: None,
                last_activity: now,
            }),
    {
        PeerWorker {
            local,
            peer,
            live: None,
            reassembly: Reassembly::new(mtu as usize),
            packet_id: 0,
            dialing: false,
            cooldown_until: None,
            hold: None,
            retry_at: None,
            last_activity: now,
        }
    }

    /// The first thing that a worker does: the peer is reported idle.
    pub fn start(&self) -> (r: Vec<PeerAction>)
        ensures
            r@ == seq![PeerAction::Publish(PeerPhase::Idle)],
    {
        one_action(PeerAction::Publish(PeerPhase::Idle))
    }

    /// Dials unless a dial is on its way, the last one failed a moment ago or
    /// the peer may not be dialled.
    fn start_dial(&mut self, permitted: bool, now: u64, actions: &mut Vec<PeerAction>) -> (r:
        DialStart)
        requires
            old(self).wf(),
        ensures
            final(self).wf(),
            r == dial_outcome(old(self).dialing, old(self).cooldown_until, permitted, now),
            final(actions)@ == old(actions)@ + dial_actions(r),
            *final(self) == (PeerWorker {
                dialing: old(self).dialing || r == DialStart::Started,
                ..*old(self)
            }),
    {
        if self.dialing {
            proof {
                assert(actions@ =~= actions@ + dial_actions(DialStart::InFlight));
            }
            return DialStart::InFlight;
        }
        if let Some(t) = self.cooldown_until {
            if now < t {
                proof {
                    assert(actions@ =~= actions@ + dial_actions(DialStart::Cooldown));
                }
                return DialStart::Cooldown;
            }
        }
        if !permitted {
            actions.push(PeerAction::CountDialSuppressed);
            proof {
                assert(actions@ =~= old(actions)@ + dial_actions(DialStart::Denied));
            }
            return DialStart::Denied;
        }
        actions.push(PeerAction::CountDialAttempt);
        actions.push(PeerAction::Dial);
        actions.push(PeerAction::Publish(PeerPhase::Dialing));
        self.dialing = true;
        proof {
            assert(actions@ =~= old(actions)@ + dial_actions(DialStart::Started));
        }
        DialStart::Started
    }

    /// With nothing to do, a peer that is kept alive is dialled by the end
    /// that should open the connection.
    pub fn before_wait(&mut self, keep_alive: bool, permitted: bool, now: u64) -> (r: Vec<
        PeerAction,
    >)
        requires
            old(self).wf(),
        ensures
            final(self).wf(),
            not_stuck(*old(self)) ==> not_stuck(*final(self)),
            woke(*old(self), *final(self), keep_alive, permitted, now, r@),
    {
        let mut actions = no_actions();
        if self.live.is_none() && !self.dialing && self.hold.is_none() {
            if keep_alive && we_are_preferred_initiator(&self.local, &self.peer) {
                let _ = self.start_dial(permitted, now, &mut actions);
            }
        }
        actions
    }

    /// A connection came up, accepted or dialled.
    fn install_conn(
        &mut self,
        incoming: PeerConn,
        incoming_closed: bool,
        live_closed: bool,
        actions: &mut Vec<PeerAction>,
    )
        requires
            old(self).wf(),
        ensures
            final(self).wf(),
            ({
                let outcome = install_outcome(
                    old(self).local,
                    old(self).peer,
                    old(self).live,
                    live_closed,
                    incoming,
                    incoming_closed,
                );
                &&& final(actions)@ == old(actions)@ + install_actions(outcome)
                &&& installed(*old(self), *final(self), incoming, outcome)
            }),
    {
        if incoming_closed {
            proof {
                assert(actions@ =~= actions@ + install_actions(Install::Dead));
            }
            return;
        }
        if let Some(current) = self.live {
            if !live_closed && !prefer_incoming(
                &self.local,
                &self.peer,
                current.opened_by_us,
                incoming.opened_by_us,
            ) {
                actions.push(PeerAction::CloseIncoming(CloseReason::TieBreak));
                proof {
                    assert(actions@ =~= old(actions)@ + install_actions(Install::Refused));
                }
                return;
            }
            actions.push(PeerAction::CloseLive(CloseReason::Replaced));
        }
        self.reassembly.clear();
        actions.push(PeerAction::RefreshPath);
        self.live = Some(incoming);
        actions.push(PeerAction::Publish(PeerPhase::Connected));
        proof {
            if old(self).live is Some {
                assert(actions@ =~= old(actions)@ + install_actions(Install::Replaces));
            } else {
                assert(actions@ =~= old(actions)@ + install_actions(Install::First));
            }
        }
    }

    /// The peer opened a connection. What is held back is flushed next.
    pub fn accepted(
        &mut self,
        incoming: PeerConn,
        incoming_closed: bool,
        live_closed: bool,
        now: u64,
    ) -> (r: Vec<PeerAction>)
        requires
            old(self).wf(),
        ensures
            final(self).wf(),
            came_up(
                *old(self),
                *final(self),
                incoming,
                incoming_closed,
                live_closed,
                false,
                now,
                r@,
            ),
    {
        let mut actions = no_actions();
        self.last_activity = now;
        self.retry_at = None;
        self.install_conn(incoming, incoming_closed, live_closed, &mut actions);
        actions
    }

    /// The packet that is held back, unless it has grown too old.
    pub fn flush_hold(&mut self, now: u64) -> (r: (Vec<PeerAction>, Option<OutboundPacket>))
        requires
            old(self).wf(),
        ensures
            final(self).wf(),
            not_stuck(*old(self)) ==> not_stuck(*final(self)),
            flushed(*old(self), *final(self), now, r.0@, r.1),
    {
        let held = self.hold.take();
        match held {
            None => (no_actions(), None),
            Some(pkt) => {
                if too_old(pkt.enqueued_at, now) {
                    return (one_action(PeerAction::Drop(DropReason::PacketStale)), None);
                }
                self.last_activity = now;
                (no_actions(), Some(pkt))
            },
        }
    }

    /// A queued packet comes up for sending on a live connection.
    pub fn drain_one(&mut self, pkt: OutboundPacket, now: u64) -> (r: (
        Vec<PeerAction>,
        Option<OutboundPacket>,
    ))
        requires
            old(self).wf(),
        ensures
            final(self).wf(),
            drained(*old(self), *final(self), pkt, now, r.0@, r.1),
    {
        if too_old(pkt.enqueued_at, now) {
            return (one_action(PeerAction::Drop(DropReason::PacketStale)), None);
        }
        self.last_activity = now;
        (no_actions(), Some(pkt))
    }

    /// A packet for the peer, which comes only while none is held back. With a
    /// live connection it is handed out for sending. Without one it is held
    /// and a dial is tried, unless it is too old already.
    pub fn packet(&mut self, pkt: OutboundPacket, permitted: bool, now: u64) -> (r: (
        Vec<PeerAction>,
        Option<OutboundPacket>,
    ))
        requires
            old(self).wf(),
            old(self).hold is None,
            pkt.enqueued_at + PACKET_MAX_AGE <= u64::MAX,
        ensures
            final(self).wf(),
            not_stuck(*old(self)) ==> not_stuck(*final(self)),
            handed(*old(self), *final(self), pkt, permitted, now, r.0@, r.1),
    {
        self.last_activity = now;
        if self.live.is_some() {
            return (no_actions(), Some(pkt));
        }
        if too_old(pkt.enqueued_at, now) {
            return (one_action(PeerAction::Drop(DropReason::PacketStale)), None);
        }
        let mut actions = no_actions();
        let outcome = self.start_dial(permitted, now, &mut actions);
        self.retry_at = hold_after_dial(outcome, self.cooldown_until, pkt.enqueued_at);
        self.hold = Some(pkt);
        proof {
            assert(actions@ =~= dial_actions(outcome));
        }
        (actions, None)
    }

    /// The dial brought a connection. What is held back is flushed next.
    pub fn dial_succeeded(
        &mut self,
        conn: PeerConn,
        conn_closed: bool,
        live_closed: bool,
        now: u64,
    ) -> (r: Vec<PeerAction>)
        requires
            old(self).wf(),
        ensures
            final(self).wf(),
            came_up(*old(self), *final(self), conn, conn_closed, live_closed, true, now, r@),
    {
        let mut actions = one_action(PeerAction::CountDialSuccess);
        self.dialing = false;
        self.last_activity = now;
        self.retry_at = None;
        self.install_conn(conn, conn_closed, live_closed, &mut actions);
        actions
    }

    /// The dial failed: none follows for a while, what is queued is dropped,
    /// and a packet held back waits for the end of the cooldown unless it is
    /// too old.
    pub fn dial_failed(&mut self, now: u64) -> (r: Vec<PeerAction>)
        requires
            old(self).wf(),
            now + DIAL_COOLDOWN <= u64::MAX,
        ensures
            final(self).wf(),
            not_stuck(*old(self)) ==> not_stuck(*final(self)),
            backed_off(*old(self), *final(self), now, r@),
    {
        let until: u64 = now + DIAL_COOLDOWN;
        self.dialing = false;
        self.cooldown_until = Some(until);
        let mut actions = one_action(PeerAction::CountDialFail);
        actions.push(PeerAction::DropQueued);
        let held_since: Option<u64> = match &self.hold {
            Some(pkt) => Some(pkt.enqueued_at),
            None => None,
        };
        if let Some(enqueued_at) = held_since {
            if too_old(enqueued_at, now) {
                self.hold = None;
                actions.push(PeerAction::Drop(DropReason::PacketStale));
                self.retry_at = None;
            } else {
                self.retry_at = Some(until);
            }
        }
        actions.push(PeerAction::Publish(PeerPhase::Backoff));
        proof {
            let head = seq![PeerAction::CountDialFail, PeerAction::DropQueued];
            let tail = seq![PeerAction::Publish(PeerPhase::Backoff)];
            if old(self).hold is Some && is_stale(old(self).hold->0.enqueued_at, now) {
                assert(actions@ =~= head + seq![PeerAction::Drop(DropReason::PacketStale)] + tail);
            } else {
                assert(actions@ =~= head + tail);
            }
        }
        actions
    }

    /// The dial ended without an answer.
    pub fn dial_vanished(&mut self)
        requires
            old(self).wf(),
        ensures
            final(self).wf(),
            *final(self) == (PeerWorker { dialing: false, ..*old(self) }),
    {
        self.dialing = false;
    }

    /// The time to look at the packet held back has come. This happens only
    /// without a live connection.
    pub fn retry_due(&mut self, permitted: bool, now: u64) -> (r: Vec<PeerAction>)
        requires
            old(self).wf(),
            old(self).hold matches Some(pkt) ==> pkt.enqueued_at + PACKET_MAX_AGE <= u64::MAX,
        ensures
            final(self).wf(),
            not_stuck(*old(self)) ==> not_stuck(*final(self)),
            retried(*old(self), *final(self), permitted, now, r@),
    {
        self.retry_at = None;
        let held_since: Option<u64> = match &self.hold {
            Some(pkt) => Some(pkt.enqueued_at),
            None => None,
        };
        let enqueued_at: u64 = match held_since {
            Some(t) => t,
            None => {
                return no_actions();
            },
        };
        if too_old(enqueued_at, now) {
            self.hold = None;
            return one_action(PeerAction::Drop(DropReason::PacketStale));
        }
        let mut actions = no_actions();
        let outcome = self.start_dial(permitted, now, &mut actions);
        self.retry_at = hold_after_dial(outcome, self.cooldown_until, enqueued_at);
        proof {
            assert(actions@ =~= dial_actions(outcome));
        }
        actions
    }

    fn clear_live(&mut self, actions: &mut Vec<PeerAction>)
        requires
            old(self).wf(),
        ensures
            final(self).wf(),
            final(actions)@ == old(actions)@ + lost_actions(),
            forgot(old(self).reassembly, final(self).reassembly),
            *final(self) == (PeerWorker {
                live: None,
                reassembly: final(self).reassembly,
                ..*old(self)
            }),
    {
        self.live = None;
        self.reassembly.clear();
        actions.push(PeerAction::ClearRelay);
        actions.push(PeerAction::Publish(PeerPhase::Idle));
        proof {
            assert(actions@ =~= old(actions)@ + lost_actions());
        }
    }

    /// The connection in use is gone.
    pub fn closed(&mut self) -> (r: Vec<PeerAction>)
        requires
            old(self).wf(),
        ensures
            final(self).wf(),
            not_stuck(*old(self)) ==> not_stuck(*final(self)),
            r@ == lost_actions(),
            forgot(old(self).reassembly, final(self).reassembly),
            *final(self) == (PeerWorker {
                live: None,
                reassembly: final(self).reassembly,
                ..*old(self)
            }),
    {
        let mut actions = no_actions();
        self.clear_live(&mut actions);
        proof {
            assert(actions@ =~= lost_actions());
        }
        actions
    }

    /// The periodic look at the connection: one that was idle for too long is
    /// closed, unless the peer is kept alive.
    pub fn idle_tick(&mut self, keep_alive: bool, now: u64) -> (r: Vec<PeerAction>)
        requires
            old(self).wf(),
        ensures
            final(self).wf(),
            not_stuck(*old(self)) ==> not_stuck(*final(self)),
            looked_at(*old(self), *final(self), keep_alive, now, r@),
    {
        if self.live.is_none() {
            return no_actions();
        }
        let mut actions = one_action(PeerAction::RefreshPath);
        let quiet: u64 = now.saturating_sub(self.last_activity);
        if !keep_alive && quiet > DEFAULT_IDLE_SECS * NANOS_PER_SEC {
            actions.push(PeerAction::CloseLive(CloseReason::Idle));
            self.clear_live(&mut actions);
            proof {
                assert(actions@ =~= seq![
                    PeerAction::RefreshPath,
                    PeerAction::CloseLive(CloseReason::Idle),
                ] + lost_actions());
            }
        }
        actions
    }

    /// The worker ends.
    pub fn stop(&mut self) -> (r: Vec<PeerAction>)
        requires
            old(self).wf(),
        ensures
            final(self).wf(),
            stopped(*old(self), *final(self), r@),
    {
        let mut actions = no_actions();
        if self.dialing {
            self.dialing = false;
            actions.push(PeerAction::AbortDial);
        }
        if self.live.is_some() {
            self.live = None;
            actions.push(PeerAction::CloseLive(CloseReason::DataplaneDown));
        }
        actions.push(PeerAction::Forget);
        proof {
            assert(actions@ =~= (if old(self).dialing {
                seq![PeerAction::AbortDial]
            } else {
                Seq::empty()
            }) + (if old(self).live is Some {
                seq![PeerAction::CloseLive(CloseReason::DataplaneDown)]
            } else {
                Seq::empty()
            }) + seq![PeerAction::Forget]);
        }
        actions
    }

    /// The datagrams that carry a packet over the connection in use. `closed`
    /// says whether that connection is closed, and `max` how much one datagram
    /// holds, where it takes datagrams at all.
    pub fn send_logical(&mut self, pkt: &OutboundPacket, closed: bool, max: Option<usize>) -> (r:
        SendPlan)
        requires
            old(self).wf(),
        ensures
            final(self).wf(),
            not_stuck(*old(self)) ==> not_stuck(*final(self)),
            planned(*old(self), *final(self), *pkt, closed, max, r.actions@, all_bytes(r.frames@)),
    {
        if self.live.is_none() {
            return nothing_to_send(one_action(PeerAction::Drop(DropReason::PacketStale)));
        }
        if closed {
            let mut actions = no_actions();
            self.clear_live(&mut actions);
            actions.push(PeerAction::Drop(DropReason::PacketStale));
            proof {
                assert(actions@ =~= lost_actions() + seq![
                    PeerAction::Drop(DropReason::PacketStale),
                ]);
            }
            return nothing_to_send(actions);
        }
        let max: usize = match max {
            Some(m) => m,
            None => {
                return nothing_to_send(
                    one_action(PeerAction::Drop(DropReason::DatagramTooLarge)),
                );
            },
        };
        let packet = bytes_slice(&pkt.bytes);
        let len: usize = packet.len();
        if len > max || SINGLE_HEADER_LEN > max - len {
            self.packet_id = self.packet_id.wrapping_add(1);
        }
        match encode_logical(pkt.network_id, packet, max, self.packet_id) {
            None => nothing_to_send(one_action(PeerAction::Drop(DropReason::DatagramTooLarge))),
            Some(frames) => {
                let n: usize = frames.len();
                proof {
                    assert(all_bytes(frames@).len() == n);
                }
                let actions = if n == 1 {
                    one_action(PeerAction::CountSingle)
                } else {
                    one_action(PeerAction::CountSegmented(n as u64))
                };
                SendPlan { actions, frames }
            },
        }
    }

    /// One datagram of a packet of `len` bytes was sent, or failed to be. The
    /// answer says whether the next one follows.
    pub fn frame_sent(&mut self, outcome: SendOutcome, is_last: bool, len: u64) -> (r: (
        Vec<PeerAction>,
        bool,
    ))
        requires
            old(self).wf(),
        ensures
            final(self).wf(),
            not_stuck(*old(self)) ==> not_stuck(*final(self)),
            went_out(*old(self), *final(self), outcome, is_last, len, r.0@, r.1),
    {
        match outcome {
            SendOutcome::Sent => {
                if !is_last {
                    return (no_actions(), true);
                }
                let mut actions = one_action(PeerAction::RecordSent(len));
                actions.push(PeerAction::RefreshPath);
                proof {
                    assert(actions@ =~= seq![
                        PeerAction::RecordSent(len),
                        PeerAction::RefreshPath,
                    ]);
                }
                (actions, false)
            },
            SendOutcome::TooLarge => (
                one_action(PeerAction::Drop(DropReason::DatagramTooLarge)),
                false,
            ),
            SendOutcome::ConnectionLost => (self.closed(), false),
            SendOutcome::Failed => (one_action(PeerAction::Drop(DropReason::DatagramSend)), false),
        }
    }

    /// Whether another queued packet is looked at: within the budget, and not
    /// once the connection was lost over the one before. `sent` says whether
    /// that one was up for sending.
    pub fn drains_on(&self, looked_at: usize, sent: bool) -> (r: bool)
        ensures
            r == (looked_at < OUTBOUND_DRAIN_BUDGET && (!sent || self.live is Some)),
    {
        looked_at < OUTBOUND_DRAIN_BUDGET && (!sent || self.live.is_some())
    }
}

fn too_old(enqueued_at: u64, now: u64) -> (r: bool)
    ensures
        r == is_stale(enqueued_at, now),
{
    now.saturating_sub(enqueued_at) > PACKET_MAX_AGE
}

fn nothing_to_send(actions: Vec<PeerAction>) -> (r: SendPlan)
    ensures
        r.actions == actions,
        all_bytes(r.frames@) == Seq::<Seq<u8>>::empty(),
{
    let frames: Vec<Bytes> = Vec::new();
    proof {
        assert(all_bytes(frames@) =~= Seq::<Seq<u8>>::empty());
    }
    SendPlan { actions, frames }
}

} // verus!
