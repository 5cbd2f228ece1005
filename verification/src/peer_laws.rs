//! What comes of the workers of peers, and what is known of their connections.

use crate::buffers::bytes_of;
use crate::drops::{counted_drop, DropReason};
use crate::endpoint::EndpointId;
use crate::frame::{law_which_packets_can_be_carried, lemma_pieces, pieces};
use crate::hub::{is_authorized, opens_unasked, split_workers, with_started, worker_given, works_for, WorkerRef};
use crate::peer::{
    backed_off, came_up, dial_actions, dial_outcome, drained, flushed, frame_count_actions, handed,
    held_until, install_actions, install_outcome, installed, is_stale, knows_peer, looked_at,
    next_packet_id, planned, retried, stopped, went_out, woke, CloseReason, DialStart, Install,
    OutboundPacket, PeerAction, PeerConn, PeerPhase, PeerWorker, SendOutcome,
};
use crate::tables::PeerView;
use crate::text::{lower, trim_end_of};
use crate::tunnel_mesh::{
    cleared, counted_in, counted_out, gauge_move, live_peers, normalized_urls, told, GaugeMove, MeshView, TunnelCounters,
    TunnelMesh,
};
use vstd::prelude::*;

verus! {

/// One of the members has this key.
pub open spec fn has_member(members: Seq<PeerView>, peer: EndpointId) -> bool {
    exists|i: int| 0 <= i < members.len() && (#[trigger] members[i]).endpoint == peer
}

/// When the membership changes, every worker either goes on or ends: it goes on
/// exactly where its peer is a member.
pub proof fn law_workers_of_members_go_on(workers: Seq<WorkerRef>, members: Seq<PeerView>, w: WorkerRef)
    ensures
        split_workers(workers, members, true).contains(w) <==> workers.contains(w) && has_member(
            members,
            w.peer,
        ),
        split_workers(workers, members, false).contains(w) <==> workers.contains(w) && !has_member(
            members,
            w.peer,
        ),
        split_workers(workers, members, true).len() + split_workers(workers, members, false).len()
            == workers.len(),
    decreases workers.len(),
{
    if workers.len() > 0 {
        let rest = workers.drop_last();
        law_workers_of_members_go_on(rest, members, w);
        assert(is_authorized(members, w.peer) == has_member(members, w.peer));
        assert(workers =~= rest.push(workers.last()));
        lemma_push_contains(rest, workers.last(), w);
        lemma_push_contains(split_workers(rest, members, true), workers.last(), w);
        lemma_push_contains(split_workers(rest, members, false), workers.last(), w);
    }
}

proof fn lemma_push_contains<A>(s: Seq<A>, last: A, x: A)
    ensures
        s.push(last).contains(x) <==> s.contains(x) || x == last,
{
    let t = s.push(last);
    if s.contains(x) {
        let i = choose|i: int| 0 <= i < s.len() && s[i] == x;
        assert(t[i] == x);
    }
    if x == last {
        assert(t[s.len() as int] == x);
    }
    if t.contains(x) {
        let i = choose|i: int| 0 <= i < t.len() && t[i] == x;
        if i < s.len() {
            assert(s[i] == x);
        }
    }
}

/// Whether a member's connection is opened from here before anything is sent:
/// it is kept alive, for all, for this peer or for its name, and this end has
/// the smaller key.
pub open spec fn kept_by_us(mesh: MeshView, local: EndpointId, member: PeerView) -> bool {
    (mesh.keep_alive || mesh.peers.contains(member.endpoint) || mesh.hosts.contains(
        lower(member.hostname),
    )) && local.rank() < member.endpoint.rank() && local != member.endpoint
}

/// The workers that run stay when new ones are started, and every member whose
/// connection this end keeps alive has one afterwards. A member of several
/// networks counts by its first entry.
#[verifier::rlimit(40)]
pub proof fn law_kept_members_get_a_worker(
    workers: Seq<WorkerRef>,
    next: u64,
    members: Seq<PeerView>,
    mesh: MeshView,
    local: EndpointId,
)
    ensures
        ({
            let after = with_started(workers, next, members, mesh, local).0;
            &&& workers.len() <= after.len()
            &&& after.take(workers.len() as int) == workers
            &&& forall|i: int|
                0 <= i < members.len() && #[trigger] kept_by_us(mesh, local, members[i])
                    && !has_member(members.take(i), members[i].endpoint) ==> works_for(
                    after,
                    members[i].endpoint,
                )
            &&& forall|j: int|
                workers.len() <= j < after.len() ==> !works_for(
                    workers,
                    (#[trigger] after[j]).peer,
                ) && exists|i: int|
                    0 <= i < members.len() && #[trigger] kept_by_us(mesh, local, members[i])
                        && members[i].endpoint == after[j].peer
        }),
        next + members.len() <= u64::MAX ==> {
            let after = with_started(workers, next, members, mesh, local).0;
            &&& with_started(workers, next, members, mesh, local).1 == next + after.len()
                - workers.len()
            &&& after.len() <= workers.len() + members.len()
            &&& forall|j: int|
                workers.len() <= j < after.len() ==> (#[trigger] after[j]).worker_id == next + j
                    - workers.len()
        },
    decreases members.len(),
{
    let all = with_started(workers, next, members, mesh, local);
    let after = all.0;
    if members.len() == 0 {
        assert(after.take(workers.len() as int) =~= workers);
    } else {
        let rest = members.drop_last();
        let member = members.last();
        let front = with_started(workers, next, rest, mesh, local);
        law_kept_members_get_a_worker(workers, next, rest, mesh, local);
        assert(opens_unasked(mesh, local, member) == kept_by_us(mesh, local, member));
        assert(is_authorized(rest, member.endpoint) == has_member(rest, member.endpoint));
        assert(after.take(workers.len() as int) =~= front.0.take(workers.len() as int));
        assert forall|p: EndpointId| works_for(front.0, p) implies works_for(after, p) by {
            let k = choose|k: int| 0 <= k < front.0.len() && (#[trigger] front.0[k]).peer == p;
            assert(after[k].peer == p);
        }
        assert forall|i: int|
            0 <= i < members.len() && #[trigger] kept_by_us(mesh, local, members[i]) && !has_member(
                members.take(i),
                members[i].endpoint,
            ) implies works_for(after, members[i].endpoint) by {
            if i < rest.len() {
                assert(rest[i] == members[i]);
                assert(rest.take(i) =~= members.take(i));
                assert(kept_by_us(mesh, local, rest[i]));
            } else {
                assert(members.take(i) =~= rest);
                if !works_for(front.0, member.endpoint) {
                    assert(after[after.len() - 1].peer == member.endpoint);
                }
            }
        }
        assert forall|j: int| workers.len() <= j < after.len() implies !works_for(
            workers,
            (#[trigger] after[j]).peer,
        ) && exists|i: int|
            0 <= i < members.len() && #[trigger] kept_by_us(mesh, local, members[i])
                && members[i].endpoint == after[j].peer by {
            if j < front.0.len() {
                assert(after[j] == front.0[j]);
                let i = choose|i: int|
                    0 <= i < rest.len() && #[trigger] kept_by_us(mesh, local, rest[i])
                        && rest[i].endpoint == front.0[j].peer;
                assert(members[i] == rest[i]);
                assert(kept_by_us(mesh, local, members[i]));
            } else {
                assert(kept_by_us(mesh, local, members[members.len() - 1]));
                if works_for(workers, member.endpoint) {
                    let k = choose|k: int|
                        0 <= k < workers.len() && (#[trigger] workers[k]).peer == member.endpoint;
                    assert(front.0.take(workers.len() as int)[k] == workers[k]);
                    assert(front.0[k].peer == member.endpoint);
                }
            }
        }
    }
}

/// A peer is dialled exactly where no dial is on its way, no cooldown runs and
/// the peer may be dialled; a dial is reported, and only a dial is one.
pub proof fn law_when_a_peer_is_dialled(
    dialing: bool,
    cooldown_until: Option<u64>,
    permitted: bool,
    now: u64,
)
    ensures
        ({
            let outcome = dial_outcome(dialing, cooldown_until, permitted, now);
            let cooling = cooldown_until is Some && now < cooldown_until->0;
            let actions = dial_actions(outcome);
            &&& outcome == DialStart::Started <==> !dialing && !cooling && permitted
            &&& outcome == DialStart::InFlight <==> dialing
            &&& outcome == DialStart::Cooldown <==> !dialing && cooling
            &&& outcome == DialStart::Denied <==> !dialing && !cooling && !permitted
            &&& outcome == DialStart::Started ==> actions.len() == 3 && actions[0]
                == PeerAction::CountDialAttempt && actions[1] == PeerAction::Dial && actions[2]
                == PeerAction::Publish(PeerPhase::Dialing)
            &&& outcome == DialStart::Denied ==> actions.len() == 1 && actions[0]
                == PeerAction::CountDialSuppressed
            &&& dialing || cooling ==> actions.len() == 0
        }),
{
}

/// A packet that waits for a dial is woken by it; one that waits for the end of
/// a cooldown is looked at then, and one whose peer may not be dialled when it
/// is a second old. A packet is too old once more than a second has passed.
pub proof fn law_how_long_packets_wait(
    cooldown_until: Option<u64>,
    enqueued_at: u64,
    now: u64,
)
    requires
        enqueued_at + 1_000_000_000 <= u64::MAX,
    ensures
        held_until(DialStart::Started, cooldown_until, enqueued_at) is None,
        held_until(DialStart::InFlight, cooldown_until, enqueued_at) is None,
        held_until(DialStart::Cooldown, cooldown_until, enqueued_at) == cooldown_until,
        held_until(DialStart::Denied, cooldown_until, enqueued_at) is Some,
        held_until(DialStart::Denied, cooldown_until, enqueued_at)->0 == enqueued_at
            + 1_000_000_000,
        is_stale(enqueued_at, now) <==> now > enqueued_at + 1_000_000_000,
{
}

/// A connection that came up open is taken into use where none is, where the
/// one in use is closed, and where it is the one that both ends keep: opened by
/// the end with the smaller key, while the one in use was not. It is reported
/// as connected; a connection that is not taken is closed.
pub proof fn law_which_connections_are_used(
    local: EndpointId,
    peer: EndpointId,
    live: Option<PeerConn>,
    live_closed: bool,
    incoming: PeerConn,
)
    ensures
        install_outcome(local, peer, live, live_closed, incoming, true) == Install::Dead,
        ({
            let outcome = install_outcome(local, peer, live, live_closed, incoming, false);
            let actions = install_actions(outcome);
            let ours = local.rank() < peer.rank();
            let better = live is Some && incoming.opened_by_us == ours && live->0.opened_by_us
                != ours;
            &&& outcome == Install::First <==> live is None
            &&& outcome == Install::Replaces <==> live is Some && (live_closed || better)
            &&& outcome == Install::Refused <==> live is Some && !live_closed && !better
            &&& outcome == Install::First ==> actions.len() == 2 && actions[0]
                == PeerAction::RefreshPath && actions[1] == PeerAction::Publish(
                PeerPhase::Connected,
            )
            &&& outcome == Install::Replaces ==> actions.len() == 3 && actions[0]
                == PeerAction::CloseLive(CloseReason::Replaced) && actions[1]
                == PeerAction::RefreshPath && actions[2] == PeerAction::Publish(
                PeerPhase::Connected,
            )
            &&& outcome == Install::Refused ==> actions.len() == 1 && actions[0]
                == PeerAction::CloseIncoming(CloseReason::TieBreak)
        }),
        install_actions(Install::Dead).len() == 0,
{
}

/// A packet that does not fit into one datagram takes a number of its own, and
/// is counted by its segments.
pub proof fn law_numbers_of_packets(id: u32, len: int, max: int, n: nat)
    requires
        n <= u64::MAX,
    ensures
        17 + len <= max ==> next_packet_id(id, len, max) == id,
        17 + len > max && id < u32::MAX ==> next_packet_id(id, len, max) == id + 1,
        17 + len > max && id == u32::MAX ==> next_packet_id(id, len, max) == 0,
        frame_count_actions(n).len() == 1,
        n == 1 ==> frame_count_actions(n)[0] == PeerAction::CountSingle,
        n != 1 ==> frame_count_actions(n)[0] == PeerAction::CountSegmented(n as u64),
{
}

/// The routes know a peer where they hold its key or list it as a member.
pub proof fn law_who_is_known(
    by_endpoint: Map<Seq<char>, PeerView>,
    members: Seq<PeerView>,
    hex: Seq<char>,
    peer: EndpointId,
    i: int,
)
    ensures
        by_endpoint.contains_key(hex) ==> knows_peer(by_endpoint, members, hex, peer),
        0 <= i < members.len() && members[i].endpoint == peer ==> knows_peer(
            by_endpoint,
            members,
            hex,
            peer,
        ),
        !by_endpoint.contains_key(hex) && !has_member(members, peer) ==> !knows_peer(
            by_endpoint,
            members,
            hex,
            peer,
        ),
{
}

/// A packet that is handed to a worker with a connection goes out at once. One
/// for which there is none is held back, unless it is over a second old, and
/// the peer is dialled where that may be.
pub proof fn law_packets_are_sent_or_held(
    before: PeerWorker,
    after: PeerWorker,
    pkt: OutboundPacket,
    permitted: bool,
    now: u64,
    actions: Seq<PeerAction>,
    out: Option<OutboundPacket>,
)
    requires
        handed(before, after, pkt, permitted, now, actions, out),
    ensures
        after.last_activity == now,
        after.live == before.live,
        after.cooldown_until == before.cooldown_until,
        before.live is Some ==> out == Some(pkt) && after.hold == before.hold && actions.len() == 0,
        before.live is None && now > pkt.enqueued_at + 1_000_000_000 ==> out is None && after.hold
            == before.hold && actions.len() == 1 && actions[0] == PeerAction::Drop(
            DropReason::PacketStale,
        ),
        before.live is None && now <= pkt.enqueued_at + 1_000_000_000 ==> {
            let cooling = before.cooldown_until is Some && now < before.cooldown_until->0;
            &&& out is None
            &&& after.hold == Some(pkt)
            &&& !before.dialing && !cooling && permitted ==> after.dialing && actions.contains(
                PeerAction::Dial,
            ) && after.retry_at is None
            &&& before.dialing ==> after.dialing && actions.len() == 0 && after.retry_at is None
            &&& !before.dialing && cooling ==> !after.dialing && actions.len() == 0
                && after.retry_at == before.cooldown_until
            &&& !before.dialing && !cooling && !permitted ==> !after.dialing && !actions.contains(
                PeerAction::Dial,
            ) && after.retry_at is Some
        },
{
    if before.live is None && now <= pkt.enqueued_at + 1_000_000_000 {
        let cooling = before.cooldown_until is Some && now < before.cooldown_until->0;
        if !before.dialing && !cooling && permitted {
            assert(actions[1] == PeerAction::Dial);
        }
    }
}

/// A packet that was held back for a dial goes out once the dial has brought a
/// connection, unless a second has passed since it came.
pub proof fn law_held_packets_go_out_on_connection(
    start: PeerWorker,
    holding: PeerWorker,
    connected: PeerWorker,
    after: PeerWorker,
    pkt: OutboundPacket,
    conn: PeerConn,
    permitted: bool,
    now: u64,
    later: u64,
    first: Seq<PeerAction>,
    none: Option<OutboundPacket>,
    last: Seq<PeerAction>,
    out: Option<OutboundPacket>,
)
    requires
        start.live is None,
        now <= pkt.enqueued_at + 1_000_000_000,
        handed(start, holding, pkt, permitted, now, first, none),
        installed(
            (PeerWorker { dialing: false, last_activity: later, retry_at: None, ..holding }),
            connected,
            conn,
            install_outcome(holding.local, holding.peer, holding.live, false, conn, false),
        ),
        flushed(connected, after, later, last, out),
    ensures
        connected.live == Some(conn),
        later <= pkt.enqueued_at + 1_000_000_000 ==> out == Some(pkt) && last.len() == 0
            && after.live == Some(conn) && after.hold is None,
        later > pkt.enqueued_at + 1_000_000_000 ==> out is None && last.len() == 1 && last[0]
            == PeerAction::Drop(DropReason::PacketStale) && after.hold is None,
{
}

/// A queued packet goes out unless it is over a second old.
pub proof fn law_queued_packets_go_out(
    before: PeerWorker,
    after: PeerWorker,
    pkt: OutboundPacket,
    now: u64,
    actions: Seq<PeerAction>,
    out: Option<OutboundPacket>,
)
    requires
        drained(before, after, pkt, now, actions, out),
    ensures
        now <= pkt.enqueued_at + 1_000_000_000 ==> out == Some(pkt) && actions.len() == 0
            && after.last_activity == now,
        now > pkt.enqueued_at + 1_000_000_000 ==> out is None && actions.len() == 1 && actions[0]
            == PeerAction::Drop(DropReason::PacketStale),
        after.live == before.live,
        after.hold == before.hold,
        after.dialing == before.dialing,
{
}

/// After a failed dial no other follows for half a second; then a packet that
/// was held back is looked at again and the peer is dialled, where it may be and
/// the packet is not too old.
#[verifier::rlimit(40)]
pub proof fn law_failed_dials_are_tried_again(
    before: PeerWorker,
    failed: PeerWorker,
    after: PeerWorker,
    now: u64,
    later: u64,
    permitted: bool,
    actions: Seq<PeerAction>,
    again: Seq<PeerAction>,
    pkt: OutboundPacket,
)
    requires
        backed_off(before, failed, now, actions),
        now + 500_000_000 <= u64::MAX,
        before.hold == Some(pkt),
        now <= pkt.enqueued_at + 1_000_000_000,
        later <= pkt.enqueued_at + 1_000_000_000,
        retried(failed, after, permitted, later, again),
    ensures
        !failed.dialing,
        failed.hold == Some(pkt),
        failed.cooldown_until is Some && failed.cooldown_until->0 == now + 500_000_000,
        failed.retry_at == failed.cooldown_until,
        actions.contains(PeerAction::CountDialFail),
        actions.contains(PeerAction::DropQueued),
        actions.last() == PeerAction::Publish(PeerPhase::Backoff),
        later < now + 500_000_000 ==> !after.dialing && again.len() == 0,
        later >= now + 500_000_000 && permitted ==> after.dialing && again.contains(
            PeerAction::Dial,
        ),
        after.hold == Some(pkt),
{
    assert(actions[0] == PeerAction::CountDialFail);
    assert(actions[1] == PeerAction::DropQueued);
    if later >= now + 500_000_000 && permitted {
        assert(again[1] == PeerAction::Dial);
    }
}

/// A packet held back that has grown too old is dropped when it is looked at,
/// and when the dial that it waited for fails.
pub proof fn law_old_packets_are_dropped(
    before: PeerWorker,
    after: PeerWorker,
    failed: PeerWorker,
    permitted: bool,
    now: u64,
    actions: Seq<PeerAction>,
    failing: Seq<PeerAction>,
    pkt: OutboundPacket,
)
    requires
        before.hold == Some(pkt),
        now > pkt.enqueued_at + 1_000_000_000,
        retried(before, after, permitted, now, actions),
        backed_off(before, failed, now, failing),
    ensures
        after.hold is None && after.retry_at is None && after.dialing == before.dialing,
        actions.len() == 1 && actions[0] == PeerAction::Drop(DropReason::PacketStale),
        failed.hold is None && failed.retry_at is None && !failed.dialing,
        failing.contains(PeerAction::Drop(DropReason::PacketStale)),
{
    assert(failing[2] == PeerAction::Drop(DropReason::PacketStale));
}

/// A peer that is kept alive is dialled by the end with the smaller key where
/// nothing else is going on, and by nobody otherwise.
pub proof fn law_kept_peers_are_dialled(
    before: PeerWorker,
    after: PeerWorker,
    keep_alive: bool,
    permitted: bool,
    now: u64,
    actions: Seq<PeerAction>,
)
    requires
        woke(before, after, keep_alive, permitted, now, actions),
    ensures
        ({
            let idle = before.live is None && !before.dialing && before.hold is None;
            let cooling = before.cooldown_until is Some && now < before.cooldown_until->0;
            let ours = before.local.rank() < before.peer.rank();
            &&& actions.contains(PeerAction::Dial) <==> idle && keep_alive && ours && !cooling
                && permitted
            &&& after.dialing <==> before.dialing || (idle && keep_alive && ours && !cooling
                && permitted)
            &&& after.hold == before.hold && after.live == before.live
        }),
{
    let idle = before.live is None && !before.dialing && before.hold is None;
    let cooling = before.cooldown_until is Some && now < before.cooldown_until->0;
    if idle && keep_alive && before.local.rank() < before.peer.rank() && !cooling && permitted {
        assert(actions[1] == PeerAction::Dial);
    }
}

/// A connection is closed for being idle after two minutes without traffic,
/// unless the peer is kept alive, and is looked after otherwise.
pub proof fn law_idle_workers_close(
    before: PeerWorker,
    after: PeerWorker,
    keep_alive: bool,
    now: u64,
    actions: Seq<PeerAction>,
)
    requires
        looked_at(before, after, keep_alive, now, actions),
    ensures
        ({
            let idle = before.live is Some && !keep_alive && now > before.last_activity
                + 120_000_000_000;
            &&& idle ==> after.live is None && actions.contains(
                PeerAction::CloseLive(CloseReason::Idle),
            ) && actions.last() == PeerAction::Publish(PeerPhase::Idle) && actions.contains(
                PeerAction::ClearRelay,
            )
            &&& !idle ==> after.live == before.live && !actions.contains(
                PeerAction::CloseLive(CloseReason::Idle),
            )
            &&& before.live is Some ==> actions[0] == PeerAction::RefreshPath
            &&& before.live is None ==> actions.len() == 0
            &&& after.hold == before.hold && after.dialing == before.dialing
        }),
{
    if before.live is Some && !keep_alive && now > before.last_activity + 120_000_000_000 {
        assert(actions[1] == PeerAction::CloseLive(CloseReason::Idle));
        assert(actions[2] == PeerAction::ClearRelay);
    }
}

/// A worker that ends gives its dial up, closes its connection and forgets the
/// peer last.
pub proof fn law_ended_workers_leave_nothing(before: PeerWorker, after: PeerWorker, actions: Seq<PeerAction>)
    requires
        stopped(before, after, actions),
    ensures
        !after.dialing,
        after.live is None,
        before.dialing ==> actions[0] == PeerAction::AbortDial,
        before.live is Some ==> actions.contains(
            PeerAction::CloseLive(CloseReason::DataplaneDown),
        ),
        actions.last() == PeerAction::Forget,
        actions.len() == 1 + (if before.dialing {
            1int
        } else {
            0
        }) + (if before.live is Some {
            1int
        } else {
            0
        }),
{
    let d: int = if before.dialing {
        1
    } else {
        0
    };
    if before.live is Some {
        assert(actions[d] == PeerAction::CloseLive(CloseReason::DataplaneDown));
    }
}

/// A packet goes out in datagrams over an open connection exactly where it is
/// not empty, at most 65535 bytes long and fits into one datagram or 64
/// segments; otherwise it is dropped as too large. Without an open connection
/// it is dropped as stale.
#[verifier::rlimit(40)]
pub proof fn law_packets_go_out_in_datagrams(
    before: PeerWorker,
    after: PeerWorker,
    pkt: OutboundPacket,
    closed: bool,
    max: usize,
    actions: Seq<PeerAction>,
    sent: Seq<Seq<u8>>,
)
    requires
        planned(before, after, pkt, closed, Some(max), actions, sent),
    ensures
        ({
            let len = bytes_of(pkt.bytes).len();
            let fits = 0 < len <= 65535 && (17 + len <= max || (max > 27 && len <= 64 * (max
                - 27)));
            let open = before.live is Some && !closed;
            &&& open && fits ==> sent.len() > 0 && after.live == before.live
            &&& open && fits && 17 + len <= max ==> sent.len() == 1 && actions == seq![
                PeerAction::CountSingle,
            ] && after.packet_id == before.packet_id
            &&& open && fits && 17 + len > max ==> sent.len() == (len + max - 28) / (max - 27)
                && actions == seq![PeerAction::CountSegmented(sent.len() as u64)]
                && after.packet_id == before.packet_id.wrapping_add(1)
            &&& open && !fits ==> sent.len() == 0 && actions == seq![
                PeerAction::Drop(DropReason::DatagramTooLarge),
            ]
            &&& !open ==> sent.len() == 0 && actions.last() == PeerAction::Drop(
                DropReason::PacketStale,
            )
            &&& before.live is Some && closed ==> after.live is None
            &&& before.live is None ==> after == before
        }),
{
    let len = bytes_of(pkt.bytes).len();
    let id = next_packet_id(before.packet_id, len as int, max as int);
    law_which_packets_can_be_carried(pkt.network_id, bytes_of(pkt.bytes), max as int, id);
    if len > 0 && max > 27 {
        lemma_pieces(len as int, max - 27);
        let n = pieces(len as int, max - 27);
        assert(n == 1 ==> n * (max - 27) == max - 27) by (nonlinear_arith);
    }
}

/// The datagrams of a packet follow one another while they are sent; the last
/// one has the packet counted. A failure ends the packet, and a lost connection
/// is let go.
pub proof fn law_datagrams_follow_one_another(
    before: PeerWorker,
    after: PeerWorker,
    outcome: SendOutcome,
    is_last: bool,
    len: u64,
    actions: Seq<PeerAction>,
    follows: bool,
)
    requires
        went_out(before, after, outcome, is_last, len, actions, follows),
    ensures
        follows <==> outcome == SendOutcome::Sent && !is_last,
        outcome == SendOutcome::Sent && is_last ==> actions.contains(PeerAction::RecordSent(len)),
        outcome == SendOutcome::Sent && !is_last ==> actions.len() == 0,
        outcome == SendOutcome::TooLarge ==> actions == seq![
            PeerAction::Drop(DropReason::DatagramTooLarge),
        ],
        outcome == SendOutcome::Failed ==> actions == seq![
            PeerAction::Drop(DropReason::DatagramSend),
        ],
        outcome == SendOutcome::ConnectionLost <==> after.live != before.live || (outcome
            == SendOutcome::ConnectionLost && before.live is None),
        outcome == SendOutcome::ConnectionLost ==> after.live is None && actions.last()
            == PeerAction::Publish(PeerPhase::Idle),
{
    if outcome == SendOutcome::Sent && is_last {
        assert(actions[0] == PeerAction::RecordSent(len));
    }
}

/// One more where something is so.
pub open spec fn plus(n: u64, so: bool) -> u64 {
    if so {
        n.wrapping_add(1)
    } else {
        n
    }
}

/// A dropped packet moves the counter of its reason by one, where it has one,
/// and no other.
pub proof fn law_drops_move_their_counter(c: TunnelCounters, reason: DropReason)
    ensures
        ({
            let d = counted_drop(c, reason);
            &&& d.stale_drops == plus(c.stale_drops, reason == DropReason::PacketStale)
            &&& d.queue_full == plus(c.queue_full, reason == DropReason::PeerQueueFull)
            &&& d.too_large == plus(c.too_large, reason == DropReason::DatagramTooLarge)
            &&& d.send_errors == plus(c.send_errors, reason == DropReason::DatagramSend)
            &&& d.reassembly_malformed == plus(
                c.reassembly_malformed,
                reason == DropReason::OverlayMalformed,
            )
            &&& d.reassembly_expired == plus(
                c.reassembly_expired,
                reason == DropReason::OverlayExpired,
            )
            &&& d.reassembly_evicted == plus(
                c.reassembly_evicted,
                reason == DropReason::OverlayEvicted,
            )
            &&& d.blocked_drops == plus(c.blocked_drops, reason == DropReason::UnknownNetwork)
            &&& d.tun_write_drops == plus(
                c.tun_write_drops,
                reason == DropReason::TunWriteQueueFull,
            )
            &&& d.bytes_tx == c.bytes_tx && d.bytes_rx == c.bytes_rx
            &&& d.packets_tx == c.packets_tx && d.packets_rx == c.packets_rx
            &&& d.tun_rx_packets == c.tun_rx_packets && d.tun_tx_packets == c.tun_tx_packets
            &&& d.dial_attempts == c.dial_attempts && d.dial_success == c.dial_success
            &&& d.segments_tx == c.segments_tx && d.segments_rx == c.segments_rx
        }),
{
}

/// A report on a peer is taken where the peer is not known yet, where it is
/// from the owner of the last one, and where it is from a later owner whose
/// connection is live. What is known of the peer is then what the report says,
/// its byte counts stay, and so does what is known of others.
pub proof fn law_reports_are_taken(
    before: TunnelMesh,
    after: TunnelMesh,
    peer: EndpointId,
    owner: u64,
    state: Seq<char>,
    live: bool,
    path: Seq<char>,
    keep_alive: bool,
    now: u64,
    other: EndpointId,
)
    requires
        told(before, after, peer, owner, state, live, path, keep_alive, now),
    ensures
        ({
            let old_snaps = before.state().snaps;
            let snaps = after.state().snaps;
            let known = old_snaps.contains_key(peer);
            let taken = !known || owner == old_snaps[peer].owner || (owner > old_snaps[peer].owner
                && live);
            &&& taken ==> {
                &&& snaps.contains_key(peer)
                &&& snaps[peer].owner == owner
                &&& snaps[peer].state == state
                &&& snaps[peer].live == live
                &&& snaps[peer].path == path
                &&& snaps[peer].keep_alive == keep_alive
                &&& snaps[peer].last_activity == now
                &&& known ==> snaps[peer].bytes_in == old_snaps[peer].bytes_in
                    && snaps[peer].bytes_out == old_snaps[peer].bytes_out
                &&& !known ==> snaps[peer].bytes_in == 0 && snaps[peer].bytes_out == 0
                &&& live_peers(snaps).contains(peer) == live
            }
            &&& !taken ==> snaps == old_snaps
            &&& other != peer ==> {
                &&& snaps.contains_key(other) == old_snaps.contains_key(other)
                &&& snaps.contains_key(other) ==> snaps[other] == old_snaps[other]
            }
            &&& after.state().counters == before.state().counters
            &&& after.state().relays == before.state().relays
        }),
{
}

/// A peer is forgotten by the owner of the last report alone, with the word on
/// its path; others stay known.
pub proof fn law_owners_forget_their_peer(
    before: TunnelMesh,
    after: TunnelMesh,
    peer: EndpointId,
    owner: u64,
    other: EndpointId,
)
    requires
        cleared(before, after, peer, owner),
    ensures
        ({
            let old_snaps = before.state().snaps;
            let snaps = after.state().snaps;
            let old_relays = before.state().relays;
            let relays = after.state().relays;
            &&& snaps.contains_key(peer) <==> old_snaps.contains_key(peer) && old_snaps[peer].owner
                != owner
            &&& relays.contains_key(peer) <==> old_relays.contains_key(peer)
                && old_relays[peer].owner != owner
            &&& other != peer && old_snaps.contains_key(other) ==> snaps.contains_key(other)
                && snaps[other] == old_snaps[other]
            &&& other != peer && old_relays.contains_key(other) ==> relays.contains_key(other)
                && relays[other] == old_relays[other]
            &&& after.state().counters == before.state().counters
        }),
{
}

/// The number of connections goes up where a peer came live, down where it
/// ceased to be, and stays otherwise.
pub proof fn law_moves_of_the_gauge(was: bool, now_is: bool)
    ensures
        gauge_move(was, now_is) == GaugeMove::Up <==> now_is && !was,
        gauge_move(was, now_is) == GaugeMove::Down <==> was && !now_is,
        gauge_move(was, now_is) == GaugeMove::Stays <==> was == now_is,
{
}

/// Every relay address is known without its trailing slashes, each once, and no
/// other address is.
#[verifier::rlimit(40)]
pub proof fn law_relay_addresses_are_known(urls: Seq<Seq<char>>)
    ensures
        forall|i: int|
            0 <= i < urls.len() ==> normalized_urls(urls).contains(
                trim_end_of(#[trigger] urls[i], '/'),
            ),
        forall|u: Seq<char>| #[trigger]
            normalized_urls(urls).contains(u) ==> exists|i: int|
                0 <= i < urls.len() && trim_end_of(#[trigger] urls[i], '/') == u,
        normalized_urls(urls).no_duplicates(),
    decreases urls.len(),
{
    if urls.len() > 0 {
        let rest = urls.drop_last();
        let known = normalized_urls(rest);
        let last = trim_end_of(urls.last(), '/');
        law_relay_addresses_are_known(rest);
        let all = normalized_urls(urls);
        assert forall|u: Seq<char>| #[trigger] all.contains(u) <==> known.contains(u) || u
            == last by {
            lemma_push_contains(known, last, u);
        }
        assert forall|i: int| 0 <= i < urls.len() implies all.contains(
            trim_end_of(#[trigger] urls[i], '/'),
        ) by {
            if i < rest.len() {
                assert(rest[i] == urls[i]);
                assert(known.contains(trim_end_of(rest[i], '/')));
            }
        }
        assert forall|u: Seq<char>| #[trigger] all.contains(u) implies exists|i: int|
            0 <= i < urls.len() && trim_end_of(#[trigger] urls[i], '/') == u by {
            if known.contains(u) {
                let i = choose|i: int|
                    0 <= i < rest.len() && trim_end_of(#[trigger] rest[i], '/') == u;
                assert(urls[i] == rest[i]);
            } else {
                assert(trim_end_of(urls[urls.len() - 1], '/') == u);
            }
        }
    }
}

/// Without a packet held back nothing goes out and nothing changes.
pub proof fn law_nothing_held_nothing_sent(
    before: PeerWorker,
    after: PeerWorker,
    now: u64,
    actions: Seq<PeerAction>,
    out: Option<OutboundPacket>,
)
    requires
        before.hold is None,
        flushed(before, after, now, actions, out),
    ensures
        out is None,
        actions.len() == 0,
        after == before,
{
}

/// A connection that is taken into use is the one in use from then on, and what
/// was put together over another is forgotten; one that is not taken changes
/// nothing. Everything else of the worker stays.
pub proof fn law_taken_connections_are_used(
    before: PeerWorker,
    after: PeerWorker,
    incoming: PeerConn,
    live_closed: bool,
    incoming_closed: bool,
)
    requires
        installed(
            before,
            after,
            incoming,
            install_outcome(
                before.local,
                before.peer,
                before.live,
                live_closed,
                incoming,
                incoming_closed,
            ),
        ),
    ensures
        ({
            let ours = before.local.rank() < before.peer.rank();
            let better = before.live is Some && incoming.opened_by_us == ours
                && before.live->0.opened_by_us != ours;
            let taken = !incoming_closed && (before.live is None || live_closed || better);
            &&& taken ==> after.live == Some(incoming) && after.reassembly.entries().len() == 0
            &&& !taken ==> after == before
            &&& after.hold == before.hold
            &&& after.packet_id == before.packet_id
            &&& after.dialing == before.dialing
            &&& after.retry_at == before.retry_at
            &&& after.last_activity == before.last_activity
        }),
{
}

/// Over a connection that takes no datagrams a packet is dropped as too large.
pub proof fn law_datagrams_are_needed(
    before: PeerWorker,
    after: PeerWorker,
    pkt: OutboundPacket,
    actions: Seq<PeerAction>,
    sent: Seq<Seq<u8>>,
)
    requires
        before.live is Some,
        planned(before, after, pkt, false, None, actions, sent),
    ensures
        sent.len() == 0,
        actions == seq![PeerAction::Drop(DropReason::DatagramTooLarge)],
        after == before,
{
}

/// A connection that came up open for a worker without one is used from now on,
/// and reported; a dial that brought it is over and counted. What is held back
/// stays to be flushed, and no time to look at it is set any more.
pub proof fn law_first_connections_are_used(
    before: PeerWorker,
    after: PeerWorker,
    conn: PeerConn,
    live_closed: bool,
    dialled: bool,
    now: u64,
    actions: Seq<PeerAction>,
)
    requires
        before.live is None,
        came_up(before, after, conn, false, live_closed, dialled, now, actions),
    ensures
        after.live == Some(conn),
        after.last_activity == now,
        after.retry_at is None,
        after.hold == before.hold,
        after.dialing == (before.dialing && !dialled),
        dialled ==> actions[0] == PeerAction::CountDialSuccess,
        actions.last() == PeerAction::Publish(PeerPhase::Connected),
        actions.contains(PeerAction::RefreshPath),
{
    assert(actions[actions.len() - 2] == PeerAction::RefreshPath);
}

/// A peer that has a worker keeps it. Any other gets a new one, under the next
/// number and behind the others, which all stay.
pub proof fn law_every_peer_gets_its_worker(
    workers: Seq<WorkerRef>,
    next: u64,
    peer: EndpointId,
    r: (WorkerRef, bool),
    after: Seq<WorkerRef>,
    next_after: u64,
)
    requires
        worker_given(workers, next, peer, r, after, next_after),
    ensures
        after.contains(r.0),
        r.0.peer == peer,
        (exists|i: int| 0 <= i < workers.len() && (#[trigger] workers[i]).peer == peer) ==> !r.1
            && after == workers && next_after == next,
        (forall|i: int| 0 <= i < workers.len() ==> (#[trigger] workers[i]).peer != peer) ==> r.1
            && after.drop_last() == workers && after.last() == r.0 && r.0.worker_id == next
            && next_after == next.wrapping_add(1),
{
    if r.1 {
        assert(after[workers.len() as int] == r.0);
        assert(after.drop_last() =~= workers);
    }
}

/// A packet counts once, with its bytes, in the direction that it went, in all
/// and for its peer where that is known; nothing is counted for others.
pub proof fn law_packets_are_counted(m: MeshView, peer: EndpointId, bytes: u64, now: u64, other: EndpointId)
    ensures
        ({
            let out = counted_out(m, peer, bytes, now);
            let within = counted_in(m, peer, bytes, now);
            &&& out.counters.packets_tx == m.counters.packets_tx.wrapping_add(1)
            &&& out.counters.bytes_tx == m.counters.bytes_tx.wrapping_add(bytes)
            &&& out.counters.packets_rx == m.counters.packets_rx && out.counters.bytes_rx
                == m.counters.bytes_rx
            &&& within.counters.packets_rx == m.counters.packets_rx.wrapping_add(1)
            &&& within.counters.bytes_rx == m.counters.bytes_rx.wrapping_add(bytes)
            &&& within.counters.packets_tx == m.counters.packets_tx && within.counters.bytes_tx
                == m.counters.bytes_tx
            &&& m.snaps.contains_key(peer) ==> {
                &&& m.snaps[peer].bytes_out + bytes <= u64::MAX ==> out.snaps[peer].bytes_out
                    == m.snaps[peer].bytes_out + bytes
                &&& m.snaps[peer].bytes_in + bytes <= u64::MAX ==> within.snaps[peer].bytes_in
                    == m.snaps[peer].bytes_in + bytes
                &&& out.snaps[peer].bytes_in == m.snaps[peer].bytes_in
                &&& within.snaps[peer].bytes_out == m.snaps[peer].bytes_out
                &&& out.snaps[peer].last_activity == now && within.snaps[peer].last_activity == now
                &&& out.snaps[peer].live == m.snaps[peer].live && out.snaps[peer].owner
                    == m.snaps[peer].owner
            }
            &&& !m.snaps.contains_key(peer) ==> out.snaps == m.snaps && within.snaps == m.snaps
            &&& other != peer && m.snaps.contains_key(other) ==> out.snaps[other] == m.snaps[other]
                && within.snaps[other] == m.snaps[other]
            &&& out.active == m.active && within.active == m.active
        }),
{
}

/// A failed dial is counted, what is queued is dropped, and no other dial
/// follows for half a second; the connection in use, if any, stays.
pub proof fn law_failed_dials_cool_down(
    before: PeerWorker,
    after: PeerWorker,
    now: u64,
    actions: Seq<PeerAction>,
)
    requires
        backed_off(before, after, now, actions),
        now + 500_000_000 <= u64::MAX,
    ensures
        !after.dialing,
        after.cooldown_until is Some && after.cooldown_until->0 == now + 500_000_000,
        after.live == before.live,
        after.last_activity == before.last_activity,
        before.hold is None ==> after.hold is None && after.retry_at == before.retry_at,
        actions[0] == PeerAction::CountDialFail,
        actions[1] == PeerAction::DropQueued,
        actions.last() == PeerAction::Publish(PeerPhase::Backoff),
{
}

} // verus!
