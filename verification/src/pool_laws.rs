//! What comes of connections, step by step.

use crate::conn_pool::{
    adopted, backoff_cap, dial_counted, dial_end, dial_outcome, extra_dial_end, fresh_slot,
    get_step, incoming_wins, jittered, ready, reconciled, reconciled_extra, remote_retry_cap, swept,
    touched, wait_range, AdoptStep, ConnStatus, ConnectFault, ConnectResult, DialContext, DialEnd,
    DialFailure, DialOutcome, Episode, Gate, GetStep, PeerConnState, PeerSlot, PoolMetrics,
    Readiness,
};
use crate::endpoint::EndpointId;
use crate::pool::{
    changed_all, changed_each, closes, closes_extra, count_of, gate_of, held_for, lemma_total,
    live_slots, revoked, total, AuthView, PoolView, SlotChange, Surroundings,
};
use vstd::arithmetic::power2::lemma2_to64;
use vstd::prelude::*;

verus! {

/// A peer is let in exactly where no membership is known, or it is among the
/// members, unless it was revoked in the very generation that is in force.
pub proof fn law_who_is_let_in(auth: Option<AuthView>, pins: Map<EndpointId, u64>, peer: EndpointId)
    ensures
        auth is None ==> gate_of(auth, pins, peer).generation == 0,
        auth matches Some(a) ==> gate_of(auth, pins, peer).generation == a.generation,
        gate_of(auth, pins, peer).allows <==> (auth is None || exists|i: int|
            0 <= i < auth->0.members.len() && auth->0.members[i] == peer) && !(
        pins.contains_key(peer) && pins[peer] == gate_of(auth, pins, peer).generation),
{
    if auth is Some {
        let members = auth->0.members;
        assert(members.contains(peer) <==> exists|i: int|
            0 <= i < members.len() && members[i] == peer);
    }
}

/// A peer that is let in may be dialled unless a backoff runs or a rejection of
/// this generation cools down.
pub proof fn law_admitted_peers_are_dialled(s: PeerConnState, gate: Gate, now: u64)
    requires
        gate.allows,
    ensures
        ready(s, gate, now).1 == Readiness::Dial <==> !(s matches PeerConnState::Backoff {
            until,
            ..
        } && now < until) && !(s matches PeerConnState::Rejected { generation, retry_after, .. }
            && generation == gate.generation && now < retry_after),
        ready(s, gate, now).1 != Readiness::Dial ==> ready(s, gate, now).1 == Readiness::Wait
            && ready(s, gate, now).0 == s,
        ready(s, gate, now).2 <==> ready(s, gate, now).1 == Readiness::Wait,
{
}

/// The open connection to a peer that is let in is handed out, and counts as
/// used now.
pub proof fn law_open_connections_are_handed_out(
    slot: PeerSlot,
    m: PoolMetrics,
    gate: Gate,
    now: u64,
    retry_ms: u64,
    conn: u64,
)
    requires
        gate.allows,
        slot.conn == Some(conn),
    ensures
        ({
            let out = get_step(slot, m, gate, ConnStatus::Open, now, retry_ms);
            &&& out.2 == GetStep::Use { conn }
            &&& out.0.conn == Some(conn)
            &&& out.0.state == PeerConnState::Connected { auth_gen: gate.generation }
            &&& out.0.last_activity == now
            &&& out.0.opened_by_us == slot.opened_by_us
            &&& out.0.peer_keep_alive == slot.peer_keep_alive
            &&& out.0.dialing == slot.dialing
            &&& out.1 == m
        }),
{
}

/// For a peer that is let in and has no connection, the first caller dials
/// unless a wait runs, and the next ones wait for that dial.
pub proof fn law_missing_connections_are_dialled(
    slot: PeerSlot,
    m: PoolMetrics,
    gate: Gate,
    status: ConnStatus,
    now: u64,
    later: u64,
    retry_ms: u64,
)
    requires
        gate.allows,
        slot.conn is None,
        !slot.dialing,
        !(slot.state matches PeerConnState::Backoff { until, .. } && now < until),
        !(slot.state matches PeerConnState::Rejected { generation, retry_after, .. } && generation
            == gate.generation && now < retry_after),
    ensures
        ({
            let first = get_step(slot, m, gate, status, now, retry_ms);
            let next = get_step(first.0, first.1, gate, status, later, retry_ms);
            &&& first.2 is Dial
            &&& first.0.dialing
            &&& first.0.state == PeerConnState::Dialing
            &&& first.0.conn is None
            &&& first.1 == m
            &&& slot.state matches PeerConnState::Backoff { step, .. } ==> first.2->ctx.step
                == step
            &&& !(slot.state is Backoff) ==> first.2->ctx.step == 0
            &&& slot.state matches PeerConnState::Rejected { generation, first: began, .. } ==> (
            generation == gate.generation ==> first.2->ctx.rejected == Some(
                Episode { generation, first: began },
            ))
            &&& !(slot.state is Rejected) ==> first.2->ctx.rejected is None
            &&& next.2 == GetStep::Join
        }),
{
}

/// While a wait runs for a peer without a connection, callers are turned away
/// and counted.
pub proof fn law_waits_turn_callers_away(
    slot: PeerSlot,
    m: PoolMetrics,
    gate: Gate,
    status: ConnStatus,
    now: u64,
    retry_ms: u64,
)
    requires
        gate.allows,
        slot.conn is None,
        (slot.state matches PeerConnState::Backoff { until, .. } && now < until) || (
        slot.state matches PeerConnState::Rejected { generation, retry_after, .. } && generation
            == gate.generation && now < retry_after),
    ensures
        ({
            let out = get_step(slot, m, gate, status, now, retry_ms);
            &&& out.2 == GetStep::Suppressed
            &&& out.0 == slot
            &&& out.1.dials_suppressed == m.dials_suppressed.wrapping_add(1)
        }),
{
}

/// A connection that the peer closed for want of authorisation is taken for a
/// rejection, and cools down from now on.
pub proof fn law_rejections_come_to_light(
    slot: PeerSlot,
    m: PoolMetrics,
    gate: Gate,
    now: u64,
    retry_ms: u64,
)
    requires
        slot.conn is Some,
        now + retry_ms * 1_000_000 <= u64::MAX,
        !(slot.state matches PeerConnState::Rejected { generation, .. } && generation
            == gate.generation),
    ensures
        ({
            let out = get_step(
                slot,
                m,
                gate,
                ConnStatus::Closed { by_authorization: true },
                now,
                retry_ms,
            );
            &&& out.2 == GetStep::RejectedByPeer
            &&& out.0.conn is None
            &&& out.0.state matches PeerConnState::Rejected { generation, first, retry_after }
                && generation == gate.generation && first == now && retry_after == now + retry_ms
                * 1_000_000
        }),
{
}

/// A dial that succeeded while the peer is let in gives the slot its
/// connection. Where another one is open, the one that the end with the smaller
/// key opened is used and the other one closed.
pub proof fn law_dialled_connections_are_used(
    slot: PeerSlot,
    m: PoolMetrics,
    ctx: DialContext,
    local: EndpointId,
    peer: EndpointId,
    conn: u64,
    gate: Gate,
    status: ConnStatus,
    now: u64,
    wait_ms: u64,
)
    requires
        gate.allows,
    ensures
        ({
            let out = dial_end(
                slot,
                m,
                ctx,
                local,
                peer,
                (DialOutcome::Connected { conn }),
                gate,
                status,
                now,
                wait_ms,
            );
            let other_open = slot.conn is Some && status == ConnStatus::Open;
            let new_stays = !other_open || (!slot.opened_by_us && local.rank() < peer.rank());
            &&& !out.0.dialing
            &&& out.1 == m
            &&& new_stays ==> {
                &&& out.0.conn == Some(conn)
                &&& out.0.opened_by_us
                &&& out.0.state == PeerConnState::Connected { auth_gen: gate.generation }
                &&& out.0.last_activity == now
                &&& out.2 matches DialEnd::Use { conn: used, close } && used == conn && close
                    == if other_open {
                    slot.conn
                } else {
                    None
                }
            }
            &&& !new_stays ==> {
                &&& out.0.conn == slot.conn
                &&& out.0.state == slot.state
                &&& out.2 matches DialEnd::Use { conn: used, close } && Some(used) == slot.conn
                    && close == Some(conn)
            }
        }),
{
}

/// A dial of a secondary protocol that succeeded while the peer is let in gives
/// the slot its connection.
pub proof fn law_dialled_extra_connections_are_used(
    slot: PeerSlot,
    m: PoolMetrics,
    ctx: DialContext,
    conn: u64,
    gate: Gate,
    now: u64,
    wait_ms: u64,
)
    requires
        gate.allows,
    ensures
        ({
            let out = extra_dial_end(
                slot,
                m,
                ctx,
                (DialOutcome::Connected { conn }),
                gate,
                now,
                wait_ms,
            );
            &&& out.0.conn == Some(conn)
            &&& out.0.opened_by_us
            &&& !out.0.dialing
            &&& out.0.state == PeerConnState::Connected { auth_gen: gate.generation }
            &&& out.0.last_activity == now
            &&& out.2 == DialEnd::Use { conn, close: None }
        }),
{
}

/// A dial that succeeded after the peer was shut out is closed, with what the
/// slot held.
pub proof fn law_late_dials_are_closed(
    slot: PeerSlot,
    m: PoolMetrics,
    ctx: DialContext,
    local: EndpointId,
    peer: EndpointId,
    conn: u64,
    gate: Gate,
    status: ConnStatus,
    now: u64,
    wait_ms: u64,
)
    requires
        !gate.allows,
    ensures
        ({
            let connected = DialOutcome::Connected { conn };
            let out = dial_end(
                slot,
                m,
                ctx,
                local,
                peer,
                connected,
                gate,
                status,
                now,
                wait_ms,
            );
            let extra = extra_dial_end(slot, m, ctx, connected, gate, now, wait_ms);
            &&& out.2 == DialEnd::NotAuthorized { close_new: conn, close_old: slot.conn }
            &&& out.0.conn is None
            &&& out.0.state == PeerConnState::Blocked { generation: gate.generation }
            &&& extra == out
        }),
{
}

/// A dial that failed for a passing reason backs off one step further, one that
/// the peer rejected cools down, and one that this node refused blocks the
/// peer. Each is counted as failed and leaves others free to dial.
#[verifier::rlimit(40)]
pub proof fn law_failed_dials_back_off(
    slot: PeerSlot,
    m: PoolMetrics,
    ctx: DialContext,
    local: EndpointId,
    peer: EndpointId,
    why: DialFailure,
    gate: Gate,
    status: ConnStatus,
    now: u64,
    wait_ms: u64,
)
    requires
        now + wait_ms * 1_000_000 <= u64::MAX,
    ensures
        ({
            let failed = DialOutcome::Failed { why };
            let out = dial_end(
                slot,
                m,
                ctx,
                local,
                peer,
                failed,
                gate,
                status,
                now,
                wait_ms,
            );
            &&& extra_dial_end(slot, m, ctx, failed, gate, now, wait_ms) == out
            &&& out.2 is Failed
            &&& !out.0.dialing
            &&& out.1.reconnect_fail == m.reconnect_fail.wrapping_add(1)
            &&& why == DialFailure::Transient ==> {
                &&& out.0.state matches PeerConnState::Backoff { until, step } && until == now
                    + wait_ms * 1_000_000 && step == if ctx.step < u32::MAX {
                    ctx.step + 1
                } else {
                    u32::MAX as int
                }
                &&& out.0.conn == slot.conn
            }
            &&& why == DialFailure::RemoteRejected ==> {
                &&& out.0.state matches PeerConnState::Rejected { generation, first, retry_after }
                    && generation == gate.generation && retry_after == now + wait_ms * 1_000_000
                    && first == if ctx.rejected is Some && ctx.rejected->0.generation
                    == gate.generation {
                    ctx.rejected->0.first
                } else {
                    now
                }
                &&& out.0.conn == slot.conn
            }
            &&& why == DialFailure::LocalDenied ==> {
                &&& out.0.state == PeerConnState::Blocked { generation: gate.generation }
                &&& out.0.conn is None
                &&& out.2->Failed_close == slot.conn
            }
        }),
{
}

/// The wait after passing failures is drawn between half of its cap and its
/// cap, which is 200 ms at first, doubles with each failure and ends at 30 s.
#[verifier::rlimit(40)]
pub proof fn law_backoff_doubles(step: u32, random: u64)
    ensures
        backoff_cap(0) == 200,
        step < 7 ==> backoff_cap((step + 1) as u32) == 2 * backoff_cap(step),
        step >= 8 ==> backoff_cap(step) == 30_000,
        backoff_cap(step) / 2 <= jittered(backoff_cap(step), random) <= backoff_cap(step),
{
    lemma2_to64();
    assert(pow2_small(step));
    let half = backoff_cap(step) / 2;
    assert(half >= 0);
    assert(0 <= (random as int) % (half + 1) <= half);
}

/// The first powers of two.
spec fn pow2_small(step: u32) -> bool {
    step <= 8 ==> (step == 0 || step == 1 || step == 2 || step == 3 || step == 4 || step == 5 || step
        == 6 || step == 7 || step == 8)
}

/// The cooldown of a rejection is at most 10 s during the first 10 s of the
/// episode, and twice as long for every 10 s that the episode has lasted, up to
/// five minutes.
#[verifier::rlimit(40)]
pub proof fn law_cooldown_doubles(elapsed: int)
    requires
        0 <= elapsed,
    ensures
        elapsed < 10_000_000_000 ==> remote_retry_cap(elapsed) == 10_000,
        elapsed < 30_000_000_000 ==> remote_retry_cap(elapsed + 10_000_000_000) == 2
            * remote_retry_cap(elapsed),
        elapsed >= 50_000_000_000 ==> remote_retry_cap(elapsed) == 300_000,
{
    lemma2_to64();
    let secs = elapsed / 1_000_000_000;
    let periods = secs / 10;
    assert((elapsed + 10_000_000_000) / 1_000_000_000 == secs + 10);
    assert((secs + 10) / 10 == periods + 1);
    if elapsed < 30_000_000_000 {
        assert(periods == 0 || periods == 1 || periods == 2);
    }
    if elapsed >= 50_000_000_000 {
        assert(secs >= 50);
        assert(periods >= 5);
    }
}

/// What is waited after a dial lies within these bounds.
#[verifier::rlimit(40)]
pub proof fn law_waits_after_dials(
    ctx: DialContext,
    outcome: DialOutcome,
    gate: Gate,
    now: u64,
    wait_ms: u64,
)
    requires
        wait_range(ctx, outcome, gate, now, wait_ms),
    ensures
        outcome is Connected ==> wait_ms == 0,
        outcome == (DialOutcome::Failed { why: DialFailure::LocalDenied }) ==> wait_ms == 0,
        outcome == (DialOutcome::Failed { why: DialFailure::Transient }) ==> 100 <= wait_ms
            <= 30_000,
        outcome == (DialOutcome::Failed { why: DialFailure::Transient }) && ctx.step == 0
            ==> wait_ms <= 200,
        outcome == (DialOutcome::Failed { why: DialFailure::RemoteRejected }) ==> 5_000 <= wait_ms
            <= 300_000,
        outcome == (DialOutcome::Failed { why: DialFailure::RemoteRejected }) && (
        ctx.rejected is None || ctx.rejected->0.generation != gate.generation) ==> wait_ms
            <= 10_000,
{
    lemma2_to64();
    assert(pow2_small(ctx.step));
    let age = now.saturating_sub(
        crate::conn_pool::episode_start(ctx.rejected, gate.generation, now),
    );
    crate::conn_pool::law_rejection_cooldown_grows(0, age as int);
}

/// What a connect comes to: a connection that is open is one, and one that is
/// closed already is a failure.
pub proof fn law_outcomes_of_connects(m: PoolMetrics, c: ConnectResult)
    ensures
        c matches ConnectResult::Connected { conn, status: ConnStatus::Open, latency_us } ==> {
            &&& dial_outcome(c) == DialOutcome::Connected { conn }
            &&& dial_counted(m, c).reconnect_success == m.reconnect_success.wrapping_add(1)
            &&& dial_counted(m, c).reconnect_latency_sum_us
                == m.reconnect_latency_sum_us.wrapping_add(latency_us)
            &&& dial_counted(m, c).reconnect_latency_max_us >= latency_us
            &&& dial_counted(m, c).reconnect_latency_max_us >= m.reconnect_latency_max_us
            &&& dial_counted(m, c).reconnect_latency_max_us == latency_us || dial_counted(
                m,
                c,
            ).reconnect_latency_max_us == m.reconnect_latency_max_us
        },
        !(c matches ConnectResult::Connected { status: ConnStatus::Open, .. }) ==> {
            &&& dial_outcome(c) is Failed
            &&& dial_counted(m, c).reconnect_success == m.reconnect_success
        },
        dial_counted(m, c).reconnect_attempts == m.reconnect_attempts.wrapping_add(1),
        dial_outcome(c) == (DialOutcome::Failed { why: DialFailure::LocalDenied }) <==> c == (
        ConnectResult::Fault { fault: ConnectFault::LocallyRejected }),
        dial_outcome(c) == (DialOutcome::Failed { why: DialFailure::RemoteRejected }) <==> (
        c matches ConnectResult::Connected {
            status: ConnStatus::Closed { by_authorization: true },
            ..
        } || c == (ConnectResult::Fault {
            fault: ConnectFault::Closed { by_authorization: true },
        })),
{
}

/// An accepted connection of a peer that is let in is taken where none is open,
/// and where the open one was opened here though the peer has the smaller key.
/// Otherwise the open one stays.
pub proof fn law_accepted_connections_are_taken(
    s: PeerSlot,
    gate: Gate,
    local: EndpointId,
    peer: EndpointId,
    conn: u64,
    status: ConnStatus,
    now: u64,
)
    ensures
        ({
            let out = adopted(s, gate, local, peer, conn, status, now);
            let open = s.conn is Some && status == ConnStatus::Open;
            &&& !gate.allows ==> out == (s, AdoptStep::Refused)
            &&& gate.allows && open && s.conn == Some(conn) ==> out.1 == AdoptStep::Same
                && out.0.last_activity == now && out.0.conn == s.conn
            &&& gate.allows && (!open || (s.conn != Some(conn) && s.opened_by_us && local.rank()
                >= peer.rank())) ==> {
                &&& out.0.conn == Some(conn)
                &&& !out.0.opened_by_us
                &&& out.0.state == PeerConnState::Connected { auth_gen: gate.generation }
                &&& out.0.last_activity == now
                &&& out.0.dialing == s.dialing
                &&& out.1 == AdoptStep::Installed {
                    close: if open {
                        s.conn
                    } else {
                        None
                    },
                }
            }
            &&& gate.allows && open && s.conn != Some(conn) && (!s.opened_by_us || local.rank()
                < peer.rank()) ==> out == (s, AdoptStep::KeptExisting)
        }),
{
}

/// When membership changes, the connection of a peer that is let in stays, and
/// a block or rejection of the peer ends.
pub proof fn law_membership_frees_admitted_peers(s: PeerSlot, gate: Gate, status: ConnStatus)
    requires
        gate.allows,
    ensures
        ({
            let out = reconciled(s, gate, status);
            &&& out.1 is None
            &&& out.0.conn == s.conn
            &&& !(out.0.state is Blocked) && !(out.0.state is Rejected)
            &&& s.state is Blocked || s.state is Rejected ==> out.0.state == if s.conn is Some
                && status == ConnStatus::Open {
                PeerConnState::Connected { auth_gen: gate.generation }
            } else {
                PeerConnState::Idle
            }
            &&& !(s.state is Blocked) && !(s.state is Rejected) ==> out.0 == s
        }),
{
}

/// A connection is closed for being idle exactly where nothing keeps it alive
/// and it has not been used for the timeout.
pub proof fn law_idle_connections_are_closed(
    s: PeerSlot,
    keep_alive: bool,
    kept_peer: bool,
    timeout: u64,
    now: u64,
)
    requires
        s.state is Connected,
        s.conn is Some,
        s.last_activity <= now,
    ensures
        !keep_alive && !kept_peer && !s.peer_keep_alive && now - s.last_activity >= timeout ==> {
            &&& swept(s, keep_alive, kept_peer, timeout, now).1 == s.conn
            &&& swept(s, keep_alive, kept_peer, timeout, now).0.conn is None
            &&& swept(s, keep_alive, kept_peer, timeout, now).0.state == PeerConnState::Idle
        },
        keep_alive || kept_peer || s.peer_keep_alive || now - s.last_activity < timeout ==> swept(
            s,
            keep_alive,
            kept_peer,
            timeout,
            now,
        ) == (s, None::<u64>),
{
}

/// Traffic counts as activity, so a connection that just had some is not idle.
pub proof fn law_traffic_keeps_connections(
    s: PeerSlot,
    generation: u64,
    status: ConnStatus,
    keep_alive: bool,
    kept_peer: bool,
    timeout: u64,
    now: u64,
    later: u64,
)
    requires
        now <= later < now + timeout,
    ensures
        touched(s, generation, status, now).last_activity == now,
        touched(s, generation, status, now).conn == s.conn,
        s.state == PeerConnState::Idle && s.conn is Some && status == ConnStatus::Open ==> touched(
            s,
            generation,
            status,
            now,
        ).state == (PeerConnState::Connected { auth_gen: generation }),
        s.state != PeerConnState::Idle ==> touched(s, generation, status, now).state == s.state,
        swept(touched(s, generation, status, now), keep_alive, kept_peer, timeout, later).1 is None,
{
}

/// What a change depends on in a pool.
pub open spec fn surroundings(p: PoolView, open: Seq<u64>) -> Surroundings {
    Surroundings { auth: p.auth, pins: p.pins, keep_alive: p.keep_alive, kept: p.kept, open }
}

/// When the data plane goes down, every connection of every protocol is closed
/// and no slot holds one.
pub proof fn law_shutting_closes_everything(p: PoolView, peer: EndpointId, conn: u64)
    ensures
        ({
            let by = surroundings(p, Seq::empty());
            &&& held_for(p, peer, conn) ==> closes(p.entries, SlotChange::Shut, by, conn)
                || closes_extra(p.extra, SlotChange::Shut, by, conn)
            &&& p.entries.contains_key(peer) ==> {
                let s = changed_all(p.entries, SlotChange::Shut, by)[peer];
                &&& changed_all(p.entries, SlotChange::Shut, by).contains_key(peer)
                &&& s.conn is None
                &&& s.state == PeerConnState::Idle
            }
            &&& changed_each(p.extra, SlotChange::Shut, by).len() == p.extra.len()
            &&& forall|i: int|
                0 <= i < p.extra.len() && (#[trigger] p.extra[i]).contains_key(peer)
                    ==> changed_each(p.extra, SlotChange::Shut, by)[i][peer].conn is None
        }),
{
    let by = surroundings(p, Seq::empty());
    if held_for(p, peer, conn) {
        if p.entries.contains_key(peer) && p.entries[peer].conn == Some(conn) {
            assert(closes(p.entries, SlotChange::Shut, by, conn));
        } else {
            let i = choose|i: int|
                0 <= i < p.extra.len() && (#[trigger] p.extra[i]).contains_key(peer)
                    && p.extra[i][peer].conn == Some(conn);
            assert(closes(p.extra[i], SlotChange::Shut, by, conn));
        }
    }
}

/// When membership changes, no connection of a peer that is let in is closed,
/// and every connection of any other is, of whatever protocol.
pub proof fn law_membership_decides_what_is_closed(
    p: PoolView,
    open: Seq<u64>,
    peer: EndpointId,
    conn: u64,
)
    requires
        held_for(p, peer, conn),
        !gate_of(p.auth, p.pins, peer).allows,
    ensures
        closes(p.entries, SlotChange::Membership, surroundings(p, open), conn) || closes_extra(
            p.extra,
            SlotChange::MembershipExtra,
            surroundings(p, open),
            conn,
        ),
{
    let by = surroundings(p, open);
    if p.entries.contains_key(peer) && p.entries[peer].conn == Some(conn) {
        assert(closes(p.entries, SlotChange::Membership, by, conn));
    } else {
        let i = choose|i: int|
            0 <= i < p.extra.len() && (#[trigger] p.extra[i]).contains_key(peer)
                && p.extra[i][peer].conn == Some(conn);
        assert(closes(p.extra[i], SlotChange::MembershipExtra, by, conn));
    }
}

/// What a change of membership closes was held for a peer that is not let in.
pub proof fn law_membership_closes_no_more(p: PoolView, open: Seq<u64>, conn: u64)
    requires
        closes(p.entries, SlotChange::Membership, surroundings(p, open), conn) || closes_extra(
            p.extra,
            SlotChange::MembershipExtra,
            surroundings(p, open),
            conn,
        ),
    ensures
        exists|peer: EndpointId|
            #[trigger] held_for(p, peer, conn) && !gate_of(p.auth, p.pins, peer).allows,
{
    let by = surroundings(p, open);
    if closes(p.entries, SlotChange::Membership, by, conn) {
        let peer = choose|k: EndpointId|
            #[trigger] p.entries.contains_key(k) && crate::pool::changed(
                p.entries[k],
                k,
                SlotChange::Membership,
                by,
            ).1 == Some(conn);
        assert(held_for(p, peer, conn));
    } else {
        let i = choose|i: int|
            0 <= i < p.extra.len() && closes(
                #[trigger] p.extra[i],
                SlotChange::MembershipExtra,
                by,
                conn,
            );
        let peer = choose|k: EndpointId|
            #[trigger] p.extra[i].contains_key(k) && crate::pool::changed(
                p.extra[i][k],
                k,
                SlotChange::MembershipExtra,
                by,
            ).1 == Some(conn);
        assert(p.extra[i].contains_key(peer));
        assert(held_for(p, peer, conn));
    }
}

/// Looking for idle connections closes those of peers that nothing keeps alive
/// and that have been idle for the timeout, and leaves every other slot as it is.
pub proof fn law_sweeping_closes_the_idle_ones(p: PoolView, timeout: u64, now: u64, peer: EndpointId)
    requires
        p.entries.contains_key(peer),
        p.entries[peer].state is Connected,
        p.entries[peer].conn is Some,
        p.entries[peer].last_activity <= now,
    ensures
        ({
            let s = p.entries[peer];
            let by = surroundings(p, Seq::empty());
            let change = SlotChange::Idle { timeout, now };
            let after = changed_all(p.entries, change, by);
            let idle = !p.keep_alive && !p.kept.contains(peer) && !s.peer_keep_alive && now
                - s.last_activity >= timeout;
            &&& idle ==> closes(p.entries, change, by, s.conn->0) && after[peer].conn is None
            &&& !idle ==> after[peer] == s
            &&& after.dom() == p.entries.dom()
        }),
{
    let by = surroundings(p, Seq::empty());
    let change = SlotChange::Idle { timeout, now };
    assert(changed_all(p.entries, change, by).dom() =~= p.entries.dom());
    assert(p.entries.contains_key(peer));
}

/// A revoked peer is shut out in the generation in force, its connections are
/// forgotten and other peers keep theirs.
#[verifier::rlimit(40)]
pub proof fn law_revocation_shuts_one_peer_out(
    p: PoolView,
    peer: EndpointId,
    other: EndpointId,
    now: u64,
    conn: u64,
)
    ensures
        ({
            let q = revoked(p, peer, now);
            &&& !gate_of(q.auth, q.pins, peer).allows
            &&& !held_for(q, peer, conn)
            &&& q.entries[peer].state is Blocked
            &&& q.auth == p.auth
            &&& q.metrics == p.metrics
            &&& other != peer ==> {
                &&& held_for(q, other, conn) <==> held_for(p, other, conn)
                &&& gate_of(q.auth, q.pins, other) == gate_of(p.auth, p.pins, other)
                &&& p.entries.contains_key(other) ==> q.entries[other] == p.entries[other]
            }
        }),
{
    let q = revoked(p, peer, now);
    assert forall|i: int| 0 <= i < q.extra.len() implies #[trigger] q.extra[i]
        == p.extra[i].remove(peer) by {}
    if other != peer {
        if held_for(p, other, conn) && !(p.entries.contains_key(other) && p.entries[other].conn
            == Some(conn)) {
            let i = choose|i: int|
                0 <= i < p.extra.len() && (#[trigger] p.extra[i]).contains_key(other)
                    && p.extra[i][other].conn == Some(conn);
            assert(q.extra[i].contains_key(other) && q.extra[i][other].conn == Some(conn));
            assert(held_for(q, other, conn));
        }
        if held_for(q, other, conn) && !(q.entries.contains_key(other) && q.entries[other].conn
            == Some(conn)) {
            let i = choose|i: int|
                0 <= i < q.extra.len() && (#[trigger] q.extra[i]).contains_key(other)
                    && q.extra[i][other].conn == Some(conn);
            assert(p.extra[i].contains_key(other) && p.extra[i][other].conn == Some(conn));
            assert(held_for(p, other, conn));
        }
    }
}

/// A peer is live exactly where its slot holds a connection that is open.
pub proof fn law_live_peers_have_an_open_connection(p: PoolView, open: Seq<u64>, peer: EndpointId)
    ensures
        live_slots(p.entries, open).contains(peer) <==> p.entries.contains_key(peer)
            && p.entries[peer].conn is Some && exists|i: int|
            0 <= i < open.len() && open[i] == p.entries[peer].conn->0,
{
    let s = p.entries[peer];
    if s.conn is Some {
        assert(open.contains(s.conn->0) <==> exists|i: int|
            0 <= i < open.len() && open[i] == s.conn->0);
    }
}

/// Of two connections with a peer the incoming one wins exactly where it was
/// opened by the end with the smaller key and the other one was not.
pub proof fn law_smaller_key_opens(
    local: EndpointId,
    peer: EndpointId,
    existing_by_us: bool,
    incoming_by_us: bool,
)
    ensures
        local.rank() < peer.rank() ==> (incoming_wins(local, peer, existing_by_us, incoming_by_us)
            <==> incoming_by_us && !existing_by_us),
        local.rank() >= peer.rank() ==> (incoming_wins(local, peer, existing_by_us, incoming_by_us)
            <==> existing_by_us && !incoming_by_us),
{
}

/// Of a secondary protocol too, a change of membership frees the slot of a peer
/// that is let in and takes the connection of any other.
pub proof fn law_membership_of_secondary_protocols(s: PeerSlot, gate: Gate)
    ensures
        ({
            let out = reconciled_extra(s, gate);
            &&& gate.allows ==> out.1 is None && out.0.conn == s.conn && !(out.0.state is Blocked)
                && !(out.0.state is Rejected)
            &&& gate.allows && !(s.state is Blocked) && !(s.state is Rejected) ==> out.0 == s
            &&& gate.allows && (s.state is Blocked || s.state is Rejected) ==> out.0.state
                == PeerConnState::Idle
            &&& !gate.allows ==> out.1 == s.conn && out.0.conn is None && out.0.state == (
            PeerConnState::Blocked { generation: gate.generation })
        }),
{
}

/// Bytes count once for each peer: with more for one peer the sum grows by
/// just those.
#[verifier::rlimit(40)]
pub proof fn law_bytes_add_up(m: Map<EndpointId, u64>, peer: EndpointId, n: u64)
    requires
        m.dom().finite(),
        count_of(m, peer) + n <= u64::MAX,
    ensures
        total(m.insert(peer, count_of(m, peer).wrapping_add(n))) == total(m) + n,
        total(Map::<EndpointId, u64>::empty()) == 0,
        !m.contains_key(peer) ==> count_of(m, peer) == 0,
        m.contains_key(peer) ==> count_of(m, peer) == m[peer],
{
    let more = m.insert(peer, count_of(m, peer).wrapping_add(n));
    assert(more.dom() =~= m.dom().insert(peer));
    lemma_total(more, peer);
    assert(more.remove(peer) =~= m.remove(peer));
    if m.contains_key(peer) {
        lemma_total(m, peer);
    } else {
        assert(m.remove(peer) =~= m);
    }
}

/// A slot that nothing has happened in holds nothing, waits for nothing and may
/// be dialled at once.
pub proof fn law_fresh_slots_are_dialled(gate: Gate, m: PoolMetrics, status: ConnStatus, now: u64, retry_ms: u64)
    requires
        gate.allows,
    ensures
        fresh_slot(now).conn is None,
        !fresh_slot(now).dialing,
        !fresh_slot(now).peer_keep_alive,
        fresh_slot(now).last_activity == now,
        get_step(fresh_slot(now), m, gate, status, now, retry_ms).2 is Dial,
{
}

} // verus!
