use tunnet::conn_pool::{
    backoff_delay, backoff_delay_from, classify_connect_error, dial_suppressed, dial_timed_out,
    not_authorized, not_authorized_remote, prefer_incoming, remote_retry_delay,
    remote_retry_delay_from, AdoptStep, ConnStatus, ConnectFault, ConnectResult, DialContext,
    DialEnd, DialFailure, GetStep, BACKOFF_CAP_MS, DEFAULT_IDLE_SECS, NANOS_PER_SEC,
    REMOTE_RETRY_CAP_MS,
};
use tunnet::endpoint::EndpointId;
use tunnet::pool::{ConnPool, TransportAuth};

const NOW: u64 = 1_000 * NANOS_PER_SEC;
const OPEN: ConnStatus = ConnStatus::Open;
const CLOSED: ConnStatus = ConnStatus::Closed {
    by_authorization: false,
};
const SHUT_OUT: ConnStatus = ConnStatus::Closed {
    by_authorization: true,
};

fn random_id() -> EndpointId {
    EndpointId::parse(&iroh_base::SecretKey::generate().public().to_string()).unwrap()
}

fn new_pool() -> ConnPool {
    ConnPool::new(random_id(), 1)
}

fn allow(generation: u64, members: &[EndpointId]) -> TransportAuth {
    TransportAuth {
        generation,
        members: members.to_vec(),
    }
}

fn denying_pool() -> ConnPool {
    let mut pool = new_pool();
    pool.set_transport_auth(allow(1, &[]));
    pool
}

fn state(pool: &ConnPool, peer: EndpointId) -> String {
    pool.peer_snapshot(peer, CLOSED, NOW).state
}

fn begin(pool: &mut ConnPool, peer: EndpointId, now: u64) -> DialContext {
    match pool.get(peer, CLOSED, now) {
        GetStep::Dial { ctx } => ctx,
        other => panic!("expected a dial, got {other:?}"),
    }
}

fn connect(pool: &mut ConnPool, peer: EndpointId, conn: u64, now: u64) {
    let ctx = begin(pool, peer, now);
    let outcome = pool.dial_once(ConnectResult::Connected {
        conn,
        status: OPEN,
        latency_us: 30,
    });
    assert_eq!(
        pool.dialled(peer, ctx, outcome, CLOSED, now),
        DialEnd::Use { conn, close: None }
    );
}

#[test]
fn tie_break_prefers_canonical_initiator_side() {
    let a = random_id();
    let b = random_id();
    let (low, high) = if a.is_below(&b) { (a, b) } else { (b, a) };

    // Low endpoint is initiator: wants opened_by_us=true.
    assert!(prefer_incoming(&low, &high, false, true));
    assert!(!prefer_incoming(&low, &high, true, false));
    assert!(!prefer_incoming(&low, &high, true, true));

    // High endpoint is not initiator: wants accepted (opened_by_us=false).
    assert!(prefer_incoming(&high, &low, true, false));
    assert!(!prefer_incoming(&high, &low, false, true));
}

#[test]
fn has_live_false_without_entry() {
    let pool = new_pool();
    let peer = random_id();
    assert!(!pool.has_live(peer, OPEN));
    assert!(!pool.has_any_live(&vec![1, 2, 3]));
}

#[test]
fn concurrent_get_coalesce_failure() {
    let mut pool = new_pool();
    let peer = random_id();
    let ctx = begin(&mut pool, peer, NOW);
    // The second caller waits for the first one's dial.
    assert_eq!(pool.get(peer, CLOSED, NOW), GetStep::Join);
    let outcome = pool.dial_once(ConnectResult::TimedOut);
    assert!(matches!(
        pool.dialled(peer, ctx, outcome, CLOSED, NOW),
        DialEnd::Failed { close: None }
    ));
    assert!(!pool.has_live(peer, OPEN));
    assert_eq!(
        pool.on_demand_stats().reconnect_fail,
        1,
        "only one dialer should record the failure"
    );
}

#[test]
fn concurrent_success_shares_one_dial() {
    let mut pool = new_pool();
    let peer = random_id();
    let ctx = begin(&mut pool, peer, NOW);
    for _ in 0..3 {
        assert_eq!(pool.get(peer, CLOSED, NOW), GetStep::Join);
    }
    let outcome = pool.dial_once(ConnectResult::Connected {
        conn: 7,
        status: OPEN,
        latency_us: 30,
    });
    pool.dialled(peer, ctx, outcome, CLOSED, NOW);
    let stats = pool.on_demand_stats();
    assert_eq!(stats.reconnect_attempts, 1);
    assert_eq!(stats.reconnect_success, 1);
    assert_eq!(stats.reconnect_latency_avg_us, 30);
    assert!(pool.has_live(peer, OPEN));
}

#[test]
fn backoff_delay_is_bounded_and_grows() {
    for step in 0..12 {
        assert!(backoff_delay(step) <= BACKOFF_CAP_MS);
    }
    assert!(backoff_delay(8) > backoff_delay(0));
}

#[test]
fn remote_retry_delay_is_bounded_and_grows() {
    let fresh = remote_retry_delay(0);
    assert!(fresh >= 5_000);
    let aged = remote_retry_delay(3600 * NANOS_PER_SEC);
    assert!(aged <= REMOTE_RETRY_CAP_MS);
    assert!(aged > fresh);
}

#[test]
fn blocked_burst_produces_no_dials() {
    let mut pool = denying_pool();
    let peer = random_id();
    for _ in 0..100 {
        let _ = pool.get(peer, CLOSED, NOW);
    }
    let stats = pool.on_demand_stats();
    assert_eq!(stats.reconnect_attempts, 0, "blocked peer must never dial");
    assert!(stats.dials_suppressed > 0);
    assert_eq!(state(&pool, peer), "blocked");
}

#[test]
fn concurrent_blocked_callers_share_no_dial() {
    let mut pool = denying_pool();
    let peer = random_id();
    for _ in 0..8 {
        assert_eq!(pool.get(peer, CLOSED, NOW), GetStep::Denied { close: None });
        assert!(not_authorized(&peer).contains("not_authorized"));
    }
    assert_eq!(pool.on_demand_stats().reconnect_attempts, 0);
}

#[test]
fn blocked_retries_only_on_generation_change() {
    let mut pool = denying_pool();
    let peer = random_id();
    let _ = pool.get(peer, CLOSED, NOW);
    assert_eq!(pool.on_demand_stats().dials_suppressed, 0);
    let _ = pool.get(peer, CLOSED, NOW);
    assert_eq!(pool.on_demand_stats().dials_suppressed, 1);

    // Membership write without adding the peer: a new episode, still no dial.
    pool.set_transport_auth(allow(2, &[]));
    let _ = pool.get(peer, CLOSED, NOW);
    assert_eq!(pool.on_demand_stats().reconnect_attempts, 0);
    assert_eq!(pool.on_demand_stats().dials_suppressed, 1);
    let _ = pool.get(peer, CLOSED, NOW);
    assert_eq!(pool.on_demand_stats().dials_suppressed, 2);
}

#[test]
fn reconcile_unblocks_on_membership_add() {
    let mut pool = denying_pool();
    let peer = random_id();
    let _ = pool.get(peer, CLOSED, NOW);
    assert_eq!(state(&pool, peer), "blocked");
    pool.set_transport_auth(allow(2, &[peer]));
    assert!(pool.reconcile(&vec![]).is_empty());
    assert_eq!(state(&pool, peer), "idle");
}

#[test]
fn revoke_peer_pins_blocked() {
    let mut pool = new_pool();
    let peer = random_id();
    assert!(pool.revoke_peer(peer, NOW).is_empty());
    // Pin the denial at the same generation so no dial can follow.
    pool.set_transport_auth(allow(0, &[]));
    let _ = pool.get(peer, CLOSED, NOW);
    assert_eq!(pool.on_demand_stats().reconnect_attempts, 0);
    assert_eq!(state(&pool, peer), "blocked");
}

fn fail_once(pool: &mut ConnPool, peer: EndpointId, wait_ms: u64) {
    let ctx = begin(pool, peer, NOW);
    let outcome = pool.dial_once(ConnectResult::Fault {
        fault: ConnectFault::Other,
    });
    pool.dialled_with(peer, ctx, outcome, CLOSED, NOW, wait_ms);
}

#[test]
fn backoff_suppresses_without_dial() {
    let mut pool = new_pool();
    let peer = random_id();
    fail_once(&mut pool, peer, 60_000);
    let before = pool.on_demand_stats();
    assert_eq!(pool.get(peer, CLOSED, NOW + 1), GetStep::Suppressed);
    let stats = pool.on_demand_stats();
    assert_eq!(stats.reconnect_attempts, before.reconnect_attempts);
    assert_eq!(stats.dials_suppressed, 1);
}

#[test]
fn expired_backoff_redials_on_get() {
    let mut pool = new_pool();
    let peer = random_id();
    fail_once(&mut pool, peer, 1_000);
    let later = NOW + 2 * NANOS_PER_SEC;
    let ctx = begin(&mut pool, peer, later);
    let outcome = pool.dial_once(ConnectResult::TimedOut);
    pool.dialled(peer, ctx, outcome, CLOSED, later);
    assert_eq!(pool.on_demand_stats().reconnect_attempts, 2);
    assert_eq!(state(&pool, peer), "backoff");
}

#[test]
fn remote_rejection_ignores_local_gate_until_state_changes() {
    let mut pool = new_pool();
    let peer = random_id();
    pool.set_transport_auth(allow(1, &[peer]));
    // Asymmetric view: the local gate allows the peer, but the remote side
    // rejected the last dial. Packets must not redial.
    let ctx = begin(&mut pool, peer, NOW);
    let outcome = pool.dial_once(ConnectResult::Fault {
        fault: ConnectFault::Closed {
            by_authorization: true,
        },
    });
    pool.dialled_with(peer, ctx, outcome, CLOSED, NOW, 60_000);
    for _ in 0..10 {
        assert_eq!(pool.get(peer, CLOSED, NOW + 1), GetStep::Suppressed);
    }
    assert_eq!(pool.on_demand_stats().reconnect_attempts, 1);
    assert_eq!(state(&pool, peer), "rejected");

    // Local membership moves while still allowing: immediate re-probe.
    pool.set_transport_auth(allow(2, &[peer]));
    begin(&mut pool, peer, NOW + 2);
}

#[test]
fn asymmetric_rejection_no_storm_then_recover() {
    let mut pool = new_pool();
    let peer = random_id();
    pool.set_transport_auth(allow(1, &[peer]));
    // The handshake wins the race; the peer closes right after.
    connect(&mut pool, peer, 1, NOW);
    assert_eq!(
        pool.get_with(peer, SHUT_OUT, NOW + 1, 5_000),
        GetStep::RejectedByPeer
    );
    assert_eq!(pool.on_demand_stats().reconnect_attempts, 1);
    assert_eq!(state(&pool, peer), "rejected");

    // Burst while the local gate still allows: must stay at one dial.
    for _ in 0..20 {
        assert_eq!(pool.get(peer, CLOSED, NOW + 2), GetStep::Suppressed);
    }
    assert_eq!(pool.on_demand_stats().reconnect_attempts, 1);

    // Once the cooldown is over one dial recovers.
    connect(&mut pool, peer, 2, NOW + 6 * NANOS_PER_SEC);
    assert!(pool.has_live(peer, OPEN));
}

#[test]
fn revoked_live_connection_closed_at_point_of_use() {
    let mut pool = new_pool();
    let peer = random_id();
    pool.set_transport_auth(allow(1, &[peer]));
    connect(&mut pool, peer, 5, NOW);
    assert!(pool.has_live(peer, OPEN));

    // Revoke locally without reconcile: the next get must still close.
    pool.set_transport_auth(allow(2, &[]));
    assert_eq!(pool.get(peer, OPEN, NOW + 1), GetStep::Denied { close: Some(5) });
    assert!(!pool.has_live(peer, OPEN));
    assert_eq!(pool.on_demand_stats().reconnect_attempts, 1);
    assert_eq!(state(&pool, peer), "blocked");
}

#[test]
fn extra_path_blocked_without_dial() {
    let mut pool = denying_pool();
    let peer = random_id();
    for _ in 0..5 {
        let _ = pool.get_alpn(0, peer, CLOSED, NOW, 5_000);
    }
    assert_eq!(pool.on_demand_stats().reconnect_attempts, 0);
    assert!(pool.on_demand_stats().dials_suppressed > 0);
}

#[test]
fn delays_for_a_given_random_number() {
    // The cap of step 0 is 200 ms: half of it, and up to as much again.
    assert_eq!(backoff_delay_from(0, 0), 100);
    assert_eq!(backoff_delay_from(0, 100), 200);
    assert_eq!(backoff_delay_from(0, 101), 100);
    assert_eq!(backoff_delay_from(1, 0), 200);
    assert_eq!(backoff_delay_from(60, 0), BACKOFF_CAP_MS / 2);
    assert_eq!(remote_retry_delay_from(0, 0), 5_000);
    assert_eq!(remote_retry_delay_from(10 * NANOS_PER_SEC, 0), 10_000);
    assert_eq!(remote_retry_delay_from(3_600 * NANOS_PER_SEC, 0), REMOTE_RETRY_CAP_MS / 2);
}

#[test]
fn random_numbers_differ() {
    let all: Vec<u64> = (0..20).map(|_| remote_retry_delay(3_600 * NANOS_PER_SEC)).collect();
    assert!(all.iter().any(|d| *d != all[0]));
}

#[test]
fn callers_are_told_why() {
    let peer = random_id();
    let hex = peer.to_hex();
    assert_eq!(
        not_authorized(&peer),
        format!("not_authorized: {hex} is not an authorized peer")
    );
    assert_eq!(
        not_authorized_remote(&peer),
        format!("not_authorized: {hex} rejected the connection")
    );
    assert!(dial_suppressed(&peer).contains(&hex));
    assert!(dial_timed_out(&peer).contains(&hex));
}

#[test]
fn faults_are_told_apart() {
    assert_eq!(
        classify_connect_error(ConnectFault::LocallyRejected),
        DialFailure::LocalDenied
    );
    assert_eq!(
        classify_connect_error(ConnectFault::Closed {
            by_authorization: true
        }),
        DialFailure::RemoteRejected
    );
    assert_eq!(
        classify_connect_error(ConnectFault::Closed {
            by_authorization: false
        }),
        DialFailure::Transient
    );
    assert_eq!(classify_connect_error(ConnectFault::Other), DialFailure::Transient);
}

#[test]
fn idle_connections_are_closed_unless_kept_alive() {
    let mut pool = new_pool();
    let a = random_id();
    let b = random_id();
    connect(&mut pool, a, 1, NOW);
    connect(&mut pool, b, 2, NOW);
    let late = NOW + DEFAULT_IDLE_SECS * NANOS_PER_SEC;
    // Everything is kept alive at first.
    assert!(pool.sweep_idle(late).is_empty());
    pool.set_keep_alive(false);
    pool.set_peer_keep_alive(b, true, NOW);
    assert!(pool.sweep_idle(late - 1).is_empty());
    assert_eq!(pool.sweep_idle(late), vec![1]);
    assert!(!pool.has_live(a, OPEN));
    assert!(pool.has_live(b, OPEN));
    // A second look finds nothing.
    assert!(pool.sweep_idle(late).is_empty());
    pool.set_peer_keep_alive(b, false, NOW);
    pool.set_idle_timeout(1);
    assert_eq!(pool.sweep_idle(late), vec![2]);
}

#[test]
fn denied_peers_lose_their_connections() {
    let mut pool = new_pool();
    let a = random_id();
    let b = random_id();
    pool.set_transport_auth(allow(1, &[a, b]));
    connect(&mut pool, a, 1, NOW);
    connect(&mut pool, b, 2, NOW);
    match pool.get_alpn(0, a, CLOSED, NOW, 5_000) {
        GetStep::Dial { ctx } => {
            let outcome = pool.dial_once(ConnectResult::Connected {
                conn: 3,
                status: OPEN,
                latency_us: 1,
            });
            pool.dialled_alpn(0, a, ctx, outcome, NOW, 0);
        }
        other => panic!("expected a dial, got {other:?}"),
    }
    pool.set_transport_auth(allow(2, &[b]));
    let mut closed = pool.reconcile(&vec![1, 2, 3]);
    closed.sort();
    assert_eq!(closed, vec![1, 3]);
    assert_eq!(state(&pool, a), "blocked");
    assert!(pool.has_live(b, OPEN));
}

#[test]
fn going_down_closes_everything() {
    let mut pool = new_pool();
    let a = random_id();
    let b = random_id();
    connect(&mut pool, a, 1, NOW);
    connect(&mut pool, b, 2, NOW);
    let mut closed = pool.close_all();
    closed.sort();
    assert_eq!(closed, vec![1, 2]);
    assert!(!pool.has_any_live(&vec![1, 2]));
    assert!(pool.close_all().is_empty());
}

#[test]
fn accepted_connections() {
    let a = random_id();
    let b = random_id();
    let (low, high) = if a.is_below(&b) { (a, b) } else { (b, a) };
    // The low end opens connections: the high end takes what it accepts.
    let mut pool = ConnPool::new(high, 0);
    assert_eq!(
        pool.adopt(low, 1, CLOSED, NOW),
        AdoptStep::Installed { close: None }
    );
    assert_eq!(pool.adopt(low, 1, OPEN, NOW), AdoptStep::Same);
    assert_eq!(pool.adopt(low, 2, OPEN, NOW), AdoptStep::KeptExisting);
    assert_eq!(
        pool.adopt(low, 2, CLOSED, NOW),
        AdoptStep::Installed { close: None }
    );
    pool.set_transport_auth(allow(1, &[]));
    assert_eq!(pool.adopt(low, 3, OPEN, NOW), AdoptStep::Refused);
    // One that the high end dialled gives way to one of the low end's.
    let mut pool = ConnPool::new(high, 0);
    connect(&mut pool, low, 5, NOW);
    assert_eq!(
        pool.adopt(low, 6, OPEN, NOW),
        AdoptStep::Installed { close: Some(5) }
    );
    // The low end keeps the one that it dialled.
    let mut pool = ConnPool::new(low, 0);
    connect(&mut pool, high, 7, NOW);
    assert_eq!(pool.adopt(high, 8, OPEN, NOW), AdoptStep::KeptExisting);
}

#[test]
fn bytes_are_counted_by_peer() {
    let mut pool = new_pool();
    let a = random_id();
    let b = random_id();
    connect(&mut pool, a, 1, NOW);
    assert!(!pool.record_bytes_out(a, 10));
    pool.record_bytes_out(b, 5);
    pool.record_bytes_in(a, 7);
    pool.record_bytes_in(a, 1);
    assert_eq!(pool.peer_bytes(a), (8, 10));
    assert_eq!(pool.peer_bytes(b), (0, 5));
    assert_eq!(pool.peer_bytes(random_id()), (0, 0));
    assert_eq!(pool.heartbeat_counters(&vec![1]), (1, 15, 8));
    assert_eq!(pool.heartbeat_counters(&vec![]), (0, 15, 8));
}

#[test]
fn only_metered_paths_are_metered() {
    let mut pool = new_pool();
    let peer = random_id();
    pool.set_cloud_relay_urls(&vec!["https://relay.example//".to_string()]);
    pool.path_selected(peer, Some("https://relay.example/"));
    assert!(pool.record_bytes_out(peer, 1));
    pool.path_selected(peer, Some("https://other.example/"));
    assert!(!pool.record_bytes_out(peer, 1));
    pool.path_selected(peer, Some("https://relay.example"));
    pool.path_gone(peer);
    assert!(!pool.record_bytes_out(peer, 1));
    pool.path_selected(peer, Some("https://relay.example"));
    pool.set_cloud_relay_urls(&vec![]);
    assert!(!pool.record_bytes_out(peer, 1));
    pool.path_selected(peer, None);
    assert!(!pool.record_bytes_out(peer, 1));
}

#[test]
fn forgotten_peers_start_afresh() {
    let mut pool = new_pool();
    let peer = random_id();
    connect(&mut pool, peer, 1, NOW);
    pool.touch_peer(peer, OPEN, NOW + 5 * NANOS_PER_SEC);
    let snap = pool.peer_snapshot(peer, OPEN, NOW + 8 * NANOS_PER_SEC);
    assert_eq!(snap.state, "connected");
    assert_eq!(snap.last_activity_secs_ago, 3);
    assert!(snap.live && snap.keep_alive);
    pool.drop_peer(peer);
    let snap = pool.peer_snapshot(peer, OPEN, NOW);
    assert_eq!(snap.state, "idle");
    assert_eq!(snap.last_activity_secs_ago, u64::MAX);
    assert!(!snap.live);
    assert_eq!(snap.path, "unknown");
}

#[test]
fn membership_is_asked_of_every_peer() {
    let mut pool = new_pool();
    let peer = random_id();
    assert!(pool.transport_auth().is_none());
    assert!(pool.gate(peer).allows);
    pool.set_transport_auth(allow(4, &[]));
    assert!(!pool.gate(peer).allows);
    assert_eq!(pool.gate(peer).generation, 4);
    assert_eq!(pool.transport_auth().unwrap().generation, 4);
}

#[test]
fn revocation_holds_until_the_membership_moves() {
    let peer = random_id();
    let mut pool = new_pool();
    pool.set_transport_auth(allow(4, &[peer]));
    connect(&mut pool, peer, 9, NOW);
    assert_eq!(pool.revoke_peer(peer, NOW), vec![9]);
    assert_eq!(state(&pool, peer), "blocked");
    // The list of members still names the peer.
    assert!(!pool.gate(peer).allows);
    assert_eq!(pool.get(peer, CLOSED, NOW), GetStep::Denied { close: None });
    assert_eq!(pool.adopt(peer, 10, CLOSED, NOW), AdoptStep::Refused);
    assert!(pool.reconcile(&vec![]).is_empty());
    assert_eq!(state(&pool, peer), "blocked");
    // Another peer is not concerned.
    let other = random_id();
    pool.set_transport_auth(allow(4, &[peer, other]));
    assert!(pool.gate(other).allows);
    assert!(!pool.gate(peer).allows);
    // A newer membership decides again.
    pool.set_transport_auth(allow(5, &[peer]));
    assert!(pool.gate(peer).allows);
    assert!(matches!(pool.get(peer, CLOSED, NOW), GetStep::Dial { .. }));
}

#[test]
fn revocation_reaches_peers_that_were_never_met() {
    let peer = random_id();
    let mut pool = new_pool();
    assert!(pool.revoke_peer(peer, NOW).is_empty());
    assert_eq!(state(&pool, peer), "blocked");
    assert_eq!(pool.get(peer, CLOSED, NOW), GetStep::Denied { close: None });
    assert_eq!(pool.on_demand_stats().reconnect_attempts, 0);
}

#[test]
fn every_call_after_the_first_is_counted_as_suppressed() {
    let mut pool = denying_pool();
    let peer = random_id();
    for calls in 0u64..20 {
        assert_eq!(pool.on_demand_stats().dials_suppressed, calls.saturating_sub(1));
        assert_eq!(pool.get(peer, CLOSED, NOW + calls), GetStep::Denied { close: None });
        assert_eq!(state(&pool, peer), "blocked");
    }
}

#[test]
fn many_peers_come_and_go() {
    let mut pool = new_pool();
    let peers: Vec<EndpointId> = (0..40).map(|_| random_id()).collect();
    for (i, peer) in peers.iter().enumerate() {
        connect(&mut pool, *peer, i as u64, NOW);
    }
    for peer in peers.iter().step_by(2) {
        pool.drop_peer(*peer);
    }
    for (i, peer) in peers.iter().enumerate() {
        assert_eq!(pool.has_live(*peer, OPEN), i % 2 == 1);
    }
    for (i, peer) in peers.iter().enumerate().skip(1).step_by(2) {
        assert_eq!(
            pool.get(*peer, OPEN, NOW),
            GetStep::Use { conn: i as u64 }
        );
    }
}
