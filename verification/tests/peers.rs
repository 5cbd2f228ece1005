use bytes::Bytes;
use tunnet::conn_pool::{prefer_incoming, DEFAULT_IDLE_SECS, NANOS_PER_SEC};
use tunnet::drops::DropReason;
use tunnet::endpoint::EndpointId;
use tunnet::flow::{
    frame_network, FirewallVerdict, FlowAction, FlowAsk, InboundReply, InboundRun, OutboundReply,
    OutboundRun,
};
use tunnet::frame::{encode_logical, encode_single};
use tunnet::hub::TunnelHub;
use tunnet::membership::{DeviceProfile, DnsConfig, PeerEntry, SubnetRoute};
use tunnet::net::Ipv4Net;
use tunnet::net_text::parse_ipv4;
use tunnet::peer::{
    dial_permitted, path_label, we_are_preferred_initiator, CloseReason, OutboundPacket,
    PeerAction, PeerConn, PeerPhase, PeerWorker, SendOutcome, DIAL_COOLDOWN,
    OUTBOUND_DRAIN_BUDGET, PACKET_MAX_AGE,
};
use tunnet::routing::RoutingTable;
use tunnet::tun::{burst_len, reader_buffer_len, stage_virtio, tun_addresses, RecvSlot};
use tunnet::tunnel_mesh::{GaugeMove, TunnelMesh};

const NOW: u64 = 1_000 * NANOS_PER_SEC;

fn ip(s: &str) -> u32 {
    parse_ipv4(s).unwrap()
}

fn random_id() -> EndpointId {
    EndpointId::parse(&iroh_base::SecretKey::generate().public().to_string()).unwrap()
}

fn ids() -> (EndpointId, EndpointId) {
    let a = random_id();
    let b = random_id();
    if a.is_below(&b) {
        (a, b)
    } else {
        (b, a)
    }
}

fn entry(id: &EndpointId, addr: &str, hostname: &str) -> PeerEntry {
    PeerEntry {
        ip: ip(addr),
        endpoint_id: id.to_hex(),
        hostname: hostname.to_string(),
        tags: vec![],
        ssh_host_key: None,
    }
}

fn table(peers: &[PeerEntry], subnets: &[SubnetRoute], own: &str) -> RoutingTable {
    let mut routes = RoutingTable::new();
    routes.replace(
        peers,
        subnets,
        &[],
        &[],
        &DeviceProfile::default(),
        &DnsConfig::default(),
        "office",
        7,
        own,
        1,
    );
    routes
}

fn worker() -> PeerWorker {
    let (small, large) = ids();
    PeerWorker::new(small, large, 1280, NOW)
}

fn outbound(bytes: &[u8], at: u64) -> OutboundPacket {
    OutboundPacket {
        network_id: 7,
        bytes: Bytes::copy_from_slice(bytes),
        enqueued_at: at,
    }
}

fn connected(w: &mut PeerWorker, id: u64) {
    let conn = PeerConn {
        stable_id: id,
        opened_by_us: true,
    };
    w.dial_succeeded(conn, false, false, NOW);
}

#[test]
fn preferred_initiator_is_smaller_id() {
    let (small, large) = ids();
    assert!(we_are_preferred_initiator(&small, &large));
    assert!(!we_are_preferred_initiator(&large, &small));
}

#[test]
fn prefer_incoming_keeps_canonical_client() {
    let (small, large) = ids();
    assert!(we_are_preferred_initiator(&small, &large));
    // The smaller end keeps what it opened itself, and gives up what it did not.
    assert!(!prefer_incoming(&small, &large, true, false));
    assert!(prefer_incoming(&small, &large, false, true));
}

#[test]
fn keep_alive_peer_override() {
    let mut mesh = TunnelMesh::new(false);
    let peer = random_id();
    assert!(!mesh.keep_alive_for(peer, Some("host")));
    mesh.set_peer_keep_alive(peer, true);
    assert!(mesh.keep_alive_for(peer, Some("host")));
    mesh.add_keep_alive_host("other");
    assert!(mesh.keep_alive_for(peer, Some("other")));
}

#[test]
fn live_connection_counter() {
    let mut mesh = TunnelMesh::new(true);
    let peer = random_id();
    mesh.set_peer_state(peer, 1, "connected", true, "direct", true, NOW);
    assert_eq!(mesh.heartbeat_counters().0, 1);
    mesh.set_peer_state(peer, 1, "idle", false, "unknown", true, NOW);
    assert_eq!(mesh.heartbeat_counters().0, 0);
}

#[test]
fn stale_owner_cannot_clear_newer_peer_state() {
    let mut mesh = TunnelMesh::new(true);
    let peer = random_id();
    mesh.set_peer_state(peer, 1, "connected", true, "direct", true, NOW);
    mesh.set_peer_cloud_relay(peer, 1, true);
    mesh.set_peer_state(peer, 2, "connected", true, "relay", true, NOW);
    mesh.set_peer_cloud_relay(peer, 2, false);
    mesh.set_peer_state(peer, 1, "idle", false, "unknown", true, NOW);
    mesh.clear_peer(peer, 1);
    mesh.clear_peer_cloud_relay(peer, 1);
    assert!(mesh.has_live(peer));
    assert!(!mesh.peer_is_cloud_relay(peer));
    assert_eq!(mesh.heartbeat_counters().0, 1);
    mesh.clear_peer(peer, 2);
    assert!(!mesh.has_live(peer));
    assert_eq!(mesh.heartbeat_counters().0, 0);
}

#[test]
fn keep_alive_host_names_have_no_case() {
    let mut mesh = TunnelMesh::new(false);
    let peer = random_id();
    mesh.add_keep_alive_host("DB-Server");
    assert!(mesh.keep_alive_for(peer, Some("db-server")));
    mesh.remove_keep_alive_host("db-SERVER");
    assert!(!mesh.keep_alive_for(peer, Some("db-server")));
}

#[test]
fn relay_addresses_have_no_trailing_slash() {
    let mut mesh = TunnelMesh::new(false);
    mesh.set_cloud_relay_urls(&vec![
        "https://a/".to_string(),
        "https://a".to_string(),
        "https://b".to_string(),
    ]);
    assert_eq!(mesh.cloud_relay_urls(), vec!["https://a", "https://b"]);
    assert!(mesh.is_cloud_relay_url("https://b//"));
    assert!(!mesh.is_cloud_relay_url("https://c"));
}

#[test]
fn metered_bytes_are_told() {
    let mut mesh = TunnelMesh::new(false);
    let peer = random_id();
    mesh.set_peer_state(peer, 1, "connected", true, "relay", false, NOW);
    assert!(!mesh.record_tx(peer, 10, NOW));
    mesh.set_peer_cloud_relay(peer, 1, true);
    assert!(mesh.record_tx(peer, 5, NOW));
    mesh.record_rx(peer, 3, NOW);
    assert_eq!(mesh.peer_bytes(peer), (3, 15));
    let snap = mesh.peer_snapshot(peer, NOW + 4 * NANOS_PER_SEC);
    assert_eq!(snap.state, "connected");
    assert_eq!(snap.path, "relay");
    assert_eq!(snap.last_activity_secs_ago, 4);
}

#[test]
fn drops_have_labels_and_counters() {
    let mut mesh = TunnelMesh::new(false);
    DropReason::PacketStale.count(&mut mesh);
    DropReason::UnknownNetwork.count(&mut mesh);
    DropReason::NoRoute.count(&mut mesh);
    let c = mesh.counters();
    assert_eq!(c.stale_drops, 1);
    assert_eq!(c.blocked_drops, 1);
    assert_eq!(c.queue_full, 0);
    assert_eq!(DropReason::NoRoute.label(), "no_route");
    assert_eq!(DropReason::OwnAddress.label(), "self");
    assert_eq!(DropReason::FwRejectIn.label(), "fw_reject_in");
}

#[test]
fn batch_slot_satisfies_tun_rs_contract() {
    let cap = 1280;
    let mut slot = RecvSlot::with_capacity(cap);
    assert_eq!(
        slot.as_ref().len(),
        cap,
        "AsRef must report receive capacity"
    );
    assert_eq!(
        slot.as_mut().len(),
        cap,
        "AsMut must expose the receive area"
    );
    slot.as_mut()[..40].fill(0x45);
    assert_eq!(
        slot.as_ref().len(),
        cap,
        "recycled slot must still report full capacity"
    );
    let mut slot3 = RecvSlot::with_capacity(9000);
    slot3.as_mut()[..20].fill(1);
    assert!(slot3.as_ref().len() >= 9000);
    assert!(slot3.as_mut().len() >= 9000);
}

#[test]
fn tun_batch_writer_stages_virtio_layout() {
    let pkt = {
        let mut p = vec![0u8; 40];
        p[0] = 0x45;
        p
    };
    let staged = stage_virtio(&pkt);
    assert_eq!(staged.len(), tun_rs::VIRTIO_NET_HDR_LEN + pkt.len());
    assert!(staged[..tun_rs::VIRTIO_NET_HDR_LEN].iter().all(|b| *b == 0));
    assert_eq!(&staged[tun_rs::VIRTIO_NET_HDR_LEN..], pkt.as_slice());
    assert_eq!(staged[tun_rs::VIRTIO_NET_HDR_LEN], 0x45);
}

#[test]
fn linux_recv_multiple_uses_full_capacity_slots() {
    let cap = 1280;
    let slot = RecvSlot::with_capacity(cap);
    assert_eq!(slot.as_ref().len(), cap);
}

#[test]
fn bursts_end_at_the_first_failure_or_the_limit() {
    let all: Vec<Result<usize, u8>> = vec![Ok(1), Ok(2), Err(0), Ok(3)];
    assert_eq!(burst_len(&all, 32), 2);
    assert_eq!(burst_len(&all, 1), 1);
    assert_eq!(burst_len(&all, 0), 0);
}

#[test]
fn interface_sizes_and_addresses() {
    assert_eq!(reader_buffer_len(1280), 1536);
    assert_eq!(reader_buffer_len(500), 1536);
    assert_eq!(reader_buffer_len(9000), 9256);
    assert_eq!(tun_addresses(&[], 24), None);
    assert_eq!(tun_addresses(&[1, 2], 24), Some(vec![(1, 24), (2, 32)]));
}

#[test]
fn packet_for_an_unconnected_peer_is_held_and_dialled_for() {
    let mut w = worker();
    let (actions, send) = w.packet(outbound(&[1], NOW), true, NOW);
    assert!(send.is_none());
    assert_eq!(
        actions,
        vec![
            PeerAction::CountDialAttempt,
            PeerAction::Dial,
            PeerAction::Publish(PeerPhase::Dialing)
        ]
    );
    assert!(w.hold.is_some() && w.dialing);
    connected(&mut w, 1);
    let (actions, send) = w.flush_hold(NOW + 1);
    assert!(actions.is_empty());
    assert_eq!(send.unwrap().bytes.as_ref(), &[1]);
    assert!(w.hold.is_none());
}

#[test]
fn held_packet_grows_too_old() {
    let mut w = worker();
    w.packet(outbound(&[1], NOW), true, NOW);
    connected(&mut w, 1);
    let (actions, send) = w.flush_hold(NOW + PACKET_MAX_AGE + 1);
    assert_eq!(actions, vec![PeerAction::Drop(DropReason::PacketStale)]);
    assert!(send.is_none());
    let (actions, send) = w.drain_one(outbound(&[2], NOW), NOW + PACKET_MAX_AGE);
    assert!(actions.is_empty() && send.is_some());
}

#[test]
fn failed_dial_cools_down_and_wakes_the_packet() {
    let mut w = worker();
    w.packet(outbound(&[1], NOW), true, NOW);
    let actions = w.dial_failed(NOW);
    assert_eq!(
        actions,
        vec![
            PeerAction::CountDialFail,
            PeerAction::DropQueued,
            PeerAction::Publish(PeerPhase::Backoff)
        ]
    );
    assert_eq!(w.retry_at, Some(NOW + DIAL_COOLDOWN));
    assert!(w.hold.is_some());
    // The end of the cooldown dials again.
    let actions = w.retry_due(true, NOW + DIAL_COOLDOWN);
    assert!(actions.contains(&PeerAction::Dial));
    // A dial that may not be is counted, and the packet waits to grow old.
    let mut w = worker();
    let (actions, _) = w.packet(outbound(&[1], NOW), false, NOW);
    assert_eq!(actions, vec![PeerAction::CountDialSuppressed]);
    assert_eq!(w.retry_at, Some(NOW + PACKET_MAX_AGE));
}

#[test]
fn only_the_preferred_end_opens_unasked() {
    let (small, large) = ids();
    let mut w = PeerWorker::new(small, large, 1280, NOW);
    assert!(w.before_wait(true, true, NOW).contains(&PeerAction::Dial));
    let mut w = PeerWorker::new(large, small, 1280, NOW);
    assert!(w.before_wait(true, true, NOW).is_empty());
    let mut w = PeerWorker::new(small, large, 1280, NOW);
    assert!(w.before_wait(false, true, NOW).is_empty());
}

#[test]
fn second_connections() {
    let (small, large) = ids();
    let mut w = PeerWorker::new(small, large, 1280, NOW);
    connected(&mut w, 1);
    let theirs = PeerConn {
        stable_id: 2,
        opened_by_us: false,
    };
    assert_eq!(
        w.accepted(theirs, false, false, NOW),
        vec![PeerAction::CloseIncoming(CloseReason::TieBreak)]
    );
    assert_eq!(w.live.unwrap().stable_id, 1);
    // A closed one is not taken up.
    assert!(w.accepted(theirs, true, false, NOW).is_empty());
    // Once ours is closed, theirs takes its place.
    assert_eq!(
        w.accepted(theirs, false, true, NOW),
        vec![
            PeerAction::CloseLive(CloseReason::Replaced),
            PeerAction::RefreshPath,
            PeerAction::Publish(PeerPhase::Connected)
        ]
    );
    assert_eq!(w.live.unwrap().stable_id, 2);
}

#[test]
fn sending_cuts_and_counts() {
    let mut w = worker();
    connected(&mut w, 1);
    let small = outbound(&[9; 40], NOW);
    let plan = w.send_logical(&small, false, Some(1200));
    assert_eq!(plan.actions, vec![PeerAction::CountSingle]);
    assert_eq!(plan.frames.len(), 1);
    assert_eq!(w.packet_id, 0);
    let big = outbound(&[9; 200], NOW);
    let plan = w.send_logical(&big, false, Some(80));
    assert_eq!(plan.actions, vec![PeerAction::CountSegmented(4)]);
    assert_eq!(plan.frames.len(), 4);
    assert_eq!(w.packet_id, 1);
    let (actions, more) = w.frame_sent(SendOutcome::Sent, false, 200);
    assert!(actions.is_empty() && more);
    let (actions, more) = w.frame_sent(SendOutcome::Sent, true, 200);
    assert_eq!(actions, vec![PeerAction::RecordSent(200), PeerAction::RefreshPath]);
    assert!(!more);
    let plan = w.send_logical(&big, false, None);
    assert_eq!(plan.actions, vec![PeerAction::Drop(DropReason::DatagramTooLarge)]);
    let (_, more) = w.frame_sent(SendOutcome::ConnectionLost, false, 200);
    assert!(!more && w.live.is_none());
    let plan = w.send_logical(&big, false, Some(80));
    assert_eq!(plan.actions, vec![PeerAction::Drop(DropReason::PacketStale)]);
}

#[test]
fn idle_workers_close_and_stopped_ones_forget() {
    let mut w = worker();
    connected(&mut w, 1);
    let late = NOW + DEFAULT_IDLE_SECS * NANOS_PER_SEC + 1;
    assert_eq!(w.idle_tick(true, late), vec![PeerAction::RefreshPath]);
    assert_eq!(w.idle_tick(false, late - 1), vec![PeerAction::RefreshPath]);
    assert_eq!(
        w.idle_tick(false, late),
        vec![
            PeerAction::RefreshPath,
            PeerAction::CloseLive(CloseReason::Idle),
            PeerAction::ClearRelay,
            PeerAction::Publish(PeerPhase::Idle)
        ]
    );
    connected(&mut w, 2);
    assert_eq!(
        w.stop(),
        vec![
            PeerAction::CloseLive(CloseReason::DataplaneDown),
            PeerAction::Forget
        ]
    );
    assert!(w.live.is_none());
}

#[test]
fn draining_is_bounded() {
    let mut w = worker();
    assert!(w.drains_on(0, false));
    assert!(!w.drains_on(1, true));
    assert!(w.drains_on(1, false));
    connected(&mut w, 1);
    assert!(w.drains_on(OUTBOUND_DRAIN_BUDGET - 1, true));
    assert!(!w.drains_on(OUTBOUND_DRAIN_BUDGET, false));
}

#[test]
fn words_for_paths_and_phases() {
    assert_eq!(path_label(Some(true)), "relay");
    assert_eq!(path_label(Some(false)), "direct");
    assert_eq!(path_label(None), "unknown");
    assert_eq!(PeerPhase::Backoff.as_str(), "backoff");
    assert_eq!(CloseReason::TieBreak.as_str(), "tie_break");
}

#[test]
fn only_members_may_be_dialled() {
    let peer = random_id();
    let routes = table(&[entry(&peer, "10.7.0.5", "gw")], &[], "me");
    assert!(dial_permitted(true, &routes, &peer.to_hex(), &peer));
    assert!(!dial_permitted(false, &routes, &peer.to_hex(), &peer));
    let stranger = random_id();
    assert!(!dial_permitted(true, &routes, &stranger.to_hex(), &stranger));
}

#[test]
fn datagrams_of_members_become_packets() {
    let mut w = worker();
    let peer = w.peer;
    let routes = table(&[entry(&peer, "10.7.0.5", "gw")], &[], "me");
    let hex = peer.to_hex();
    let got = w.receive(&encode_single(7, &[1, 2, 3]), None, &routes, &hex, NOW);
    assert!(got.actions.is_empty());
    assert_eq!(got.packet.unwrap().bytes.as_ref(), &[1, 2, 3]);
    // In segments it takes all of them.
    let pkt: Vec<u8> = (0..150).collect();
    let frames = encode_logical(7, &pkt, 80, 3).unwrap();
    let mut done = None;
    for f in &frames {
        let got = w.receive(f, Some(true), &routes, &hex, NOW);
        assert_eq!(got.actions, vec![PeerAction::CountSegmentReceived]);
        done = got.packet;
    }
    assert_eq!(done.unwrap().bytes.as_ref(), pkt);
    // Another network, no authorisation, and no frame at all.
    let unknown = vec![PeerAction::Drop(DropReason::UnknownNetwork)];
    let got = w.receive(&encode_single(8, &[1]), None, &routes, &hex, NOW);
    assert_eq!(got.actions, unknown);
    let got = w.receive(&encode_single(7, &[1]), Some(false), &routes, &hex, NOW);
    assert_eq!(got.actions, unknown);
    let got = w.receive(&[9, 9], None, &routes, &hex, NOW);
    assert_eq!(got.actions, vec![PeerAction::Drop(DropReason::OverlayMalformed)]);
    assert!(got.packet.is_none());
    assert_eq!(frame_network(&encode_single(8, &[1])).unwrap(), 8);
}

#[test]
fn inbound_packets_pass_every_check() {
    let mut w = worker();
    let peer = w.peer;
    let routes = table(&[entry(&peer, "10.7.0.5", "gw")], &[], "me");
    let got = w.receive(&encode_single(7, &[1]), None, &routes, &peer.to_hex(), NOW);
    let packet = got.packet.unwrap();
    let mut run = InboundRun::new(&packet);
    assert_eq!(run.asked, FlowAsk::Parse);
    assert_eq!(
        run.step(&routes, InboundReply::Source(ip("10.7.0.5"))),
        (FlowAsk::Policy, vec![])
    );
    assert_eq!(
        run.step(
            &routes,
            InboundReply::Policy {
                allowed: true,
                firewalled: true
            }
        ),
        (FlowAsk::Firewall, vec![])
    );
    assert_eq!(
        run.step(&routes, InboundReply::Firewall(FirewallVerdict::Allow)),
        (FlowAsk::Deliver, vec![])
    );
    assert_eq!(
        run.step(&routes, InboundReply::Queued(true)),
        (FlowAsk::Done, vec![FlowAction::Record])
    );
    // A source that is another's.
    let mut run = InboundRun::new(&packet);
    assert_eq!(
        run.step(&routes, InboundReply::Source(ip("10.7.0.6"))),
        (
            FlowAsk::Done,
            vec![
                FlowAction::Drop(DropReason::Antispoof),
                FlowAction::NoteSpoof
            ]
        )
    );
}

#[test]
fn outbound_packets_find_their_peer() {
    let me = random_id();
    let peer = random_id();
    let own = me.to_hex();
    let routes = table(
        &[entry(&me, "10.7.0.1", "me"), entry(&peer, "10.7.0.5", "gw")],
        &[SubnetRoute {
            cidr: Ipv4Net::new(ip("10.9.0.0"), 24).unwrap(),
            via_endpoint_id: own.clone(),
            via_ip: ip("10.7.0.1"),
        }],
        &own,
    );
    let self_ip = ip("10.7.0.1");
    let to = |dst: &str| {
        let mut run = OutboundRun::new(20, self_ip);
        let out = run.step(&routes, OutboundReply::Destination(ip(dst)));
        (out, run)
    };
    let (out, mut run) = to("10.7.0.5");
    assert_eq!(out, (FlowAsk::Policy, vec![]));
    assert_eq!(run.peer.as_ref().unwrap().hostname, "gw");
    assert_eq!(
        run.step(
            &routes,
            OutboundReply::Policy {
                allowed: true,
                firewalled: false
            }
        ),
        (FlowAsk::Done, vec![FlowAction::Enqueue])
    );
    assert_eq!(to("10.7.0.1").0 .1, vec![FlowAction::Drop(DropReason::OwnAddress)]);
    assert_eq!(to("10.9.0.4").0 .1, vec![FlowAction::Drop(DropReason::LocalSubnet)]);
    assert_eq!(to("8.8.8.8").0 .1, vec![FlowAction::Drop(DropReason::NoRoute)]);
    assert_eq!(OutboundRun::new(0, self_ip).asked, FlowAsk::Done);
}

#[test]
fn only_members_keep_a_worker() {
    let (small, large) = ids();
    let mut hub = TunnelHub::new(small);
    let (first, fresh) = hub.worker(large);
    assert!(fresh);
    assert_eq!(first.worker_id, 1);
    assert_eq!(hub.worker(large), (first, false));
    let stranger = random_id();
    let (other, _) = hub.worker(stranger);
    let routes = table(&[entry(&large, "10.7.0.5", "gw")], &[], "me");
    let mesh = TunnelMesh::new(false);
    let plan = hub.reconcile(&routes, &mesh);
    assert_eq!(plan.stop, vec![other]);
    assert!(plan.start.is_empty());
    // Kept alive, the smaller end starts the missing one.
    hub.ended(first);
    let mesh = TunnelMesh::new(true);
    let plan = hub.reconcile(&routes, &mesh);
    assert_eq!(plan.start.len(), 1);
    assert_eq!(plan.start[0].peer, large);
    // A worker that ended before does not take the later one with it.
    hub.ended(first);
    assert_eq!(hub.close_all(), plan.start);
}

#[test]
fn full_queue_drops_the_packet() {
    assert_eq!(tunnet::hub::enqueued(true), None);
    assert_eq!(
        tunnet::hub::enqueued(false),
        Some(tunnet::drops::DropReason::PeerQueueFull)
    );
}

#[test]
fn connections_are_measured_as_they_come_and_go() {
    let mut mesh = TunnelMesh::new(true);
    let peer = random_id();
    let mut publish = |mesh: &mut TunnelMesh, owner: u64, state: &str, live: bool| {
        mesh.publish_state(peer, owner, state, live, "direct", true, NOW)
    };
    assert_eq!(publish(&mut mesh, 1, "idle", false), GaugeMove::Stays);
    assert_eq!(publish(&mut mesh, 1, "connected", true), GaugeMove::Up);
    assert_eq!(publish(&mut mesh, 1, "connected", true), GaugeMove::Stays);
    assert_eq!(publish(&mut mesh, 1, "backoff", false), GaugeMove::Down);
    assert_eq!(publish(&mut mesh, 2, "connected", true), GaugeMove::Up);
    // An older worker moves nothing any more.
    assert_eq!(publish(&mut mesh, 1, "idle", false), GaugeMove::Stays);
    assert_eq!(mesh.forget_peer(peer, 1), GaugeMove::Stays);
    assert!(mesh.has_live(peer));
    assert_eq!(mesh.forget_peer(peer, 2), GaugeMove::Down);
    assert_eq!(mesh.forget_peer(peer, 2), GaugeMove::Stays);
}

#[test]
fn workers_report_that_they_are_idle_first() {
    assert_eq!(worker().start(), vec![PeerAction::Publish(PeerPhase::Idle)]);
}
