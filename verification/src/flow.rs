//! The way of a datagram from a peer to the tunnel interface, and of a packet
//! from the interface to a peer.
//!
//! What has to be asked of others (the parser, the policy, the firewall, the
//! interface) is asked one at a time, each only once the checks before it have
//! passed.

use crate::buffers::{bytes_copy, bytes_of};
use crate::drops::DropReason;
use crate::frame::{
    decode, decoded, law_frames_carry_the_packet, lemma_pieces, logical_frames, piece, Frame,
    FrameError, FrameView, REASSEMBLY_TTL,
};
use crate::lookup::{member_with_key, offers_address, route_of, source_ok};
use crate::lookup_laws::{law_keys_are_found_in_their_network, law_who_may_send};
use crate::peer::{no_actions, one_action, PeerAction, PeerWorker};
use crate::reassembly::{
    arrival, each_once, entries_wf, fed, held_bytes, law_segments_in_any_order_give_the_packet, live,
    packet_segments, place_of, PartialView, ReassemblyError, SegmentView,
};
use crate::routing::RoutingTable;
use crate::routing_laws::lemma_place_bounds;
use crate::tables::{member_place, seen_opt, PeerInfo, PeerView, TableModel};
use bytes::Bytes;
use std::sync::Arc;
use vstd::prelude::*;

verus! {

/// The network that a frame belongs to.
pub open spec fn network_of(f: FrameView) -> u128 {
    match f {
        FrameView::Single { network_id, .. } => network_id,
        FrameView::Segment { network_id, .. } => network_id,
    }
}

/// The network that a datagram names.
pub fn frame_network(buf: &[u8]) -> (r: Result<u128, FrameError>)
    ensures
        r == match decoded(buf@) {
            Ok(f) => Ok::<u128, FrameError>(network_of(f)),
            Err(e) => Err::<u128, FrameError>(e),
        },
{
    match decode(buf) {
        Ok(Frame::Single { network_id, packet: _ }) => Ok(network_id),
        Ok(
            Frame::Segment {
                network_id,
                packet_id: _,
                index: _,
                count: _,
                total_len: _,
                payload: _,
            },
        ) => Ok(network_id),
        Err(e) => Err(e),
    }
}

/// A whole packet from a member.
#[derive(Debug)]
pub struct InboundPacket {
    pub network_id: u128,
    pub bytes: Bytes,
    pub peer: Arc<PeerInfo>,
}

/// The result of one datagram.
pub struct Received {
    pub actions: Vec<PeerAction>,
    pub packet: Option<InboundPacket>,
}

/// A packet as a value: its network, its bytes and the member it is from.
pub open spec fn packet_view(p: Option<InboundPacket>) -> Option<(u128, Seq<u8>, PeerView)> {
    match p {
        Some(p) => Some((p.network_id, bytes_of(p.bytes), p.peer@)),
        None => None,
    }
}

/// The segment that a frame carries.
pub open spec fn segment_of(f: FrameView) -> SegmentView {
    match f {
        FrameView::Segment { network_id, packet_id, index, count, total_len, payload } => {
            SegmentView { network_id, packet_id, index, count, total_len, payload }
        },
        FrameView::Single { network_id, packet } => SegmentView {
            network_id,
            packet_id: 0,
            index: 0,
            count: 0,
            total_len: 0,
            payload: packet,
        },
    }
}

/// One action many times.
pub open spec fn repeated(a: PeerAction, n: nat) -> Seq<PeerAction> {
    Seq::new(n, |i: int| a)
}

/// What a datagram comes to: what is done, the packet that it completes, and
/// what is left to be put together.
pub open spec fn received(
    entries: Seq<PartialView>,
    limit: nat,
    buf: Seq<u8>,
    direct_auth: Option<bool>,
    members: Seq<PeerView>,
    hex: Seq<char>,
    now: u64,
) -> (Seq<PeerAction>, Option<(u128, Seq<u8>, PeerView)>, Seq<PartialView>) {
    let malformed = seq![PeerAction::Drop(DropReason::OverlayMalformed)];
    let unknown = seq![PeerAction::Drop(DropReason::UnknownNetwork)];
    match decoded(buf) {
        Err(_) => (malformed, None, entries),
        Ok(f) => match member_with_key(members, network_of(f), hex) {
            None => (unknown, None, entries),
            Some(peer) => if direct_auth == Some(false) {
                (unknown, None, entries)
            } else {
                match f {
                    FrameView::Single { network_id, packet } => (
                        Seq::empty(),
                        Some((network_id, packet, peer)),
                        entries,
                    ),
                    FrameView::Segment { network_id, .. } => {
                        let out = arrival(entries, segment_of(f), limit, now);
                        let gone = (entries.len() - live(entries, now).len()) as nat;
                        let head = seq![PeerAction::CountSegmentReceived] + repeated(
                            PeerAction::Drop(DropReason::OverlayExpired),
                            gone,
                        );
                        match out.1 {
                            Ok(Some(packet)) => (head, Some((network_id, packet, peer)), out.0),
                            Ok(None) => (head, None, out.0),
                            Err(ReassemblyError::Malformed) => (head + malformed, None, out.0),
                            Err(ReassemblyError::Evicted) => (
                                head + seq![PeerAction::Drop(DropReason::OverlayEvicted)],
                                None,
                                out.0,
                            ),
                        }
                    },
                }
            },
        },
    }
}

fn repeat_action(actions: &mut Vec<PeerAction>, a: PeerAction, n: u64)
    ensures
        final(actions)@ == old(actions)@ + repeated(a, n as nat),
{
    let mut i: u64 = 0;
    while i < n
        invariant
            i <= n,
            actions@ =~= old(actions)@ + repeated(a, i as nat),
        decreases n - i,
    {
        actions.push(a);
        i = i + 1;
    }
}

impl PeerWorker {
    /// A datagram of the peer, whose key is written `hex`. `direct_auth` says
    /// whether the peer is authorised in the datagram's network, where such
    /// authorisations are kept.
    pub fn receive(
        &mut self,
        buf: &[u8],
        direct_auth: Option<bool>,
        routes: &RoutingTable,
        hex: &str,
        now: u64,
    ) -> (r: Received)
        requires
            old(self).wf(),
            now + REASSEMBLY_TTL <= u64::MAX,
        ensures
            final(self).wf(),
            final(self).reassembly.limit() == old(self).reassembly.limit(),
            *final(self) == (PeerWorker {
                last_activity: now,
                reassembly: final(self).reassembly,
                ..*old(self)
            }),
            (r.actions@, packet_view(r.packet), final(self).reassembly.entries()) == received(
                old(self).reassembly.entries(),
                old(self).reassembly.limit(),
                buf@,
                direct_auth,
                routes.model().members,
                hex@,
                now,
            ),
    {
        self.last_activity = now;
        let frame = match decode(buf) {
            Ok(f) => f,
            Err(_) => {
                return Received {
                    actions: one_action(PeerAction::Drop(DropReason::OverlayMalformed)),
                    packet: None,
                };
            },
        };
        let network_id: u128 = match &frame {
            Frame::Single { network_id, packet: _ } => *network_id,
            Frame::Segment {
                network_id,
                packet_id: _,
                index: _,
                count: _,
                total_len: _,
                payload: _,
            } => *network_id,
        };
        let authorised = match direct_auth {
            Some(ok) => ok,
            None => true,
        };
        if !authorised {
            return Received {
                actions: one_action(PeerAction::Drop(DropReason::UnknownNetwork)),
                packet: None,
            };
        }
        let peer = match routes.lookup_endpoint_in(network_id, hex) {
            Some(p) => p,
            None => {
                return Received {
                    actions: one_action(PeerAction::Drop(DropReason::UnknownNetwork)),
                    packet: None,
                };
            },
        };
        match frame {
            Frame::Single { network_id, packet } => Received {
                actions: no_actions(),
                packet: Some(InboundPacket { network_id, bytes: bytes_copy(packet), peer }),
            },
            Frame::Segment { network_id, packet_id, index, count, total_len, payload } => {
                let mut actions = one_action(PeerAction::CountSegmentReceived);
                let assembled = self.reassembly.insert(
                    network_id,
                    packet_id,
                    index,
                    count,
                    total_len,
                    payload,
                    now,
                );
                let gone: u64 = self.reassembly.take_expired();
                repeat_action(&mut actions, PeerAction::Drop(DropReason::OverlayExpired), gone);
                match assembled {
                    Ok(Some(bytes)) => Received {
                        actions,
                        packet: Some(InboundPacket { network_id, bytes, peer }),
                    },
                    Ok(None) => Received { actions, packet: None },
                    Err(ReassemblyError::Malformed) => {
                        let ghost head = actions@;
                        actions.push(PeerAction::Drop(DropReason::OverlayMalformed));
                        proof {
                            assert(actions@ =~= head + seq![
                                PeerAction::Drop(DropReason::OverlayMalformed),
                            ]);
                        }
                        Received { actions, packet: None }
                    },
                    Err(ReassemblyError::Evicted) => {
                        let ghost head = actions@;
                        actions.push(PeerAction::Drop(DropReason::OverlayEvicted));
                        proof {
                            assert(actions@ =~= head + seq![
                                PeerAction::Drop(DropReason::OverlayEvicted),
                            ]);
                        }
                        Received { actions, packet: None }
                    },
                }
            },
        }
    }
}

/// What a firewall says of a packet. A rejection may come with a reply.
#[derive(Clone, Copy, Debug, PartialEq, Eq, Structural)]
pub enum FirewallVerdict {
    Allow,
    Deny,
    Reject { has_reply: bool },
}

/// What is to be asked next of a packet.
#[derive(Clone, Copy, Debug, PartialEq, Eq, Structural)]
pub enum FlowAsk {
    /// Read the packet's headers.
    Parse,
    /// Ask the policy.
    Policy,
    /// Ask the firewall of the packet's network.
    Firewall,
    /// Hand the packet on.
    Deliver,
    /// Nothing: the packet's way has ended.
    Done,
}

/// The answer to what was asked of an inbound packet.
#[derive(Clone, Copy, Debug, PartialEq, Eq, Structural)]
pub enum InboundReply {
    /// The headers cannot be read; the parser has its own label for why.
    Unreadable,
    NotIpv4,
    Source(u32),
    /// What the policy says, and whether the network has a firewall.
    Policy { allowed: bool, firewalled: bool },
    Firewall(FirewallVerdict),
    /// Whether the interface's queue took the packet.
    Queued(bool),
}

/// Something to carry out for a packet.
#[derive(Clone, Copy, Debug, PartialEq, Eq, Structural)]
pub enum FlowAction {
    /// Count the parser's own label.
    DropUnreadable,
    Drop(DropReason),
    /// Count a forged source against the peer.
    NoteSpoof,
    /// Send the firewall's reply back to where the packet came from.
    Reply,
    /// The packet was handed on.
    Record,
    /// Queue the packet for its peer.
    Enqueue,
}

/// Whether an answer fits what was asked.
pub open spec fn answers(ask: FlowAsk, reply: InboundReply) -> bool {
    match reply {
        InboundReply::Unreadable | InboundReply::NotIpv4 | InboundReply::Source(_) => ask
            == FlowAsk::Parse,
        InboundReply::Policy { .. } => ask == FlowAsk::Policy,
        InboundReply::Firewall(_) => ask == FlowAsk::Firewall,
        InboundReply::Queued(_) => ask == FlowAsk::Deliver,
    }
}

/// What follows an answer on an inbound packet of a network from an endpoint.
pub open spec fn inbound_next(
    tables: TableModel,
    network_id: u128,
    peer: PeerView,
    reply: InboundReply,
) -> (FlowAsk, Seq<FlowAction>) {
    match reply {
        InboundReply::Unreadable => (FlowAsk::Done, seq![FlowAction::DropUnreadable]),
        InboundReply::NotIpv4 => (
            FlowAsk::Done,
            seq![FlowAction::Drop(DropReason::Ipv6UnsupportedIn)],
        ),
        InboundReply::Source(src) => if source_ok(tables, network_id, src, peer.endpoint) {
            (FlowAsk::Policy, Seq::empty())
        } else {
            (
                FlowAsk::Done,
                seq![FlowAction::Drop(DropReason::Antispoof), FlowAction::NoteSpoof],
            )
        },
        InboundReply::Policy { allowed, firewalled } => if !allowed {
            (FlowAsk::Done, seq![FlowAction::Drop(DropReason::PolicyDenyIn)])
        } else if firewalled {
            (FlowAsk::Firewall, Seq::empty())
        } else {
            (FlowAsk::Deliver, Seq::empty())
        },
        InboundReply::Firewall(FirewallVerdict::Allow) => (FlowAsk::Deliver, Seq::empty()),
        InboundReply::Firewall(FirewallVerdict::Deny) => (
            FlowAsk::Done,
            seq![FlowAction::Drop(DropReason::FwDenyIn)],
        ),
        InboundReply::Firewall(FirewallVerdict::Reject { has_reply }) => (
            FlowAsk::Done,
            if has_reply {
                seq![FlowAction::Drop(DropReason::FwRejectIn), FlowAction::Reply]
            } else {
                seq![FlowAction::Drop(DropReason::FwRejectIn)]
            },
        ),
        InboundReply::Queued(true) => (FlowAsk::Done, seq![FlowAction::Record]),
        InboundReply::Queued(false) => (
            FlowAsk::Done,
            seq![FlowAction::Drop(DropReason::TunWriteQueueFull)],
        ),
    }
}

fn flow1(a: FlowAction) -> (r: Vec<FlowAction>)
    ensures
        r@ == seq![a],
{
    let mut v: Vec<FlowAction> = Vec::new();
    v.push(a);
    proof {
        assert(v@ =~= seq![a]);
    }
    v
}

fn flow2(a: FlowAction, b: FlowAction) -> (r: Vec<FlowAction>)
    ensures
        r@ == seq![a, b],
{
    let mut v: Vec<FlowAction> = Vec::new();
    v.push(a);
    v.push(b);
    proof {
        assert(v@ =~= seq![a, b]);
    }
    v
}

/// The way of one inbound packet.
pub struct InboundRun {
    pub network_id: u128,
    pub peer: Arc<PeerInfo>,
    pub asked: FlowAsk,
}

impl InboundRun {
    /// Begins with reading the headers.
    pub fn new(packet: &InboundPacket) -> (r: InboundRun)
        ensures
            r.network_id == packet.network_id,
            r.peer@ == packet.peer@,
            r.asked == FlowAsk::Parse,
    {
        InboundRun {
            network_id: packet.network_id,
            peer: packet.peer.clone(),
            asked: FlowAsk::Parse,
        }
    }

    /// Takes an answer: says what is asked next and what is to be done.
    pub fn step(&mut self, routes: &RoutingTable, reply: InboundReply) -> (r: (
        FlowAsk,
        Vec<FlowAction>,
    ))
        requires
            routes.wf(),
            answers(old(self).asked, reply),
        ensures
            (r.0, r.1@) == inbound_next(
                routes.model(),
                old(self).network_id,
                old(self).peer@,
                reply,
            ),
            *final(self) == (InboundRun { asked: r.0, ..*old(self) }),
    {
        let (ask, actions): (FlowAsk, Vec<FlowAction>) = match reply {
            InboundReply::Unreadable => (FlowAsk::Done, flow1(FlowAction::DropUnreadable)),
            InboundReply::NotIpv4 => (
                FlowAsk::Done,
                flow1(FlowAction::Drop(DropReason::Ipv6UnsupportedIn)),
            ),
            InboundReply::Source(src) => if routes.inbound_source_ok(
                self.network_id,
                src,
                self.peer.endpoint,
            ) {
                (FlowAsk::Policy, Vec::new())
            } else {
                (
                    FlowAsk::Done,
                    flow2(FlowAction::Drop(DropReason::Antispoof), FlowAction::NoteSpoof),
                )
            },
            InboundReply::Policy { allowed, firewalled } => if !allowed {
                (FlowAsk::Done, flow1(FlowAction::Drop(DropReason::PolicyDenyIn)))
            } else if firewalled {
                (FlowAsk::Firewall, Vec::new())
            } else {
                (FlowAsk::Deliver, Vec::new())
            },
            InboundReply::Firewall(verdict) => match verdict {
                FirewallVerdict::Allow => (FlowAsk::Deliver, Vec::new()),
                FirewallVerdict::Deny => (
                    FlowAsk::Done,
                    flow1(FlowAction::Drop(DropReason::FwDenyIn)),
                ),
                FirewallVerdict::Reject { has_reply } => if has_reply {
                    (
                        FlowAsk::Done,
                        flow2(FlowAction::Drop(DropReason::FwRejectIn), FlowAction::Reply),
                    )
                } else {
                    (FlowAsk::Done, flow1(FlowAction::Drop(DropReason::FwRejectIn)))
                },
            },
            InboundReply::Queued(taken) => if taken {
                (FlowAsk::Done, flow1(FlowAction::Record))
            } else {
                (FlowAsk::Done, flow1(FlowAction::Drop(DropReason::TunWriteQueueFull)))
            },
        };
        self.asked = ask;
        (ask, actions)
    }
}

/// The answer to what was asked of an outbound packet.
#[derive(Clone, Copy, Debug, PartialEq, Eq, Structural)]
pub enum OutboundReply {
    Unreadable,
    NotIpv4,
    Destination(u32),
    Policy { allowed: bool, firewalled: bool },
    Firewall(FirewallVerdict),
}

/// Whether an answer fits what was asked.
pub open spec fn answers_out(ask: FlowAsk, reply: OutboundReply) -> bool {
    match reply {
        OutboundReply::Unreadable | OutboundReply::NotIpv4 | OutboundReply::Destination(_) => ask
            == FlowAsk::Parse,
        OutboundReply::Policy { .. } => ask == FlowAsk::Policy,
        OutboundReply::Firewall(_) => ask == FlowAsk::Firewall,
    }
}

/// What follows an answer on an outbound packet.
pub open spec fn outbound_next(tables: TableModel, self_ip: u32, reply: OutboundReply) -> (
    FlowAsk,
    Seq<FlowAction>,
) {
    match reply {
        OutboundReply::Unreadable => (FlowAsk::Done, seq![FlowAction::DropUnreadable]),
        OutboundReply::NotIpv4 => (
            FlowAsk::Done,
            seq![FlowAction::Drop(DropReason::Ipv6Unsupported)],
        ),
        OutboundReply::Destination(dst) => if offers_address(tables.advertised, dst) {
            (FlowAsk::Done, seq![FlowAction::Drop(DropReason::LocalSubnet)])
        } else {
            match route_of(tables, dst) {
                None => (FlowAsk::Done, seq![FlowAction::Drop(DropReason::NoRoute)]),
                Some(peer) => if peer.ip == self_ip {
                    (FlowAsk::Done, seq![FlowAction::Drop(DropReason::OwnAddress)])
                } else {
                    (FlowAsk::Policy, Seq::empty())
                },
            }
        },
        OutboundReply::Policy { allowed, firewalled } => if !allowed {
            (FlowAsk::Done, seq![FlowAction::Drop(DropReason::PolicyDeny)])
        } else if firewalled {
            (FlowAsk::Firewall, Seq::empty())
        } else {
            (FlowAsk::Done, seq![FlowAction::Enqueue])
        },
        OutboundReply::Firewall(FirewallVerdict::Allow) => (
            FlowAsk::Done,
            seq![FlowAction::Enqueue],
        ),
        OutboundReply::Firewall(FirewallVerdict::Deny) => (
            FlowAsk::Done,
            seq![FlowAction::Drop(DropReason::FwDenyOut)],
        ),
        OutboundReply::Firewall(FirewallVerdict::Reject { has_reply }) => (
            FlowAsk::Done,
            if has_reply {
                seq![FlowAction::Drop(DropReason::FwRejectOut), FlowAction::Reply]
            } else {
                seq![FlowAction::Drop(DropReason::FwRejectOut)]
            },
        ),
    }
}

/// The way of one packet from the interface. The peer is known once the
/// destination is.
pub struct OutboundRun {
    pub self_ip: u32,
    pub peer: Option<Arc<PeerInfo>>,
    pub asked: FlowAsk,
}

impl OutboundRun {
    /// Begins with reading the headers; of an empty packet nothing is asked.
    pub fn new(len: usize, self_ip: u32) -> (r: OutboundRun)
        ensures
            r.self_ip == self_ip,
            r.peer is None,
            r.asked == if len == 0 {
                FlowAsk::Done
            } else {
                FlowAsk::Parse
            },
    {
        let asked = if len == 0 {
            FlowAsk::Done
        } else {
            FlowAsk::Parse
        };
        OutboundRun { self_ip, peer: None, asked }
    }

    /// Takes an answer: says what is asked next and what is to be done.
    pub fn step(&mut self, routes: &RoutingTable, reply: OutboundReply) -> (r: (
        FlowAsk,
        Vec<FlowAction>,
    ))
        requires
            routes.wf(),
            answers_out(old(self).asked, reply),
        ensures
            (r.0, r.1@) == outbound_next(routes.model(), old(self).self_ip, reply),
            final(self).asked == r.0,
            final(self).self_ip == old(self).self_ip,
            reply matches OutboundReply::Destination(dst) ==> seen_opt(final(self).peer) == (
            if offers_address(routes.model().advertised, dst) {
                seen_opt(old(self).peer)
            } else {
                route_of(routes.model(), dst)
            }),
            reply !is Destination ==> final(self).peer == old(self).peer,
    {
        let (ask, actions): (FlowAsk, Vec<FlowAction>) = match reply {
            OutboundReply::Unreadable => (FlowAsk::Done, flow1(FlowAction::DropUnreadable)),
            OutboundReply::NotIpv4 => (
                FlowAsk::Done,
                flow1(FlowAction::Drop(DropReason::Ipv6Unsupported)),
            ),
            OutboundReply::Destination(dst) => {
                if routes.is_advertised_destination(dst) {
                    (FlowAsk::Done, flow1(FlowAction::Drop(DropReason::LocalSubnet)))
                } else {
                    let found = routes.lookup_ip(dst);
                    let own: Option<bool> = match &found {
                        Some(p) => Some(p.ip == self.self_ip),
                        None => None,
                    };
                    self.peer = found;
                    match own {
                        None => (FlowAsk::Done, flow1(FlowAction::Drop(DropReason::NoRoute))),
                        Some(true) => (
                            FlowAsk::Done,
                            flow1(FlowAction::Drop(DropReason::OwnAddress)),
                        ),
                        Some(false) => (FlowAsk::Policy, Vec::new()),
                    }
                }
            },
            OutboundReply::Policy { allowed, firewalled } => if !allowed {
                (FlowAsk::Done, flow1(FlowAction::Drop(DropReason::PolicyDeny)))
            } else if firewalled {
                (FlowAsk::Firewall, Vec::new())
            } else {
                (FlowAsk::Done, flow1(FlowAction::Enqueue))
            },
            OutboundReply::Firewall(verdict) => match verdict {
                FirewallVerdict::Allow => (FlowAsk::Done, flow1(FlowAction::Enqueue)),
                FirewallVerdict::Deny => (
                    FlowAsk::Done,
                    flow1(FlowAction::Drop(DropReason::FwDenyOut)),
                ),
                FirewallVerdict::Reject { has_reply } => if has_reply {
                    (
                        FlowAsk::Done,
                        flow2(FlowAction::Drop(DropReason::FwRejectOut), FlowAction::Reply),
                    )
                } else {
                    (FlowAsk::Done, flow1(FlowAction::Drop(DropReason::FwRejectOut)))
                },
            },
        };
        self.asked = ask;
        (ask, actions)
    }
}

/// An inbound packet gets to the interface only after its source was found to
/// belong to the peer, the policy allowed it and the firewall, where there is
/// one, let it pass.
pub proof fn law_only_checked_packets_come_in(
    tables: TableModel,
    network_id: u128,
    peer: PeerView,
    reply: InboundReply,
)
    ensures
        inbound_next(tables, network_id, peer, reply).0 == FlowAsk::Policy ==> (
        reply matches InboundReply::Source(src) && source_ok(
            tables,
            network_id,
            src,
            peer.endpoint,
        )),
        inbound_next(tables, network_id, peer, reply).0 == FlowAsk::Firewall ==> reply == (
        InboundReply::Policy { allowed: true, firewalled: true }),
        inbound_next(tables, network_id, peer, reply).0 == FlowAsk::Deliver ==> reply == (
        InboundReply::Policy { allowed: true, firewalled: false }) || reply
            == InboundReply::Firewall(FirewallVerdict::Allow),
{
}

/// A packet is queued for a peer only after the policy allowed it and the
/// firewall, where there is one, let it pass.
pub proof fn law_only_checked_packets_go_out(
    tables: TableModel,
    self_ip: u32,
    reply: OutboundReply,
)
    ensures
        outbound_next(tables, self_ip, reply).1.contains(FlowAction::Enqueue) ==> reply == (
        OutboundReply::Policy { allowed: true, firewalled: false }) || reply
            == OutboundReply::Firewall(FirewallVerdict::Allow),
        outbound_next(tables, self_ip, reply).0 == FlowAsk::Policy ==> (
        reply matches OutboundReply::Destination(dst) && !offers_address(tables.advertised, dst)
            && route_of(tables, dst) is Some && route_of(tables, dst)->0.ip != self_ip),
{
}

/// Nothing of a datagram from an endpoint that is no member of the datagram's
/// network is kept or handed on.
pub proof fn law_strangers_leave_no_trace(
    entries: Seq<PartialView>,
    limit: nat,
    buf: Seq<u8>,
    direct_auth: Option<bool>,
    members: Seq<PeerView>,
    hex: Seq<char>,
    now: u64,
)
    requires
        decoded(buf) matches Ok(f) ==> member_with_key(members, network_of(f), hex) is None,
    ensures
        received(entries, limit, buf, direct_auth, members, hex, now).1 is None,
        received(entries, limit, buf, direct_auth, members, hex, now).2 == entries,
{
}

/// An inbound packet that passes every check gets to the interface and is
/// counted there: a source that is the peer's leads to the policy, the policy's
/// yes to the firewall where there is one and else to the interface, and the
/// firewall's yes to the interface. Nothing is dropped on this way.
pub proof fn law_checked_packets_come_in(
    tables: TableModel,
    network_id: u128,
    peer: PeerView,
    src: u32,
    k: int,
)
    ensures
        0 <= k < tables.members.len() && tables.members[k].network_id == network_id
            && tables.members[k].ip == src && tables.members[k].endpoint == peer.endpoint && (
        forall|j: int|
            0 <= j < k ==> (#[trigger] tables.members[j]).network_id != network_id
                || tables.members[j].ip != src) ==> inbound_next(
            tables,
            network_id,
            peer,
            InboundReply::Source(src),
        ) == (FlowAsk::Policy, Seq::<FlowAction>::empty()),
        (forall|j: int|
            0 <= j < tables.members.len() ==> (#[trigger] tables.members[j]).network_id
                != network_id || tables.members[j].ip != src) && (route_of(tables, src) matches Some(
            via,
        ) && via.endpoint == peer.endpoint && via.network_id == network_id) ==> inbound_next(
            tables,
            network_id,
            peer,
            InboundReply::Source(src),
        ) == (FlowAsk::Policy, Seq::<FlowAction>::empty()),
        inbound_next(
            tables,
            network_id,
            peer,
            InboundReply::Policy { allowed: true, firewalled: true },
        ) == (FlowAsk::Firewall, Seq::<FlowAction>::empty()),
        inbound_next(
            tables,
            network_id,
            peer,
            InboundReply::Policy { allowed: true, firewalled: false },
        ) == (FlowAsk::Deliver, Seq::<FlowAction>::empty()),
        inbound_next(
            tables,
            network_id,
            peer,
            InboundReply::Firewall(FirewallVerdict::Allow),
        ) == (FlowAsk::Deliver, Seq::<FlowAction>::empty()),
        inbound_next(tables, network_id, peer, InboundReply::Queued(true)) == (
            FlowAsk::Done,
            seq![FlowAction::Record],
        ),
{
    law_who_may_send(tables, network_id, src, peer.endpoint, k);
}

/// An inbound packet that fails a check goes no further, and it is counted
/// once, under the check that it failed. A forged source is held against the
/// peer, and the reply of a firewall that rejects goes back.
pub proof fn law_failed_packets_are_counted_once(
    tables: TableModel,
    network_id: u128,
    peer: PeerView,
    src: u32,
    firewalled: bool,
)
    ensures
        ({
            let next = |r: InboundReply| inbound_next(tables, network_id, peer, r);
            &&& next(InboundReply::Unreadable) == (FlowAsk::Done, seq![FlowAction::DropUnreadable])
            &&& next(InboundReply::NotIpv4) == (
                FlowAsk::Done,
                seq![FlowAction::Drop(DropReason::Ipv6UnsupportedIn)],
            )
            &&& (forall|j: int|
                0 <= j < tables.members.len() && (#[trigger] tables.members[j]).network_id
                    == network_id && tables.members[j].ip == src ==> tables.members[j].endpoint
                    != peer.endpoint) && (route_of(tables, src) matches Some(via) ==> via.endpoint
                != peer.endpoint || via.network_id != network_id) ==> next(
                InboundReply::Source(src),
            ) == (
                FlowAsk::Done,
                seq![FlowAction::Drop(DropReason::Antispoof), FlowAction::NoteSpoof],
            )
            &&& next(InboundReply::Policy { allowed: false, firewalled }) == (
                FlowAsk::Done,
                seq![FlowAction::Drop(DropReason::PolicyDenyIn)],
            )
            &&& next(InboundReply::Firewall(FirewallVerdict::Deny)) == (
                FlowAsk::Done,
                seq![FlowAction::Drop(DropReason::FwDenyIn)],
            )
            &&& next(InboundReply::Firewall(FirewallVerdict::Reject { has_reply: false })) == (
                FlowAsk::Done,
                seq![FlowAction::Drop(DropReason::FwRejectIn)],
            )
            &&& next(InboundReply::Firewall(FirewallVerdict::Reject { has_reply: true })) == (
                FlowAsk::Done,
                seq![FlowAction::Drop(DropReason::FwRejectIn), FlowAction::Reply],
            )
            &&& next(InboundReply::Queued(false)) == (
                FlowAsk::Done,
                seq![FlowAction::Drop(DropReason::TunWriteQueueFull)],
            )
        }),
{
    lemma_place_bounds(tables.members, network_id, src);
    let at = member_place(tables.members, network_id, src);
    if at < tables.members.len() {
        assert(tables.members[at].network_id == network_id);
    }
}

/// A packet from the interface that passes every check is queued for its peer:
/// a destination that this node does not offer itself, and that leads to a
/// member at another address, leads to the policy; the policy's yes to the
/// firewall where there is one and else to the queue; and the firewall's yes to
/// the queue.
pub proof fn law_checked_packets_go_out(tables: TableModel, self_ip: u32, dst: u32)
    ensures
        (forall|i: int|
            0 <= i < tables.advertised.len() ==> !(#[trigger] tables.advertised[i]).holds(dst)) && (
        route_of(tables, dst) matches Some(p) && p.ip != self_ip) ==> outbound_next(
            tables,
            self_ip,
            OutboundReply::Destination(dst),
        ) == (FlowAsk::Policy, Seq::<FlowAction>::empty()),
        outbound_next(
            tables,
            self_ip,
            OutboundReply::Policy { allowed: true, firewalled: true },
        ) == (FlowAsk::Firewall, Seq::<FlowAction>::empty()),
        outbound_next(
            tables,
            self_ip,
            OutboundReply::Policy { allowed: true, firewalled: false },
        ) == (FlowAsk::Done, seq![FlowAction::Enqueue]),
        outbound_next(tables, self_ip, OutboundReply::Firewall(FirewallVerdict::Allow)) == (
            FlowAsk::Done,
            seq![FlowAction::Enqueue],
        ),
{
}

/// A packet from the interface that fails a check goes no further, and it is
/// counted once, under the check that it failed. The reply of a firewall that
/// rejects goes back to the interface.
pub proof fn law_failed_outbound_packets_are_counted_once(
    tables: TableModel,
    self_ip: u32,
    dst: u32,
    firewalled: bool,
)
    ensures
        ({
            let next = |r: OutboundReply| outbound_next(tables, self_ip, r);
            let offered = exists|i: int|
                0 <= i < tables.advertised.len() && (#[trigger] tables.advertised[i]).holds(dst);
            &&& next(OutboundReply::Unreadable) == (FlowAsk::Done, seq![FlowAction::DropUnreadable])
            &&& next(OutboundReply::NotIpv4) == (
                FlowAsk::Done,
                seq![FlowAction::Drop(DropReason::Ipv6Unsupported)],
            )
            &&& offered ==> next(OutboundReply::Destination(dst)) == (
                FlowAsk::Done,
                seq![FlowAction::Drop(DropReason::LocalSubnet)],
            )
            &&& !offered && route_of(tables, dst) is None ==> next(OutboundReply::Destination(dst))
                == (FlowAsk::Done, seq![FlowAction::Drop(DropReason::NoRoute)])
            &&& !offered && (route_of(tables, dst) matches Some(p) && p.ip == self_ip) ==> next(
                OutboundReply::Destination(dst),
            ) == (FlowAsk::Done, seq![FlowAction::Drop(DropReason::OwnAddress)])
            &&& next(OutboundReply::Policy { allowed: false, firewalled }) == (
                FlowAsk::Done,
                seq![FlowAction::Drop(DropReason::PolicyDeny)],
            )
            &&& next(OutboundReply::Firewall(FirewallVerdict::Deny)) == (
                FlowAsk::Done,
                seq![FlowAction::Drop(DropReason::FwDenyOut)],
            )
            &&& next(OutboundReply::Firewall(FirewallVerdict::Reject { has_reply: false })) == (
                FlowAsk::Done,
                seq![FlowAction::Drop(DropReason::FwRejectOut)],
            )
            &&& next(OutboundReply::Firewall(FirewallVerdict::Reject { has_reply: true })) == (
                FlowAsk::Done,
                seq![FlowAction::Drop(DropReason::FwRejectOut), FlowAction::Reply],
            )
        }),
{
}

/// The first member of a network with a key.
pub open spec fn first_with_key(
    members: Seq<PeerView>,
    network_id: u128,
    hex: Seq<char>,
    k: int,
) -> bool {
    &&& 0 <= k < members.len()
    &&& members[k].network_id == network_id
    &&& members[k].endpoint_hex == hex
    &&& forall|j: int|
        0 <= j < k ==> (#[trigger] members[j]).network_id != network_id || members[j].endpoint_hex
            != hex
}

/// What a row of datagrams from one endpoint comes to: the packets that they
/// complete, and what is left to be put together.
pub open spec fn heard(
    entries: Seq<PartialView>,
    limit: nat,
    bufs: Seq<Seq<u8>>,
    direct_auth: Option<bool>,
    members: Seq<PeerView>,
    hex: Seq<char>,
    times: Seq<u64>,
) -> (Seq<PartialView>, Seq<Option<(u128, Seq<u8>, PeerView)>>)
    decreases bufs.len(),
{
    if bufs.len() == 0 {
        (entries, Seq::empty())
    } else {
        let before = heard(
            entries,
            limit,
            bufs.drop_last(),
            direct_auth,
            members,
            hex,
            times.drop_last(),
        );
        let out = received(
            before.0,
            limit,
            bufs.last(),
            direct_auth,
            members,
            hex,
            times.last(),
        );
        (out.2, before.1.push(out.1))
    }
}

proof fn lemma_heard_is_fed(
    entries: Seq<PartialView>,
    limit: nat,
    bufs: Seq<Seq<u8>>,
    segs: Seq<SegmentView>,
    network_id: u128,
    direct_auth: Option<bool>,
    members: Seq<PeerView>,
    hex: Seq<char>,
    k: int,
    times: Seq<u64>,
)
    requires
        first_with_key(members, network_id, hex, k),
        direct_auth != Some(false),
        bufs.len() == segs.len() == times.len(),
        forall|j: int|
            0 <= j < bufs.len() ==> (#[trigger] segs[j]).network_id == network_id && decoded(
                bufs[j],
            ) == Ok::<FrameView, FrameError>(
                FrameView::Segment {
                    network_id,
                    packet_id: segs[j].packet_id,
                    index: segs[j].index,
                    count: segs[j].count,
                    total_len: segs[j].total_len,
                    payload: segs[j].payload,
                },
            ),
    ensures
        ({
            let h = heard(entries, limit, bufs, direct_auth, members, hex, times);
            let f = fed(entries, segs, limit, times);
            &&& h.0 == f.0
            &&& h.1.len() == bufs.len()
            &&& f.1.len() == bufs.len()
            &&& forall|j: int|
                0 <= j < bufs.len() ==> #[trigger] h.1[j] == (match f.1[j] {
                    Ok(Some(packet)) => Some((network_id, packet, members[k])),
                    _ => None,
                })
        }),
    decreases bufs.len(),
{
    if bufs.len() > 0 {
        let n = bufs.len() - 1;
        assert forall|j: int| 0 <= j < n implies (#[trigger] segs.drop_last()[j]).network_id
            == network_id && decoded(bufs.drop_last()[j]) == Ok::<FrameView, FrameError>(
            FrameView::Segment {
                network_id,
                packet_id: segs.drop_last()[j].packet_id,
                index: segs.drop_last()[j].index,
                count: segs.drop_last()[j].count,
                total_len: segs.drop_last()[j].total_len,
                payload: segs.drop_last()[j].payload,
            },
        ) by {
            assert(segs.drop_last()[j] == segs[j]);
        }
        lemma_heard_is_fed(
            entries,
            limit,
            bufs.drop_last(),
            segs.drop_last(),
            network_id,
            direct_auth,
            members,
            hex,
            k,
            times.drop_last(),
        );
        law_keys_are_found_in_their_network(members, network_id, hex, k);
        assert(segs[n].network_id == network_id);
        assert(decoded(bufs[n]) is Ok);
    }
}

/// What a member sends arrives. The datagrams that a packet is framed in, each
/// once and in any order, within half a second, give the packet with the last of
/// them, as one of that network and from that member, and nothing before. A
/// packet in one datagram comes out of it at once.
pub proof fn law_what_is_sent_arrives(
    entries: Seq<PartialView>,
    limit: nat,
    network_id: u128,
    packet: Seq<u8>,
    max_datagram: int,
    packet_id: u32,
    order: Seq<int>,
    times: Seq<u64>,
    direct_auth: Option<bool>,
    members: Seq<PeerView>,
    hex: Seq<char>,
    k: int,
)
    requires
        entries_wf(entries),
        0 < packet.len() <= 65535,
        packet.len() <= limit,
        17 + packet.len() <= max_datagram || (max_datagram > 27 && packet.len() <= 64 * (
        max_datagram - 27)),
        first_with_key(members, network_id, hex, k),
        direct_auth != Some(false),
        logical_frames(network_id, packet, max_datagram, packet_id) matches Some(f) && each_once(
            order,
            f.len() as int,
        ),
        times.len() == order.len(),
        times.len() > 0,
        forall|j: int| 0 <= j < times.len() ==> #[trigger] times[j] < times[0] + 500_000_000,
        times[0] + 500_000_000 <= u64::MAX,
        place_of(live(entries, times[0]), network_id, packet_id) == live(entries, times[0]).len(),
        held_bytes(live(entries, times[0])) + packet.len() <= 65536,
    ensures
        ({
            let frames = logical_frames(network_id, packet, max_datagram, packet_id)->0;
            let bufs = Seq::new(order.len(), |j: int| frames[order[j]]);
            let out = heard(entries, limit, bufs, direct_auth, members, hex, times).1;
            &&& out.len() == order.len()
            &&& forall|j: int| 0 <= j < order.len() - 1 ==> #[trigger] out[j] is None
            &&& out.last() == Some((network_id, packet, members[k]))
        }),
{
    let frames = logical_frames(network_id, packet, max_datagram, packet_id)->0;
    let bufs = Seq::new(order.len(), |j: int| frames[order[j]]);
    let room = max_datagram - 27;
    law_frames_carry_the_packet(network_id, packet, max_datagram, packet_id, 0);
    if 17 + packet.len() <= max_datagram {
        law_keys_are_found_in_their_network(members, network_id, hex, k);
        assert(order.len() == 1);
        assert(order[0] == 0);
        let rest = bufs.drop_last();
        assert(rest.len() == 0);
        assert(bufs.last() == frames[0]);
        assert(heard(entries, limit, rest, direct_auth, members, hex, times.drop_last()) == (
            entries,
            Seq::<Option<(u128, Seq<u8>, PeerView)>>::empty(),
        ));
    } else {
        let segs = packet_segments(network_id, packet_id, packet, room, order);
        lemma_pieces(packet.len() as int, room);
        assert(frames.len() == (packet.len() + room - 1) / room);
        law_segments_in_any_order_give_the_packet(
            entries,
            network_id,
            packet_id,
            packet,
            room,
            order,
            times,
            limit,
        );
        assert forall|j: int| 0 <= j < bufs.len() implies (#[trigger] segs[j]).network_id
            == network_id && decoded(bufs[j]) == Ok::<FrameView, FrameError>(
            FrameView::Segment {
                network_id,
                packet_id: segs[j].packet_id,
                index: segs[j].index,
                count: segs[j].count,
                total_len: segs[j].total_len,
                payload: segs[j].payload,
            },
        ) by {
            let i = order[j];
            law_frames_carry_the_packet(network_id, packet, max_datagram, packet_id, i);
            lemma_piece_end(packet, room, i, frames.len() as int);
        }
        lemma_heard_is_fed(
            entries,
            limit,
            bufs,
            segs,
            network_id,
            direct_auth,
            members,
            hex,
            k,
            times,
        );
    }
}

proof fn lemma_piece_end(packet: Seq<u8>, room: int, i: int, n: int)
    requires
        room > 0,
        0 <= i < n,
        (n - 1) * room < packet.len() <= n * room,
    ensures
        piece(packet, room, i) == packet.subrange(
            i * room,
            if i + 1 < n {
                (i + 1) * room
            } else {
                packet.len() as int
            },
        ),
{
    assert((i + 1) * room == i * room + room) by (nonlinear_arith);
    if i + 1 < n {
        assert((i + 1) * room <= (n - 1) * room) by (nonlinear_arith)
            requires
                i + 1 <= n - 1,
                room > 0,
        ;
    } else {
        assert(i + 1 == n);
    }
}

/// A datagram that cannot be read, that is from no member of its network, or
/// whose sender is not authorised there comes to nothing: it is counted once,
/// and what is put together stays as it was.
pub proof fn law_refused_datagrams_come_to_nothing(
    entries: Seq<PartialView>,
    limit: nat,
    buf: Seq<u8>,
    direct_auth: Option<bool>,
    members: Seq<PeerView>,
    hex: Seq<char>,
    now: u64,
)
    ensures
        decoded(buf) is Err ==> received(entries, limit, buf, direct_auth, members, hex, now) == (
            seq![PeerAction::Drop(DropReason::OverlayMalformed)],
            None::<(u128, Seq<u8>, PeerView)>,
            entries,
        ),
        (decoded(buf) matches Ok(f) && (direct_auth == Some(false) || forall|j: int|
            0 <= j < members.len() ==> (#[trigger] members[j]).network_id != network_of(f)
                || members[j].endpoint_hex != hex)) ==> received(
            entries,
            limit,
            buf,
            direct_auth,
            members,
            hex,
            now,
        ) == (
            seq![PeerAction::Drop(DropReason::UnknownNetwork)],
            None::<(u128, Seq<u8>, PeerView)>,
            entries,
        ),
{
    if let Ok(f) = decoded(buf) {
        law_keys_are_found_in_their_network(members, network_of(f), hex, 0);
    }
}

/// What is asked of a packet can be answered: the answer to each question fits
/// it, and nothing is asked of a packet that is done with.
pub proof fn law_what_is_asked_can_be_answered(
    source: u32,
    verdict: FirewallVerdict,
    queued: bool,
    allowed: bool,
    firewalled: bool,
    reply: InboundReply,
    out: OutboundReply,
)
    ensures
        answers(FlowAsk::Parse, InboundReply::Source(source)),
        answers(FlowAsk::Parse, InboundReply::Unreadable),
        answers(FlowAsk::Parse, InboundReply::NotIpv4),
        answers(FlowAsk::Policy, (InboundReply::Policy { allowed, firewalled })),
        answers(FlowAsk::Firewall, InboundReply::Firewall(verdict)),
        answers(FlowAsk::Deliver, InboundReply::Queued(queued)),
        answers_out(FlowAsk::Parse, OutboundReply::Destination(source)),
        answers_out(FlowAsk::Parse, OutboundReply::Unreadable),
        answers_out(FlowAsk::Parse, OutboundReply::NotIpv4),
        answers_out(FlowAsk::Policy, (OutboundReply::Policy { allowed, firewalled })),
        answers_out(FlowAsk::Firewall, OutboundReply::Firewall(verdict)),
        !answers(FlowAsk::Done, reply),
        !answers_out(FlowAsk::Done, out),
{
}

} // verus!
