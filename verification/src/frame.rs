//! Framing of logical IP packets in datagrams, and their reassembly.
//!
//! Every logical packet carries the identifier of its network. A packet that
//! does not fit one datagram crosses as numbered segments. Nothing is
//! replayed or resumed, and nothing is kept from one connection to the next.

use crate::buffers::{
    be, buf_with_capacity, bytes_of, freeze, from_be, id_bytes, lemma_be_len, lemma_be_limits,
    lemma_be_round_trip, put_slice, put_u16, put_u32, put_u8, read_be, written,
};
use bytes::Bytes;
use vstd::prelude::*;
use vstd::slice::slice_subrange;

verus! {

pub const TYPE_SINGLE: u8 = 0;

pub const TYPE_SEGMENT: u8 = 1;

/// Type byte and network identifier.
pub const SINGLE_HEADER_LEN: usize = 17;

/// Type byte, network identifier, packet number, segment index, segment count, total length.
pub const SEGMENT_HEADER_LEN: usize = 27;

/// How long an incomplete packet is kept, in nanoseconds.
pub const REASSEMBLY_TTL: u64 = 500_000_000;

pub const REASSEMBLY_MAX_ENTRIES: usize = 16;

pub const REASSEMBLY_MAX_BYTES: usize = 65536;

/// Segments are sized like datagrams, not like single bytes: more than this is refused.
pub const MAX_OVERLAY_SEGMENTS: u16 = 64;

/// A decoded datagram.
#[derive(Debug, Clone, Copy)]
pub enum Frame<'a> {
    Single { network_id: u128, packet: &'a [u8] },
    Segment {
        network_id: u128,
        packet_id: u32,
        index: u16,
        count: u16,
        total_len: u16,
        payload: &'a [u8],
    },
}

#[derive(Debug, Clone, Copy, PartialEq, Eq, Structural)]
pub enum FrameError {
    Truncated,
    UnknownType,
    EmptyPacket,
    BadSegment,
}

/// What a frame says, as a mathematical value.
pub enum FrameView {
    Single { network_id: u128, packet: Seq<u8> },
    Segment {
        network_id: u128,
        packet_id: u32,
        index: u16,
        count: u16,
        total_len: u16,
        payload: Seq<u8>,
    },
}

impl<'a> View for Frame<'a> {
    type V = FrameView;

    open spec fn view(&self) -> FrameView {
        match *self {
            Frame::Single { network_id, packet } => FrameView::Single {
                network_id,
                packet: packet@,
            },
            Frame::Segment { network_id, packet_id, index, count, total_len, payload } =>
                FrameView::Segment {
                    network_id,
                    packet_id,
                    index,
                    count,
                    total_len,
                    payload: payload@,
                },
        }
    }
}

/// The bytes of a frame that carries a whole packet.
pub open spec fn single_bytes(network_id: u128, packet: Seq<u8>) -> Seq<u8> {
    seq![TYPE_SINGLE] + be(network_id as nat, 16) + packet
}

/// The bytes of a frame that carries one segment.
pub open spec fn segment_bytes(
    network_id: u128,
    packet_id: u32,
    index: u16,
    count: u16,
    total_len: u16,
    payload: Seq<u8>,
) -> Seq<u8> {
    seq![TYPE_SEGMENT] + be(network_id as nat, 16) + be(packet_id as nat, 4) + be(index as nat, 2)
        + be(count as nat, 2) + be(total_len as nat, 2) + payload
}

/// A segment header that can belong to a packet.
pub open spec fn segment_sound(index: u16, count: u16, total_len: u16, payload: Seq<u8>) -> bool {
    &&& count > 0
    &&& index < count
    &&& total_len > 0
    &&& payload.len() > 0
    &&& count <= total_len
    &&& count <= MAX_OVERLAY_SEGMENTS
}

/// What the bytes of a datagram mean.
pub open spec fn decoded(buf: Seq<u8>) -> Result<FrameView, FrameError> {
    if buf.len() == 0 {
        Err(FrameError::Truncated)
    } else if buf[0] == TYPE_SINGLE {
        if buf.len() < SINGLE_HEADER_LEN {
            Err(FrameError::Truncated)
        } else if buf.len() == SINGLE_HEADER_LEN {
            Err(FrameError::EmptyPacket)
        } else {
            Ok(
                FrameView::Single {
                    network_id: from_be(buf.subrange(1, 17)) as u128,
                    packet: buf.skip(SINGLE_HEADER_LEN as int),
                },
            )
        }
    } else if buf[0] == TYPE_SEGMENT {
        if buf.len() < SEGMENT_HEADER_LEN {
            Err(FrameError::Truncated)
        } else {
            let index = from_be(buf.subrange(21, 23)) as u16;
            let count = from_be(buf.subrange(23, 25)) as u16;
            let total_len = from_be(buf.subrange(25, 27)) as u16;
            let payload = buf.skip(SEGMENT_HEADER_LEN as int);
            if segment_sound(index, count, total_len, payload) {
                Ok(
                    FrameView::Segment {
                        network_id: from_be(buf.subrange(1, 17)) as u128,
                        packet_id: from_be(buf.subrange(17, 21)) as u32,
                        index,
                        count,
                        total_len,
                        payload,
                    },
                )
            } else {
                Err(FrameError::BadSegment)
            }
        }
    } else {
        Err(FrameError::UnknownType)
    }
}

/// Reads a datagram.
pub fn decode(buf: &[u8]) -> (r: Result<Frame<'_>, FrameError>)
    ensures
        r matches Ok(f) ==> decoded(buf@) == Ok::<FrameView, FrameError>(f@),
        r matches Err(e) ==> decoded(buf@) == Err::<FrameView, FrameError>(e),
{
    let len: usize = buf.len();
    if len == 0 {
        return Err(FrameError::Truncated);
    }
    proof {
        lemma_be_limits();
    }
    let kind: u8 = buf[0];
    if kind == TYPE_SINGLE {
        if len < SINGLE_HEADER_LEN {
            return Err(FrameError::Truncated);
        }
        let network_id: u128 = read_be(buf, 1, 16);
        let packet = slice_subrange(buf, SINGLE_HEADER_LEN, len);
        if packet.len() == 0 {
            return Err(FrameError::EmptyPacket);
        }
        proof {
            assert(packet@ =~= buf@.skip(SINGLE_HEADER_LEN as int));
        }
        Ok(Frame::Single { network_id, packet })
    } else if kind == TYPE_SEGMENT {
        if len < SEGMENT_HEADER_LEN {
            return Err(FrameError::Truncated);
        }
        let network_id: u128 = read_be(buf, 1, 16);
        let packet_id: u32 = read_be(buf, 17, 4) as u32;
        let index: u16 = read_be(buf, 21, 2) as u16;
        let count: u16 = read_be(buf, 23, 2) as u16;
        let total_len: u16 = read_be(buf, 25, 2) as u16;
        let payload = slice_subrange(buf, SEGMENT_HEADER_LEN, len);
        proof {
            assert(payload@ =~= buf@.skip(SEGMENT_HEADER_LEN as int));
        }
        if count == 0 || index >= count || total_len == 0 || payload.len() == 0 || count > total_len
            || count > MAX_OVERLAY_SEGMENTS {
            return Err(FrameError::BadSegment);
        }
        Ok(Frame::Segment { network_id, packet_id, index, count, total_len, payload })
    } else {
        Err(FrameError::UnknownType)
    }
}

/// Frames a whole packet.
pub fn encode_single(network_id: u128, packet: &[u8]) -> (r: Bytes)
    requires
        SINGLE_HEADER_LEN + packet@.len() <= isize::MAX,
    ensures
        bytes_of(r) == single_bytes(network_id, packet@),
{
    let id = id_bytes(network_id);
    proof {
        lemma_be_len(network_id as nat, 16);
    }
    let mut out = buf_with_capacity(SINGLE_HEADER_LEN + packet.len());
    put_u8(&mut out, TYPE_SINGLE);
    put_slice(&mut out, id.as_slice());
    put_slice(&mut out, packet);
    proof {
        assert(written(out) =~= single_bytes(network_id, packet@));
    }
    freeze(out)
}

/// Frames one segment of a packet.
pub fn encode_segment(
    network_id: u128,
    packet_id: u32,
    index: u16,
    count: u16,
    total_len: u16,
    payload: &[u8],
) -> (r: Bytes)
    requires
        SEGMENT_HEADER_LEN + payload@.len() <= isize::MAX,
    ensures
        bytes_of(r) == segment_bytes(network_id, packet_id, index, count, total_len, payload@),
{
    let id = id_bytes(network_id);
    proof {
        lemma_be_len(network_id as nat, 16);
        lemma_be_len(packet_id as nat, 4);
        lemma_be_len(index as nat, 2);
        lemma_be_len(count as nat, 2);
        lemma_be_len(total_len as nat, 2);
    }
    let mut out = buf_with_capacity(SEGMENT_HEADER_LEN + payload.len());
    put_u8(&mut out, TYPE_SEGMENT);
    put_slice(&mut out, id.as_slice());
    put_u32(&mut out, packet_id);
    put_u16(&mut out, index);
    put_u16(&mut out, count);
    put_u16(&mut out, total_len);
    put_slice(&mut out, payload);
    proof {
        assert(written(out) =~= segment_bytes(
            network_id,
            packet_id,
            index,
            count,
            total_len,
            payload@,
        ));
    }
    freeze(out)
}

/// How many pieces of at most `chunk` bytes a text of `len` bytes takes.
pub open spec fn pieces(len: int, chunk: int) -> int {
    (len + chunk - 1) / chunk
}

/// Piece `index` when a packet is cut every `chunk` bytes.
pub open spec fn piece(packet: Seq<u8>, chunk: int, index: int) -> Seq<u8> {
    packet.subrange(
        index * chunk,
        if index * chunk + chunk <= packet.len() {
            index * chunk + chunk
        } else {
            packet.len() as int
        },
    )
}

/// The frames that carry one packet when a datagram holds `max_datagram`
/// bytes, or nothing when the packet cannot be carried.
pub open spec fn logical_frames(
    network_id: u128,
    packet: Seq<u8>,
    max_datagram: int,
    packet_id: u32,
) -> Option<Seq<Seq<u8>>> {
    let chunk = max_datagram - SEGMENT_HEADER_LEN;
    if packet.len() == 0 || packet.len() > 0xffff {
        None
    } else if SINGLE_HEADER_LEN + packet.len() <= max_datagram {
        Some(seq![single_bytes(network_id, packet)])
    } else if chunk <= 0 || pieces(packet.len() as int, chunk) > MAX_OVERLAY_SEGMENTS {
        None
    } else {
        let count = pieces(packet.len() as int, chunk);
        Some(
            Seq::new(
                count as nat,
                |i: int|
                    segment_bytes(
                        network_id,
                        packet_id,
                        i as u16,
                        count as u16,
                        packet.len() as u16,
                        piece(packet, chunk, i),
                    ),
            ),
        )
    }
}

/// What each of a list of `Bytes` holds.
pub open spec fn all_bytes(v: Seq<Bytes>) -> Seq<Seq<u8>> {
    Seq::new(v.len(), |i: int| bytes_of(v[i]))
}

/// The pieces cover the packet, and one fewer would not.
pub proof fn lemma_pieces(len: int, chunk: int)
    requires
        len > 0,
        chunk > 0,
    ensures
        1 <= pieces(len, chunk) <= len,
        (pieces(len, chunk) - 1) * chunk < len <= pieces(len, chunk) * chunk,
{
    let q = pieces(len, chunk);
    assert(q * chunk <= len + chunk - 1 < q * chunk + chunk) by (nonlinear_arith)
        requires
            chunk > 0,
            q == (len + chunk - 1) / chunk,
    ;
    assert((q - 1) * chunk == q * chunk - chunk) by (nonlinear_arith);
    assert(q >= 1) by (nonlinear_arith)
        requires
            len <= q * chunk,
            len > 0,
            chunk > 0,
    ;
    assert(q <= len) by (nonlinear_arith)
        requires
            (q - 1) * chunk < len,
            chunk > 0,
            q >= 1,
    ;
}

/// Frames one packet in the fewest datagrams that hold `max_datagram` bytes.
/// `None` when it cannot be carried: it is empty or longer than 65535 bytes, or
/// the datagrams are too small for it.
pub fn encode_logical(network_id: u128, packet: &[u8], max_datagram: usize, packet_id: u32) -> (r:
    Option<Vec<Bytes>>)
    ensures
        r is None <==> packet@.len() == 0 || packet@.len() > 65535 || (17 + packet@.len()
            > max_datagram && (max_datagram <= 27 || packet@.len() > 64 * (max_datagram - 27))),
        r is Some <==> logical_frames(network_id, packet@, max_datagram as int, packet_id) is Some,
        r matches Some(v) ==> Some(all_bytes(v@)) == logical_frames(
            network_id,
            packet@,
            max_datagram as int,
            packet_id,
        ),
{
    let len: usize = packet.len();
    proof {
        law_which_packets_can_be_carried(network_id, packet@, max_datagram as int, packet_id);
    }
    if len == 0 {
        return None;
    }
    if len > 0xffff {
        return None;
    }
    if SINGLE_HEADER_LEN + len <= max_datagram {
        let mut frames: Vec<Bytes> = Vec::new();
        frames.push(encode_single(network_id, packet));
        proof {
            assert(all_bytes(frames@) =~= seq![single_bytes(network_id, packet@)]);
        }
        return Some(frames);
    }
    if max_datagram <= SEGMENT_HEADER_LEN {
        return None;
    }
    let chunk: usize = max_datagram - SEGMENT_HEADER_LEN;
    proof {
        lemma_pieces(len as int, chunk as int);
    }
    let whole: usize = len / chunk;
    let count: usize = if len % chunk == 0 {
        whole
    } else {
        whole + 1
    };
    proof {
        lemma_div_ceil(len as int, chunk as int);
    }
    if count > MAX_OVERLAY_SEGMENTS as usize {
        return None;
    }
    let total_len: u16 = len as u16;
    let count16: u16 = count as u16;
    let mut frames: Vec<Bytes> = Vec::new();
    let mut index: u16 = 0;
    let ghost want = logical_frames(network_id, packet@, max_datagram as int, packet_id)->0;
    while index < count16
        invariant
            index <= count16,
            count16 as int == pieces(len as int, chunk as int),
            count16 <= MAX_OVERLAY_SEGMENTS,
            0 < len <= 0xffff,
            len == packet@.len(),
            total_len == len,
            chunk as int == max_datagram - SEGMENT_HEADER_LEN,
            chunk > 0,
            SINGLE_HEADER_LEN + len > max_datagram,
            (count16 - 1) * chunk < len,
            want == logical_frames(network_id, packet@, max_datagram as int, packet_id)->0,
            want.len() == count16,
            all_bytes(frames@) =~= want.take(index as int),
        decreases count16 - index,
    {
        proof {
            assert(index * chunk <= (count16 - 1) * chunk) by (nonlinear_arith)
                requires
                    index <= count16 - 1,
                    chunk > 0,
            ;
        }
        let start: usize = index as usize * chunk;
        let end: usize = if len - start < chunk {
            len
        } else {
            start + chunk
        };
        let part = slice_subrange(packet, start, end);
        let frame = encode_segment(network_id, packet_id, index, count16, total_len, part);
        proof {
            assert(part@ =~= piece(packet@, chunk as int, index as int));
            assert(want[index as int] == bytes_of(frame));
        }
        let ghost before = frames@;
        frames.push(frame);
        proof {
            assert(all_bytes(frames@) =~= all_bytes(before).push(bytes_of(frame)));
            assert(want.take(index as int + 1) =~= want.take(index as int).push(want[index as int]));
        }
        index = index + 1;
    }
    proof {
        assert(want.take(count16 as int) =~= want);
    }
    Some(frames)
}

proof fn lemma_div_ceil(len: int, chunk: int)
    requires
        len > 0,
        chunk > 0,
    ensures
        pieces(len, chunk) == len / chunk + (if len % chunk == 0 {
            0int
        } else {
            1int
        }),
{
    let q = len / chunk;
    let r = len % chunk;
    assert(len == q * chunk + r && 0 <= r < chunk) by (nonlinear_arith)
        requires
            chunk > 0,
            q == len / chunk,
            r == len % chunk,
    ;
    if r == 0 {
        assert((q * chunk + chunk - 1) / chunk == q) by (nonlinear_arith)
            requires
                chunk > 0,
        ;
    } else {
        assert((q * chunk + r + chunk - 1) / chunk == q + 1) by (nonlinear_arith)
            requires
                chunk > 0,
                1 <= r < chunk,
        ;
    }
}

/// A packet is carried unless it is empty, longer than 65535 bytes, or too long
/// for 64 segments where it does not fit a datagram as a whole.
pub proof fn law_which_packets_can_be_carried(
    network_id: u128,
    packet: Seq<u8>,
    max_datagram: int,
    packet_id: u32,
)
    ensures
        logical_frames(network_id, packet, max_datagram, packet_id) is None <==> packet.len() == 0
            || packet.len() > 65535 || (17 + packet.len() > max_datagram && (max_datagram <= 27
            || packet.len() > 64 * (max_datagram - 27))),
{
    let len = packet.len() as int;
    let room = max_datagram - 27;
    if len > 0 && room > 0 {
        lemma_pieces(len, room);
        let q = pieces(len, room);
        if q <= 64 {
            assert(q * room <= 64 * room) by (nonlinear_arith)
                requires
                    q <= 64,
                    room > 0,
            ;
        } else {
            assert(64 * room <= (q - 1) * room) by (nonlinear_arith)
                requires
                    q >= 65,
                    room > 0,
            ;
        }
    }
}

/// The frames of a packet read back as the packet: a whole one as it is, and
/// otherwise in numbered segments that each say how many there are and how long
/// the packet is, and that hold its bytes one stretch after the other.
pub proof fn law_frames_carry_the_packet(
    network_id: u128,
    packet: Seq<u8>,
    max_datagram: int,
    packet_id: u32,
    i: int,
)
    requires
        0 < packet.len() <= 65535,
        17 + packet.len() <= max_datagram || (max_datagram > 27 && packet.len() <= 64 * (
        max_datagram - 27)),
    ensures
        logical_frames(network_id, packet, max_datagram, packet_id) is Some,
        ({
            let frames = logical_frames(network_id, packet, max_datagram, packet_id)->0;
            let room = max_datagram - 27;
            if 17 + packet.len() <= max_datagram {
                &&& frames.len() == 1
                &&& decoded(frames[0]) == Ok::<FrameView, FrameError>(
                    FrameView::Single { network_id, packet },
                )
            } else {
                &&& 1 < frames.len() <= 64
                &&& (frames.len() - 1) * room < packet.len() <= frames.len() * room
                &&& 0 <= i < frames.len() ==> {
                    &&& decoded(frames[i]) matches Ok(FrameView::Segment {
                        network_id: n,
                        packet_id: p,
                        index,
                        count,
                        total_len,
                        payload,
                    }) && n == network_id && p == packet_id && index == i && count == frames.len()
                        && total_len == packet.len() && payload == packet.subrange(
                        i * room,
                        if i + 1 < frames.len() {
                            (i + 1) * room
                        } else {
                            packet.len() as int
                        },
                    )
                }
            }
        }),
{
    law_which_packets_can_be_carried(network_id, packet, max_datagram, packet_id);
    law_frames_fit_and_are_fewest(network_id, packet, max_datagram, packet_id);
    let frames = logical_frames(network_id, packet, max_datagram, packet_id)->0;
    let room = max_datagram - 27;
    if 17 + packet.len() <= max_datagram {
        law_single_round_trip(network_id, packet);
    } else {
        lemma_pieces(packet.len() as int, room);
        let q = pieces(packet.len() as int, room);
        if q <= 1 {
            assert(q * room <= room) by (nonlinear_arith)
                requires
                    q <= 1,
                    room > 0,
            ;
        }
        if 0 <= i < q {
            lemma_piece_len(packet, room, i);
            let part = piece(packet, room, i);
            law_segment_round_trip(
                network_id,
                packet_id,
                i as u16,
                q as u16,
                packet.len() as u16,
                part,
            );
            assert((i + 1) * room == i * room + room) by (nonlinear_arith);
            if i + 1 < q {
                assert((i + 1) * room <= (q - 1) * room) by (nonlinear_arith)
                    requires
                        i + 1 <= q - 1,
                        room > 0,
                ;
            } else {
                assert(i + 1 == q);
            }
        }
    }
}

/// Every frame of a packet fits the datagram. One frame is used exactly when
/// the packet fits one; otherwise the segments carry as much as they can, so
/// that one segment fewer could not carry the packet.
pub proof fn law_frames_fit_and_are_fewest(
    network_id: u128,
    packet: Seq<u8>,
    max_datagram: int,
    packet_id: u32,
)
    requires
        logical_frames(network_id, packet, max_datagram, packet_id) is Some,
    ensures
        ({
            let frames = logical_frames(network_id, packet, max_datagram, packet_id)->0;
            let room = max_datagram - SEGMENT_HEADER_LEN;
            &&& forall|i: int| 0 <= i < frames.len() ==> (#[trigger] frames[i]).len() <= max_datagram
            &&& SINGLE_HEADER_LEN + packet.len() <= max_datagram ==> frames.len() == 1
            &&& SINGLE_HEADER_LEN + packet.len() > max_datagram ==> (frames.len() - 1) * room
                < packet.len() <= frames.len() * room
        }),
{
    let frames = logical_frames(network_id, packet, max_datagram, packet_id)->0;
    let room = max_datagram - SEGMENT_HEADER_LEN;
    lemma_be_len(network_id as nat, 16);
    lemma_be_len(packet_id as nat, 4);
    if SINGLE_HEADER_LEN + packet.len() > max_datagram {
        lemma_pieces(packet.len() as int, room);
        assert forall|i: int| 0 <= i < frames.len() implies (#[trigger] frames[i]).len()
            <= max_datagram by {
            lemma_piece_len(packet, room, i);
            lemma_be_len(i as u16 as nat, 2);
            lemma_be_len(pieces(packet.len() as int, room) as u16 as nat, 2);
            lemma_be_len(packet.len() as u16 as nat, 2);
        }
    }
}

/// A piece holds at least one byte and at most `chunk`.
pub proof fn lemma_piece_len(packet: Seq<u8>, chunk: int, i: int)
    requires
        chunk > 0,
        packet.len() > 0,
        0 <= i < pieces(packet.len() as int, chunk),
    ensures
        0 < piece(packet, chunk, i).len() <= chunk,
        0 <= i * chunk < packet.len(),
{
    lemma_pieces(packet.len() as int, chunk);
    let q = pieces(packet.len() as int, chunk);
    assert(0 <= i * chunk <= (q - 1) * chunk) by (nonlinear_arith)
        requires
            0 <= i <= q - 1,
            chunk > 0,
    ;
}

/// A whole-packet frame reads back as the packet and its network.
pub proof fn law_single_round_trip(network_id: u128, packet: Seq<u8>)
    requires
        packet.len() > 0,
    ensures
        decoded(single_bytes(network_id, packet)) == Ok::<FrameView, FrameError>(
            FrameView::Single { network_id, packet },
        ),
{
    let b = single_bytes(network_id, packet);
    lemma_be_limits();
    lemma_be_round_trip(network_id as nat, 16);
    assert(b.subrange(1, 17) =~= be(network_id as nat, 16));
    assert(b.skip(17) =~= packet);
}

/// A segment frame reads back as the segment, when its header is sound.
pub proof fn law_segment_round_trip(
    network_id: u128,
    packet_id: u32,
    index: u16,
    count: u16,
    total_len: u16,
    payload: Seq<u8>,
)
    ensures
        decoded(segment_bytes(network_id, packet_id, index, count, total_len, payload)) == (
        if segment_sound(index, count, total_len, payload) {
            Ok::<FrameView, FrameError>(
                FrameView::Segment { network_id, packet_id, index, count, total_len, payload },
            )
        } else {
            Err(FrameError::BadSegment)
        }),
{
    let b = segment_bytes(network_id, packet_id, index, count, total_len, payload);
    lemma_be_limits();
    lemma_be_round_trip(network_id as nat, 16);
    lemma_be_round_trip(packet_id as nat, 4);
    lemma_be_round_trip(index as nat, 2);
    lemma_be_round_trip(count as nat, 2);
    lemma_be_round_trip(total_len as nat, 2);
    assert(b.subrange(1, 17) =~= be(network_id as nat, 16));
    assert(b.subrange(17, 21) =~= be(packet_id as nat, 4));
    assert(b.subrange(21, 23) =~= be(index as nat, 2));
    assert(b.subrange(23, 25) =~= be(count as nat, 2));
    assert(b.subrange(25, 27) =~= be(total_len as nat, 2));
    assert(b.skip(27) =~= payload);
}

/// A two-byte number of a datagram, the most significant byte first.
pub open spec fn number_at(buf: Seq<u8>, at: int) -> int {
    buf[at] * 0x100 + buf[at + 1]
}

/// A datagram can be read where its first byte is 0 and a packet follows 17
/// bytes, or where it is 1 and a payload follows 27 bytes that number a segment
/// of at most 64 of a packet that is long enough to have them. Otherwise the
/// error says what is wrong.
pub proof fn law_which_datagrams_are_read(buf: Seq<u8>)
    ensures
        ({
            let sound = number_at(buf, 21) < number_at(buf, 23) <= 64 && number_at(buf, 23)
                <= number_at(buf, 25);
            &&& decoded(buf) is Ok <==> (buf.len() > 17 && buf[0] == 0) || (buf.len() > 27
                && buf[0] == 1 && sound)
            &&& buf.len() == 0 ==> decoded(buf) == Err::<FrameView, FrameError>(
                FrameError::Truncated,
            )
            &&& 0 < buf.len() < 17 && buf[0] == 0 ==> decoded(buf) == Err::<FrameView, FrameError>(
                FrameError::Truncated,
            )
            &&& buf.len() == 17 && buf[0] == 0 ==> decoded(buf) == Err::<FrameView, FrameError>(
                FrameError::EmptyPacket,
            )
            &&& 0 < buf.len() < 27 && buf[0] == 1 ==> decoded(buf) == Err::<FrameView, FrameError>(
                FrameError::Truncated,
            )
            &&& buf.len() >= 27 && buf[0] == 1 && (buf.len() == 27 || !sound) ==> decoded(buf)
                == Err::<FrameView, FrameError>(FrameError::BadSegment)
            &&& buf.len() > 0 && buf[0] > 1 ==> decoded(buf) == Err::<FrameView, FrameError>(
                FrameError::UnknownType,
            )
        }),
{
    if buf.len() >= 27 {
        lemma_number_at(buf, 21);
        lemma_number_at(buf, 23);
        lemma_number_at(buf, 25);
    }
}

proof fn lemma_number_at(buf: Seq<u8>, at: int)
    requires
        0 <= at,
        at + 2 <= buf.len(),
    ensures
        from_be(buf.subrange(at, at + 2)) == number_at(buf, at),
        0 <= number_at(buf, at) <= 0xffff,
{
    let two = buf.subrange(at, at + 2);
    assert(two =~= seq![buf[at], buf[at + 1]]);
    crate::text_laws::law_bytes_are_read_as_written(buf[at], buf[at + 1], 0, 0);
}

/// What a datagram that carries a whole packet looks like: a zero, the
/// network's id in 16 bytes, and the packet.
pub proof fn law_layout_of_single_frames(network_id: u128, packet: Seq<u8>)
    ensures
        single_bytes(network_id, packet).len() == 17 + packet.len(),
        single_bytes(network_id, packet)[0] == 0,
        from_be(single_bytes(network_id, packet).subrange(1, 17)) == network_id,
        single_bytes(network_id, packet).skip(17) == packet,
{
    let s = single_bytes(network_id, packet);
    lemma_be_limits();
    lemma_be_round_trip(network_id as nat, 16);
    assert(s.subrange(1, 17) =~= be(network_id as nat, 16));
    assert(s.skip(17) =~= packet);
}

/// What a datagram that carries a segment looks like: a one, the network's id
/// in 16 bytes, the packet's number in four, the segment's place, how many there
/// are and the packet's length in two each, and the payload.
pub proof fn law_layout_of_segment_frames(
    network_id: u128,
    packet_id: u32,
    index: u16,
    count: u16,
    total_len: u16,
    payload: Seq<u8>,
)
    ensures
        ({
            let s = segment_bytes(network_id, packet_id, index, count, total_len, payload);
            &&& s.len() == 27 + payload.len()
            &&& s[0] == 1
            &&& from_be(s.subrange(1, 17)) == network_id
            &&& from_be(s.subrange(17, 21)) == packet_id
            &&& number_at(s, 21) == index
            &&& number_at(s, 23) == count
            &&& number_at(s, 25) == total_len
            &&& s.skip(27) == payload
        }),
{
    let s = segment_bytes(network_id, packet_id, index, count, total_len, payload);
    lemma_be_limits();
    lemma_be_round_trip(network_id as nat, 16);
    lemma_be_round_trip(packet_id as nat, 4);
    lemma_be_round_trip(index as nat, 2);
    lemma_be_round_trip(count as nat, 2);
    lemma_be_round_trip(total_len as nat, 2);
    assert(s.subrange(1, 17) =~= be(network_id as nat, 16));
    assert(s.subrange(17, 21) =~= be(packet_id as nat, 4));
    assert(s.subrange(21, 23) =~= be(index as nat, 2));
    assert(s.subrange(23, 25) =~= be(count as nat, 2));
    assert(s.subrange(25, 27) =~= be(total_len as nat, 2));
    assert(s.skip(27) =~= payload);
    lemma_number_at(s, 21);
    lemma_number_at(s, 23);
    lemma_number_at(s, 25);
}

} // verus!
