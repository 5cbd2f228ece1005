use bytes::Bytes;
use tunnet::frame::{
    decode, encode_logical, encode_segment, encode_single, Frame, FrameError,
    MAX_OVERLAY_SEGMENTS, REASSEMBLY_MAX_BYTES, REASSEMBLY_MAX_ENTRIES, REASSEMBLY_TTL,
    SEGMENT_HEADER_LEN, SINGLE_HEADER_LEN,
};
use tunnet::reassembly::{Reassembly, ReassemblyError};

const NOW: u64 = 1_000_000_000;

fn net() -> u128 {
    0x1111_2222_3333_4444_5555_6666_7777_8888
}

fn ip_packet(n: usize) -> Vec<u8> {
    let mut p = vec![0x45; n];
    p[0] = 0x45;
    p
}

/// A packet whose bytes all differ from their neighbours.
fn counting_packet(n: usize) -> Vec<u8> {
    (0..n).map(|i| (i % 251) as u8).collect()
}

fn put(reasm: &mut Reassembly, frame: &Bytes, now: u64) -> Result<Option<Bytes>, ReassemblyError> {
    match decode(frame).unwrap() {
        Frame::Segment {
            network_id,
            packet_id,
            index,
            count,
            total_len,
            payload,
        } => reasm.insert(network_id, packet_id, index, count, total_len, payload, now),
        _ => panic!("expected segment"),
    }
}

#[test]
fn single_round_trip() {
    let pkt = ip_packet(40);
    let framed = encode_single(net(), &pkt);
    match decode(&framed).unwrap() {
        Frame::Single { network_id, packet } => {
            assert_eq!(network_id, net());
            assert_eq!(packet, pkt);
        }
        _ => panic!("expected single"),
    }
}

#[test]
fn segmented_reassembly_in_order() {
    let pkt = ip_packet(200);
    let frames = encode_logical(net(), &pkt, 80, 7).unwrap();
    assert!(frames.len() > 1);
    let mut reasm = Reassembly::new(1280);
    let mut out = None;
    for f in &frames {
        out = put(&mut reasm, f, NOW).unwrap();
    }
    assert_eq!(out.unwrap().as_ref(), pkt);
    assert_eq!(reasm.len(), 0);
}

#[test]
fn out_of_order_segments() {
    let pkt = ip_packet(200);
    let mut frames = encode_logical(net(), &pkt, 80, 1).unwrap();
    frames.reverse();
    let mut reasm = Reassembly::new(1280);
    let mut out = None;
    for f in &frames {
        out = put(&mut reasm, f, NOW).unwrap();
    }
    assert_eq!(out.unwrap().as_ref(), pkt);
}

#[test]
fn duplicate_segment_ignored() {
    let pkt = ip_packet(120);
    let frames = encode_logical(net(), &pkt, 70, 3).unwrap();
    let mut reasm = Reassembly::new(1280);
    assert!(put(&mut reasm, &frames[0], NOW).unwrap().is_none());
    assert!(put(&mut reasm, &frames[0], NOW).unwrap().is_none());
    assert_eq!(reasm.len(), 1);
}

#[test]
fn missing_segment_expires() {
    let pkt = ip_packet(120);
    let frames = encode_logical(net(), &pkt, 70, 4).unwrap();
    let mut reasm = Reassembly::new(1280);
    put(&mut reasm, &frames[0], NOW).unwrap();
    reasm.expire(NOW + REASSEMBLY_TTL + 1_000_000);
    assert_eq!(reasm.len(), 0);
}

#[test]
fn conflicting_metadata_rejected() {
    let mut reasm = Reassembly::new(1280);
    reasm.insert(net(), 1, 0, 2, 40, &[1, 2, 3], NOW).unwrap();
    let err = reasm
        .insert(net(), 1, 1, 3, 40, &[4, 5, 6], NOW)
        .unwrap_err();
    assert_eq!(err, ReassemblyError::Malformed);
    assert_eq!(reasm.len(), 0);
}

#[test]
fn hard_entry_bound() {
    let mut reasm = Reassembly::new(1280);
    for id in 0..REASSEMBLY_MAX_ENTRIES + 3 {
        reasm
            .insert(net(), id as u32, 0, 2, 40, &[1, 2, 3], NOW)
            .unwrap();
    }
    assert!(reasm.len() <= REASSEMBLY_MAX_ENTRIES);
}

#[test]
fn packet_larger_than_datagram_segments() {
    let pkt = ip_packet(400);
    let frames = encode_logical(net(), &pkt, 100, 9).expect("segments");
    assert!(frames.iter().all(|f| f.len() <= 100));
    assert!(frames.len() > 1);
}

#[test]
fn max_datagram_change_is_per_packet() {
    let pkt = ip_packet(200);
    let a = encode_logical(net(), &pkt, 80, 1).unwrap();
    let b = encode_logical(net(), &pkt, 1000, 2).unwrap();
    assert!(a.len() > 1);
    assert_eq!(b.len(), 1);
}

#[test]
fn connection_replacement_clears_reassembly() {
    let mut reasm = Reassembly::new(1280);
    reasm.insert(net(), 1, 0, 2, 40, &[1, 2], NOW).unwrap();
    reasm.clear();
    assert_eq!(reasm.len(), 0);
}

#[test]
fn oversized_total_len_rejected() {
    let mut reasm = Reassembly::new(100);
    let err = reasm
        .insert(net(), 1, 0, 1, 200, &[1; 10], NOW)
        .unwrap_err();
    assert_eq!(err, ReassemblyError::Malformed);
}

#[test]
fn segment_count_capped_by_total_len_and_mtu() {
    let mut reasm = Reassembly::new(1280);
    assert_eq!(
        decode(&encode_segment(net(), 1, 0, 65535, 1, &[1])).unwrap_err(),
        FrameError::BadSegment
    );
    assert_eq!(
        reasm.insert(net(), 1, 0, 65535, 1, &[1], NOW).unwrap_err(),
        ReassemblyError::Malformed
    );
    assert_eq!(
        reasm
            .insert(net(), 2, 0, 2000, 2000, &[1], NOW)
            .unwrap_err(),
        ReassemblyError::Malformed
    );
    assert_eq!(reasm.len(), 0);
    assert_eq!(
        decode(&encode_segment(
            net(),
            3,
            0,
            MAX_OVERLAY_SEGMENTS + 1,
            80,
            &[1]
        ))
        .unwrap_err(),
        FrameError::BadSegment
    );
}

#[test]
fn single_frame_carries_explicit_network_id() {
    let a = 1u128;
    let b = 2u128;
    let pkt = ip_packet(40);
    let fa = encode_single(a, &pkt);
    let fb = encode_single(b, &pkt);
    let Frame::Single {
        network_id: na,
        packet: pa,
    } = decode(&fa).unwrap()
    else {
        panic!("single");
    };
    let Frame::Single { network_id: nb, .. } = decode(&fb).unwrap() else {
        panic!("single");
    };
    assert_eq!(na, a);
    assert_eq!(nb, b);
    assert_eq!(pa, pkt.as_slice());
    assert_ne!(fa, fb);
}

#[test]
fn reassembly_keys_include_network_id() {
    let a = 11u128;
    let b = 12u128;
    let mut reasm = Reassembly::new(1280);
    assert!(reasm
        .insert(a, 1, 0, 2, 6, &[1, 2, 3], NOW)
        .unwrap()
        .is_none());
    assert!(reasm
        .insert(b, 1, 0, 2, 6, &[4, 5, 6], NOW)
        .unwrap()
        .is_none());
    assert_eq!(reasm.len(), 2);
    let done = reasm.insert(a, 1, 1, 2, 6, &[7, 8, 9], NOW).unwrap();
    assert_eq!(done.unwrap().as_ref(), &[1, 2, 3, 7, 8, 9]);
    assert_eq!(reasm.len(), 1);
}

#[test]
fn single_frame_layout() {
    let framed = encode_single(0x0102_0304_0506_0708_090a_0b0c_0d0e_0f10, &[0xaa, 0xbb]);
    let mut want = vec![0u8];
    want.extend(1u8..=16);
    want.extend([0xaa, 0xbb]);
    assert_eq!(framed.as_ref(), want.as_slice());
    assert_eq!(framed.len(), SINGLE_HEADER_LEN + 2);
}

#[test]
fn segment_frame_layout() {
    let framed = encode_segment(3, 0x0102_0304, 1, 2, 0x0506, &[9, 8]);
    let mut want = vec![1u8];
    want.extend([0u8; 15]);
    want.extend([3, 1, 2, 3, 4, 0, 1, 0, 2, 5, 6, 9, 8]);
    assert_eq!(framed.as_ref(), want.as_slice());
    assert_eq!(framed.len(), SEGMENT_HEADER_LEN + 2);
}

#[test]
fn every_way_a_frame_can_be_wrong() {
    assert_eq!(decode(&[]).unwrap_err(), FrameError::Truncated);
    assert_eq!(decode(&[0; 16]).unwrap_err(), FrameError::Truncated);
    assert_eq!(decode(&[0; 17]).unwrap_err(), FrameError::EmptyPacket);
    assert_eq!(decode(&[1; 26]).unwrap_err(), FrameError::Truncated);
    assert_eq!(decode(&[7; 40]).unwrap_err(), FrameError::UnknownType);
    // An index that is not below the count.
    assert_eq!(
        decode(&encode_segment(net(), 1, 2, 2, 4, &[1, 2])).unwrap_err(),
        FrameError::BadSegment
    );
}

#[test]
fn segments_fit_and_are_as_few_as_can_be() {
    let pkt = counting_packet(200);
    // 80 bytes leave 53 for the packet.
    let frames = encode_logical(net(), &pkt, 80, 7).unwrap();
    assert_eq!(frames.len(), 4);
    assert!(frames.iter().all(|f| f.len() <= 80));
    // One that fits whole is not cut.
    assert_eq!(
        encode_logical(net(), &pkt, 200 + SINGLE_HEADER_LEN, 7)
            .unwrap()
            .len(),
        1
    );
    assert!(
        encode_logical(net(), &pkt, 200 + SINGLE_HEADER_LEN - 1, 7)
            .unwrap()
            .len()
            > 1
    );
    assert!(encode_logical(net(), &[], 80, 7).is_none());
    // No room for a single byte.
    assert!(encode_logical(net(), &pkt, SEGMENT_HEADER_LEN, 7).is_none());
}

#[test]
fn two_packets_whose_segments_mix_come_out_apart() {
    let first = counting_packet(150);
    let second: Vec<u8> = counting_packet(150).into_iter().rev().collect();
    let a = encode_logical(net(), &first, 80, 1).unwrap();
    let b = encode_logical(net(), &second, 80, 2).unwrap();
    let mut reasm = Reassembly::new(1280);
    let mut done = Vec::new();
    for (x, y) in a.iter().zip(b.iter().rev()) {
        done.extend(put(&mut reasm, x, NOW).unwrap());
        done.extend(put(&mut reasm, y, NOW).unwrap());
    }
    assert_eq!(done.len(), 2);
    assert_eq!(done[0].as_ref(), first);
    assert_eq!(done[1].as_ref(), second);
    assert_eq!(reasm.len(), 0);
}

#[test]
fn expired_packets_are_counted_once() {
    let mut reasm = Reassembly::new(1280);
    reasm.insert(net(), 1, 0, 2, 40, &[1, 2, 3], NOW).unwrap();
    reasm.insert(net(), 2, 0, 2, 40, &[1, 2, 3], NOW).unwrap();
    reasm.expire(NOW + REASSEMBLY_TTL + 1);
    assert_eq!(reasm.take_expired(), 2);
    assert_eq!(reasm.take_expired(), 0);
}

#[test]
fn held_bytes_are_bounded() {
    let mut reasm = Reassembly::new(60_000);
    let payload = vec![1u8; 20_000];
    for id in 0..8u32 {
        let _ = reasm.insert(net(), id, 0, 2, 40_000, &payload, NOW);
    }
    assert!(reasm.len() * payload.len() <= REASSEMBLY_MAX_BYTES);
    assert!(reasm.len() > 0);
}

#[test]
fn repeated_segments_change_nothing() {
    let pkt = counting_packet(200);
    let frames = encode_logical(net(), &pkt, 80, 9).unwrap();
    let mut reasm = Reassembly::new(1280);
    let (last, first) = frames.split_last().unwrap();
    for f in first {
        assert_eq!(put(&mut reasm, f, NOW), Ok(None));
        assert_eq!(put(&mut reasm, f, NOW), Ok(None));
        assert_eq!(reasm.len(), 1);
    }
    assert_eq!(put(&mut reasm, last, NOW).unwrap().unwrap().as_ref(), pkt);
    assert_eq!(reasm.len(), 0);
}
