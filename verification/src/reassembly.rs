//! Connection-local reassembly of segmented packets, bounded in entries, bytes and time.

use crate::buffers::{
    buf_len, buf_with_capacity, bytes_copy, bytes_of, bytes_slice, extend_from_slice, freeze,
    written,
};
use crate::frame::{
    lemma_piece_len, lemma_pieces, piece, pieces, MAX_OVERLAY_SEGMENTS, REASSEMBLY_MAX_BYTES, REASSEMBLY_MAX_ENTRIES, REASSEMBLY_TTL,
};
use bytes::{Bytes, BytesMut};
use vstd::prelude::*;

verus! {

#[derive(Debug, Clone, Copy, PartialEq, Eq, Structural)]
pub enum ReassemblyError {
    Malformed,
    Evicted,
}

/// One incomplete packet, as a mathematical value.
pub struct PartialView {
    pub network_id: u128,
    pub packet_id: u32,
    pub count: u16,
    pub total_len: u16,
    pub slots: Seq<Option<Seq<u8>>>,
    pub deadline: u64,
}

/// The incomplete packets of a connection, oldest first.
pub struct ReassemblyView {
    pub max_packet: nat,
    pub entries: Seq<PartialView>,
    pub expired: nat,
}

/// One arriving segment.
pub struct SegmentView {
    pub network_id: u128,
    pub packet_id: u32,
    pub index: u16,
    pub count: u16,
    pub total_len: u16,
    pub payload: Seq<u8>,
}

/// The bytes that the filled slots hold together.
pub open spec fn slot_bytes(slots: Seq<Option<Seq<u8>>>) -> nat
    decreases slots.len(),
{
    if slots.len() == 0 {
        0
    } else {
        slot_bytes(slots.drop_last()) + (match slots.last() {
            Some(b) => b.len(),
            None => 0,
        })
    }
}

/// How many slots are filled.
pub open spec fn slots_filled(slots: Seq<Option<Seq<u8>>>) -> nat
    decreases slots.len(),
{
    if slots.len() == 0 {
        0
    } else {
        slots_filled(slots.drop_last()) + (if slots.last() is Some {
            1nat
        } else {
            0
        })
    }
}

/// The pieces one after the other.
pub open spec fn joined(slots: Seq<Option<Seq<u8>>>) -> Seq<u8>
    decreases slots.len(),
{
    if slots.len() == 0 {
        Seq::empty()
    } else {
        joined(slots.drop_last()) + (match slots.last() {
            Some(b) => b,
            None => Seq::empty(),
        })
    }
}

/// Every slot is filled.
pub open spec fn complete(slots: Seq<Option<Seq<u8>>>) -> bool {
    forall|i: int| 0 <= i < slots.len() ==> #[trigger] slots[i] is Some
}

/// The bytes that all entries hold together.
pub open spec fn held_bytes(entries: Seq<PartialView>) -> nat
    decreases entries.len(),
{
    if entries.len() == 0 {
        0
    } else {
        held_bytes(entries.drop_last()) + slot_bytes(entries.last().slots)
    }
}

/// The entries whose deadline lies ahead.
pub open spec fn live(entries: Seq<PartialView>, now: u64) -> Seq<PartialView>
    decreases entries.len(),
{
    if entries.len() == 0 {
        Seq::empty()
    } else if entries.last().deadline > now {
        live(entries.drop_last(), now).push(entries.last())
    } else {
        live(entries.drop_last(), now)
    }
}

/// The place of the entry for a packet; the number of entries when there is none.
pub open spec fn place_of(entries: Seq<PartialView>, network_id: u128, packet_id: u32) -> int
    decreases entries.len(),
{
    if entries.len() == 0 {
        0
    } else if entries[0].network_id == network_id && entries[0].packet_id == packet_id {
        0
    } else {
        1 + place_of(entries.skip(1), network_id, packet_id)
    }
}

/// The place of the entry with the earliest deadline, the first of several.
pub open spec fn oldest(entries: Seq<PartialView>) -> int
    decreases entries.len(),
{
    if entries.len() <= 1 {
        0
    } else {
        let before = oldest(entries.drop_last());
        if entries.last().deadline < entries[before].deadline {
            entries.len() - 1
        } else {
            before
        }
    }
}

/// A segment that the reassembly of packets up to `max_packet` bytes takes at all.
pub open spec fn acceptable(seg: SegmentView, max_packet: nat) -> bool {
    &&& 0 < seg.count <= MAX_OVERLAY_SEGMENTS
    &&& seg.index < seg.count
    &&& 0 < seg.total_len <= max_packet
    &&& seg.payload.len() > 0
    &&& seg.count <= seg.total_len
}

/// The entries with room for one packet more: the oldest leaves when all places are taken.
pub open spec fn with_room(entries: Seq<PartialView>) -> Seq<PartialView> {
    if entries.len() >= REASSEMBLY_MAX_ENTRIES {
        entries.remove(oldest(entries))
    } else {
        entries
    }
}

/// An entry that nothing has arrived for.
pub open spec fn fresh(seg: SegmentView, now: u64) -> PartialView {
    PartialView {
        network_id: seg.network_id,
        packet_id: seg.packet_id,
        count: seg.count,
        total_len: seg.total_len,
        slots: Seq::new(seg.count as nat, |i: int| None),
        deadline: (now + REASSEMBLY_TTL) as u64,
    }
}

/// The entries once the segment's packet has one.
pub open spec fn opened(entries: Seq<PartialView>, seg: SegmentView, now: u64) -> Seq<PartialView> {
    if place_of(entries, seg.network_id, seg.packet_id) < entries.len() {
        entries
    } else {
        with_room(entries).push(fresh(seg, now))
    }
}

/// The entry with the segment in its slot.
pub open spec fn filled(p: PartialView, seg: SegmentView) -> PartialView {
    PartialView { slots: p.slots.update(seg.index as int, Some(seg.payload)), ..p }
}

/// What one arriving segment leads to: the entries that remain, and the answer.
pub open spec fn arrival(entries: Seq<PartialView>, seg: SegmentView, max_packet: nat, now: u64) -> (
    Seq<PartialView>,
    Result<Option<Seq<u8>>, ReassemblyError>,
) {
    let known = live(entries, now);
    let at = place_of(known, seg.network_id, seg.packet_id);
    if !acceptable(seg, max_packet) {
        (known, Err(ReassemblyError::Malformed))
    } else if at < known.len() && (known[at].count != seg.count || known[at].total_len
        != seg.total_len) {
        (known.remove(at), Err(ReassemblyError::Malformed))
    } else {
        let open = opened(known, seg, now);
        let k = place_of(open, seg.network_id, seg.packet_id);
        let p = open[k];
        if p.slots[seg.index as int] is Some {
            (open, Ok(None))
        } else if held_bytes(open) + seg.payload.len() > REASSEMBLY_MAX_BYTES {
            (open.remove(k), Err(ReassemblyError::Evicted))
        } else {
            let q = filled(p, seg);
            if !complete(q.slots) {
                (open.update(k, q), Ok(None))
            } else if joined(q.slots).len() != q.total_len {
                (open.remove(k), Err(ReassemblyError::Malformed))
            } else {
                (open.remove(k), Ok(Some(joined(q.slots))))
            }
        }
    }
}

/// Every entry has one slot per segment, is incomplete, and belongs to a packet of its own.
pub open spec fn entries_wf(entries: Seq<PartialView>) -> bool {
    &&& entries.len() <= REASSEMBLY_MAX_ENTRIES
    &&& held_bytes(entries) <= REASSEMBLY_MAX_BYTES
    &&& forall|i: int| 0 <= i < entries.len() ==> (#[trigger] entries[i]).slots.len() == entries[i].count
    &&& forall|i: int| 0 <= i < entries.len() ==> !complete((#[trigger] entries[i]).slots)
    &&& forall|i: int, j: int|
        0 <= i < j < entries.len() ==> (#[trigger] entries[i]).network_id != (
        #[trigger] entries[j]).network_id || entries[i].packet_id != entries[j].packet_id
}

/// A packet that is put together passed the checks on its segments, and at
/// least one of them has arrived.
pub open spec fn partial_checked(p: PartialView, max_packet: nat) -> bool {
    &&& 0 < p.count <= MAX_OVERLAY_SEGMENTS
    &&& p.count <= p.total_len <= max_packet
    &&& slots_filled(p.slots) > 0
}

/// Every packet that is put together passed the checks.
pub open spec fn entries_checked(entries: Seq<PartialView>, max_packet: nat) -> bool {
    forall|i: int| 0 <= i < entries.len() ==> partial_checked(#[trigger] entries[i], max_packet)
}

struct Partial {
    network_id: u128,
    packet_id: u32,
    count: u16,
    total_len: u16,
    slots: Vec<Option<Bytes>>,
    filled: u16,
    bytes: usize,
    deadline: u64,
}

spec fn slot_view(s: Option<Bytes>) -> Option<Seq<u8>> {
    match s {
        Some(b) => Some(bytes_of(b)),
        None => None,
    }
}

spec fn slots_view(s: Seq<Option<Bytes>>) -> Seq<Option<Seq<u8>>> {
    Seq::new(s.len(), |i: int| slot_view(s[i]))
}

impl Partial {
    spec fn model(self) -> PartialView {
        PartialView {
            network_id: self.network_id,
            packet_id: self.packet_id,
            count: self.count,
            total_len: self.total_len,
            slots: slots_view(self.slots@),
            deadline: self.deadline,
        }
    }

    spec fn counted(self) -> bool {
        &&& self.filled == slots_filled(self.model().slots)
        &&& self.bytes == slot_bytes(self.model().slots)
    }
}

spec fn models(entries: Seq<Partial>) -> Seq<PartialView> {
    Seq::new(entries.len(), |i: int| entries[i].model())
}

/// The incomplete packets of one connection.
pub struct Reassembly {
    max_packet: usize,
    entries: Vec<Partial>,
    total_bytes: usize,
    expired: u64,
}

proof fn lemma_slots_update(s: Seq<Option<Seq<u8>>>, i: int, b: Seq<u8>)
    requires
        0 <= i < s.len(),
        s[i] is None,
    ensures
        slot_bytes(s.update(i, Some(b))) == slot_bytes(s) + b.len(),
        slots_filled(s.update(i, Some(b))) == slots_filled(s) + 1,
    decreases s.len(),
{
    let t = s.update(i, Some(b));
    if i == s.len() - 1 {
        assert(t.drop_last() =~= s.drop_last());
    } else {
        lemma_slots_update(s.drop_last(), i, b);
        assert(t.drop_last() =~= s.drop_last().update(i, Some(b)));
    }
}

proof fn lemma_filled_complete(s: Seq<Option<Seq<u8>>>)
    ensures
        slots_filled(s) <= s.len(),
        slots_filled(s) == s.len() <==> complete(s),
    decreases s.len(),
{
    if s.len() > 0 {
        lemma_filled_complete(s.drop_last());
        if complete(s) {
            assert forall|i: int| 0 <= i < s.len() - 1 implies #[trigger] s.drop_last()[i] is Some by {
                assert(s[i] is Some);
            }
            assert(s[s.len() - 1] is Some);
        }
        if complete(s.drop_last()) && s.last() is Some {
            assert forall|i: int| 0 <= i < s.len() implies #[trigger] s[i] is Some by {
                if i < s.len() - 1 {
                    assert(s.drop_last()[i] is Some);
                }
            }
        }
    }
}

proof fn lemma_empty_slots(n: nat)
    ensures
        slot_bytes(Seq::new(n, |i: int| None)) == 0,
        slots_filled(Seq::new(n, |i: int| None)) == 0,
    decreases n,
{
    let s: Seq<Option<Seq<u8>>> = Seq::new(n, |i: int| None);
    if n > 0 {
        lemma_empty_slots((n - 1) as nat);
        assert(s.drop_last() =~= Seq::new((n - 1) as nat, |i: int| None));
    }
}

proof fn lemma_joined_len(s: Seq<Option<Seq<u8>>>)
    ensures
        joined(s).len() == slot_bytes(s),
    decreases s.len(),
{
    if s.len() > 0 {
        lemma_joined_len(s.drop_last());
    }
}

proof fn lemma_held_remove(e: Seq<PartialView>, i: int)
    requires
        0 <= i < e.len(),
    ensures
        held_bytes(e.remove(i)) == held_bytes(e) - slot_bytes(e[i].slots),
        slot_bytes(e[i].slots) <= held_bytes(e),
    decreases e.len(),
{
    if i == e.len() - 1 {
        assert(e.remove(i) =~= e.drop_last());
    } else {
        lemma_held_remove(e.drop_last(), i);
        assert(e.remove(i).drop_last() =~= e.drop_last().remove(i));
        assert(e.remove(i).last() == e.last());
    }
}

proof fn lemma_held_update(e: Seq<PartialView>, i: int, p: PartialView)
    requires
        0 <= i < e.len(),
    ensures
        held_bytes(e.update(i, p)) == held_bytes(e) - slot_bytes(e[i].slots) + slot_bytes(p.slots),
    decreases e.len(),
{
    if i == e.len() - 1 {
        assert(e.update(i, p).drop_last() =~= e.drop_last());
    } else {
        lemma_held_update(e.drop_last(), i, p);
        assert(e.update(i, p).drop_last() =~= e.drop_last().update(i, p));
    }
}

proof fn lemma_place(e: Seq<PartialView>, n: u128, p: u32)
    ensures
        0 <= place_of(e, n, p) <= e.len(),
        forall|i: int|
            0 <= i < place_of(e, n, p) ==> (#[trigger] e[i]).network_id != n || e[i].packet_id != p,
        place_of(e, n, p) < e.len() ==> e[place_of(e, n, p)].network_id == n && e[place_of(
            e,
            n,
            p,
        )].packet_id == p,
    decreases e.len(),
{
    if e.len() > 0 && !(e[0].network_id == n && e[0].packet_id == p) {
        let rest = e.skip(1);
        lemma_place(rest, n, p);
        assert forall|i: int| 0 <= i < place_of(e, n, p) implies (#[trigger] e[i]).network_id != n
            || e[i].packet_id != p by {
            if i > 0 {
                assert(rest[i - 1] == e[i]);
            }
        }
    }
}

/// The place of an entry is the one index at which its key stands.
proof fn lemma_place_is(e: Seq<PartialView>, k: int, n: u128, p: u32)
    requires
        0 <= k < e.len(),
        e[k].network_id == n,
        e[k].packet_id == p,
        forall|i: int| 0 <= i < k ==> (#[trigger] e[i]).network_id != n || e[i].packet_id != p,
    ensures
        place_of(e, n, p) == k,
{
    lemma_place(e, n, p);
    let at = place_of(e, n, p);
    if at < k {
        assert(e[at].network_id == n);
    }
    if at > k {
        assert(e[k].network_id != n || e[k].packet_id != p);
    }
}

proof fn lemma_oldest(e: Seq<PartialView>)
    requires
        e.len() > 0,
    ensures
        0 <= oldest(e) < e.len(),
        forall|i: int| 0 <= i < e.len() ==> e[oldest(e)].deadline <= (#[trigger] e[i]).deadline,
    decreases e.len(),
{
    if e.len() > 1 {
        let front = e.drop_last();
        lemma_oldest(front);
        assert forall|i: int| 0 <= i < e.len() implies e[oldest(e)].deadline <= (
        #[trigger] e[i]).deadline by {
            if i < e.len() - 1 {
                assert(front[i] == e[i]);
            }
        }
    }
}

proof fn lemma_live(e: Seq<PartialView>, now: u64)
    ensures
        live(e, now).len() <= e.len(),
        held_bytes(live(e, now)) <= held_bytes(e),
        forall|i: int|
            0 <= i < live(e, now).len() ==> (#[trigger] live(e, now)[i]).deadline > now && e.contains(
                live(e, now)[i],
            ),
        forall|i: int|
            0 <= i < e.len() && (#[trigger] e[i]).deadline > now ==> live(e, now).contains(e[i]),
    decreases e.len(),
{
    if e.len() > 0 {
        let front = e.drop_last();
        let l = live(front, now);
        lemma_live(front, now);
        assert(forall|i: int| 0 <= i < front.len() ==> #[trigger] front[i] == e[i]);
        assert forall|i: int| 0 <= i < live(e, now).len() implies (
        #[trigger] live(e, now)[i]).deadline > now && e.contains(live(e, now)[i]) by {
            if i < l.len() {
                assert(l[i] == live(e, now)[i]);
                let j = choose|j: int| 0 <= j < front.len() && front[j] == l[i];
                assert(e[j] == l[i]);
            } else {
                assert(e[e.len() - 1] == live(e, now)[i]);
            }
        }
        assert forall|i: int| 0 <= i < e.len() && (#[trigger] e[i]).deadline > now implies live(
            e,
            now,
        ).contains(e[i]) by {
            if i < e.len() - 1 {
                assert(front[i] == e[i]);
                assert(l.contains(e[i]));
                let j = choose|j: int| 0 <= j < l.len() && l[j] == e[i];
                assert(live(e, now)[j] == e[i]);
            } else {
                assert(live(e, now).last() == e[i]);
            }
        }
        if e.last().deadline > now {
            assert(live(e, now).drop_last() =~= l);
        }
    }
}

proof fn lemma_live_wf(e: Seq<PartialView>, now: u64)
    requires
        entries_wf(e),
    ensures
        entries_wf(live(e, now)),
    decreases e.len(),
{
    lemma_live(e, now);
    let l = live(e, now);
    assert forall|i: int| 0 <= i < l.len() implies (#[trigger] l[i]).slots.len() == l[i].count by {
        let j = choose|j: int| 0 <= j < e.len() && e[j] == l[i];
        assert(e[j].slots.len() == e[j].count);
    }
    assert forall|i: int| 0 <= i < l.len() implies !complete((#[trigger] l[i]).slots) by {
        let j = choose|j: int| 0 <= j < e.len() && e[j] == l[i];
        assert(!complete(e[j].slots));
    }
    if e.len() > 0 {
        let front = e.drop_last();
        assert(held_bytes(front) <= held_bytes(e));
        assert(forall|i: int| 0 <= i < front.len() ==> #[trigger] front[i] == e[i]);
        lemma_live_wf(front, now);
        lemma_live(front, now);
        let m = live(front, now);
        if e.last().deadline > now {
            assert forall|i: int, j: int| 0 <= i < j < l.len() implies (#[trigger] l[i]).network_id
                != (#[trigger] l[j]).network_id || l[i].packet_id != l[j].packet_id by {
                assert(l[i] == m[i]);
                if j < m.len() {
                    assert(l[j] == m[j]);
                } else {
                    let x = choose|x: int| 0 <= x < front.len() && front[x] == m[i];
                    assert(e[x] == m[i]);
                    assert(l[j] == e[e.len() - 1]);
                }
            }
        }
    }
}

proof fn lemma_remove_wf(e: Seq<PartialView>, i: int)
    requires
        entries_wf(e),
        0 <= i < e.len(),
    ensures
        entries_wf(e.remove(i)),
{
    lemma_held_remove(e, i);
    let r = e.remove(i);
    assert(forall|j: int|
        0 <= j < r.len() ==> #[trigger] r[j] == (if j < i {
            e[j]
        } else {
            e[j + 1]
        }));
}

impl Reassembly {
    /// The incomplete packets, oldest first.
    pub closed spec fn entries(self) -> Seq<PartialView> {
        models(self.entries@)
    }

    /// The longest packet that is put together.
    pub closed spec fn limit(self) -> nat {
        self.max_packet as nat
    }

    /// Packets that expired and have not been asked for.
    pub closed spec fn expired_count(self) -> nat {
        self.expired as nat
    }

    spec fn counted(self) -> bool {
        &&& self.total_bytes == held_bytes(self.entries())
        &&& forall|i: int| 0 <= i < self.entries@.len() ==> (#[trigger] self.entries@[i]).counted()
    }

    /// At most 16 packets and 64 KiB are held, and no packet that is complete
    /// or that nothing has arrived of.
    pub closed spec fn wf(self) -> bool {
        &&& self.counted()
        &&& entries_wf(self.entries())
        &&& entries_checked(self.entries(), self.limit())
    }

    /// What `wf` bounds.
    pub proof fn lemma_wf(self)
        requires
            self.wf(),
        ensures
            entries_wf(self.entries()),
            entries_checked(self.entries(), self.limit()),
    {
    }

    /// Nothing held, nothing expired.
    pub fn new(max_packet: usize) -> (r: Reassembly)
        ensures
            r.wf(),
            r.limit() == max_packet,
            r.entries() == Seq::<PartialView>::empty(),
            r.expired_count() == 0,
    {
        let r = Reassembly { max_packet, entries: Vec::new(), total_bytes: 0, expired: 0 };
        proof {
            assert(r.entries() =~= Seq::<PartialView>::empty());
        }
        r
    }

    /// Drops every incomplete packet.
    pub fn clear(&mut self)
        requires
            old(self).wf(),
        ensures
            final(self).wf(),
            final(self).entries() == Seq::<PartialView>::empty(),
            final(self).limit() == old(self).limit(),
            final(self).expired_count() == old(self).expired_count(),
    {
        self.entries.clear();
        self.total_bytes = 0;
        proof {
            assert(self.entries() =~= Seq::<PartialView>::empty());
        }
    }

    /// How many packets are incomplete.
    pub fn len(&self) -> (r: usize)
        ensures
            r == self.entries().len(),
    {
        self.entries.len()
    }

    fn remove_at(&mut self, i: usize)
        requires
            old(self).counted(),
            i < old(self).entries().len(),
        ensures
            final(self).counted(),
            final(self).entries() == old(self).entries().remove(i as int),
            final(self).limit() == old(self).limit(),
            final(self).expired_count() == old(self).expired_count(),
    {
        proof {
            lemma_held_remove(self.entries(), i as int);
        }
        let ghost before = self.entries@;
        assert(before[i as int].counted());
        let gone = self.entries.remove(i);
        self.total_bytes = self.total_bytes - gone.bytes;
        proof {
            assert(models(self.entries@) =~= models(before).remove(i as int));
        }
    }

    /// Drops the packets whose time has passed.
    pub fn expire(&mut self, now: u64)
        requires
            old(self).wf(),
            old(self).expired_count() + REASSEMBLY_MAX_ENTRIES <= u64::MAX,
        ensures
            final(self).wf(),
            final(self).entries() == live(old(self).entries(), now),
            final(self).limit() == old(self).limit(),
            final(self).expired_count() == old(self).expired_count() + (old(self).entries().len()
                - final(self).entries().len()),
    {
        let ghost start = self.entries();
        let mut i: usize = 0;
        let ghost mut seen: int = 0;
        proof {
            lemma_live_wf(start, now);
            lemma_live_checked(start, self.limit(), now);
            assert(start.skip(0) =~= start);
            assert(start.take(0) =~= Seq::<PartialView>::empty());
        }
        while i < self.entries.len()
            invariant
                self.counted(),
                start.len() <= REASSEMBLY_MAX_ENTRIES,
                i <= seen <= start.len(),
                i == live(start.take(seen), now).len(),
                self.entries() =~= live(start.take(seen), now) + start.skip(seen),
                self.limit() == old(self).limit(),
                self.expired_count() == old(self).expired_count() + (seen - i),
                old(self).expired_count() + REASSEMBLY_MAX_ENTRIES <= u64::MAX,
            decreases start.len() - seen,
        {
            proof {
                assert(self.entries()[i as int] == start[seen]);
                assert(start.take(seen + 1).drop_last() =~= start.take(seen));
                assert(start.skip(seen) =~= seq![start[seen]] + start.skip(seen + 1));
            }
            if self.entries[i].deadline <= now {
                self.remove_at(i);
                self.expired = self.expired + 1;
                proof {
                    assert(self.entries() =~= live(start.take(seen), now) + start.skip(seen + 1));
                }
            } else {
                i = i + 1;
            }
            proof {
                seen = seen + 1;
            }
        }
        proof {
            assert(start.take(seen) =~= start);
            assert(self.entries() =~= live(start, now));
        }
    }

    /// How many packets expired since this was last asked.
    pub fn take_expired(&mut self) -> (r: u64)
        requires
            old(self).wf(),
        ensures
            r == old(self).expired_count(),
            final(self).wf(),
            final(self).expired_count() == 0,
            final(self).entries() == old(self).entries(),
            final(self).limit() == old(self).limit(),
    {
        let n: u64 = self.expired;
        self.expired = 0;
        n
    }

    fn find(&self, network_id: u128, packet_id: u32) -> (r: usize)
        ensures
            r == place_of(self.entries(), network_id, packet_id),
            r <= self.entries().len(),
    {
        let mut i: usize = 0;
        while i < self.entries.len() && !(self.entries[i].network_id == network_id
            && self.entries[i].packet_id == packet_id)
            invariant
                i <= self.entries@.len(),
                forall|j: int|
                    0 <= j < i ==> (#[trigger] self.entries()[j]).network_id != network_id
                        || self.entries()[j].packet_id != packet_id,
            decreases self.entries@.len() - i,
        {
            i = i + 1;
        }
        proof {
            lemma_place(self.entries(), network_id, packet_id);
            if i < self.entries@.len() {
                lemma_place_is(self.entries(), i as int, network_id, packet_id);
            } else {
                let at = place_of(self.entries(), network_id, packet_id);
                if at < i {
                    assert(self.entries()[at].network_id == network_id);
                }
            }
        }
        i
    }

    fn evict_oldest(&mut self)
        requires
            old(self).counted(),
            old(self).entries().len() > 0,
        ensures
            final(self).counted(),
            final(self).entries() == old(self).entries().remove(oldest(old(self).entries())),
            final(self).limit() == old(self).limit(),
            final(self).expired_count() == old(self).expired_count(),
    {
        let mut best: usize = 0;
        let mut i: usize = 1;
        while i < self.entries.len()
            invariant
                1 <= i <= self.entries@.len(),
                best < i,
                best == oldest(self.entries().take(i as int)),
                *self == *old(self),
            decreases self.entries@.len() - i,
        {
            proof {
                assert(self.entries().take(i as int + 1).drop_last() =~= self.entries().take(
                    i as int,
                ));
            }
            if self.entries[i].deadline < self.entries[best].deadline {
                best = i;
            }
            i = i + 1;
        }
        proof {
            assert(self.entries().take(i as int) =~= self.entries());
        }
        self.remove_at(best);
    }

    fn assemble(&self, at: usize) -> (r: BytesMut)
        requires
            self.counted(),
            at < self.entries().len(),
            held_bytes(self.entries()) <= REASSEMBLY_MAX_BYTES,
            complete(self.entries()[at as int].slots),
        ensures
            written(r) == joined(self.entries()[at as int].slots),
    {
        let partial = &self.entries[at];
        let ghost slots = self.entries()[at as int].slots;
        proof {
            lemma_held_remove(self.entries(), at as int);
            assert(slots.take(0) =~= Seq::<Option<Seq<u8>>>::empty());
        }
        let mut out = buf_with_capacity(partial.total_len as usize);
        let mut i: usize = 0;
        while i < partial.slots.len()
            invariant
                i <= partial.slots@.len(),
                slots =~= slots_view(partial.slots@),
                complete(slots),
                slot_bytes(slots) <= REASSEMBLY_MAX_BYTES,
                written(out) == joined(slots.take(i as int)),
            decreases partial.slots@.len() - i,
        {
            proof {
                let front = slots.take(i as int + 1);
                assert(front.drop_last() =~= slots.take(i as int));
                lemma_slot_bytes_take(slots, i as int + 1);
                lemma_joined_len(front);
                assert(slots[i as int] is Some);
            }
            if let Some(piece) = &partial.slots[i] {
                extend_from_slice(&mut out, bytes_slice(piece));
            }
            i = i + 1;
        }
        proof {
            assert(slots.take(i as int) =~= slots);
        }
        out
    }

    /// Takes one segment in. The answer is the whole packet once nothing of it is missing.
    pub fn insert(
        &mut self,
        network_id: u128,
        packet_id: u32,
        index: u16,
        count: u16,
        total_len: u16,
        payload: &[u8],
        now: u64,
    ) -> (r: Result<Option<Bytes>, ReassemblyError>)
        requires
            old(self).wf(),
            now + REASSEMBLY_TTL <= u64::MAX,
            old(self).expired_count() + REASSEMBLY_MAX_ENTRIES <= u64::MAX,
        ensures
            final(self).wf(),
            final(self).limit() == old(self).limit(),
            final(self).expired_count() == old(self).expired_count() + (old(self).entries().len()
                - live(old(self).entries(), now).len()),
            ({
                let seg = SegmentView {
                    network_id,
                    packet_id,
                    index,
                    count,
                    total_len,
                    payload: payload@,
                };
                let out = arrival(old(self).entries(), seg, old(self).limit(), now);
                &&& final(self).entries() == out.0
                &&& r matches Err(e) ==> out.1 == Err::<Option<Seq<u8>>, ReassemblyError>(e)
                &&& r matches Ok(None) ==> out.1 == Ok::<Option<Seq<u8>>, ReassemblyError>(None)
                &&& r matches Ok(Some(b)) ==> out.1 == Ok::<Option<Seq<u8>>, ReassemblyError>(
                    Some(bytes_of(b)),
                )
            }),
    {
        let ghost seg = SegmentView {
            network_id,
            packet_id,
            index,
            count,
            total_len,
            payload: payload@,
        };
        proof {
            lemma_arrival_checked(self.entries(), seg, self.limit(), now);
        }
        self.expire(now);
        let ghost known = self.entries();
        if count == 0 || index >= count || total_len == 0 || total_len as usize > self.max_packet
            || payload.len() == 0 || count > total_len || count > MAX_OVERLAY_SEGMENTS || count as usize
            > self.max_packet {
            return Err(ReassemblyError::Malformed);
        }
        let at: usize = self.find(network_id, packet_id);
        let present = at < self.entries.len();
        if present && (self.entries[at].count != count || self.entries[at].total_len != total_len) {
            proof {
                lemma_remove_wf(known, at as int);
            }
            self.remove_at(at);
            return Err(ReassemblyError::Malformed);
        }
        if !present {
            if self.entries.len() >= REASSEMBLY_MAX_ENTRIES {
                proof {
                    lemma_oldest(known);
                    lemma_remove_wf(known, oldest(known));
                }
                self.evict_oldest();
            }
            let ghost roomy = self.entries();
            let ghost before = self.entries@;
            let slots = empty_slots(count);
            let p = Partial {
                network_id,
                packet_id,
                count,
                total_len,
                slots,
                filled: 0,
                bytes: 0,
                deadline: now + REASSEMBLY_TTL,
            };
            proof {
                lemma_empty_slots(count as nat);
                assert(slots_view(slots@) =~= Seq::new(count as nat, |i: int| None));
                assert(p.model() == fresh(seg, now));
            }
            self.entries.push(p);
            proof {
                lemma_opened(known, seg, now);
                assert(self.entries() =~= roomy.push(fresh(seg, now)));
                assert(self.entries().drop_last() =~= roomy);
                assert forall|i: int| 0 <= i < self.entries@.len() implies (
                #[trigger] self.entries@[i]).counted() by {
                    if i < before.len() {
                        assert(before[i].counted());
                    }
                }
            }
        } else {
            proof {
                lemma_opened(known, seg, now);
            }
        }
        let ghost open = self.entries();
        let k: usize = self.find(network_id, packet_id);
        proof {
            assert(open == opened(known, seg, now));
        }
        let slot: usize = index as usize;
        assert(self.entries@[k as int].counted());
        if self.entries[k].slots[slot].is_some() {
            return Ok(None);
        }
        if payload.len() > REASSEMBLY_MAX_BYTES - self.total_bytes {
            proof {
                lemma_remove_wf(open, k as int);
            }
            self.remove_at(k);
            return Err(ReassemblyError::Evicted);
        }
        let ghost p = open[k as int];
        let ghost q = filled(p, seg);
        proof {
            lemma_slots_update(p.slots, slot as int, payload@);
            lemma_held_update(open, k as int, q);
            lemma_filled_complete(p.slots);
            lemma_filled_complete(q.slots);
            lemma_joined_len(q.slots);
            lemma_held_remove(open, k as int);
        }
        let ghost before = self.entries@;
        let piece = bytes_copy(payload);
        let added: usize = payload.len();
        self.entries[k].slots[slot] = Some(piece);
        self.entries[k].filled = self.entries[k].filled + 1;
        self.entries[k].bytes = self.entries[k].bytes + added;
        self.total_bytes = self.total_bytes + added;
        proof {
            assert(slots_view(self.entries@[k as int].slots@) =~= q.slots);
            assert(self.entries@[k as int].model() == q);
            assert(self.entries() =~= open.update(k as int, q));
            assert forall|i: int| 0 <= i < self.entries@.len() implies (
            #[trigger] self.entries@[i]).counted() by {
                if i != k {
                    assert(self.entries@[i] == before[i]);
                    assert(before[i].counted());
                }
            }
        }
        if self.entries[k].filled != self.entries[k].count {
            proof {
                assert forall|i: int| 0 <= i < self.entries().len() implies !complete(
                    (#[trigger] self.entries()[i]).slots,
                ) by {
                    if i != k {
                        assert(self.entries()[i] == open[i]);
                    }
                }
            }
            return Ok(None);
        }
        let assembled = self.assemble(k);
        let want: usize = self.entries[k].total_len as usize;
        let got: usize = buf_len(&assembled);
        self.remove_at(k);
        proof {
            lemma_remove_wf(open, k as int);
            assert(open.update(k as int, q).remove(k as int) =~= open.remove(k as int));
        }
        if got != want {
            return Err(ReassemblyError::Malformed);
        }
        Ok(Some(freeze(assembled)))
    }
}

proof fn lemma_slot_bytes_take(s: Seq<Option<Seq<u8>>>, n: int)
    requires
        0 <= n <= s.len(),
    ensures
        slot_bytes(s.take(n)) <= slot_bytes(s),
    decreases s.len() - n,
{
    if n < s.len() {
        lemma_slot_bytes_take(s, n + 1);
        assert(s.take(n + 1).drop_last() =~= s.take(n));
    } else {
        assert(s.take(n) =~= s);
    }
}

/// Opening an entry keeps the entries sound and leaves it in the list once.
proof fn lemma_opened(known: Seq<PartialView>, seg: SegmentView, now: u64)
    requires
        entries_wf(known),
        0 < seg.count,
        seg.index < seg.count,
        place_of(known, seg.network_id, seg.packet_id) < known.len() ==> known[place_of(
            known,
            seg.network_id,
            seg.packet_id,
        )].count == seg.count,
    ensures
        entries_wf(opened(known, seg, now)),
        ({
            let open = opened(known, seg, now);
            let k = place_of(open, seg.network_id, seg.packet_id);
            &&& 0 <= k < open.len()
            &&& open[k].network_id == seg.network_id
            &&& open[k].packet_id == seg.packet_id
            &&& open[k].slots.len() == seg.count
            &&& place_of(known, seg.network_id, seg.packet_id) >= known.len() ==> k == open.len()
                - 1
        }),
{
    let open = opened(known, seg, now);
    lemma_place(known, seg.network_id, seg.packet_id);
    if place_of(known, seg.network_id, seg.packet_id) >= known.len() {
        if known.len() >= REASSEMBLY_MAX_ENTRIES {
            lemma_oldest(known);
            lemma_remove_wf(known, oldest(known));
        }
        let roomy = with_room(known);
        assert forall|i: int| 0 <= i < roomy.len() implies (#[trigger] roomy[i]).network_id
            != seg.network_id || roomy[i].packet_id != seg.packet_id by {
            if known.len() >= REASSEMBLY_MAX_ENTRIES {
                let o = oldest(known);
                assert(roomy[i] == (if i < o {
                    known[i]
                } else {
                    known[i + 1]
                }));
            }
        }
        let f = fresh(seg, now);
        lemma_empty_slots(seg.count as nat);
        lemma_filled_complete(f.slots);
        assert(open.drop_last() =~= roomy);
        assert(forall|i: int| 0 <= i < roomy.len() ==> #[trigger] open[i] == roomy[i]);
        assert(open[roomy.len() as int] == f);
        lemma_place_is(open, roomy.len() as int, seg.network_id, seg.packet_id);
    }
}

/// An arriving segment leaves the entries within their bounds.
pub proof fn law_arrival_keeps_bounds(
    entries: Seq<PartialView>,
    seg: SegmentView,
    max_packet: nat,
    now: u64,
)
    requires
        entries_wf(entries),
    ensures
        entries_wf(arrival(entries, seg, max_packet, now).0),
{
    let known = live(entries, now);
    lemma_live_wf(entries, now);
    let at = place_of(known, seg.network_id, seg.packet_id);
    lemma_place(known, seg.network_id, seg.packet_id);
    if acceptable(seg, max_packet) {
        if at < known.len() && (known[at].count != seg.count || known[at].total_len
            != seg.total_len) {
            lemma_remove_wf(known, at);
        } else {
            lemma_opened(known, seg, now);
            let open = opened(known, seg, now);
            let k = place_of(open, seg.network_id, seg.packet_id);
            let p = open[k];
            lemma_remove_wf(open, k);
            if p.slots[seg.index as int] is None && held_bytes(open) + seg.payload.len()
                <= REASSEMBLY_MAX_BYTES {
                let q = filled(p, seg);
                lemma_slots_update(p.slots, seg.index as int, seg.payload);
                lemma_held_update(open, k, q);
                let e = open.update(k, q);
                assert(forall|i: int| 0 <= i < e.len() && i != k ==> #[trigger] e[i] == open[i]);
            }
        }
    }
}

proof fn lemma_live_checked(e: Seq<PartialView>, max_packet: nat, now: u64)
    requires
        entries_checked(e, max_packet),
    ensures
        entries_checked(live(e, now), max_packet),
{
    lemma_live(e, now);
    let l = live(e, now);
    assert forall|i: int| 0 <= i < l.len() implies partial_checked(#[trigger] l[i], max_packet) by {
        let j = choose|j: int| 0 <= j < e.len() && e[j] == l[i];
        assert(partial_checked(e[j], max_packet));
    }
}

proof fn lemma_remove_checked(e: Seq<PartialView>, max_packet: nat, i: int)
    requires
        0 <= i < e.len(),
        forall|j: int| 0 <= j < e.len() && j != i ==> partial_checked(#[trigger] e[j], max_packet),
    ensures
        entries_checked(e.remove(i), max_packet),
{
    let r = e.remove(i);
    assert forall|j: int| 0 <= j < r.len() implies partial_checked(#[trigger] r[j], max_packet) by {
        assert(r[j] == (if j < i {
            e[j]
        } else {
            e[j + 1]
        }));
    }
}

/// An arriving segment leaves only packets that passed the checks.
proof fn lemma_arrival_checked(entries: Seq<PartialView>, seg: SegmentView, max_packet: nat, now: u64)
    requires
        entries_wf(entries),
        entries_checked(entries, max_packet),
    ensures
        entries_checked(arrival(entries, seg, max_packet, now).0, max_packet),
{
    let known = live(entries, now);
    lemma_live_wf(entries, now);
    lemma_live_checked(entries, max_packet, now);
    let at = place_of(known, seg.network_id, seg.packet_id);
    lemma_place(known, seg.network_id, seg.packet_id);
    if acceptable(seg, max_packet) {
        if at < known.len() && (known[at].count != seg.count || known[at].total_len
            != seg.total_len) {
            lemma_remove_checked(known, max_packet, at);
        } else {
            lemma_opened(known, seg, now);
            let open = opened(known, seg, now);
            let k = place_of(open, seg.network_id, seg.packet_id);
            let p = open[k];
            if at >= known.len() {
                if known.len() >= REASSEMBLY_MAX_ENTRIES {
                    lemma_oldest(known);
                    lemma_remove_checked(known, max_packet, oldest(known));
                }
                let roomy = with_room(known);
                assert(entries_checked(roomy, max_packet));
                assert forall|j: int| 0 <= j < open.len() && j != k implies partial_checked(
                    #[trigger] open[j],
                    max_packet,
                ) by {
                    assert(open[j] == roomy[j]);
                }
                assert(p == fresh(seg, now));
            }
            lemma_remove_checked(open, max_packet, k);
            if p.slots[seg.index as int] is None {
                let q = filled(p, seg);
                lemma_slots_update(p.slots, seg.index as int, seg.payload);
                let e = open.update(k, q);
                assert forall|j: int| 0 <= j < e.len() implies partial_checked(
                    #[trigger] e[j],
                    max_packet,
                ) by {
                    if j != k {
                        assert(e[j] == open[j]);
                    }
                }
            }
        }
    }
}

/// Whatever was done to it, a reassembly holds at most 16 packets and 64 KiB.
/// Of each packet at least one segment has arrived and at least one is missing,
/// and its numbers passed the checks.
pub proof fn law_held_packets_are_bounded(r: Reassembly)
    requires
        r.wf(),
    ensures
        r.entries().len() <= 16,
        held_bytes(r.entries()) <= 65536,
        forall|i: int|
            0 <= i < r.entries().len() ==> {
                let p = #[trigger] r.entries()[i];
                &&& p.slots.len() == p.count
                &&& 0 < p.count <= MAX_OVERLAY_SEGMENTS
                &&& p.count <= p.total_len <= r.limit()
                &&& 0 < slots_filled(p.slots) < p.count
            },
{
    assert forall|i: int| 0 <= i < r.entries().len() implies ({
        let p = #[trigger] r.entries()[i];
        &&& p.slots.len() == p.count
        &&& 0 < p.count <= MAX_OVERLAY_SEGMENTS
        &&& p.count <= p.total_len <= r.limit()
        &&& 0 < slots_filled(p.slots) < p.count
    }) by {
        let p = r.entries()[i];
        assert(partial_checked(p, r.limit()));
        assert(!complete(p.slots));
        lemma_filled_complete(p.slots);
    }
}

/// A segment that has arrived already is ignored, whatever it holds this time:
/// what came first is kept.
pub proof fn law_duplicates_are_ignored(
    entries: Seq<PartialView>,
    seg: SegmentView,
    max_packet: nat,
    now: u64,
    at: int,
)
    requires
        entries_wf(entries),
        entries_checked(entries, max_packet),
        forall|i: int| 0 <= i < entries.len() ==> (#[trigger] entries[i]).deadline > now,
        0 <= at < entries.len(),
        entries[at].network_id == seg.network_id,
        entries[at].packet_id == seg.packet_id,
        entries[at].count == seg.count,
        entries[at].total_len == seg.total_len,
        seg.index < seg.count,
        entries[at].slots[seg.index as int] is Some,
        seg.payload.len() > 0,
    ensures
        arrival(entries, seg, max_packet, now) == (
            entries,
            Ok::<Option<Seq<u8>>, ReassemblyError>(None),
        ),
{
    lemma_live_all(entries, now);
    lemma_place_is(entries, at, seg.network_id, seg.packet_id);
    assert(partial_checked(entries[at], max_packet));
}

/// Entries whose time has not come all stay.
proof fn lemma_live_all(e: Seq<PartialView>, now: u64)
    requires
        forall|i: int| 0 <= i < e.len() ==> (#[trigger] e[i]).deadline > now,
    ensures
        live(e, now) == e,
    decreases e.len(),
{
    if e.len() > 0 {
        let front = e.drop_last();
        assert forall|i: int| 0 <= i < front.len() implies (#[trigger] front[i]).deadline > now by {
            assert(front[i] == e[i]);
        }
        assert(e[e.len() - 1].deadline > now);
        lemma_live_all(front, now);
    }
    assert(live(e, now) =~= e);
}

/// The segments of one list arriving one after the other, the last at the last
/// time: what remains, and the answers.
pub open spec fn fed(
    entries: Seq<PartialView>,
    segs: Seq<SegmentView>,
    max_packet: nat,
    times: Seq<u64>,
) -> (Seq<PartialView>, Seq<Result<Option<Seq<u8>>, ReassemblyError>>)
    decreases segs.len(),
{
    if segs.len() == 0 {
        (entries, Seq::empty())
    } else {
        let before = fed(entries, segs.drop_last(), max_packet, times.drop_last());
        let out = arrival(before.0, segs.last(), max_packet, times.last());
        (out.0, before.1.push(out.1))
    }
}

/// The segment that carries piece `i` of a packet cut every `chunk` bytes.
pub open spec fn packet_segment(
    network_id: u128,
    packet_id: u32,
    packet: Seq<u8>,
    chunk: int,
    i: int,
) -> SegmentView {
    SegmentView {
        network_id,
        packet_id,
        index: i as u16,
        count: pieces(packet.len() as int, chunk) as u16,
        total_len: packet.len() as u16,
        payload: piece(packet, chunk, i),
    }
}

/// All segments of a packet, in the order given by `order`.
pub open spec fn packet_segments(
    network_id: u128,
    packet_id: u32,
    packet: Seq<u8>,
    chunk: int,
    order: Seq<int>,
) -> Seq<SegmentView> {
    Seq::new(
        order.len(),
        |j: int| packet_segment(network_id, packet_id, packet, chunk, order[j]),
    )
}

/// `order` names each of the numbers below `n` once.
pub open spec fn each_once(order: Seq<int>, n: int) -> bool {
    &&& order.no_duplicates()
    &&& forall|i: int| 0 <= i < n ==> #[trigger] order.contains(i)
    &&& forall|j: int| 0 <= j < order.len() ==> 0 <= #[trigger] order[j] < n
    &&& order.len() == n
}

spec fn some_slots(packet: Seq<u8>, chunk: int, n: nat, have: Seq<int>) -> Seq<Option<Seq<u8>>> {
    Seq::new(
        n,
        |i: int|
            if have.contains(i) {
                Some(piece(packet, chunk, i))
            } else {
                None
            },
    )
}

spec fn all_slots(packet: Seq<u8>, chunk: int, n: nat) -> Seq<Option<Seq<u8>>> {
    Seq::new(n, |i: int| Some(piece(packet, chunk, i)))
}

proof fn lemma_joined_pieces(packet: Seq<u8>, chunk: int, n: nat)
    requires
        chunk > 0,
        packet.len() > 0,
        n <= pieces(packet.len() as int, chunk),
    ensures
        joined(all_slots(packet, chunk, n)) == packet.take(
            if n * chunk <= packet.len() {
                n * chunk
            } else {
                packet.len() as int
            },
        ),
    decreases n,
{
    let s = all_slots(packet, chunk, n);
    if n > 0 {
        let m = (n - 1) as nat;
        lemma_joined_pieces(packet, chunk, m);
        lemma_piece_len(packet, chunk, m as int);
        assert(s.drop_last() =~= all_slots(packet, chunk, m));
        assert(n * chunk == m * chunk + chunk) by (nonlinear_arith)
            requires
                n == m + 1,
        ;
        assert(joined(s) =~= packet.take(
            if n * chunk <= packet.len() {
                n * chunk
            } else {
                packet.len() as int
            },
        ));
    } else {
        assert(n * chunk == 0) by (nonlinear_arith)
            requires
                n == 0,
        ;
        assert(packet.take(0) =~= Seq::<u8>::empty());
    }
}

proof fn lemma_part_bytes(part: Seq<Option<Seq<u8>>>, whole: Seq<Option<Seq<u8>>>)
    requires
        part.len() == whole.len(),
        forall|i: int| 0 <= i < part.len() ==> #[trigger] part[i] is None || part[i] == whole[i],
    ensures
        slot_bytes(part) <= slot_bytes(whole),
    decreases part.len(),
{
    if part.len() > 0 {
        let p = part.drop_last();
        let w = whole.drop_last();
        assert(forall|i: int|
            0 <= i < p.len() ==> #[trigger] p[i] == part[i] && w[i] == whole[i]);
        lemma_part_bytes(p, w);
        assert(part[part.len() - 1] is None || part.last() == whole.last());
    }
}

/// The state after the first `k` segments of a packet have arrived.
spec fn collecting(
    e: Seq<PartialView>,
    at: int,
    network_id: u128,
    packet_id: u32,
    packet: Seq<u8>,
    chunk: int,
    have: Seq<int>,
    deadline: u64,
) -> bool {
    let n = pieces(packet.len() as int, chunk);
    &&& entries_wf(e)
    &&& 0 <= at < e.len()
    &&& e[at] == PartialView {
        network_id,
        packet_id,
        count: n as u16,
        total_len: packet.len() as u16,
        slots: some_slots(packet, chunk, n as nat, have),
        deadline,
    }
    &&& held_bytes(e) - slot_bytes(e[at].slots) + packet.len() <= REASSEMBLY_MAX_BYTES
}

/// What one more segment of a packet does to its entry.
proof fn lemma_collect_step(
    open: Seq<PartialView>,
    at: int,
    network_id: u128,
    packet_id: u32,
    packet: Seq<u8>,
    chunk: int,
    have: Seq<int>,
    deadline: u64,
    next: int,
)
    requires
        chunk > 0,
        0 < packet.len() <= 0xffff,
        pieces(packet.len() as int, chunk) <= MAX_OVERLAY_SEGMENTS,
        collecting(open, at, network_id, packet_id, packet, chunk, have, deadline),
        0 <= next < pieces(packet.len() as int, chunk),
        !have.contains(next),
        place_of(open, network_id, packet_id) == at,
    ensures
        ({
            let seg = packet_segment(network_id, packet_id, packet, chunk, next);
            let q = filled(open[at], seg);
            let n = pieces(packet.len() as int, chunk);
            &&& open[at].slots[next] is None
            &&& held_bytes(open) + seg.payload.len() <= REASSEMBLY_MAX_BYTES
            &&& q.slots == some_slots(packet, chunk, n as nat, have.push(next))
            &&& complete(q.slots) ==> joined(q.slots) == packet
            &&& !complete(q.slots) ==> collecting(
                open.update(at, q),
                at,
                network_id,
                packet_id,
                packet,
                chunk,
                have.push(next),
                deadline,
            )
        }),
{
    let seg = packet_segment(network_id, packet_id, packet, chunk, next);
    let n = pieces(packet.len() as int, chunk);
    let p = open[at];
    let q = filled(p, seg);
    lemma_pieces(packet.len() as int, chunk);
    assert(seg.index as int == next);
    let whole = all_slots(packet, chunk, n as nat);
    assert forall|i: int| 0 <= i < n implies #[trigger] q.slots[i] == some_slots(
        packet,
        chunk,
        n as nat,
        have.push(next),
    )[i] by {
        if i == next {
            assert(have.push(next)[have.len() as int] == next);
        } else {
            if have.contains(i) {
                let j = choose|j: int| 0 <= j < have.len() && have[j] == i;
                assert(have.push(next)[j] == i);
            }
            if have.push(next).contains(i) {
                let j = choose|j: int| 0 <= j < have.push(next).len() && have.push(next)[j] == i;
                assert(have[j] == i);
            }
        }
    }
    assert(q.slots =~= some_slots(packet, chunk, n as nat, have.push(next)));
    lemma_slots_update(p.slots, next, seg.payload);
    lemma_part_bytes(q.slots, whole);
    lemma_joined_len(whole);
    lemma_joined_pieces(packet, chunk, n as nat);
    lemma_pieces(packet.len() as int, chunk);
    assert(packet.take(packet.len() as int) =~= packet);
    assert(joined(whole) == packet);
    lemma_held_update(open, at, q);
    if complete(q.slots) {
        assert forall|i: int| 0 <= i < n implies #[trigger] q.slots[i] == whole[i] by {
            assert(q.slots[i] is Some);
        }
        assert(q.slots =~= whole);
    } else {
        let e = open.update(at, q);
        assert(forall|i: int| 0 <= i < e.len() && i != at ==> #[trigger] e[i] == open[i]);
    }
}

/// All the same time.
pub open spec fn at_once(times: Seq<u64>) -> bool {
    forall|j: int| 0 <= j < times.len() ==> #[trigger] times[j] == times[0]
}

/// A packet's segments, each arriving once, in any order and within the time
/// allowed, give the packet back with the last of them and nothing before. After
/// the last one nothing of the packet is left.
pub proof fn law_segments_in_any_order_give_the_packet(
    entries: Seq<PartialView>,
    network_id: u128,
    packet_id: u32,
    packet: Seq<u8>,
    chunk: int,
    order: Seq<int>,
    times: Seq<u64>,
    max_packet: nat,
)
    requires
        entries_wf(entries),
        chunk > 0,
        0 < packet.len() <= 0xffff,
        packet.len() <= max_packet,
        (packet.len() + chunk - 1) / chunk <= 64,
        each_once(order, (packet.len() + chunk - 1) / chunk),
        times.len() == order.len(),
        forall|j: int| 0 <= j < times.len() ==> #[trigger] times[j] < times[0] + 500_000_000,
        times[0] + 500_000_000 <= u64::MAX,
        place_of(live(entries, times[0]), network_id, packet_id) == live(entries, times[0]).len(),
        held_bytes(live(entries, times[0])) + packet.len() <= 65536,
    ensures
        ({
            let segs = packet_segments(network_id, packet_id, packet, chunk, order);
            let answers = fed(entries, segs, max_packet, times).1;
            let left = fed(entries, segs, max_packet, times).0;
            &&& answers.len() == order.len()
            &&& forall|j: int|
                0 <= j < order.len() - 1 ==> #[trigger] answers[j] == Ok::<
                    Option<Seq<u8>>,
                    ReassemblyError,
                >(None)
            &&& answers.last() == Ok::<Option<Seq<u8>>, ReassemblyError>(Some(packet))
            // Nothing of the packet is left,
            &&& place_of(left, network_id, packet_id) == left.len()
            // and where they all come at once and fit in, everything else is as it was.
            &&& at_once(times) && live(entries, times[0]).len() < 16 ==> left
                == live(entries, times[0])
        }),
{
    let segs = packet_segments(network_id, packet_id, packet, chunk, order);
    let n = pieces(packet.len() as int, chunk);
    lemma_pieces(packet.len() as int, chunk);
    lemma_fed_prefix(
        entries,
        network_id,
        packet_id,
        packet,
        chunk,
        order,
        times,
        max_packet,
        n as nat,
    );
    assert(segs.take(n) =~= segs);
    assert(times.take(n) =~= times);
}

proof fn lemma_fed_prefix(
    entries: Seq<PartialView>,
    network_id: u128,
    packet_id: u32,
    packet: Seq<u8>,
    chunk: int,
    order: Seq<int>,
    times: Seq<u64>,
    max_packet: nat,
    k: nat,
)
    requires
        entries_wf(entries),
        chunk > 0,
        0 < packet.len() <= 0xffff,
        packet.len() <= max_packet,
        pieces(packet.len() as int, chunk) <= MAX_OVERLAY_SEGMENTS,
        each_once(order, pieces(packet.len() as int, chunk)),
        times.len() == order.len(),
        forall|j: int| 0 <= j < times.len() ==> #[trigger] times[j] < times[0] + REASSEMBLY_TTL,
        times[0] + REASSEMBLY_TTL <= u64::MAX,
        place_of(live(entries, times[0]), network_id, packet_id) == live(entries, times[0]).len(),
        held_bytes(live(entries, times[0])) + packet.len() <= REASSEMBLY_MAX_BYTES,
        1 <= k <= order.len(),
    ensures
        ({
            let segs = packet_segments(network_id, packet_id, packet, chunk, order);
            let out = fed(entries, segs.take(k as int), max_packet, times.take(k as int));
            let deadline = (times[0] + REASSEMBLY_TTL) as u64;
            &&& out.1.len() == k
            &&& forall|j: int|
                0 <= j < k && j < order.len() - 1 ==> #[trigger] out.1[j] == Ok::<
                    Option<Seq<u8>>,
                    ReassemblyError,
                >(None)
            &&& k < order.len() ==> exists|at: int|
                #[trigger] collecting(
                    out.0,
                    at,
                    network_id,
                    packet_id,
                    packet,
                    chunk,
                    order.take(k as int),
                    deadline,
                )
            &&& k == order.len() ==> out.1.last() == Ok::<Option<Seq<u8>>, ReassemblyError>(
                Some(packet),
            )
            &&& k == order.len() ==> place_of(out.0, network_id, packet_id) == out.0.len()
            &&& at_once(times) && live(entries, times[0]).len() < REASSEMBLY_MAX_ENTRIES ==> {
                if k == order.len() {
                    out.0 == live(entries, times[0])
                } else {
                    &&& out.0.len() == live(entries, times[0]).len() + 1
                    &&& out.0.drop_last() == live(entries, times[0])
                    &&& out.0.last().network_id == network_id
                    &&& out.0.last().packet_id == packet_id
                    &&& out.0.last().deadline == deadline
                }
            }
        }),
    decreases k,
{
    let segs = packet_segments(network_id, packet_id, packet, chunk, order);
    let n = pieces(packet.len() as int, chunk);
    lemma_pieces(packet.len() as int, chunk);
    let m = (k - 1) as nat;
    let deadline = (times[0] + REASSEMBLY_TTL) as u64;
    let now = times[m as int];
    let next = order[m as int];
    let seg = packet_segment(network_id, packet_id, packet, chunk, next);
    lemma_piece_len(packet, chunk, next);
    assert(acceptable(seg, max_packet));
    assert(segs.take(k as int).drop_last() =~= segs.take(m as int));
    assert(times.take(k as int).drop_last() =~= times.take(m as int));
    assert(segs.take(k as int).last() == seg);
    assert(times.take(k as int).last() == now);
    let before = fed(entries, segs.take(m as int), max_packet, times.take(m as int));
    let have = order.take(m as int);
    assert(!have.contains(next)) by {
        if have.contains(next) {
            let j = choose|j: int| 0 <= j < have.len() && have[j] == next;
            assert(order[j] == order[m as int]);
        }
    }
    let known = live(before.0, now);
    let open = opened(known, seg, now);
    let k_at = place_of(open, network_id, packet_id);
    if m == 0 {
        assert(segs.take(0) =~= Seq::<SegmentView>::empty());
        assert(before.0 == entries);
        lemma_live_wf(entries, now);
        lemma_opened(known, seg, now);
        lemma_empty_slots(seg.count as nat);
        assert(open[k_at] == fresh(seg, now));
        assert(fresh(seg, now).slots =~= some_slots(packet, chunk, n as nat, have));
        if known.len() >= REASSEMBLY_MAX_ENTRIES {
            lemma_oldest(known);
            lemma_held_remove(known, oldest(known));
        }
        assert(open.drop_last() =~= with_room(known));
        assert(collecting(open, k_at, network_id, packet_id, packet, chunk, have, deadline));
    } else {
        lemma_fed_prefix(
            entries,
            network_id,
            packet_id,
            packet,
            chunk,
            order,
            times,
            max_packet,
            m,
        );
        let at = choose|at: int|
            #[trigger] collecting(
                before.0,
                at,
                network_id,
                packet_id,
                packet,
                chunk,
                have,
                deadline,
            );
        let mine = before.0[at];
        lemma_live(before.0, now);
        lemma_live_wf(before.0, now);
        assert(known.contains(mine));
        let x = choose|x: int| 0 <= x < known.len() && known[x] == mine;
        lemma_place_is(known, x, network_id, packet_id);
        assert(open == known);
        lemma_held_others(before.0, now, at, x);
        assert(collecting(open, k_at, network_id, packet_id, packet, chunk, have, deadline));
    }
    lemma_collect_step(open, k_at, network_id, packet_id, packet, chunk, have, deadline, next);
    assert(have.push(next) =~= order.take(k as int));
    let q = filled(open[k_at], seg);
    if k < order.len() {
        // The piece that comes last has not arrived.
        let last = order[order.len() - 1];
        assert(!order.take(k as int).contains(last)) by {
            if order.take(k as int).contains(last) {
                let j = choose|j: int| 0 <= j < k && order.take(k as int)[j] == last;
                assert(order[j] == order[order.len() - 1]);
            }
        }
        assert(q.slots[last] is None);
        assert(!complete(q.slots));
        assert(collecting(
            open.update(k_at, q),
            k_at,
            network_id,
            packet_id,
            packet,
            chunk,
            order.take(k as int),
            deadline,
        ));
    } else {
        assert(order.take(k as int) =~= order);
        assert forall|i: int| 0 <= i < q.slots.len() implies #[trigger] q.slots[i] is Some by {
            assert(order.contains(i));
        }
    }
    let step = arrival(before.0, seg, max_packet, now);
    let out = fed(entries, segs.take(k as int), max_packet, times.take(k as int));
    assert(seg.index as int == next);
    assert(out.0 == step.0);
    assert(out.1 == before.1.push(step.1));
    assert(before.1.len() == m);
    if k < order.len() {
        assert(step.1 == Ok::<Option<Seq<u8>>, ReassemblyError>(None));
        assert(step.0 == open.update(k_at, q));
    } else {
        assert(step.1 == Ok::<Option<Seq<u8>>, ReassemblyError>(Some(packet)));
        assert(step.0 == open.remove(k_at));
        lemma_place(step.0, network_id, packet_id);
        let left = place_of(step.0, network_id, packet_id);
        if left < step.0.len() {
            assert(step.0[left] == (if left < k_at {
                open[left]
            } else {
                open[left + 1]
            }));
        }
    }
    if at_once(times) && live(entries, times[0]).len() < REASSEMBLY_MAX_ENTRIES {
        let base = live(entries, times[0]);
        assert(now == times[0]);
        lemma_live(entries, now);
        if m > 0 {
            assert forall|i: int| 0 <= i < before.0.len() implies (#[trigger] before.0[i]).deadline
                > now by {
                if i < base.len() {
                    assert(before.0.drop_last()[i] == base[i]);
                }
            }
            lemma_live_all(before.0, now);
            lemma_place_is(before.0, base.len() as int, network_id, packet_id);
            assert(open == before.0);
        }
        assert(k_at == base.len());
        assert(open.len() == base.len() + 1);
        assert(open.drop_last() =~= base);
        if k == order.len() {
            assert(open.remove(k_at) =~= base);
        } else {
            assert(open.update(k_at, q).drop_last() =~= base);
        }
    }
}

/// Dropping expired entries never makes the other entries hold more.
proof fn lemma_held_others(e: Seq<PartialView>, now: u64, at: int, x: int)
    requires
        0 <= at < e.len(),
        0 <= x < live(e, now).len(),
        live(e, now)[x] == e[at],
    ensures
        held_bytes(live(e, now)) - slot_bytes(live(e, now)[x].slots) <= held_bytes(e) - slot_bytes(
            e[at].slots,
        ),
{
    lemma_live(e, now);
}

/// Segments of one packet never change what has arrived of another, of the same
/// or of another network: its entry stays as it is, unless its time has passed or
/// it is the oldest of a full list.
pub proof fn law_packets_do_not_mix(
    entries: Seq<PartialView>,
    seg: SegmentView,
    max_packet: nat,
    now: u64,
    i: int,
)
    requires
        entries_wf(entries),
        0 <= i < entries.len(),
        entries[i].network_id != seg.network_id || entries[i].packet_id != seg.packet_id,
        entries[i].deadline > now,
        live(entries, now).len() < REASSEMBLY_MAX_ENTRIES,
    ensures
        arrival(entries, seg, max_packet, now).0.contains(entries[i]),
{
    let known = live(entries, now);
    lemma_live(entries, now);
    lemma_live_wf(entries, now);
    let mine = entries[i];
    assert(known.contains(mine));
    let x = choose|x: int| 0 <= x < known.len() && known[x] == mine;
    lemma_place(known, seg.network_id, seg.packet_id);
    let at = place_of(known, seg.network_id, seg.packet_id);
    let out = arrival(entries, seg, max_packet, now).0;
    if acceptable(seg, max_packet) {
        if at < known.len() && (known[at].count != seg.count || known[at].total_len
            != seg.total_len) {
            let r = known.remove(at);
            assert(r[if x < at {
                x
            } else {
                x - 1
            }] == mine);
        } else {
            lemma_opened(known, seg, now);
            let open = opened(known, seg, now);
            let k = place_of(open, seg.network_id, seg.packet_id);
            assert(open[x] == mine);
            assert(x != k);
            let r = open.remove(k);
            assert(r[if x < k {
                x
            } else {
                x - 1
            }] == mine);
            let u = open.update(k, filled(open[k], seg));
            assert(u[x] == mine);
        }
    }
}

/// A packet is dropped exactly when its time has come.
pub proof fn law_packets_expire(entries: Seq<PartialView>, now: u64, p: PartialView)
    ensures
        live(entries, now).contains(p) <==> entries.contains(p) && p.deadline > now,
        (forall|i: int| 0 <= i < entries.len() ==> (#[trigger] entries[i]).deadline > now) ==> live(
            entries,
            now,
        ) == entries,
{
    lemma_live(entries, now);
    let l = live(entries, now);
    if l.contains(p) {
        let i = choose|i: int| 0 <= i < l.len() && l[i] == p;
        assert(l[i].deadline > now);
    }
    if entries.contains(p) && p.deadline > now {
        let i = choose|i: int| 0 <= i < entries.len() && entries[i] == p;
        assert(entries[i].deadline > now);
    }
    if forall|i: int| 0 <= i < entries.len() ==> (#[trigger] entries[i]).deadline > now {
        lemma_live_all(entries, now);
    }
}

/// A segment is malformed, and changes nothing, where its packet has no segment
/// or more than 64, is empty or longer than is allowed or shorter than it has
/// segments, or where the segment is empty or none of the packet's.
pub proof fn law_malformed_segments_change_nothing(
    entries: Seq<PartialView>,
    seg: SegmentView,
    max_packet: nat,
    now: u64,
)
    requires
        seg.count == 0 || seg.count > 64 || seg.index >= seg.count || seg.total_len == 0
            || seg.total_len > max_packet || seg.payload.len() == 0 || seg.count > seg.total_len,
    ensures
        arrival(entries, seg, max_packet, now) == (
            live(entries, now),
            Err::<Option<Seq<u8>>, ReassemblyError>(ReassemblyError::Malformed),
        ),
{
}

/// A segment whose numbers are in order.
pub open spec fn in_order(seg: SegmentView, max_packet: nat) -> bool {
    &&& 1 <= seg.count <= 64
    &&& seg.index < seg.count
    &&& seg.count <= seg.total_len <= max_packet
    &&& seg.payload.len() > 0
}

/// A segment that contradicts what its packet began with ends the packet.
pub proof fn law_contradictions_end_a_packet(
    entries: Seq<PartialView>,
    seg: SegmentView,
    max_packet: nat,
    now: u64,
    at: int,
)
    requires
        entries_wf(entries),
        forall|i: int| 0 <= i < entries.len() ==> (#[trigger] entries[i]).deadline > now,
        in_order(seg, max_packet),
        0 <= at < entries.len(),
        entries[at].network_id == seg.network_id,
        entries[at].packet_id == seg.packet_id,
        entries[at].count != seg.count || entries[at].total_len != seg.total_len,
    ensures
        arrival(entries, seg, max_packet, now) == (
            entries.remove(at),
            Err::<Option<Seq<u8>>, ReassemblyError>(ReassemblyError::Malformed),
        ),
{
    lemma_live_all(entries, now);
    lemma_place_is(entries, at, seg.network_id, seg.packet_id);
}

/// The first segment of a packet that has several is kept for half a second,
/// behind the packets that there are. Where 16 are put together already, one
/// with the earliest deadline makes room.
#[verifier::rlimit(40)]
pub proof fn law_first_segments_are_kept(
    entries: Seq<PartialView>,
    seg: SegmentView,
    max_packet: nat,
    now: u64,
)
    requires
        entries_wf(entries),
        forall|i: int| 0 <= i < entries.len() ==> (#[trigger] entries[i]).deadline > now,
        in_order(seg, max_packet),
        seg.count > 1,
        forall|i: int|
            0 <= i < entries.len() ==> (#[trigger] entries[i]).network_id != seg.network_id
                || entries[i].packet_id != seg.packet_id,
        held_bytes(entries) + seg.payload.len() <= 65536,
        now + 500_000_000 <= u64::MAX,
    ensures
        ({
            let out = arrival(entries, seg, max_packet, now);
            let p = out.0.last();
            &&& out.1 == Ok::<Option<Seq<u8>>, ReassemblyError>(None)
            &&& out.0.len() > 0
            &&& p.network_id == seg.network_id && p.packet_id == seg.packet_id
            &&& p.count == seg.count && p.total_len == seg.total_len
            &&& p.deadline == now + 500_000_000
            &&& p.slots.len() == seg.count
            &&& forall|i: int|
                0 <= i < seg.count ==> #[trigger] p.slots[i] == if i == seg.index {
                    Some(seg.payload)
                } else {
                    None
                }
            &&& entries.len() < 16 ==> out.0.drop_last() == entries
            &&& entries.len() >= 16 ==> exists|o: int|
                0 <= o < entries.len() && out.0.drop_last() == #[trigger] entries.remove(o) && (
                forall|i: int|
                    0 <= i < entries.len() ==> entries[o].deadline <= (
                    #[trigger] entries[i]).deadline)
        }),
{
    lemma_live_all(entries, now);
    lemma_place(entries, seg.network_id, seg.packet_id);
    assert(place_of(entries, seg.network_id, seg.packet_id) == entries.len());
    lemma_opened(entries, seg, now);
    let open = opened(entries, seg, now);
    let k = open.len() - 1;
    let roomy = with_room(entries);
    assert(open.drop_last() =~= roomy);
    lemma_empty_slots(seg.count as nat);
    assert(held_bytes(open) == held_bytes(roomy));
    if entries.len() >= 16 {
        lemma_oldest(entries);
        lemma_held_remove(entries, oldest(entries));
    }
    let q = filled(open[k], seg);
    let other: int = if seg.index == 0 {
        1
    } else {
        0
    };
    assert(q.slots[other] is None);
    assert(!complete(q.slots));
    let out = arrival(entries, seg, max_packet, now);
    assert(out.0 == open.update(k, q));
    assert(out.0.drop_last() =~= roomy);
    if entries.len() >= 16 {
        assert(out.0.drop_last() == entries.remove(oldest(entries)));
    }
}

/// A further segment of a packet that lacks others still is kept with the ones
/// that came before it.
#[verifier::rlimit(40)]
pub proof fn law_further_segments_are_kept(
    entries: Seq<PartialView>,
    seg: SegmentView,
    max_packet: nat,
    now: u64,
    at: int,
    missing: int,
)
    requires
        entries_wf(entries),
        forall|i: int| 0 <= i < entries.len() ==> (#[trigger] entries[i]).deadline > now,
        in_order(seg, max_packet),
        0 <= at < entries.len(),
        entries[at].network_id == seg.network_id,
        entries[at].packet_id == seg.packet_id,
        entries[at].count == seg.count,
        entries[at].total_len == seg.total_len,
        entries[at].slots[seg.index as int] is None,
        0 <= missing < seg.count,
        missing != seg.index,
        entries[at].slots[missing] is None,
        held_bytes(entries) + seg.payload.len() <= 65536,
    ensures
        ({
            let out = arrival(entries, seg, max_packet, now);
            let p = out.0[at];
            &&& out.1 == Ok::<Option<Seq<u8>>, ReassemblyError>(None)
            &&& out.0.len() == entries.len()
            &&& forall|i: int|
                0 <= i < entries.len() && i != at ==> #[trigger] out.0[i] == entries[i]
            &&& p.slots[seg.index as int] == Some(seg.payload)
            &&& forall|i: int|
                0 <= i < seg.count && i != seg.index ==> #[trigger] p.slots[i]
                    == entries[at].slots[i]
            &&& p.slots.len() == entries[at].slots.len()
            &&& p.deadline == entries[at].deadline
            &&& p.count == entries[at].count && p.total_len == entries[at].total_len
            &&& p.network_id == seg.network_id && p.packet_id == seg.packet_id
        }),
{
    lemma_live_all(entries, now);
    lemma_place_is(entries, at, seg.network_id, seg.packet_id);
    assert(entries[at].slots.len() == entries[at].count);
    let q = filled(entries[at], seg);
    assert(q.slots[missing] is None);
    assert(!complete(q.slots));
}

/// A segment for which there is no room within 64 KiB ends its packet alone.
pub proof fn law_packets_without_room_are_evicted(
    entries: Seq<PartialView>,
    seg: SegmentView,
    max_packet: nat,
    now: u64,
    at: int,
)
    requires
        entries_wf(entries),
        forall|i: int| 0 <= i < entries.len() ==> (#[trigger] entries[i]).deadline > now,
        in_order(seg, max_packet),
        0 <= at < entries.len(),
        entries[at].network_id == seg.network_id,
        entries[at].packet_id == seg.packet_id,
        entries[at].count == seg.count,
        entries[at].total_len == seg.total_len,
        entries[at].slots[seg.index as int] is None,
        held_bytes(entries) + seg.payload.len() > 65536,
    ensures
        arrival(entries, seg, max_packet, now) == (
            entries.remove(at),
            Err::<Option<Seq<u8>>, ReassemblyError>(ReassemblyError::Evicted),
        ),
{
    lemma_live_all(entries, now);
    lemma_place_is(entries, at, seg.network_id, seg.packet_id);
}

/// The last missing segment ends the packet: it comes out where its pieces are
/// as long together as was said, and is malformed otherwise.
pub proof fn law_last_segments_end_a_packet(
    entries: Seq<PartialView>,
    seg: SegmentView,
    max_packet: nat,
    now: u64,
    at: int,
)
    requires
        entries_wf(entries),
        forall|i: int| 0 <= i < entries.len() ==> (#[trigger] entries[i]).deadline > now,
        in_order(seg, max_packet),
        0 <= at < entries.len(),
        entries[at].network_id == seg.network_id,
        entries[at].packet_id == seg.packet_id,
        entries[at].count == seg.count,
        entries[at].total_len == seg.total_len,
        entries[at].slots[seg.index as int] is None,
        forall|i: int|
            0 <= i < seg.count && i != seg.index ==> (#[trigger] entries[at].slots[i]) is Some,
        held_bytes(entries) + seg.payload.len() <= 65536,
    ensures
        ({
            let out = arrival(entries, seg, max_packet, now);
            let len = slot_bytes(entries[at].slots) + seg.payload.len();
            &&& out.0 == entries.remove(at)
            &&& len == seg.total_len ==> (out.1 matches Ok(Some(packet)) && packet.len() == len)
            &&& len != seg.total_len ==> out.1 == Err::<Option<Seq<u8>>, ReassemblyError>(
                ReassemblyError::Malformed,
            )
        }),
{
    lemma_live_all(entries, now);
    lemma_place_is(entries, at, seg.network_id, seg.packet_id);
    let p = entries[at];
    assert(p.slots.len() == p.count);
    let q = filled(p, seg);
    assert(complete(q.slots));
    lemma_slots_update(p.slots, seg.index as int, seg.payload);
    lemma_joined_len(q.slots);
}

fn empty_slots(count: u16) -> (r: Vec<Option<Bytes>>)
    ensures
        r@.len() == count,
        forall|i: int| 0 <= i < r@.len() ==> #[trigger] r@[i] is None,
{
    let mut v: Vec<Option<Bytes>> = Vec::new();
    let mut i: u16 = 0;
    while i < count
        invariant
            i <= count,
            v@.len() == i,
            forall|j: int| 0 <= j < v@.len() ==> #[trigger] v@[j] is None,
        decreases count - i,
    {
        v.push(None);
        i = i + 1;
    }
    v
}

} // verus!
