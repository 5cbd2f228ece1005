//! Laws of the list of networks and of the changes that are made to it.

use crate::membership::PeerEntryView;
use crate::net::Ipv4Net;
use crate::routing::{
    ascending, direct_slice, has_slice, kept_peers, lemma_known_place, lemma_slice_place,
    merged_peers, peer_place, plan_conflict, slice_after_delta, slice_place, with_slice,
    without_slice,
};
use crate::tables::SliceView;
use crate::text::lower;
use vstd::prelude::*;

verus! {

/// A network is known exactly when it stands in the list.
pub proof fn law_known_networks_are_found(s: Seq<(u128, SliceView)>, id: u128)
    requires
        ascending(s),
    ensures
        has_slice(s, id) <==> exists|i: int| 0 <= i < s.len() && (#[trigger] s[i]).0 == id,
        forall|i: int| 0 <= i < s.len() && (#[trigger] s[i]).0 == id ==> slice_place(s, id) == i,
{
    lemma_slice_place(s, id);
    assert forall|i: int| 0 <= i < s.len() && (#[trigger] s[i]).0 == id implies slice_place(s, id)
        == i && has_slice(s, id) by {
        lemma_known_place(s, id, i);
    }
}

/// After a network is set the list holds it as it was given, and every other
/// network as before.
pub proof fn law_setting_a_network_keeps_the_others(
    s: Seq<(u128, SliceView)>,
    id: u128,
    v: SliceView,
    other: u128,
    w: SliceView,
)
    requires
        ascending(s),
    ensures
        with_slice(s, id, v).contains((other, w)) <==> (if other == id {
            w == v
        } else {
            s.contains((other, w))
        }),
{
    lemma_slice_place(s, id);
    let at = slice_place(s, id);
    let r = with_slice(s, id, v);
    assert(r[at] == (id, v));
    if has_slice(s, id) {
        if s.contains((other, w)) && other != id {
            let i = choose|i: int| 0 <= i < s.len() && s[i] == (other, w);
            assert(r[i] == s[i]);
        }
        if r.contains((other, w)) {
            let i = choose|i: int| 0 <= i < r.len() && r[i] == (other, w);
            if i != at {
                assert(s[i] == (other, w));
                if other == id {
                    lemma_known_place(s, id, i);
                }
            }
        }
    } else {
        if s.contains((other, w)) {
            let i = choose|i: int| 0 <= i < s.len() && s[i] == (other, w);
            if other == id {
                lemma_known_place(s, id, i);
            }
            if i < at {
                assert(r[i] == s[i]);
            } else {
                assert(r[i + 1] == s[i]);
            }
        }
        if r.contains((other, w)) {
            let i = choose|i: int| 0 <= i < r.len() && r[i] == (other, w);
            if i != at {
                let j = if i < at {
                    i
                } else {
                    i - 1
                };
                assert(s[j] == (other, w));
                if other == id {
                    lemma_known_place(s, id, j);
                }
            }
        }
    }
}

/// After a network is removed the list holds every other network as before,
/// and nothing of it.
pub proof fn law_removing_a_network_keeps_the_others(
    s: Seq<(u128, SliceView)>,
    id: u128,
    other: u128,
    w: SliceView,
)
    requires
        ascending(s),
    ensures
        without_slice(s, id).contains((other, w)) <==> other != id && s.contains((other, w)),
{
    lemma_slice_place(s, id);
    let at = slice_place(s, id);
    let r = without_slice(s, id);
    if has_slice(s, id) {
        if s.contains((other, w)) && other != id {
            let i = choose|i: int| 0 <= i < s.len() && s[i] == (other, w);
            if i < at {
                assert(r[i] == s[i]);
            } else {
                assert(r[i - 1] == s[i]);
            }
        }
        if r.contains((other, w)) {
            let i = choose|i: int| 0 <= i < r.len() && r[i] == (other, w);
            let j = if i < at {
                i
            } else {
                i + 1
            };
            assert(s[j] == (other, w));
            if other == id {
                lemma_known_place(s, id, j);
            }
        }
    } else if s.contains((id, w)) {
        let i = choose|i: int| 0 <= i < s.len() && s[i] == (id, w);
        lemma_known_place(s, id, i);
    }
}

/// A plan is refused exactly when an address of it lies in another network's
/// plan as well.
pub proof fn law_overlapping_plans_are_refused(s: Seq<(u128, SliceView)>, id: u128, plan: Ipv4Net)
    ensures
        (exists|i: int, ip: u32, other: Ipv4Net|
            0 <= i < s.len() && s[i].0 != id && s[i].1.peer_cidr == Some(other)
                && #[trigger] in_block(plan.base(), plan.bits(), ip) && #[trigger] in_net(
                s[i],
                other,
                ip,
            )) <==> plan_conflict(s, id, plan),
{
    if plan_conflict(s, id, plan) {
        let i = choose|i: int|
            #![trigger s[i]]
            0 <= i < s.len() && s[i].0 != id && (s[i].1.peer_cidr matches Some(other) && exists|
                ip: u32,
            | #[trigger] plan.holds(ip) && other.holds(ip));
        let other = s[i].1.peer_cidr->0;
        let ip = choose|ip: u32| #[trigger] plan.holds(ip) && other.holds(ip);
        assert(in_block(plan.base(), plan.bits(), ip) && in_net(s[i], other, ip));
    }
    if exists|i: int, ip: u32, other: Ipv4Net|
        0 <= i < s.len() && s[i].0 != id && s[i].1.peer_cidr == Some(other) && #[trigger] in_block(
            plan.base(),
            plan.bits(),
            ip,
        ) && #[trigger] in_net(s[i], other, ip) {
        let (i, ip, other) = choose|i: int, ip: u32, other: Ipv4Net|
            0 <= i < s.len() && s[i].0 != id && s[i].1.peer_cidr == Some(other)
                && #[trigger] in_block(plan.base(), plan.bits(), ip) && #[trigger] in_net(
                s[i],
                other,
                ip,
            );
        assert(plan.holds(ip) && other.holds(ip));
        assert(s[i].0 != id);
    }
}

/// An address begins with the first `len` bits of a base.
pub open spec fn in_block(base: u32, len: u8, ip: u32) -> bool {
    base as int / vstd::arithmetic::power2::pow2((32 - len) as nat) as int == ip as int
        / vstd::arithmetic::power2::pow2((32 - len) as nat) as int
}

/// An address lies in a plan of a listed network.
pub open spec fn in_net(entry: (u128, SliceView), plan: Ipv4Net, ip: u32) -> bool {
    in_block(plan.base(), plan.bits(), ip)
}

/// Some entry of a list has a key.
pub open spec fn lists_key(peers: Seq<PeerEntryView>, key: Seq<char>) -> bool {
    exists|i: int| 0 <= i < peers.len() && (#[trigger] peers[i]).endpoint_id == key
}

/// No later entry of a list has the key of this one.
pub open spec fn last_of_its_key(peers: Seq<PeerEntryView>, j: int) -> bool {
    forall|l: int| j < l < peers.len() ==> (#[trigger] peers[l]).endpoint_id != peers[j].endpoint_id
}

proof fn lemma_kept_is_filter(
    peers: Seq<PeerEntryView>,
    removed: Seq<Seq<char>>,
    self_id: Seq<char>,
)
    ensures
        kept_peers(peers, removed, self_id) == peers.filter(
            |p: PeerEntryView| p.endpoint_id != self_id && !removed.contains(p.endpoint_id),
        ),
    decreases peers.len(),
{
    reveal(Seq::filter);
    if peers.len() > 0 {
        lemma_kept_is_filter(peers.drop_last(), removed, self_id);
    }
}

/// What is kept: the entries that are neither this node's nor removed.
proof fn lemma_kept_entries(
    peers: Seq<PeerEntryView>,
    removed: Seq<Seq<char>>,
    self_id: Seq<char>,
    p: PeerEntryView,
)
    ensures
        kept_peers(peers, removed, self_id).contains(p) <==> peers.contains(p) && p.endpoint_id
            != self_id && !removed.contains(p.endpoint_id),
    decreases peers.len(),
{
    let r = kept_peers(peers, removed, self_id);
    if peers.len() > 0 {
        let front = peers.drop_last();
        let before = kept_peers(front, removed, self_id);
        lemma_kept_entries(front, removed, self_id, p);
        assert(peers.contains(p) <==> front.contains(p) || p == peers.last()) by {
            if peers.contains(p) {
                let i = choose|i: int| 0 <= i < peers.len() && peers[i] == p;
                if i < front.len() {
                    assert(front[i] == p);
                }
            }
            if front.contains(p) {
                let i = choose|i: int| 0 <= i < front.len() && front[i] == p;
                assert(peers[i] == p);
            }
            assert(peers[peers.len() - 1] == peers.last());
        }
        if r != before {
            assert(r == before.push(peers.last()));
            assert(r.contains(p) <==> before.contains(p) || p == peers.last()) by {
                if r.contains(p) {
                    let i = choose|i: int| 0 <= i < r.len() && r[i] == p;
                    if i < before.len() {
                        assert(before[i] == p);
                    }
                }
                if before.contains(p) {
                    let i = choose|i: int| 0 <= i < before.len() && before[i] == p;
                    assert(r[i] == p);
                }
                assert(r[before.len() as int] == peers.last());
            }
        }
    }
}

/// Entries of one list with one key, as many as in another.
proof fn lemma_kept_single(
    peers: Seq<PeerEntryView>,
    removed: Seq<Seq<char>>,
    self_id: Seq<char>,
    key: Seq<char>,
)
    requires
        forall|x: int, y: int|
            0 <= x < y < peers.len() && (#[trigger] peers[x]).endpoint_id == key ==> (
            #[trigger] peers[y]).endpoint_id != key,
    ensures
        ({
            let r = kept_peers(peers, removed, self_id);
            forall|x: int, y: int|
                0 <= x < y < r.len() && (#[trigger] r[x]).endpoint_id == key ==> (
                #[trigger] r[y]).endpoint_id != key
        }),
    decreases peers.len(),
{
    let r = kept_peers(peers, removed, self_id);
    if peers.len() > 0 {
        let front = peers.drop_last();
        let before = kept_peers(front, removed, self_id);
        assert forall|x: int, y: int|
            0 <= x < y < front.len() && (#[trigger] front[x]).endpoint_id == key implies (
        #[trigger] front[y]).endpoint_id != key by {
            assert(front[x] == peers[x] && front[y] == peers[y]);
        }
        lemma_kept_single(front, removed, self_id, key);
        if r != before {
            let n = before.len() as int;
            assert forall|x: int, y: int|
                0 <= x < y < r.len() && (#[trigger] r[x]).endpoint_id == key implies (
            #[trigger] r[y]).endpoint_id != key by {
                assert(r[x] == before[x]);
                if y < n {
                    assert(r[y] == before[y]);
                } else {
                    lemma_kept_entries(front, removed, self_id, before[x]);
                    assert(before.contains(before[x]));
                    let i = choose|i: int| 0 <= i < front.len() && front[i] == before[x];
                    assert(peers[i].endpoint_id == key);
                    assert(peers[peers.len() - 1] == r[y]);
                }
            }
        }
    }
}

proof fn lemma_peer_place(peers: Seq<PeerEntryView>, id: Seq<char>)
    ensures
        0 <= peer_place(peers, id) <= peers.len(),
        peer_place(peers, id) < peers.len() ==> peers[peer_place(peers, id)].endpoint_id == id,
        forall|i: int|
            0 <= i < peer_place(peers, id) ==> (#[trigger] peers[i]).endpoint_id != id,
    decreases peers.len(),
{
    if peers.len() > 0 && peers[0].endpoint_id != id {
        let rest = peers.skip(1);
        lemma_peer_place(rest, id);
        assert forall|i: int| 0 <= i < peer_place(peers, id) implies (#[trigger] peers[i]).endpoint_id
            != id by {
            if i > 0 {
                assert(rest[i - 1] == peers[i]);
            }
        }
    }
}

/// The places of a merged list: the old ones first, each with its key, and
/// behind them keys that were not there.
proof fn lemma_merged_places(
    peers: Seq<PeerEntryView>,
    added: Seq<PeerEntryView>,
    self_id: Seq<char>,
)
    ensures
        ({
            let r = merged_peers(peers, added, self_id);
            &&& r.len() >= peers.len()
            &&& forall|i: int|
                0 <= i < peers.len() ==> (#[trigger] r[i]).endpoint_id == peers[i].endpoint_id
            &&& forall|i: int|
                0 <= i < r.len() ==> (i < peers.len() && #[trigger] r[i] == peers[i]) || (
                added.contains(r[i]) && r[i].endpoint_id != self_id)
            &&& forall|x: int, y: int|
                0 <= x < y < r.len() && y >= peers.len() ==> (#[trigger] r[x]).endpoint_id != (
                #[trigger] r[y]).endpoint_id
        }),
    decreases added.len(),
{
    if added.len() > 0 {
        let front = added.drop_last();
        let p = added.last();
        lemma_merged_places(peers, front, self_id);
        let before = merged_peers(peers, front, self_id);
        let r = merged_peers(peers, added, self_id);
        lemma_peer_place(before, p.endpoint_id);
        let at = peer_place(before, p.endpoint_id);
        assert(added[added.len() - 1] == p);
        assert forall|i: int| 0 <= i < r.len() implies (i < peers.len() && #[trigger] r[i]
            == peers[i]) || (added.contains(r[i]) && r[i].endpoint_id != self_id) by {
            if r[i] != p {
                assert(r[i] == before[i]);
                if !(i < peers.len() && before[i] == peers[i]) {
                    let j = choose|j: int| 0 <= j < front.len() && front[j] == before[i];
                    assert(added[j] == before[i]);
                }
            } else if p.endpoint_id == self_id {
                assert(r[i] == before[i]);
            }
        }
        if p.endpoint_id != self_id {
            assert forall|x: int, y: int| 0 <= x < y < r.len() && y >= peers.len() implies (
            #[trigger] r[x]).endpoint_id != (#[trigger] r[y]).endpoint_id by {
                if at < before.len() {
                    assert(r[x].endpoint_id == before[x].endpoint_id);
                    assert(r[y].endpoint_id == before[y].endpoint_id);
                } else {
                    assert(r[x] == before[x]);
                    if y < before.len() {
                        assert(r[y] == before[y]);
                    }
                }
            }
        }
    }
}

/// The value of a key in a merged list.
proof fn lemma_merged_value(
    peers: Seq<PeerEntryView>,
    added: Seq<PeerEntryView>,
    self_id: Seq<char>,
    key: Seq<char>,
)
    ensures
        ({
            let r = merged_peers(peers, added, self_id);
            &&& !lists_key(added, key) || key == self_id ==> (forall|i: int|
                0 <= i < r.len() && (#[trigger] r[i]).endpoint_id == key ==> i < peers.len() && r[i]
                    == peers[i]) && (forall|i: int|
                0 <= i < peers.len() && (#[trigger] peers[i]).endpoint_id == key ==> r[i]
                    == peers[i])
            &&& forall|j: int|
                0 <= j < added.len() && #[trigger] last_of_its_key(added, j)
                    && added[j].endpoint_id == key && key != self_id ==> peer_place(r, key)
                    < r.len() && r[peer_place(r, key)] == added[j]
        }),
    decreases added.len(),
{
    let r = merged_peers(peers, added, self_id);
    lemma_merged_places(peers, added, self_id);
    lemma_peer_place(r, key);
    if added.len() > 0 {
        let front = added.drop_last();
        let n = added.len() - 1;
        let p = added.last();
        lemma_merged_value(peers, front, self_id, key);
        lemma_merged_places(peers, front, self_id);
        let before = merged_peers(peers, front, self_id);
        lemma_peer_place(before, p.endpoint_id);
        lemma_peer_place(before, key);
        let at = peer_place(before, p.endpoint_id);
        assert(added[n] == p);
        if lists_key(front, key) {
            let i = choose|i: int| 0 <= i < front.len() && (#[trigger] front[i]).endpoint_id == key;
            assert(added[i].endpoint_id == key);
        }
        if key == self_id || !lists_key(added, key) {
            assert(p.endpoint_id != key || p.endpoint_id == self_id);
            assert forall|i: int| 0 <= i < r.len() && (#[trigger] r[i]).endpoint_id == key implies i
                < peers.len() && r[i] == peers[i] by {
                if p.endpoint_id != self_id {
                    assert(r[i] != p);
                    assert(r[i] == before[i]);
                }
                assert(before[i].endpoint_id == key);
            }
            assert forall|i: int|
                0 <= i < peers.len() && (#[trigger] peers[i]).endpoint_id == key implies r[i]
                == peers[i] by {
                assert(r[i].endpoint_id == key);
            }
        }
        assert forall|j: int|
            0 <= j < added.len() && #[trigger] last_of_its_key(added, j) && added[j].endpoint_id
                == key && key != self_id implies peer_place(r, key) < r.len() && r[peer_place(
            r,
            key,
        )] == added[j] by {
            if j == n {
                assert(r[at] == p);
                if peer_place(r, key) < at {
                    assert(r[peer_place(r, key)] == before[peer_place(r, key)]);
                }
            } else {
                assert(p.endpoint_id != key);
                assert(last_of_its_key(front, j)) by {
                    assert forall|l: int| j < l < front.len() implies (
                    #[trigger] front[l]).endpoint_id != front[j].endpoint_id by {
                        assert(front[l] == added[l]);
                    }
                }
                let b = peer_place(before, key);
                assert(before[b] == added[j]);
                assert(r[b] == before[b]);
                if peer_place(r, key) < b {
                    let k = peer_place(r, key);
                    assert(r[k].endpoint_id == key);
                    assert(before[k].endpoint_id != key);
                    assert(r[k] == p || r[k] == before[k]);
                }
            }
        }
    }
}

/// After a peer delta a network lists exactly the keys that it listed before
/// and that were not removed, and those that were added, but never this
/// node's own. Each added peer is listed as it was given last, alone under its
/// key where the list had the key at most once; every other peer that stays is
/// listed as before. The peers that stay come first, in their order. Nothing
/// else of the network changes but its name, where one is given.
pub proof fn law_delta_sets_the_peers(
    s: SliceView,
    added: Seq<PeerEntryView>,
    removed: Seq<Seq<char>>,
    self_id: Seq<char>,
    network_name: Seq<char>,
    key: Seq<char>,
)
    ensures
        ({
            let after = slice_after_delta(s, added, removed, self_id, network_name);
            let kept = s.peers.filter(
                |p: PeerEntryView| p.endpoint_id != self_id && !removed.contains(p.endpoint_id),
            );
            &&& lists_key(after.peers, key) <==> key != self_id && (lists_key(added, key) || (
            lists_key(s.peers, key) && !removed.contains(key)))
            &&& forall|j: int|
                0 <= j < added.len() && #[trigger] last_of_its_key(added, j)
                    && added[j].endpoint_id == key && key != self_id ==> after.peers.contains(
                    added[j],
                )
            &&& forall|j: int, x: int|
                #![trigger last_of_its_key(added, j), after.peers[x]]
                0 <= j < added.len() && last_of_its_key(added, j) && added[j].endpoint_id == key
                    && key != self_id && key_at_most_once(s.peers, key) && 0 <= x
                    < after.peers.len() && after.peers[x].endpoint_id == key ==> after.peers[x]
                    == added[j]
            &&& key_at_most_once(s.peers, key) ==> key_at_most_once(after.peers, key)
            &&& forall|p: PeerEntryView|
                p.endpoint_id == key && !lists_key(added, key) && key != self_id
                    && !removed.contains(key) ==> (#[trigger] after.peers.contains(p)
                    <==> s.peers.contains(p))
            &&& kept.len() <= after.peers.len()
            &&& forall|i: int|
                0 <= i < kept.len() ==> (#[trigger] after.peers[i]).endpoint_id
                    == kept[i].endpoint_id
            &&& after.subnet_routes == s.subnet_routes
            &&& after.hostname_routes == s.hostname_routes
            &&& after.exit_nodes == s.exit_nodes
            &&& after.profile == s.profile
            &&& after.dns_suffix == s.dns_suffix
            &&& after.self_endpoint_id == s.self_endpoint_id
            &&& after.peer_cidr == s.peer_cidr
            &&& network_name.len() == 0 ==> after.network_name == s.network_name
            &&& network_name.len() > 0 ==> after.network_name == lower(network_name)
        }),
{
    let kept = kept_peers(s.peers, removed, self_id);
    let r = merged_peers(kept, added, self_id);
    lemma_kept_is_filter(s.peers, removed, self_id);
    lemma_merged_places(kept, added, self_id);
    lemma_merged_value(kept, added, self_id, key);
    lemma_peer_place(r, key);
    assert forall|p: PeerEntryView| #[trigger] kept.contains(p) <==> s.peers.contains(p)
        && p.endpoint_id != self_id && !removed.contains(p.endpoint_id) by {
        lemma_kept_entries(s.peers, removed, self_id, p);
    }
    // The last entry of an added key.
    if lists_key(added, key) {
        lemma_some_last(added, key);
    }
    if lists_key(r, key) {
        let i = choose|i: int| 0 <= i < r.len() && (#[trigger] r[i]).endpoint_id == key;
        if i < kept.len() && r[i] == kept[i] {
            assert(kept.contains(kept[i]));
            let x = choose|x: int| 0 <= x < s.peers.len() && s.peers[x] == kept[i];
            assert(s.peers[x].endpoint_id == key);
        } else {
            let x = choose|x: int| 0 <= x < added.len() && added[x] == r[i];
            assert(added[x].endpoint_id == key);
        }
    }
    if key != self_id && lists_key(added, key) {
        let j = choose|j: int|
            0 <= j < added.len() && #[trigger] last_of_its_key(added, j) && added[j].endpoint_id
                == key;
        assert(r[peer_place(r, key)].endpoint_id == key);
    } else if key != self_id && lists_key(s.peers, key) && !removed.contains(key) {
        let x = choose|x: int| 0 <= x < s.peers.len() && (#[trigger] s.peers[x]).endpoint_id == key;
        assert(s.peers.contains(s.peers[x]));
        assert(kept.contains(s.peers[x]));
        let i = choose|i: int| 0 <= i < kept.len() && kept[i] == s.peers[x];
        assert(r[i].endpoint_id == key);
    }
    if key_at_most_once(s.peers, key) {
        lemma_kept_single(s.peers, removed, self_id, key);
        assert forall|x: int, y: int|
            0 <= x < y < r.len() && (#[trigger] r[x]).endpoint_id == key implies (
        #[trigger] r[y]).endpoint_id != key by {
            if y < kept.len() {
                assert(kept[x].endpoint_id == key);
                assert(kept[y].endpoint_id != key);
            }
        }
    }
    assert forall|p: PeerEntryView|
        p.endpoint_id == key && !lists_key(added, key) && key != self_id && !removed.contains(
            key,
        ) implies (#[trigger] r.contains(p) <==> s.peers.contains(p)) by {
        if r.contains(p) {
            let i = choose|i: int| 0 <= i < r.len() && r[i] == p;
            assert(r[i].endpoint_id == key);
            assert(kept.contains(kept[i]));
        }
        if s.peers.contains(p) {
            assert(kept.contains(p));
            let i = choose|i: int| 0 <= i < kept.len() && kept[i] == p;
            assert(kept[i].endpoint_id == key);
            assert(r[i] == p);
        }
    }
}

/// No two entries of a list have the key.
pub open spec fn key_at_most_once(peers: Seq<PeerEntryView>, key: Seq<char>) -> bool {
    forall|x: int, y: int|
        0 <= x < y < peers.len() && (#[trigger] peers[x]).endpoint_id == key ==> (
        #[trigger] peers[y]).endpoint_id != key
}

proof fn lemma_some_last(peers: Seq<PeerEntryView>, key: Seq<char>)
    requires
        lists_key(peers, key),
    ensures
        exists|j: int|
            0 <= j < peers.len() && #[trigger] last_of_its_key(peers, j) && peers[j].endpoint_id
                == key,
    decreases peers.len(),
{
    let n = peers.len() - 1;
    if peers[n].endpoint_id == key {
        assert(last_of_its_key(peers, n));
    } else {
        let front = peers.drop_last();
        let i = choose|i: int| 0 <= i < peers.len() && (#[trigger] peers[i]).endpoint_id == key;
        assert(front[i].endpoint_id == key);
        lemma_some_last(front, key);
        let j = choose|j: int|
            0 <= j < front.len() && #[trigger] last_of_its_key(front, j) && front[j].endpoint_id
                == key;
        assert(last_of_its_key(peers, j)) by {
            assert forall|l: int| j < l < peers.len() implies (#[trigger] peers[l]).endpoint_id
                != peers[j].endpoint_id by {
                if l < n {
                    assert(front[l] == peers[l]);
                }
            }
        }
    }
}

/// A network that is set by its peers alone has these peers, its name in lower
/// case and its plan, and neither routes nor exits nor settings of its own.
pub proof fn law_networks_of_peers_alone(
    peers: Seq<PeerEntryView>,
    dns_suffix: Seq<char>,
    network_name: Seq<char>,
    self_endpoint_id: Seq<char>,
    peer_cidr: Option<Ipv4Net>,
)
    ensures
        ({
            let s = direct_slice(peers, dns_suffix, network_name, self_endpoint_id, peer_cidr);
            &&& s.peers == peers
            &&& s.subnet_routes.len() == 0
            &&& s.hostname_routes.len() == 0
            &&& s.exit_nodes.len() == 0
            &&& s.profile.exit_node_endpoint_id is None
            &&& s.profile.allow_local_lan
            &&& s.profile.split_tunnel_cidrs.len() == 0
            &&& s.dns_suffix == dns_suffix
            &&& s.network_name == lower(network_name)
            &&& s.self_endpoint_id == self_endpoint_id
            &&& s.peer_cidr == peer_cidr
        }),
{
}

} // verus!
