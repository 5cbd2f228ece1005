//! Values by endpoint.

use crate::endpoint::EndpointId;
use dashmap::DashMap;
use vstd::prelude::*;

verus! {

/// A concurrent map.
#[verifier::external_type_specification]
#[verifier::external_body]
#[verifier::reject_recursive_types(K)]
#[verifier::reject_recursive_types(V)]
#[verifier::reject_recursive_types(S)]
pub struct ExDashMap<K, V, S>(DashMap<K, V, S>);

/// The keys of a map and the place that each of them leads to. A `DashMap` can
/// be changed through a shared reference; the maps here are private to this
/// module, which changes them only through an exclusive one.
pub uninterp spec fn index_entries(m: DashMap<(u128, u128), usize>) -> Map<(u128, u128), usize>;

/// Calls `DashMap::new`: a map without entries.
#[verifier::external_body]
fn index_new() -> (r: DashMap<(u128, u128), usize>)
    ensures
        (index_entries(r) == Map::<(u128, u128), usize>::empty()),
{
    DashMap::new()
}

/// Calls `DashMap::get`: the value of a key, if it has one. The reference into
/// the map ends with the call.
#[verifier::external_body]
fn index_get(m: &DashMap<(u128, u128), usize>, k: (u128, u128)) -> (r: Option<usize>)
    ensures
        r is Some <==> index_entries(*m).contains_key(k),
        r matches Some(i) ==> i == index_entries(*m)[k],
{
    m.get(&k).map(|r| *r)
}

/// Calls `DashMap::insert`: the key has the value, whatever it had before.
#[verifier::external_body]
fn index_insert(m: &mut DashMap<(u128, u128), usize>, k: (u128, u128), v: usize)
    ensures
        index_entries(*final(m)) == index_entries(*old(m)).insert(k, v),
{
    m.insert(k, v);
}

/// Calls `DashMap::remove`: the key has no value any more, and the one that it
/// had is handed out.
#[verifier::external_body]
fn index_remove(m: &mut DashMap<(u128, u128), usize>, k: (u128, u128)) -> (r: Option<usize>)
    ensures
        index_entries(*final(m)) == index_entries(*old(m)).remove(k),
        r is Some <==> index_entries(*old(m)).contains_key(k),
        r matches Some(i) ==> i == index_entries(*old(m))[k],
{
    m.remove(&k).map(|pair| pair.1)
}

/// The key that an endpoint is found under.
pub open spec fn index_key(k: EndpointId) -> (u128, u128) {
    (k.hi, k.lo)
}

/// Values by endpoint, each found through an index.
pub struct PeerMap<V> {
    index: DashMap<(u128, u128), usize>,
    pairs: Vec<(EndpointId, V)>,
}

/// The map that an index into a list of pairs stands for.
spec fn indexed<V>(index: Map<(u128, u128), usize>, pairs: Seq<(EndpointId, V)>) -> Map<
    EndpointId,
    V,
> {
    Map::new(
        |k: EndpointId| index.contains_key(index_key(k)),
        |k: EndpointId| pairs[index[index_key(k)] as int].1,
    )
}

/// The index leads to every pair, and nowhere else.
spec fn index_fits<V>(index: Map<(u128, u128), usize>, pairs: Seq<(EndpointId, V)>) -> bool {
    &&& forall|i: int|
        0 <= i < pairs.len() ==> index.contains_key(index_key((#[trigger] pairs[i]).0))
            && index[index_key(pairs[i].0)] == i
    &&& forall|q: (u128, u128)| #[trigger]
        index.contains_key(q) ==> index[q] < pairs.len() && index_key(pairs[index[q] as int].0) == q
}

impl<V> View for PeerMap<V> {
    type V = Map<EndpointId, V>;

    closed spec fn view(&self) -> Map<EndpointId, V> {
        indexed(index_entries(self.index), self.pairs@)
    }
}

impl<V> PeerMap<V> {
    /// The index leads to every pair, and nowhere else.
    pub closed spec fn wf(self) -> bool {
        index_fits(index_entries(self.index), self.pairs@)
    }

    pub fn new() -> (r: PeerMap<V>)
        ensures
            r.wf(),
            r@ == Map::<EndpointId, V>::empty(),
    {
        let r = PeerMap { index: index_new(), pairs: Vec::new() };
        proof {
            assert(r@ =~= Map::<EndpointId, V>::empty());
        }
        r
    }

    /// There are finitely many keys.
    pub proof fn lemma_finite(self)
        requires
            self.wf(),
        ensures
            self@.dom().finite(),
    {
        let keys = Seq::new(self.pairs@.len(), |i: int| self.pairs@[i].0);
        let index = index_entries(self.index);
        assert(self@.dom() =~= keys.to_set()) by {
            assert forall|k: EndpointId| self@.dom().contains(k) <==> keys.to_set().contains(k) by {
                if self@.dom().contains(k) {
                    let i = index[index_key(k)] as int;
                    assert(keys[i] == k);
                }
                if keys.to_set().contains(k) {
                    let i = choose|i: int| 0 <= i < keys.len() && keys[i] == k;
                    assert(self.pairs@[i].0 == k);
                }
            }
        }
        vstd::seq_lib::seq_to_set_is_finite(keys);
    }

    /// The value of an endpoint.
    pub fn get(&self, k: &EndpointId) -> (r: Option<&V>)
        requires
            self.wf(),
        ensures
            r is Some <==> self@.contains_key(*k),
            r matches Some(v) ==> *v == self@[*k],
    {
        match index_get(&self.index, (k.hi, k.lo)) {
            Some(i) => Some(&self.pairs[i].1),
            None => None,
        }
    }

    pub fn contains(&self, k: &EndpointId) -> (r: bool)
        requires
            self.wf(),
        ensures
            r == self@.contains_key(*k),
    {
        index_get(&self.index, (k.hi, k.lo)).is_some()
    }

    /// The endpoints that have a value, each once.
    pub fn keys(&self) -> (r: Vec<EndpointId>)
        requires
            self.wf(),
        ensures
            r@.no_duplicates(),
            forall|k: EndpointId| #[trigger] r@.contains(k) <==> self@.contains_key(k),
    {
        let mut out: Vec<EndpointId> = Vec::new();
        let mut i: usize = 0;
        while i < self.pairs.len()
            invariant
                i <= self.pairs@.len(),
                out@.len() == i,
                forall|j: int| 0 <= j < i ==> #[trigger] out@[j] == self.pairs@[j].0,
            decreases self.pairs@.len() - i,
        {
            out.push(self.pairs[i].0);
            i = i + 1;
        }
        proof {
            let s = self.pairs@;
            let index = index_entries(self.index);
            assert forall|a: int, b: int|
                0 <= a < out@.len() && 0 <= b < out@.len() && a != b implies out@[a] != out@[b] by {
                assert(index[index_key(s[a].0)] == a && index[index_key(s[b].0)] == b);
            }
            assert forall|k: EndpointId| #[trigger] out@.contains(k) <==> self@.contains_key(
                k,
            ) by {
                if out@.contains(k) {
                    let j = choose|j: int| 0 <= j < out@.len() && out@[j] == k;
                    assert(s[j].0 == k);
                }
                if self@.contains_key(k) {
                    let j = index[index_key(k)] as int;
                    assert(out@[j] == s[j].0);
                    assert(s[j].0 == k);
                }
            }
        }
        out
    }

    /// Sets the value of an endpoint.
    pub fn insert(&mut self, k: EndpointId, v: V)
        requires
            old(self).wf(),
        ensures
            final(self).wf(),
            final(self)@ == old(self)@.insert(k, v),
    {
        let ghost pairs = self.pairs@;
        let ghost index = index_entries(self.index);
        match index_get(&self.index, (k.hi, k.lo)) {
            Some(i) => {
                self.pairs[i] = (k, v);
                proof {
                    assert(self.pairs@[i as int].0 == pairs[i as int].0);
                    assert forall|j: int| 0 <= j < self.pairs@.len() implies index.contains_key(
                        index_key((#[trigger] self.pairs@[j]).0),
                    ) && index[index_key(self.pairs@[j].0)] == j by {
                        assert(self.pairs@[j].0 == pairs[j].0);
                    }
                }
            },
            None => {
                let end: usize = self.pairs.len();
                index_insert(&mut self.index, (k.hi, k.lo), end);
                self.pairs.push((k, v));
                proof {
                    assert forall|j: int| 0 <= j < self.pairs@.len() implies index_entries(
                        self.index,
                    ).contains_key(index_key((#[trigger] self.pairs@[j]).0)) && index_entries(
                        self.index,
                    )[index_key(self.pairs@[j].0)] == j by {
                        if j < end {
                            assert(self.pairs@[j] == pairs[j]);
                        }
                    }
                }
            },
        }
        proof {
            assert(self@ =~= old(self)@.insert(k, v)) by {
                assert forall|q: EndpointId| index.contains_key(index_key(q)) implies pairs[index[index_key(
                    q,
                )] as int].0 == q by {}
            }
        }
    }

    /// Takes the value of an endpoint out.
    pub fn remove(&mut self, k: &EndpointId) -> (r: Option<V>)
        requires
            old(self).wf(),
        ensures
            final(self).wf(),
            final(self)@ == old(self)@.remove(*k),
            r is Some <==> old(self)@.contains_key(*k),
            r matches Some(v) ==> v == old(self)@[*k],
    {
        let ghost pairs = self.pairs@;
        let ghost index = index_entries(self.index);
        match index_remove(&mut self.index, (k.hi, k.lo)) {
            Some(i) => {
                let last: usize = self.pairs.len() - 1;
                let pair = self.pairs.swap_remove(i);
                if i < last {
                    let moved = self.pairs[i].0;
                    index_insert(&mut self.index, (moved.hi, moved.lo), i);
                }
                proof {
                    let now = index_entries(self.index);
                    let s = self.pairs@;
                    assert(pairs[i as int].0 == *k);
                    assert forall|j: int| 0 <= j < s.len() implies now.contains_key(
                        index_key((#[trigger] s[j]).0),
                    ) && now[index_key(s[j].0)] == j by {
                        if j == i {
                            assert(s[j] == pairs[last as int]);
                        } else {
                            assert(s[j] == pairs[j]);
                            assert(index[index_key(pairs[j].0)] == j);
                            assert(index[index_key(pairs[last as int].0)] == last);
                        }
                    }
                    assert forall|q: (u128, u128)| #[trigger] now.contains_key(q) implies now[q]
                        < s.len() && index_key(s[now[q] as int].0) == q by {
                        assert(index.contains_key(q)) by {
                            if i < last && q == index_key(pairs[last as int].0) {
                                assert(index.contains_key(index_key(pairs[last as int].0)));
                            }
                        }
                        let j = index[q] as int;
                        assert(index_key(pairs[j].0) == q);
                        if j == last && i < last {
                            assert(s[i as int] == pairs[last as int]);
                        } else if j != i {
                            assert(s[j] == pairs[j]);
                        }
                    }
                    assert(self@ =~= old(self)@.remove(*k)) by {
                        assert forall|q: EndpointId| self@.contains_key(q) <==> old(
                            self,
                        )@.remove(*k).contains_key(q) by {
                            if index.contains_key(index_key(q)) {
                                let j = index[index_key(q)] as int;
                                assert(pairs[j].0 == q);
                            }
                        }
                        assert forall|q: EndpointId| self@.contains_key(q) implies self@[q]
                            == old(self)@[q] by {
                            let j = index[index_key(q)] as int;
                            assert(pairs[j].0 == q);
                        }
                    }
                }
                Some(pair.1)
            },
            None => {
                proof {
                    assert(index.remove(index_key(*k)) =~= index);
                    assert(old(self)@.remove(*k) =~= old(self)@);
                }
                None
            },
        }
    }
}

} // verus!
