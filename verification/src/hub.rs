//! The workers of a tunnel, one per peer.

use crate::drops::DropReason;
use crate::endpoint::EndpointId;
use crate::peer::we_are_preferred_initiator;
use crate::routing::RoutingTable;
use crate::tables::{seen_all, PeerInfo, PeerView};
use crate::text::lower;
use crate::tunnel_mesh::{MeshView, TunnelMesh};
use std::sync::Arc;
use vstd::prelude::*;

verus! {

/// A peer's worker and its number.
#[derive(Clone, Copy, Debug, PartialEq, Eq, Structural)]
pub struct WorkerRef {
    pub peer: EndpointId,
    pub worker_id: u64,
}

/// What to do after the membership changed.
#[derive(Debug)]
pub struct HubPlan {
    /// Workers to end, and to forget in the telemetry.
    pub stop: Vec<WorkerRef>,
    /// Workers to start.
    pub start: Vec<WorkerRef>,
}

/// Which peers have a worker.
#[derive(Debug)]
pub struct TunnelHub {
    local: EndpointId,
    workers: Vec<WorkerRef>,
    next_worker: u64,
}

/// Whether a peer has a worker among these.
pub open spec fn works_for(workers: Seq<WorkerRef>, peer: EndpointId) -> bool {
    exists|i: int| 0 <= i < workers.len() && (#[trigger] workers[i]).peer == peer
}

/// Whether an endpoint is a member of some network.
pub open spec fn is_authorized(members: Seq<PeerView>, peer: EndpointId) -> bool {
    exists|i: int| 0 <= i < members.len() && (#[trigger] members[i]).endpoint == peer
}

/// The workers of members, or those of strangers, in order.
pub open spec fn split_workers(
    workers: Seq<WorkerRef>,
    members: Seq<PeerView>,
    authorized: bool,
) -> Seq<WorkerRef>
    decreases workers.len(),
{
    if workers.len() == 0 {
        Seq::empty()
    } else {
        let front = split_workers(workers.drop_last(), members, authorized);
        if is_authorized(members, workers.last().peer) == authorized {
            front.push(workers.last())
        } else {
            front
        }
    }
}

/// Whether a connection to a member is opened unasked: it is kept alive and
/// this end is the one to open it.
pub open spec fn opens_unasked(mesh: MeshView, local: EndpointId, member: PeerView) -> bool {
    &&& local != member.endpoint
    &&& mesh.keep_alive || mesh.peers.contains(member.endpoint) || mesh.hosts.contains(
        lower(member.hostname),
    )
    &&& local.rank() < member.endpoint.rank()
}

/// The workers after each member whose connection is opened unasked got one,
/// with the number that the next worker gets. A member of several networks
/// counts by its first entry.
pub open spec fn with_started(
    workers: Seq<WorkerRef>,
    next: u64,
    members: Seq<PeerView>,
    mesh: MeshView,
    local: EndpointId,
) -> (Seq<WorkerRef>, u64)
    decreases members.len(),
{
    if members.len() == 0 {
        (workers, next)
    } else {
        let front = with_started(workers, next, members.drop_last(), mesh, local);
        let member = members.last();
        if !is_authorized(members.drop_last(), member.endpoint) && opens_unasked(
            mesh,
            local,
            member,
        ) && !works_for(front.0, member.endpoint) {
            (
                front.0.push(WorkerRef { peer: member.endpoint, worker_id: front.1 }),
                front.1.wrapping_add(1),
            )
        } else {
            front
        }
    }
}

/// A peer was given its worker, which is new where there was none.
pub open spec fn worker_given(
    workers: Seq<WorkerRef>,
    next: u64,
    peer: EndpointId,
    r: (WorkerRef, bool),
    after: Seq<WorkerRef>,
    next_after: u64,
) -> bool {
    &&& r.0.peer == peer
    &&& r.1 == !works_for(workers, peer)
    &&& !r.1 ==> workers.contains(r.0) && after == workers && next_after == next
    &&& r.1 ==> r.0.worker_id == next && after == workers.push(r.0) && next_after
        == next.wrapping_add(1)
}

/// No peer has two workers.
pub open spec fn one_each(workers: Seq<WorkerRef>) -> bool {
    forall|i: int, j: int|
        0 <= i < j < workers.len() ==> (#[trigger] workers[i]).peer != (
        #[trigger] workers[j]).peer
}

fn find_member(members: &Vec<Arc<PeerInfo>>, upto: usize, peer: &EndpointId) -> (r: bool)
    requires
        upto <= members@.len(),
    ensures
        r == is_authorized(seen_all(members@).take(upto as int), *peer),
{
    let ghost all = seen_all(members@).take(upto as int);
    let mut i: usize = 0;
    while i < upto
        invariant
            i <= upto <= members@.len(),
            all == seen_all(members@).take(upto as int),
            forall|j: int| 0 <= j < i ==> (#[trigger] all[j]).endpoint != *peer,
        decreases upto - i,
    {
        proof {
            assert(all[i as int] == members@[i as int]@);
        }
        if members[i].endpoint == *peer {
            proof {
                assert(all[i as int].endpoint == *peer);
            }
            return true;
        }
        i = i + 1;
    }
    false
}

fn find_worker(workers: &Vec<WorkerRef>, peer: &EndpointId) -> (r: Option<usize>)
    ensures
        r is Some <==> works_for(workers@, *peer),
        r matches Some(i) ==> i < workers@.len() && workers@[i as int].peer == *peer,
{
    let mut i: usize = 0;
    while i < workers.len()
        invariant
            i <= workers@.len(),
            forall|j: int| 0 <= j < i ==> (#[trigger] workers@[j]).peer != *peer,
        decreases workers@.len() - i,
    {
        if workers[i].peer == *peer {
            return Some(i);
        }
        i = i + 1;
    }
    None
}

proof fn lemma_split_keeps(workers: Seq<WorkerRef>, members: Seq<PeerView>, authorized: bool)
    ensures
        forall|p: EndpointId|
            works_for(split_workers(workers, members, authorized), p) ==> works_for(workers, p)
                && is_authorized(members, p) == authorized,
        one_each(workers) ==> one_each(split_workers(workers, members, authorized)),
    decreases workers.len(),
{
    if workers.len() > 0 {
        let front = workers.drop_last();
        lemma_split_keeps(front, members, authorized);
        let sub = split_workers(front, members, authorized);
        let all = split_workers(workers, members, authorized);
        assert forall|p: EndpointId| works_for(all, p) implies works_for(workers, p)
            && is_authorized(members, p) == authorized by {
            let i = choose|i: int| 0 <= i < all.len() && (#[trigger] all[i]).peer == p;
            if i < sub.len() {
                assert(sub[i].peer == p);
                assert(works_for(sub, p));
                assert(works_for(front, p));
                let k = choose|k: int| 0 <= k < front.len() && (#[trigger] front[k]).peer == p;
                assert(workers[k].peer == p);
            } else {
                assert(workers[workers.len() - 1].peer == p);
            }
        }
        if one_each(workers) {
            assert(one_each(front)) by {
                assert forall|i: int, j: int| 0 <= i < j < front.len() implies (
                #[trigger] front[i]).peer != (#[trigger] front[j]).peer by {
                    assert(workers[i] == front[i]);
                    assert(workers[j] == front[j]);
                }
            }
            assert forall|i: int, j: int| 0 <= i < j < all.len() implies (#[trigger] all[i]).peer
                != (#[trigger] all[j]).peer by {
                assert(all[i] == sub[i]);
                if j < sub.len() {
                    assert(all[j] == sub[j]);
                } else {
                    assert(works_for(sub, sub[i].peer));
                    assert(works_for(front, sub[i].peer));
                    let k = choose|k: int|
                        0 <= k < front.len() && (#[trigger] front[k]).peer == sub[i].peer;
                    assert(workers[k].peer != workers[workers.len() - 1].peer);
                }
            }
        }
    }
}

impl TunnelHub {
    /// The workers, in the order in which they were started.
    pub closed spec fn running(&self) -> Seq<WorkerRef> {
        self.workers@
    }

    pub closed spec fn own_id(&self) -> EndpointId {
        self.local
    }

    /// The number of the next worker.
    pub closed spec fn next_id(&self) -> u64 {
        self.next_worker
    }

    /// No peer has two workers.
    pub open spec fn wf(&self) -> bool {
        one_each(self.running())
    }

    pub fn new(local: EndpointId) -> (r: TunnelHub)
        ensures
            r.wf(),
            r.running() == Seq::<WorkerRef>::empty(),
            r.own_id() == local,
            r.next_id() == 1,
    {
        TunnelHub { local, workers: Vec::new(), next_worker: 1 }
    }

    /// The worker of a peer, and whether it has to be started.
    pub fn worker(&mut self, peer: EndpointId) -> (r: (WorkerRef, bool))
        requires
            old(self).wf(),
        ensures
            final(self).wf(),
            final(self).own_id() == old(self).own_id(),
            worker_given(
                old(self).running(),
                old(self).next_id(),
                peer,
                r,
                final(self).running(),
                final(self).next_id(),
            ),
    {
        match find_worker(&self.workers, &peer) {
            Some(i) => {
                proof {
                    assert(self.workers@[i as int].peer == peer);
                }
                (self.workers[i], false)
            },
            None => {
                let made = WorkerRef { peer, worker_id: self.next_worker };
                self.next_worker = self.next_worker.wrapping_add(1);
                self.workers.push(made);
                proof {
                    assert forall|i: int, j: int|
                        0 <= i < j < self.workers@.len() implies (
                    #[trigger] self.workers@[i]).peer != (#[trigger] self.workers@[j]).peer by {
                        assert(self.workers@[i] == old(self).workers@[i]);
                        if j < old(self).workers@.len() {
                            assert(self.workers@[j] == old(self).workers@[j]);
                        }
                    }
                }
                (made, true)
            },
        }
    }

    /// A worker has ended; a later one of the same peer stays.
    pub fn ended(&mut self, gone: WorkerRef)
        requires
            old(self).wf(),
        ensures
            final(self).wf(),
            final(self).own_id() == old(self).own_id(),
            final(self).next_id() == old(self).next_id(),
            !old(self).running().contains(gone) ==> final(self).running() == old(self).running(),
            old(self).running().contains(gone) ==> exists|i: int|
                0 <= i < old(self).running().len() && old(self).running()[i] == gone && final(self).running() == #[trigger] old(self).running().remove(i),
    {
        match find_worker(&self.workers, &gone.peer) {
            Some(i) => {
                if self.workers[i].worker_id == gone.worker_id {
                    let _ = self.workers.remove(i);
                    proof {
                        let before = old(self).workers@;
                        assert(before[i as int] == gone);
                        assert(self.workers@ =~= before.remove(i as int));
                        assert forall|a: int, b: int|
                            0 <= a < b < self.workers@.len() implies (
                        #[trigger] self.workers@[a]).peer != (#[trigger] self.workers@[b]).peer by {
                            let x = if a < i { a } else { a + 1 };
                            let y = if b < i { b } else { b + 1 };
                            assert(self.workers@[a] == before[x]);
                            assert(self.workers@[b] == before[y]);
                        }
                    }
                } else {
                    proof {
                        let before = old(self).workers@;
                        if before.contains(gone) {
                            let k = choose|k: int| 0 <= k < before.len() && before[k] == gone;
                            assert(before[k].peer == before[i as int].peer);
                            assert(k == i);
                        }
                    }
                }
            },
            None => {
                proof {
                    let before = old(self).workers@;
                    if before.contains(gone) {
                        let k = choose|k: int| 0 <= k < before.len() && before[k] == gone;
                        assert(before[k].peer == gone.peer);
                    }
                }
            },
        }
    }

    /// Ends the workers of endpoints that are no members any more, and starts
    /// those for members whose connection is opened unasked.
    pub fn reconcile(&mut self, routes: &RoutingTable, mesh: &TunnelMesh) -> (r: HubPlan)
        requires
            old(self).wf(),
            mesh.wf(),
        ensures
            final(self).wf(),
            final(self).own_id() == old(self).own_id(),
            r.stop@ == split_workers(old(self).running(), routes.model().members, false),
            ({
                let kept = split_workers(old(self).running(), routes.model().members, true);
                let after = with_started(
                    kept,
                    old(self).next_id(),
                    routes.model().members,
                    mesh.state(),
                    old(self).own_id(),
                );
                &&& final(self).running() == after.0
                &&& final(self).next_id() == after.1
                &&& final(self).running() == kept + r.start@
            }),
    {
        let members = routes.peers();
        let ghost known = routes.model().members;
        let ghost before = self.workers@;
        let total: usize = members.len();
        let mut stop: Vec<WorkerRef> = Vec::new();
        let mut kept: Vec<WorkerRef> = Vec::new();
        let mut i: usize = 0;
        while i < self.workers.len()
            invariant
                i <= self.workers@.len(),
                before == self.workers@,
                total == members@.len(),
                known == seen_all(members@),
                self.local == old(self).local,
                self.next_worker == old(self).next_worker,
                stop@ == split_workers(before.take(i as int), known, false),
                kept@ == split_workers(before.take(i as int), known, true),
            decreases self.workers@.len() - i,
        {
            let w = self.workers[i];
            proof {
                assert(before.take(i + 1).drop_last() =~= before.take(i as int));
                assert(before.take(i + 1).last() == w);
                assert(known.take(total as int) =~= known);
            }
            if find_member(&members, total, &w.peer) {
                kept.push(w);
            } else {
                stop.push(w);
            }
            i = i + 1;
        }
        proof {
            assert(before.take(i as int) =~= before);
            lemma_split_keeps(before, known, true);
        }
        self.workers = kept;
        let ghost kept = self.workers@;
        let mut start: Vec<WorkerRef> = Vec::new();
        let mut k: usize = 0;
        proof {
            assert(kept + start@ =~= kept);
        }
        while k < total
            invariant
                k <= total,
                total == members@.len(),
                known == seen_all(members@),
                mesh.wf(),
                self.wf(),
                self.local == old(self).local,
                (self.workers@, self.next_worker) == with_started(
                    kept,
                    old(self).next_worker,
                    known.take(k as int),
                    mesh.state(),
                    self.local,
                ),
                self.workers@ == kept + start@,
            decreases total - k,
        {
            let ghost next = known.take(k + 1);
            proof {
                assert(next.drop_last() =~= known.take(k as int));
                assert(next.last() == members@[k as int]@);
            }
            let member = &members[k];
            let peer: EndpointId = member.endpoint;
            if !find_member(&members, k, &peer) && self.local != peer && mesh.keep_alive_for(
                peer,
                Some(member.hostname.as_str()),
            ) && we_are_preferred_initiator(&self.local, &peer) {
                let ghost so_far = self.workers@;
                let (made, fresh) = self.worker(peer);
                if fresh {
                    start.push(made);
                    proof {
                        assert(self.workers@ =~= kept + start@);
                    }
                }
            }
            k = k + 1;
        }
        proof {
            assert(known.take(k as int) =~= known);
        }
        HubPlan { stop, start }
    }

    /// Ends every worker.
    pub fn close_all(&mut self) -> (r: Vec<WorkerRef>)
        ensures
            final(self).wf(),
            r@ == old(self).running(),
            final(self).running() == Seq::<WorkerRef>::empty(),
            final(self).own_id() == old(self).own_id(),
            final(self).next_id() == old(self).next_id(),
    {
        let mut all: Vec<WorkerRef> = Vec::new();
        std::mem::swap(&mut all, &mut self.workers);
        all
    }
}

/// After the membership changed, no worker is left for an endpoint that is no
/// member.
pub proof fn law_only_members_keep_a_worker(
    workers: Seq<WorkerRef>,
    next: u64,
    members: Seq<PeerView>,
    mesh: MeshView,
    local: EndpointId,
    peer: EndpointId,
)
    requires
        works_for(
            with_started(split_workers(workers, members, true), next, members, mesh, local).0,
            peer,
        ),
    ensures
        is_authorized(members, peer),
{
    lemma_split_keeps(workers, members, true);
    lemma_started(split_workers(workers, members, true), next, members, mesh, local, peer);
}

proof fn lemma_started(
    workers: Seq<WorkerRef>,
    next: u64,
    members: Seq<PeerView>,
    mesh: MeshView,
    local: EndpointId,
    peer: EndpointId,
)
    requires
        works_for(with_started(workers, next, members, mesh, local).0, peer),
    ensures
        works_for(workers, peer) || is_authorized(members, peer),
    decreases members.len(),
{
    if members.len() > 0 {
        let front = with_started(workers, next, members.drop_last(), mesh, local).0;
        let all = with_started(workers, next, members, mesh, local).0;
        let i = choose|i: int| 0 <= i < all.len() && (#[trigger] all[i]).peer == peer;
        if i < front.len() {
            assert(front[i].peer == peer);
            assert(works_for(front, peer));
            lemma_started(workers, next, members.drop_last(), mesh, local, peer);
            if is_authorized(members.drop_last(), peer) {
                let k = choose|k: int|
                    0 <= k < members.drop_last().len() && (
                    #[trigger] members.drop_last()[k]).endpoint == peer;
                assert(members[k].endpoint == peer);
            }
        } else {
            assert(members[members.len() - 1].endpoint == peer);
        }
    }
}

/// What becomes of a packet for a peer, by whether the queue of the peer's worker
/// took it: it goes on, or it is dropped for the queue's being full.
pub fn enqueued(taken: bool) -> (r: Option<DropReason>)
    ensures
        r == if taken {
            None
        } else {
            Some(DropReason::PeerQueueFull)
        },
{
    if taken {
        None
    } else {
        Some(DropReason::PeerQueueFull)
    }
}

} // verus!
