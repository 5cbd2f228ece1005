//! The reconciliation of kernel routes as a machine of steps.
//!
//! Each step says which kernel operation comes next; the caller performs it and
//! hands the outcome to the next step.

use crate::route_spec::{
    by_add_rank, by_del_rank, contains_route, default_tun, drop_route, has_route, host_escape,
    in_add_order, in_del_order, insert_route, lemma_only, only, ordered, route_views, same_route,
    RouteSpec, RouteView,
};
use crate::system_routes::{DesiredRoutes, RouteError};
use crate::underlay::{IpAddr, UnderlayInfo};
use vstd::prelude::*;

verus! {

/// What the machine waits for.
#[derive(Debug, Clone, Copy, PartialEq, Eq, Structural)]
pub enum RunPhase {
    /// The kernel's routes, before anything changes.
    ListBefore,
    /// The outcome of deleting the first route left.
    Deleting,
    /// The kernel's routes, after a deletion failed.
    CheckDelete,
    /// The kernel's routes, between deleting and adding.
    ListAfter,
    /// The outcome of adding the first route left.
    Adding,
    /// The kernel's routes, after a route was said to exist.
    CheckAdd,
    /// Nothing.
    Finished,
}

/// The next kernel operation, or the outcome.
#[derive(Debug)]
pub enum RouteAction {
    List,
    Delete(RouteSpec),
    Add(RouteSpec),
    Done(Result<(), RouteError>),
}

/// What a kernel operation came to.
#[derive(Debug)]
pub enum RouteReply {
    Listed(Result<Vec<RouteSpec>, RouteError>),
    Changed(Result<(), RouteError>),
}

/// The machine's state.
pub struct RunView {
    pub want: Seq<RouteView>,
    pub tun_index: u32,
    pub phase: RunPhase,
    pub left: Seq<RouteView>,
    pub errors: Seq<RouteError>,
    pub pending: Option<RouteError>,
    pub escape_failed: bool,
    pub then_add: bool,
}

/// The next operation as a value.
pub enum ActionView {
    List,
    Delete(RouteView),
    Add(RouteView),
    /// Over, with the errors that came up on the way.
    Done(Seq<RouteError>),
    /// Over, because the kernel's routes could not be read.
    Failed(RouteError),
}

/// The outcome for the errors that came up: none is success, one is that error, several are wrapped.
pub open spec fn outcome_of(r: Result<(), RouteError>, errors: Seq<RouteError>) -> bool {
    if errors.len() == 0 {
        r is Ok
    } else if errors.len() == 1 {
        r == Err::<(), RouteError>(errors[0])
    } else {
        r matches Err(RouteError::Multiple(v)) && v@ == errors
    }
}

/// An operation and its value.
pub open spec fn action_is(a: RouteAction, v: ActionView) -> bool {
    match v {
        ActionView::List => a is List,
        ActionView::Delete(r) => a matches RouteAction::Delete(s) && s@ == r,
        ActionView::Add(r) => a matches RouteAction::Add(s) && s@ == r,
        ActionView::Done(errors) => a matches RouteAction::Done(res) && outcome_of(res, errors),
        ActionView::Failed(e) => a matches RouteAction::Done(res) && res == Err::<(), RouteError>(
            e,
        ),
    }
}

/// The machine is waiting for this kind of reply.
pub open spec fn expects(phase: RunPhase, reply: RouteReply) -> bool {
    match phase {
        RunPhase::Deleting | RunPhase::Adding => reply is Changed,
        RunPhase::Finished => false,
        _ => reply is Listed,
    }
}

/// A kernel route has to leave: it is the tunnel's and its destination is not
/// wanted there, or it stands where a wanted route goes.
pub open spec fn intrudes(k: RouteView, want: Seq<RouteView>, tun_index: u32) -> bool {
    let tun_owned = k.if_index == tun_index && k.gateway is None;
    &&& !has_route(want, k)
    &&& {
        ||| tun_owned && !wants_tun_dest(want, k)
        ||| wants_dest(want, k)
    }
}

pub open spec fn wants_dest(want: Seq<RouteView>, k: RouteView) -> bool {
    exists|i: int| 0 <= i < want.len() && (#[trigger] want[i]).dest == k.dest
}

pub open spec fn wants_tun_dest(want: Seq<RouteView>, k: RouteView) -> bool {
    exists|i: int|
        0 <= i < want.len() && (#[trigger] want[i]).dest == k.dest && want[i].gateway is None
}

/// The intruders among the kernel's routes behind those that leave anyway, none twice.
pub open spec fn with_intruders(
    gone: Seq<RouteView>,
    kernel: Seq<RouteView>,
    want: Seq<RouteView>,
    tun_index: u32,
) -> Seq<RouteView>
    decreases kernel.len(),
{
    if kernel.len() == 0 {
        gone
    } else {
        let before = with_intruders(gone, kernel.drop_last(), want, tun_index);
        if intrudes(kernel.last(), want, tun_index) && !has_route(before, kernel.last()) {
            before.push(kernel.last())
        } else {
            before
        }
    }
}

/// The routes to delete, in order: the owned ones that are no longer wanted, and the intruders.
pub open spec fn deletions(
    owned: Seq<RouteView>,
    kernel: Seq<RouteView>,
    want: Seq<RouteView>,
    tun_index: u32,
) -> Seq<RouteView> {
    by_del_rank(
        with_intruders(
            only(owned, |o: RouteView| !has_route(want, o)),
            kernel,
            want,
            tun_index,
        ),
    )
}

/// The routes to add, in order: the wanted ones that the kernel lacks.
pub open spec fn additions(kernel: Seq<RouteView>, want: Seq<RouteView>) -> Seq<RouteView> {
    by_add_rank(only(want, |w: RouteView| !has_route(kernel, w)))
}

/// What is owned after a first look at the kernel: of the owned and the wanted
/// routes those that the kernel has.
pub open spec fn confirmed(
    owned: Seq<RouteView>,
    kernel: Seq<RouteView>,
    want: Seq<RouteView>,
    after: Seq<RouteView>,
) -> bool {
    &&& ordered(after)
    &&& forall|x: RouteView| #[trigger]
        after.contains(x) <==> (owned.contains(x) || want.contains(x)) && has_route(kernel, x)
}

/// One route more is owned.
pub open spec fn owns_too(owned: Seq<RouteView>, r: RouteView, after: Seq<RouteView>) -> bool {
    &&& ordered(after)
    &&& forall|x: RouteView| #[trigger] after.contains(x) <==> x == r || owned.contains(x)
}

/// A route is owned no longer.
pub open spec fn disowned(owned: Seq<RouteView>, r: RouteView) -> Seq<RouteView> {
    only(owned, |o: RouteView| !same_route(o, r))
}

/// The run is over and its errors have been handed out.
pub open spec fn finished(v: RunView) -> RunView {
    RunView { phase: RunPhase::Finished, pending: None, errors: Seq::empty(), ..v }
}

/// On to the next deletion, and after the last one to adding.
pub open spec fn next_delete(v: RunView) -> (RunView, ActionView) {
    if v.left.len() > 0 {
        (RunView { phase: RunPhase::Deleting, pending: None, ..v }, ActionView::Delete(v.left[0]))
    } else if v.then_add {
        (RunView { phase: RunPhase::ListAfter, pending: None, ..v }, ActionView::List)
    } else {
        (finished(v), ActionView::Done(v.errors))
    }
}

/// On to the next addition. The tunnel's default is passed over once an escape failed.
pub open spec fn next_add(v: RunView) -> (RunView, ActionView)
    decreases v.left.len(),
{
    if v.left.len() == 0 {
        (finished(v), ActionView::Done(v.errors))
    } else if default_tun(v.left[0]) && v.escape_failed {
        next_add(RunView { left: v.left.skip(1), ..v })
    } else {
        (RunView { phase: RunPhase::Adding, pending: None, ..v }, ActionView::Add(v.left[0]))
    }
}

/// One step: the reply, the state before and after, what is owned before and
/// after, and the operation that follows.
pub open spec fn stepped(
    v: RunView,
    owned: Seq<RouteView>,
    reply: RouteReply,
    next: RunView,
    after: Seq<RouteView>,
    act: ActionView,
) -> bool {
    match (v.phase, reply) {
        (RunPhase::ListBefore, RouteReply::Listed(Err(e))) => {
            &&& next == RunView { phase: RunPhase::Finished, ..v }
            &&& after == owned
            &&& act == ActionView::Failed(e)
        },
        (RunPhase::ListBefore, RouteReply::Listed(Ok(list))) => {
            let kernel = route_views(list@);
            &&& confirmed(owned, kernel, v.want, after)
            &&& (next, act) == next_delete(
                RunView { left: deletions(after, kernel, v.want, v.tun_index), ..v },
            )
        },
        (RunPhase::Deleting, RouteReply::Changed(res)) => {
            if res is Ok || res == Err::<(), RouteError>(RouteError::NotFound) {
                &&& after == disowned(owned, v.left[0])
                &&& (next, act) == next_delete(RunView { left: v.left.skip(1), ..v })
            } else {
                &&& after == owned
                &&& next == RunView { phase: RunPhase::CheckDelete, pending: Some(res->Err_0), ..v }
                &&& act == ActionView::List
            }
        },
        (RunPhase::CheckDelete, RouteReply::Listed(res)) => {
            let gone = res matches Ok(list) && !has_route(route_views(list@), v.left[0]);
            if gone {
                &&& after == disowned(owned, v.left[0])
                &&& (next, act) == next_delete(RunView { left: v.left.skip(1), ..v })
            } else {
                &&& after == owned
                &&& (next, act) == next_delete(
                    RunView { left: v.left.skip(1), errors: v.errors.push(v.pending->0), ..v },
                )
            }
        },
        (RunPhase::ListAfter, RouteReply::Listed(Err(e))) => {
            &&& next == RunView { phase: RunPhase::Finished, ..v }
            &&& after == owned
            &&& act == ActionView::Failed(e)
        },
        (RunPhase::ListAfter, RouteReply::Listed(Ok(list))) => {
            &&& after == owned
            &&& (next, act) == next_add(
                RunView {
                    left: additions(route_views(list@), v.want),
                    escape_failed: false,
                    ..v
                },
            )
        },
        (RunPhase::Adding, RouteReply::Changed(res)) => {
            let r = v.left[0];
            if res is Ok {
                &&& owns_too(owned, r, after)
                &&& (next, act) == next_add(RunView { left: v.left.skip(1), ..v })
            } else if res == Err::<(), RouteError>(RouteError::AlreadyExists) {
                &&& after == owned
                &&& next == RunView { phase: RunPhase::CheckAdd, pending: Some(res->Err_0), ..v }
                &&& act == ActionView::List
            } else {
                &&& after == owned
                &&& (next, act) == next_add(failed_add(v, res->Err_0))
            }
        },
        (RunPhase::CheckAdd, RouteReply::Listed(res)) => {
            let r = v.left[0];
            if res matches Ok(list) && has_route(route_views(list@), r) {
                &&& owns_too(owned, r, after)
                &&& (next, act) == next_add(RunView { left: v.left.skip(1), ..v })
            } else {
                &&& after == owned
                &&& (next, act) == next_add(failed_add(v, v.pending->0))
            }
        },
        _ => true,
    }
}

/// The state after the first route left could not be added.
pub open spec fn failed_add(v: RunView, e: RouteError) -> RunView {
    RunView {
        left: v.left.skip(1),
        errors: v.errors.push(e),
        escape_failed: v.escape_failed || host_escape(v.left[0]),
        ..v
    }
}

/// The routes that the node put into the kernel, and what was last wanted of them.
pub struct RouteEngine {
    owned: Vec<RouteSpec>,
    last_desired: Option<DesiredRoutes>,
}

/// A reconciliation on its way.
pub struct RouteRun {
    want: Vec<RouteSpec>,
    tun_index: u32,
    phase: RunPhase,
    queue: Vec<RouteSpec>,
    pos: usize,
    errors: Vec<RouteError>,
    pending: Option<RouteError>,
    escape_failed: bool,
    then_add: bool,
}

/// The gateway and interface of the underlay that routes go around the tunnel through.
pub open spec fn underlay_gateway(u: Option<UnderlayInfo>) -> Option<u32> {
    match u {
        Some(i) => match i.gateway {
            Some(IpAddr::V4(ip)) => Some(ip),
            _ => None,
        },
        None => None,
    }
}

pub open spec fn underlay_interface(u: Option<UnderlayInfo>) -> Option<(u32, Seq<char>)> {
    match u {
        Some(i) => Some((i.interface_index, i.interface_name@)),
        None => None,
    }
}

/// The tunnel takes the default route, unless an exit needs an underlay that is not known.
pub open spec fn default_allowed(d: DesiredRoutes, u: Option<UnderlayInfo>) -> bool {
    d.excludes() ==> underlay_gateway(u) is Some && u is Some
}

/// The wanted routes of a desired state over an underlay.
pub open spec fn want_is(
    want: Seq<RouteView>,
    d: DesiredRoutes,
    u: Option<UnderlayInfo>,
    tun_index: u32,
) -> bool {
    &&& ordered(want)
    &&& forall|x: RouteView| #[trigger]
        want.contains(x) <==> d.wanted(
            x,
            underlay_gateway(u),
            underlay_interface(u),
            (tun_index, d.ifname@),
            default_allowed(d, u),
        )
}

/// How a reconciliation starts.
pub open spec fn run_starts(
    r: Result<RouteRun, RouteError>,
    desired: DesiredRoutes,
    discovered: Option<UnderlayInfo>,
    resolved: Option<u32>,
) -> bool {
    &&& r is Ok <==> desired.tun_if_index is Some || resolved is Some
    &&& r matches Err(e) ==> e matches RouteError::InvalidInterface { route } && route@
        == desired.ifname@
    &&& r matches Ok(run) ==> {
        let tun = if desired.tun_if_index is Some {
            desired.tun_if_index->0
        } else {
            resolved->0
        };
        let u = if desired.underlay is Some {
            desired.underlay
        } else {
            discovered
        };
        let v = run.state();
        &&& run.wf()
        &&& want_is(v.want, desired, u, tun)
        &&& v.tun_index == tun
        &&& v.phase == RunPhase::ListBefore
        &&& v.left == Seq::<RouteView>::empty()
        &&& v.errors == Seq::<RouteError>::empty()
        &&& v.pending is None
        &&& !v.escape_failed
        &&& v.then_add
    }
}

fn start_run(
    desired: &DesiredRoutes,
    discovered: &Option<UnderlayInfo>,
    resolved: Option<u32>,
) -> (r: Result<RouteRun, RouteError>)
    requires
        desired.wf(),
    ensures
        run_starts(r, *desired, *discovered, resolved),
{
    let tun_index: u32 = match desired.tun_if_index {
        Some(i) => i,
        None => match resolved {
            Some(i) => i,
            None => {
                return Err(RouteError::InvalidInterface { route: desired.ifname.clone() });
            },
        },
    };
    let underlay = match &desired.underlay {
        Some(u) => Some(u),
        None => match discovered {
            Some(u) => Some(u),
            None => None,
        },
    };
    let gateway: Option<u32> = match underlay {
        Some(u) => u.gateway_v4(),
        None => None,
    };
    let underlay_if: Option<(u32, &String)> = match underlay {
        Some(u) => Some((u.interface_index, &u.interface_name)),
        None => None,
    };
    let allow_default = if desired.exit_exclude() {
        gateway.is_some() && underlay_if.is_some()
    } else {
        true
    };
    let want = desired.to_specs(
        gateway,
        underlay_if,
        (tun_index, &desired.ifname),
        allow_default,
    );
    let run = RouteRun {
        want,
        tun_index,
        phase: RunPhase::ListBefore,
        queue: Vec::new(),
        pos: 0,
        errors: Vec::new(),
        pending: None,
        escape_failed: false,
        then_add: true,
    };
    proof {
        assert(run.state().left =~= Seq::<RouteView>::empty());
    }
    Ok(run)
}

impl RouteEngine {
    /// The routes that are owned, in order.
    pub closed spec fn owned_view(self) -> Seq<RouteView> {
        route_views(self.owned@)
    }

    /// What was last wanted.
    pub closed spec fn last(self) -> Option<DesiredRoutes> {
        self.last_desired
    }

    /// The owned routes are in order and none is listed twice.
    pub closed spec fn wf(self) -> bool {
        &&& ordered(self.owned_view())
        &&& self.last_desired matches Some(d) ==> d.wf()
    }

    /// Nothing is owned.
    pub fn new() -> (r: RouteEngine)
        ensures
            r.wf(),
            r.owned_view() == Seq::<RouteView>::empty(),
            r.last() is None,
    {
        let r = RouteEngine { owned: Vec::new(), last_desired: None };
        proof {
            assert(r.owned_view() =~= Seq::<RouteView>::empty());
        }
        r
    }

    /// Takes a route over as owned.
    pub fn adopt(&mut self, r: &RouteSpec)
        requires
            old(self).wf(),
        ensures
            final(self).wf(),
            owns_too(old(self).owned_view(), r@, final(self).owned_view()),
            final(self).last() == old(self).last(),
    {
        insert_route(&mut self.owned, r);
    }

    /// The routes that are owned.
    pub fn owned_routes(&self) -> (r: Vec<RouteSpec>)
        ensures
            route_views(r@) == self.owned_view(),
    {
        copy_routes(&self.owned)
    }

    /// Starts a reconciliation. The underlay and the tunnel's interface are
    /// those that the desired state names, else those that were looked up.
    /// Without a tunnel interface there is nothing to do but fail.
    pub fn reconcile(
        &mut self,
        desired: DesiredRoutes,
        discovered: &Option<UnderlayInfo>,
        resolved: Option<u32>,
    ) -> (r: Result<RouteRun, RouteError>)
        requires
            old(self).wf(),
            desired.wf(),
        ensures
            final(self).wf(),
            final(self).owned_view() == old(self).owned_view(),
            final(self).last() == Some(desired),
            run_starts(r, desired, *discovered, resolved),
    {
        let r = start_run(&desired, discovered, resolved);
        self.last_desired = Some(desired);
        r
    }

    /// Starts a reconciliation with what was last wanted, if anything was.
    pub fn reconcile_last(&self, discovered: &Option<UnderlayInfo>, resolved: Option<u32>) -> (r:
        Option<Result<RouteRun, RouteError>>)
        requires
            self.wf(),
        ensures
            r is Some <==> self.last() is Some,
            r matches Some(res) ==> run_starts(res, self.last()->0, *discovered, resolved),
    {
        match &self.last_desired {
            Some(d) => Some(start_run(d, discovered, resolved)),
            None => None,
        }
    }

    /// Starts the removal of everything that is owned, and says what comes first.
    /// Nothing is wanted from then on.
    pub fn clear(&mut self) -> (r: (RouteRun, RouteAction))
        requires
            old(self).wf(),
        ensures
            final(self).wf(),
            final(self).owned_view() == old(self).owned_view(),
            final(self).last() is None,
            r.0.wf(),
            ({
                let start = RunView {
                    want: Seq::empty(),
                    tun_index: 0,
                    phase: RunPhase::Deleting,
                    left: by_del_rank(old(self).owned_view()),
                    errors: Seq::empty(),
                    pending: None,
                    escape_failed: false,
                    then_add: false,
                };
                &&& r.0.state() == next_delete(start).0
                &&& action_is(r.1, next_delete(start).1)
            }),
    {
        self.last_desired = None;
        let queue = in_del_order(&self.owned);
        let mut run = RouteRun {
            want: Vec::new(),
            tun_index: 0,
            phase: RunPhase::Deleting,
            queue,
            pos: 0,
            errors: Vec::new(),
            pending: None,
            escape_failed: false,
            then_add: false,
        };
        proof {
            assert(route_views(run.want@) =~= Seq::<RouteView>::empty());
            assert(run.state().left =~= by_del_rank(self.owned_view()));
        }
        let act = run.go_delete();
        (run, act)
    }
}

fn copy_routes(from: &Vec<RouteSpec>) -> (r: Vec<RouteSpec>)
    ensures
        route_views(r@) == route_views(from@),
{
    let mut out: Vec<RouteSpec> = Vec::new();
    let mut i: usize = 0;
    while i < from.len()
        invariant
            i <= from@.len(),
            route_views(out@) =~= route_views(from@).take(i as int),
        decreases from@.len() - i,
    {
        out.push(from[i].copy());
        proof {
            assert(route_views(out@) =~= route_views(from@).take(i as int).push(from@[i as int]@));
        }
        i = i + 1;
    }
    proof {
        assert(route_views(from@).take(i as int) =~= route_views(from@));
    }
    out
}

fn not_in(list: &Vec<RouteSpec>, other: &Vec<RouteSpec>) -> (r: Vec<RouteSpec>)
    ensures
        route_views(r@) == only(
            route_views(list@),
            |x: RouteView| !has_route(route_views(other@), x),
        ),
{
    let ghost s = route_views(list@);
    let ghost keep = |x: RouteView| !has_route(route_views(other@), x);
    let mut out: Vec<RouteSpec> = Vec::new();
    let mut i: usize = 0;
    proof {
        assert(s.take(0) =~= Seq::<RouteView>::empty());
        assert(route_views(out@) =~= Seq::<RouteView>::empty());
    }
    while i < list.len()
        invariant
            i <= list@.len(),
            s == route_views(list@),
            keep == (|x: RouteView| !has_route(route_views(other@), x)),
            route_views(out@) == only(s.take(i as int), keep),
        decreases list@.len() - i,
    {
        proof {
            assert(s.take(i as int + 1).drop_last() =~= s.take(i as int));
            assert(s.take(i as int + 1).last() == list@[i as int]@);
        }
        let ghost before = out@;
        if !contains_route(other, &list[i]) {
            out.push(list[i].copy());
            proof {
                assert(route_views(out@) =~= route_views(before).push(list@[i as int]@));
            }
        }
        i = i + 1;
    }
    proof {
        assert(s.take(i as int) =~= s);
    }
    out
}

fn is_intruder(k: &RouteSpec, want: &Vec<RouteSpec>, tun_index: u32) -> (r: bool)
    ensures
        r == intrudes(k@, route_views(want@), tun_index),
{
    let ghost w = route_views(want@);
    if contains_route(want, k) {
        return false;
    }
    let tun_owned = k.if_index == tun_index && k.gateway.is_none();
    let mut dest = false;
    let mut tun_dest = false;
    let mut i: usize = 0;
    while i < want.len()
        invariant
            i <= want@.len(),
            w == route_views(want@),
            dest == (exists|j: int| 0 <= j < i && (#[trigger] w[j]).dest == k@.dest),
            tun_dest == (exists|j: int|
                0 <= j < i && (#[trigger] w[j]).dest == k@.dest && w[j].gateway is None),
        decreases want@.len() - i,
    {
        assert(w[i as int] == want@[i as int]@);
        if want[i].dest == k.dest {
            dest = true;
            if want[i].gateway.is_none() {
                tun_dest = true;
            }
        }
        i = i + 1;
    }
    (tun_owned && !tun_dest) || dest
}

impl RouteRun {
    /// The machine's state.
    pub closed spec fn state(self) -> RunView {
        RunView {
            want: route_views(self.want@),
            tun_index: self.tun_index,
            phase: self.phase,
            left: route_views(self.queue@).skip(self.pos as int),
            errors: self.errors@,
            pending: self.pending,
            escape_failed: self.escape_failed,
            then_add: self.then_add,
        }
    }

    /// While a route is being worked on it is the first one left, and a check
    /// remembers the failure that led to it.
    pub closed spec fn wf(self) -> bool {
        &&& self.pos <= self.queue@.len()
        &&& ordered(route_views(self.want@))
        &&& match self.phase {
            RunPhase::Deleting | RunPhase::Adding => self.pos < self.queue@.len(),
            RunPhase::CheckDelete | RunPhase::CheckAdd => self.pos < self.queue@.len()
                && self.pending is Some,
            _ => true,
        }
    }

    /// What the machine waits for.
    pub fn phase(&self) -> (r: RunPhase)
        ensures
            r == self.state().phase,
    {
        self.phase
    }

    fn finish(&mut self) -> (r: RouteAction)
        requires
            old(self).pos <= old(self).queue@.len(),
            ordered(route_views(old(self).want@)),
        ensures
            final(self).wf(),
            final(self).state() == finished(old(self).state()),
            action_is(r, ActionView::Done(old(self).state().errors)),
    {
        self.phase = RunPhase::Finished;
        self.pending = None;
        let mut errors: Vec<RouteError> = Vec::new();
        std::mem::swap(&mut errors, &mut self.errors);
        proof {
            assert(self.errors@ =~= Seq::<RouteError>::empty());
        }
        if errors.len() == 0 {
            RouteAction::Done(Ok(()))
        } else if errors.len() == 1 {
            let only_one = errors.remove(0);
            RouteAction::Done(Err(only_one))
        } else {
            RouteAction::Done(Err(RouteError::Multiple(errors)))
        }
    }

    fn go_delete(&mut self) -> (r: RouteAction)
        requires
            old(self).pos <= old(self).queue@.len(),
            ordered(route_views(old(self).want@)),
        ensures
            final(self).wf(),
            final(self).state() == next_delete(old(self).state()).0,
            action_is(r, next_delete(old(self).state()).1),
    {
        if self.pos < self.queue.len() {
            self.phase = RunPhase::Deleting;
            self.pending = None;
            RouteAction::Delete(self.queue[self.pos].copy())
        } else if self.then_add {
            self.phase = RunPhase::ListAfter;
            self.pending = None;
            RouteAction::List
        } else {
            self.finish()
        }
    }

    fn go_add(&mut self) -> (r: RouteAction)
        requires
            old(self).pos <= old(self).queue@.len(),
            ordered(route_views(old(self).want@)),
        ensures
            final(self).wf(),
            final(self).state() == next_add(old(self).state()).0,
            action_is(r, next_add(old(self).state()).1),
    {
        let ghost start = self.state();
        while self.pos < self.queue.len() && self.escape_failed && self.queue[self.pos].is_default_tun()
            invariant
                self.pos <= self.queue@.len(),
                ordered(route_views(self.want@)),
                next_add(self.state()) == next_add(start),
            decreases self.queue@.len() - self.pos,
        {
            proof {
                let v = self.state();
                assert(v.left[0] == self.queue@[self.pos as int]@);
                assert(v.left.skip(1) =~= route_views(self.queue@).skip(self.pos as int + 1));
            }
            self.pos = self.pos + 1;
        }
        if self.pos < self.queue.len() {
            proof {
                assert(self.state().left[0] == self.queue@[self.pos as int]@);
            }
            self.phase = RunPhase::Adding;
            self.pending = None;
            RouteAction::Add(self.queue[self.pos].copy())
        } else {
            self.finish()
        }
    }

    fn pass(&mut self)
        requires
            old(self).pos < old(self).queue@.len(),
            ordered(route_views(old(self).want@)),
        ensures
            final(self).pos <= final(self).queue@.len(),
            final(self).pos == old(self).pos + 1,
            final(self).queue == old(self).queue,
            final(self).want == old(self).want,
            final(self).state() == (RunView {
                left: old(self).state().left.skip(1),
                ..old(self).state()
            }),
    {
        let total: usize = self.queue.len();
        assert(self.pos < total);
        self.pos = self.pos + 1;
        proof {
            assert(self.state().left =~= old(self).state().left.skip(1));
        }
    }

    fn fail_add(&mut self, e: RouteError)
        requires
            old(self).pos < old(self).queue@.len(),
            ordered(route_views(old(self).want@)),
        ensures
            final(self).pos <= final(self).queue@.len(),
            final(self).want == old(self).want,
            final(self).state() == failed_add(old(self).state(), e),
    {
        let escape = self.queue[self.pos].is_host_escape();
        assert(self.state().left[0] == self.queue@[self.pos as int]@);
        if escape {
            self.escape_failed = true;
        }
        self.errors.push(e);
        self.pass();
    }

    fn first_look(&mut self, engine: &mut RouteEngine, kernel: &Vec<RouteSpec>) -> (r: RouteAction)
        requires
            old(self).wf(),
            old(engine).wf(),
        ensures
            final(self).wf(),
            final(engine).wf(),
            final(engine).last() == old(engine).last(),
            confirmed(
                old(engine).owned_view(),
                route_views(kernel@),
                old(self).state().want,
                final(engine).owned_view(),
            ),
            ({
                let v = RunView {
                    left: deletions(
                        final(engine).owned_view(),
                        route_views(kernel@),
                        old(self).state().want,
                        old(self).state().tun_index,
                    ),
                    ..old(self).state()
                };
                &&& final(self).state() == next_delete(v).0
                &&& action_is(r, next_delete(v).1)
            }),
    {
        let ghost k = route_views(kernel@);
        let ghost w = route_views(self.want@);
        engine.confirm(kernel, &self.want);
        let mut gone = not_in(&engine.owned, &self.want);
        let ghost stale = only(engine.owned_view(), |o: RouteView| !has_route(w, o));
        let mut i: usize = 0;
        proof {
            assert(k.take(0) =~= Seq::<RouteView>::empty());
        }
        while i < kernel.len()
            invariant
                i <= kernel@.len(),
                k == route_views(kernel@),
                w == route_views(self.want@),
                *self == *old(self),
                route_views(gone@) == with_intruders(stale, k.take(i as int), w, self.tun_index),
            decreases kernel@.len() - i,
        {
            proof {
                assert(k.take(i as int + 1).drop_last() =~= k.take(i as int));
                assert(k.take(i as int + 1).last() == kernel@[i as int]@);
            }
            let ghost before = gone@;
            if is_intruder(&kernel[i], &self.want, self.tun_index) && !contains_route(
                &gone,
                &kernel[i],
            ) {
                gone.push(kernel[i].copy());
                proof {
                    assert(route_views(gone@) =~= route_views(before).push(kernel@[i as int]@));
                }
            }
            i = i + 1;
        }
        proof {
            assert(k.take(i as int) =~= k);
        }
        self.queue = in_del_order(&gone);
        self.pos = 0;
        proof {
            assert(self.state().left =~= deletions(engine.owned_view(), k, w, self.tun_index));
        }
        self.go_delete()
    }

    /// Takes the outcome of the last operation in and says what comes next.
    pub fn step(&mut self, engine: &mut RouteEngine, reply: RouteReply) -> (r: RouteAction)
        requires
            old(self).wf(),
            old(engine).wf(),
            expects(old(self).state().phase, reply),
        ensures
            final(self).wf(),
            final(engine).wf(),
            final(engine).last() == old(engine).last(),
            exists|act: ActionView| #[trigger]
                action_is(r, act) && stepped(
                    old(self).state(),
                    old(engine).owned_view(),
                    reply,
                    final(self).state(),
                    final(engine).owned_view(),
                    act,
                ),
    {
        let ghost v = self.state();
        let ghost owned = engine.owned_view();
        if self.pos < self.queue.len() {
            assert(v.left[0] == self.queue@[self.pos as int]@);
        }
        match (self.phase, reply) {
            (RunPhase::ListBefore, RouteReply::Listed(res)) => match res {
                Err(e) => {
                    self.phase = RunPhase::Finished;
                    let r = RouteAction::Done(Err(e));
                    assert(action_is(r, ActionView::Failed(e)));
                    r
                },
                Ok(kernel) => {
                    let r = self.first_look(engine, &kernel);
                    proof {
                        let mid = RunView {
                            left: deletions(
                                engine.owned_view(),
                                route_views(kernel@),
                                v.want,
                                v.tun_index,
                            ),
                            ..v
                        };
                        assert(action_is(r, next_delete(mid).1));
                    }
                    r
                },
            },
            (RunPhase::Deleting, RouteReply::Changed(res)) => match res {
                Ok(_) => self.deleted(engine),
                Err(RouteError::NotFound) => self.deleted(engine),
                Err(e) => {
                    self.phase = RunPhase::CheckDelete;
                    self.pending = Some(e);
                    assert(action_is(RouteAction::List, ActionView::List));
                    RouteAction::List
                },
            },
            (RunPhase::CheckDelete, RouteReply::Listed(res)) => {
                let still_there = match &res {
                    Ok(list) => contains_route(list, &self.queue[self.pos]),
                    Err(_) => true,
                };
                if !still_there {
                    self.deleted(engine)
                } else {
                    let pending = self.pending.take();
                    if let Some(e) = pending {
                        self.errors.push(e);
                    }
                    let ghost mid = self.state();
                    self.pass();
                    proof {
                        let want_mid = RunView {
                            left: v.left.skip(1),
                            errors: v.errors.push(v.pending->0),
                            ..v
                        };
                        assert(next_delete(self.state()) == next_delete(want_mid));
                    }
                    let r = self.go_delete();
                    assert(action_is(
                        r,
                        next_delete(
                            RunView {
                                left: v.left.skip(1),
                                errors: v.errors.push(v.pending->0),
                                ..v
                            },
                        ).1,
                    ));
                    r
                }
            },
            (RunPhase::ListAfter, RouteReply::Listed(res)) => match res {
                Err(e) => {
                    self.phase = RunPhase::Finished;
                    let r = RouteAction::Done(Err(e));
                    assert(action_is(r, ActionView::Failed(e)));
                    r
                },
                Ok(kernel) => {
                    let missing = not_in(&self.want, &kernel);
                    self.queue = in_add_order(&missing);
                    self.pos = 0;
                    self.escape_failed = false;
                    proof {
                        assert(self.state().left =~= additions(route_views(kernel@), v.want));
                    }
                    let r = self.go_add();
                    proof {
                        let mid = RunView {
                            left: additions(route_views(kernel@), v.want),
                            escape_failed: false,
                            ..v
                        };
                        assert(action_is(r, next_add(mid).1));
                    }
                    r
                },
            },
            (RunPhase::Adding, RouteReply::Changed(res)) => match res {
                Ok(_) => self.added(engine),
                Err(RouteError::AlreadyExists) => {
                    self.phase = RunPhase::CheckAdd;
                    self.pending = Some(RouteError::AlreadyExists);
                    assert(action_is(RouteAction::List, ActionView::List));
                    RouteAction::List
                },
                Err(e) => {
                    self.fail_add(e);
                    let r = self.go_add();
                    assert(action_is(r, next_add(failed_add(v, e)).1));
                    r
                },
            },
            (RunPhase::CheckAdd, RouteReply::Listed(res)) => {
                let present = match &res {
                    Ok(list) => contains_route(list, &self.queue[self.pos]),
                    Err(_) => false,
                };
                if present {
                    self.added(engine)
                } else {
                    let pending = self.pending.take();
                    let ghost e0 = v.pending->0;
                    if let Some(e) = pending {
                        self.fail_add(e);
                    }
                    proof {
                        lemma_add_ignores_pending(self.state(), failed_add(v, e0));
                    }
                    let r = self.go_add();
                    assert(action_is(r, next_add(failed_add(v, e0)).1));
                    r
                }
            },
            _ => {
                proof {
                    assert(false);
                }
                RouteAction::List
            },
        }
    }

    fn deleted(&mut self, engine: &mut RouteEngine) -> (r: RouteAction)
        requires
            old(self).wf(),
            old(engine).wf(),
            old(self).state().phase == RunPhase::Deleting || old(self).state().phase
                == RunPhase::CheckDelete,
        ensures
            final(self).wf(),
            final(engine).wf(),
            final(engine).last() == old(engine).last(),
            final(engine).owned_view() == disowned(
                old(engine).owned_view(),
                old(self).state().left[0],
            ),
            ({
                let v = RunView { left: old(self).state().left.skip(1), ..old(self).state() };
                &&& final(self).state() == next_delete(v).0
                &&& action_is(r, next_delete(v).1)
            }),
    {
        assert(self.state().left[0] == self.queue@[self.pos as int]@);
        drop_route(&mut engine.owned, &self.queue[self.pos]);
        self.pass();
        self.go_delete()
    }

    fn added(&mut self, engine: &mut RouteEngine) -> (r: RouteAction)
        requires
            old(self).wf(),
            old(engine).wf(),
            old(self).state().phase == RunPhase::Adding || old(self).state().phase
                == RunPhase::CheckAdd,
        ensures
            final(self).wf(),
            final(engine).wf(),
            final(engine).last() == old(engine).last(),
            owns_too(
                old(engine).owned_view(),
                old(self).state().left[0],
                final(engine).owned_view(),
            ),
            ({
                let v = RunView { left: old(self).state().left.skip(1), ..old(self).state() };
                &&& final(self).state() == next_add(v).0
                &&& action_is(r, next_add(v).1)
            }),
    {
        assert(self.state().left[0] == self.queue@[self.pos as int]@);
        insert_route(&mut engine.owned, &self.queue[self.pos]);
        self.pass();
        self.go_add()
    }
}

/// A remembered failure does not matter to what is added next.
proof fn lemma_add_ignores_pending(a: RunView, b: RunView)
    requires
        b == (RunView { pending: b.pending, ..a }),
    ensures
        next_add(a) == next_add(b),
    decreases a.left.len(),
{
    if a.left.len() > 0 && default_tun(a.left[0]) && a.escape_failed {
        lemma_add_ignores_pending(
            RunView { left: a.left.skip(1), ..a },
            RunView { left: b.left.skip(1), ..b },
        );
    }
}

impl RouteEngine {
    fn confirm(&mut self, kernel: &Vec<RouteSpec>, want: &Vec<RouteSpec>)
        requires
            old(self).wf(),
            ordered(route_views(want@)),
        ensures
            final(self).wf(),
            final(self).last() == old(self).last(),
            confirmed(
                old(self).owned_view(),
                route_views(kernel@),
                route_views(want@),
                final(self).owned_view(),
            ),
    {
        let ghost start = self.owned_view();
        let ghost k = route_views(kernel@);
        let ghost w = route_views(want@);
        let mut kept: Vec<RouteSpec> = Vec::new();
        let mut i: usize = 0;
        while i < self.owned.len()
            invariant
                i <= self.owned@.len(),
                start == self.owned_view(),
                k == route_views(kernel@),
                ordered(route_views(kept@)),
                forall|x: RouteView| #[trigger]
                    route_views(kept@).contains(x) <==> start.take(i as int).contains(x)
                        && has_route(k, x),
            decreases self.owned@.len() - i,
        {
            let ghost before = route_views(kept@);
            proof {
                lemma_route_take(start, i as int);
                assert(start[i as int] == self.owned@[i as int]@);
            }
            if contains_route(kernel, &self.owned[i]) {
                insert_route(&mut kept, &self.owned[i]);
            }
            i = i + 1;
        }
        proof {
            assert(start.take(i as int) =~= start);
        }
        let mut j: usize = 0;
        while j < want.len()
            invariant
                j <= want@.len(),
                w == route_views(want@),
                k == route_views(kernel@),
                ordered(route_views(kept@)),
                forall|x: RouteView| #[trigger]
                    route_views(kept@).contains(x) <==> (start.contains(x) || w.take(
                        j as int,
                    ).contains(x)) && has_route(k, x),
            decreases want@.len() - j,
        {
            let ghost before = route_views(kept@);
            proof {
                lemma_route_take(w, j as int);
                assert(w[j as int] == want@[j as int]@);
            }
            if contains_route(kernel, &want[j]) {
                insert_route(&mut kept, &want[j]);
            }
            j = j + 1;
        }
        proof {
            assert(w.take(j as int) =~= w);
        }
        self.owned = kept;
    }
}

proof fn lemma_route_take(s: Seq<RouteView>, i: int)
    requires
        0 <= i < s.len(),
    ensures
        forall|x: RouteView| #[trigger]
            s.take(i + 1).contains(x) <==> x == s[i] || s.take(i).contains(x),
{
    assert forall|x: RouteView| #[trigger] s.take(i + 1).contains(x) <==> x == s[i] || s.take(
        i,
    ).contains(x) by {
        if s.take(i + 1).contains(x) {
            let j = choose|j: int| 0 <= j < i + 1 && (#[trigger] s.take(i + 1)[j]) == x;
            if j < i {
                assert(s.take(i)[j] == x);
            }
        }
        if s.take(i).contains(x) {
            let j = choose|j: int| 0 <= j < i && (#[trigger] s.take(i)[j]) == x;
            assert(s.take(i + 1)[j] == x);
        }
        if x == s[i] {
            assert(s.take(i + 1)[i] == x);
        }
    }
}

/// The tunnel's default route is never added once an escape route failed.
pub proof fn law_no_default_after_a_failed_escape(v: RunView)
    requires
        v.escape_failed,
    ensures
        next_add(v).1 matches ActionView::Add(r) ==> !default_tun(r),
    decreases v.left.len(),
{
    if v.left.len() > 0 && default_tun(v.left[0]) {
        law_no_default_after_a_failed_escape(RunView { left: v.left.skip(1), ..v });
    }
}

/// Without a known underlay gateway an exit brings no default route into the
/// tunnel: one is wanted only where the networks themselves ask for it.
pub proof fn law_no_exit_default_without_underlay(
    want: Seq<RouteView>,
    d: DesiredRoutes,
    u: Option<UnderlayInfo>,
    tun_index: u32,
    r: RouteView,
)
    requires
        want_is(want, d, u, tun_index),
        d.excludes(),
        underlay_gateway(u) is None,
        want.contains(r),
        default_tun(r),
    ensures
        d.remote_subnets@.contains(r.dest) || d.peer_routes@.contains(r.dest),
{
}

pub proof fn lemma_rank_members(s: Seq<RouteView>)
    ensures
        forall|x: RouteView| #[trigger] by_del_rank(s).contains(x) <==> s.contains(x),
        forall|x: RouteView| #[trigger] by_add_rank(s).contains(x) <==> s.contains(x),
{
    let f0 = |r: RouteView| crate::route_spec::add_rank_of(r) == 0;
    let f1 = |r: RouteView| crate::route_spec::add_rank_of(r) == 1;
    let f2 = |r: RouteView| crate::route_spec::add_rank_of(r) == 2;
    let f3 = |r: RouteView| crate::route_spec::add_rank_of(r) == 3;
    lemma_only(s, f0);
    lemma_only(s, f1);
    lemma_only(s, f2);
    lemma_only(s, f3);
    let a = only(s, f0);
    let b = only(s, f1);
    let c = only(s, f2);
    let d = only(s, f3);
    lemma_concat4(a, b, c, d);
    lemma_concat4(d, c, b, a);
}

proof fn lemma_concat4(
    a: Seq<RouteView>,
    b: Seq<RouteView>,
    c: Seq<RouteView>,
    d: Seq<RouteView>,
)
    ensures
        forall|x: RouteView| #[trigger]
            (a + b + c + d).contains(x) <==> a.contains(x) || b.contains(x) || c.contains(x)
                || d.contains(x),
{
    let all = a + b + c + d;
    assert forall|x: RouteView| #[trigger] all.contains(x) <==> a.contains(x) || b.contains(x)
        || c.contains(x) || d.contains(x) by {
        if all.contains(x) {
            let i = choose|i: int| 0 <= i < all.len() && all[i] == x;
            if i < a.len() {
                assert(a[i] == x);
            } else if i < a.len() + b.len() {
                assert(b[i - a.len()] == x);
            } else if i < a.len() + b.len() + c.len() {
                assert(c[i - a.len() - b.len()] == x);
            } else {
                assert(d[i - a.len() - b.len() - c.len()] == x);
            }
        }
        if a.contains(x) {
            let i = choose|i: int| 0 <= i < a.len() && a[i] == x;
            assert(all[i] == x);
        }
        if b.contains(x) {
            let i = choose|i: int| 0 <= i < b.len() && b[i] == x;
            assert(all[a.len() + i] == x);
        }
        if c.contains(x) {
            let i = choose|i: int| 0 <= i < c.len() && c[i] == x;
            assert(all[a.len() + b.len() + i] == x);
        }
        if d.contains(x) {
            let i = choose|i: int| 0 <= i < d.len() && d[i] == x;
            assert(all[a.len() + b.len() + c.len() + i] == x);
        }
    }
}

pub proof fn lemma_with_intruders(
    gone: Seq<RouteView>,
    kernel: Seq<RouteView>,
    want: Seq<RouteView>,
    tun_index: u32,
)
    ensures
        forall|x: RouteView| #[trigger]
            with_intruders(gone, kernel, want, tun_index).contains(x) ==> gone.contains(x) || (
            kernel.contains(x) && intrudes(x, want, tun_index)),
        forall|x: RouteView|
            gone.contains(x) ==> #[trigger] with_intruders(
                gone,
                kernel,
                want,
                tun_index,
            ).contains(x),
        forall|i: int|
            0 <= i < kernel.len() && intrudes(#[trigger] kernel[i], want, tun_index) ==> has_route(
                with_intruders(gone, kernel, want, tun_index),
                kernel[i],
            ),
    decreases kernel.len(),
{
    if kernel.len() > 0 {
        let front = kernel.drop_last();
        lemma_with_intruders(gone, front, want, tun_index);
        let before = with_intruders(gone, front, want, tun_index);
        let all = with_intruders(gone, kernel, want, tun_index);
        assert(forall|i: int| 0 <= i < front.len() ==> #[trigger] front[i] == kernel[i]);
        assert forall|x: RouteView| #[trigger] all.contains(x) implies gone.contains(x) || (
        kernel.contains(x) && intrudes(x, want, tun_index)) by {
            if before.contains(x) {
                if !gone.contains(x) {
                    let j = choose|j: int| 0 <= j < front.len() && front[j] == x;
                    assert(kernel[j] == x);
                }
            } else {
                let j = choose|j: int| 0 <= j < all.len() && all[j] == x;
                if j < before.len() {
                    assert(before[j] == x);
                }
                assert(x == kernel.last());
                assert(kernel[kernel.len() - 1] == x);
            }
        }
        assert forall|x: RouteView| gone.contains(x) implies #[trigger] all.contains(x) by {
            assert(before.contains(x));
            let j = choose|j: int| 0 <= j < before.len() && before[j] == x;
            assert(all[j] == x);
        }
        assert forall|i: int|
            0 <= i < kernel.len() && intrudes(#[trigger] kernel[i], want, tun_index) implies has_route(
        all, kernel[i]) by {
            if i < front.len() {
                assert(front[i] == kernel[i]);
                let j = choose|j: int| 0 <= j < before.len() && same_route(
                    #[trigger] before[j],
                    kernel[i],
                );
                assert(all[j] == before[j]);
            } else if has_route(before, kernel[i]) {
                let j = choose|j: int| 0 <= j < before.len() && same_route(
                    #[trigger] before[j],
                    kernel[i],
                );
                assert(all[j] == before[j]);
            } else {
                assert(all[before.len() as int] == kernel[i]);
            }
        }
    }
}

/// A route is deleted only if the node owned it and no longer wants it, or if
/// it is a stray route of the tunnel or stands where a wanted route goes. A
/// route of someone else to another destination is left alone.
pub proof fn law_unrelated_routes_are_left_alone(
    owned: Seq<RouteView>,
    kernel: Seq<RouteView>,
    want: Seq<RouteView>,
    tun_index: u32,
    r: RouteView,
)
    requires
        deletions(owned, kernel, want, tun_index).contains(r),
    ensures
        !has_route(want, r),
        owned.contains(r) || (kernel.contains(r) && intrudes(r, want, tun_index)),
{
    let stale = only(owned, |o: RouteView| !has_route(want, o));
    lemma_only(owned, |o: RouteView| !has_route(want, o));
    lemma_with_intruders(stale, kernel, want, tun_index);
    let all = with_intruders(stale, kernel, want, tun_index);
    lemma_rank_members(all);
    assert(all.contains(r));
    if stale.contains(r) {
        assert(owned.contains(r) && !has_route(want, r));
    }
}

/// When the kernel does what it is asked, it ends with every wanted route and
/// without a stray one: what the deletions leave, with the additions, holds all
/// that is wanted and nothing that intrudes.
pub proof fn law_obedient_kernel_converges(
    owned: Seq<RouteView>,
    kernel: Seq<RouteView>,
    want: Seq<RouteView>,
    tun_index: u32,
)
    ensures
        ({
            let gone = deletions(owned, kernel, want, tun_index);
            let rest = only(kernel, |k: RouteView| !has_route(gone, k));
            let end = rest + additions(rest, want);
            &&& forall|i: int| 0 <= i < want.len() ==> has_route(end, #[trigger] want[i])
            &&& forall|i: int| 0 <= i < end.len() ==> !intrudes(#[trigger] end[i], want, tun_index)
        }),
{
    let gone = deletions(owned, kernel, want, tun_index);
    let keep = |k: RouteView| !has_route(gone, k);
    let rest = only(kernel, keep);
    let missing = only(want, |w: RouteView| !has_route(rest, w));
    let add = additions(rest, want);
    let end = rest + add;
    let stale = only(owned, |o: RouteView| !has_route(want, o));
    let all = with_intruders(stale, kernel, want, tun_index);
    lemma_only(kernel, keep);
    lemma_only(want, |w: RouteView| !has_route(rest, w));
    lemma_with_intruders(stale, kernel, want, tun_index);
    lemma_rank_members(all);
    lemma_rank_members(missing);
    assert forall|i: int| 0 <= i < want.len() implies has_route(end, #[trigger] want[i]) by {
        let w = want[i];
        if has_route(rest, w) {
            let j = choose|j: int| 0 <= j < rest.len() && same_route(#[trigger] rest[j], w);
            assert(end[j] == rest[j]);
        } else {
            assert(want.contains(w));
            assert(missing.contains(w));
            assert(add.contains(w));
            let j = choose|j: int| 0 <= j < add.len() && add[j] == w;
            assert(end[rest.len() + j] == w);
        }
    }
    assert forall|i: int| 0 <= i < end.len() implies !intrudes(
        #[trigger] end[i],
        want,
        tun_index,
    ) by {
        let k = end[i];
        if i < rest.len() {
            assert(rest[i] == k);
            assert(rest.contains(k));
            let j = choose|j: int| 0 <= j < kernel.len() && kernel[j] == k;
            if intrudes(kernel[j], want, tun_index) {
                assert(has_route(all, kernel[j]));
                let x = choose|x: int| 0 <= x < all.len() && same_route(#[trigger] all[x], k);
                assert(all.contains(all[x]));
                assert(gone.contains(all[x]));
                let y = choose|y: int| 0 <= y < gone.len() && gone[y] == all[x];
                assert(same_route(gone[y], k));
                assert(has_route(gone, k));
            }
        } else {
            assert(add[i - rest.len()] == k);
            assert(add.contains(k));
            assert(missing.contains(k));
            let j = choose|j: int| 0 <= j < want.len() && want[j] == k;
            assert(same_route(want[j], k));
        }
    }
}

/// A kernel operation that fails changes nothing that is owned: a route that
/// could not be deleted stays owned, one that could not be added never is.
pub proof fn law_failure_changes_no_ownership(
    v: RunView,
    owned: Seq<RouteView>,
    reply: RouteReply,
    next: RunView,
    after: Seq<RouteView>,
    act: ActionView,
)
    requires
        expects(v.phase, reply),
        stepped(v, owned, reply, next, after, act),
        reply matches RouteReply::Changed(Err(e)) && !(e is NotFound && v.phase
            == RunPhase::Deleting),
    ensures
        after == owned,
{
}

/// One step of a run, with what is owned around it.
pub struct RunStep {
    pub before: RunView,
    pub owned: Seq<RouteView>,
    pub reply: RouteReply,
    pub next: RunView,
    pub after: Seq<RouteView>,
    pub act: ActionView,
}

/// The steps follow one another, each on a reply that was waited for.
pub open spec fn run_goes(steps: Seq<RunStep>) -> bool {
    &&& forall|i: int|
        0 <= i < steps.len() ==> {
            let s = #[trigger] steps[i];
            expects(s.before.phase, s.reply) && stepped(
                s.before,
                s.owned,
                s.reply,
                s.next,
                s.after,
                s.act,
            )
        }
    &&& forall|i: int, j: int|
        0 <= i && j == i + 1 && j < steps.len() ==> (#[trigger] steps[j]).before == (
        #[trigger] steps[i]).next && steps[j].owned == steps[i].after
}

/// The steps of a reconciliation, or its first ones.
pub open spec fn reconciliation(steps: Seq<RunStep>) -> bool {
    &&& steps.len() > 0
    &&& steps[0].before.phase == RunPhase::ListBefore
    &&& run_goes(steps)
}

/// How a removal of everything that is owned starts.
pub open spec fn clearing(owned: Seq<RouteView>) -> RunView {
    RunView {
        want: Seq::empty(),
        tun_index: 0,
        phase: RunPhase::Deleting,
        left: by_del_rank(owned),
        errors: Seq::empty(),
        pending: None,
        escape_failed: false,
        then_add: false,
    }
}

/// The steps of a removal, or its first ones.
pub open spec fn removal(steps: Seq<RunStep>, owned: Seq<RouteView>) -> bool {
    &&& run_goes(steps)
    &&& steps.len() > 0 ==> steps[0].before == next_delete(clearing(owned)).0 && steps[0].owned
        == owned
}

/// Every route that is left to delete is one of these, and every route that is
/// left to add is wanted.
spec fn keeps_to(v: RunView, gone: Seq<RouteView>) -> bool {
    match v.phase {
        RunPhase::Deleting | RunPhase::CheckDelete => v.left.len() > 0 && forall|x: RouteView|
            #[trigger] v.left.contains(x) ==> gone.contains(x),
        RunPhase::Adding | RunPhase::CheckAdd => v.left.len() > 0 && forall|x: RouteView|
            #[trigger] v.left.contains(x) ==> v.want.contains(x),
        _ => true,
    }
}

proof fn lemma_skipped(s: Seq<RouteView>)
    requires
        s.len() > 0,
    ensures
        s.contains(s[0]),
        forall|x: RouteView| #[trigger] s.skip(1).contains(x) ==> s.contains(x),
{
    assert forall|x: RouteView| #[trigger] s.skip(1).contains(x) implies s.contains(x) by {
        let i = choose|i: int| 0 <= i < s.skip(1).len() && s.skip(1)[i] == x;
        assert(s[i + 1] == x);
    }
}

proof fn lemma_next_delete_keeps(v: RunView, gone: Seq<RouteView>)
    requires
        forall|x: RouteView| #[trigger] v.left.contains(x) ==> gone.contains(x),
    ensures
        keeps_to(next_delete(v).0, gone),
        next_delete(v).0.want == v.want,
        next_delete(v).0.phase != RunPhase::ListBefore,
        next_delete(v).1 matches ActionView::Delete(r) ==> gone.contains(r),
        !(next_delete(v).1 is Add),
{
    if v.left.len() > 0 {
        lemma_skipped(v.left);
    }
}

proof fn lemma_next_add_keeps(v: RunView, gone: Seq<RouteView>)
    requires
        forall|x: RouteView| #[trigger] v.left.contains(x) ==> v.want.contains(x),
    ensures
        keeps_to(next_add(v).0, gone),
        next_add(v).0.want == v.want,
        next_add(v).0.phase != RunPhase::ListBefore,
        !(next_add(v).1 is Delete),
        next_add(v).1 matches ActionView::Add(r) ==> v.want.contains(r),
    decreases v.left.len(),
{
    if v.left.len() > 0 {
        lemma_skipped(v.left);
        if default_tun(v.left[0]) && v.escape_failed {
            lemma_next_add_keeps(RunView { left: v.left.skip(1), ..v }, gone);
        }
    }
}

/// What one step behind the first look at the kernel may do.
proof fn lemma_step_keeps(s: RunStep, gone: Seq<RouteView>)
    requires
        expects(s.before.phase, s.reply),
        stepped(s.before, s.owned, s.reply, s.next, s.after, s.act),
        s.before.phase != RunPhase::ListBefore,
        keeps_to(s.before, gone),
    ensures
        keeps_to(s.next, gone),
        s.next.want == s.before.want,
        s.next.phase != RunPhase::ListBefore,
        s.act matches ActionView::Delete(r) ==> gone.contains(r),
        forall|x: RouteView| #[trigger]
            s.after.contains(x) ==> s.owned.contains(x) || s.before.want.contains(x),
{
    let v = s.before;
    match v.phase {
        RunPhase::Deleting | RunPhase::CheckDelete => {
            lemma_skipped(v.left);
            let on = RunView { left: v.left.skip(1), ..v };
            lemma_next_delete_keeps(on, gone);
            lemma_next_delete_keeps(RunView { errors: v.errors.push(v.pending->0), ..on }, gone);
            lemma_only(s.owned, |o: RouteView| !same_route(o, v.left[0]));
        },
        RunPhase::ListAfter => {
            if let RouteReply::Listed(Ok(list)) = s.reply {
                let kernel = route_views(list@);
                let lacking = |w: RouteView| !has_route(kernel, w);
                lemma_only(v.want, lacking);
                lemma_rank_members(only(v.want, lacking));
                lemma_next_add_keeps(
                    RunView { left: additions(kernel, v.want), escape_failed: false, ..v },
                    gone,
                );
            }
        },
        RunPhase::Adding | RunPhase::CheckAdd => {
            lemma_skipped(v.left);
            lemma_next_add_keeps(RunView { left: v.left.skip(1), ..v }, gone);
            if let RouteReply::Changed(Err(e)) = s.reply {
                lemma_next_add_keeps(failed_add(v, e), gone);
            }
            lemma_next_add_keeps(failed_add(v, v.pending->0), gone);
        },
        _ => {},
    }
}

/// The routes that a reconciliation deletes, by the kernel's routes at its start.
spec fn gone_of(steps: Seq<RunStep>) -> Seq<RouteView> {
    match steps[0].reply {
        RouteReply::Listed(Ok(list)) => deletions(
            steps[0].after,
            route_views(list@),
            steps[0].before.want,
            steps[0].before.tun_index,
        ),
        _ => Seq::empty(),
    }
}

proof fn lemma_reconciliation(steps: Seq<RunStep>, i: int)
    requires
        reconciliation(steps),
        0 <= i < steps.len(),
    ensures
        keeps_to(steps[i].next, gone_of(steps)),
        steps[i].next.want == steps[0].before.want,
        steps[i].next.phase != RunPhase::ListBefore,
        steps[i].act matches ActionView::Delete(r) ==> gone_of(steps).contains(r),
        steps[i].act is Delete ==> steps[0].reply matches RouteReply::Listed(Ok(_)),
        forall|x: RouteView| #[trigger]
            steps[i].after.contains(x) ==> steps[0].owned.contains(x)
                || steps[0].before.want.contains(x),
    decreases i,
{
    let gone = gone_of(steps);
    if i == 0 {
        let s = steps[0];
        if let RouteReply::Listed(Ok(list)) = s.reply {
            lemma_next_delete_keeps(
                RunView {
                    left: deletions(
                        s.after,
                        route_views(list@),
                        s.before.want,
                        s.before.tun_index,
                    ),
                    ..s.before
                },
                gone,
            );
        }
    } else {
        lemma_reconciliation(steps, i - 1);
        assert(steps[i].before == steps[i - 1].next);
        lemma_step_keeps(steps[i], gone);
        if steps[i].act is Delete {
            match steps[0].reply {
                RouteReply::Listed(Ok(_)) => {},
                _ => {
                    assert(gone.len() == 0);
                },
            }
        }
    }
}

/// In all of its steps a reconciliation deletes only routes that were owned
/// before it and are no longer wanted, and routes of the kernel that are strays
/// of the tunnel or stand where a wanted route goes. It never comes to own a
/// route that was neither owned before nor wanted.
pub proof fn law_runs_leave_unrelated_routes_alone(steps: Seq<RunStep>, i: int)
    requires
        reconciliation(steps),
        0 <= i < steps.len(),
    ensures
        steps[i].act matches ActionView::Delete(r) ==> {
            let first = steps[0].before;
            &&& !has_route(first.want, r)
            &&& steps[0].reply matches RouteReply::Listed(Ok(list)) && (steps[0].owned.contains(r)
                || route_views(list@).contains(r) && intrudes(r, first.want, first.tun_index))
        },
        forall|x: RouteView| #[trigger]
            steps[i].after.contains(x) ==> steps[0].owned.contains(x)
                || steps[0].before.want.contains(x),
{
    lemma_reconciliation(steps, i);
    if let ActionView::Delete(r) = steps[i].act {
        let s = steps[0];
        if let RouteReply::Listed(Ok(list)) = s.reply {
            let kernel = route_views(list@);
            law_unrelated_routes_are_left_alone(
                s.after,
                kernel,
                s.before.want,
                s.before.tun_index,
                r,
            );
            if s.after.contains(r) && s.before.want.contains(r) {
                let j = choose|j: int| 0 <= j < s.before.want.len() && s.before.want[j] == r;
                assert(same_route(s.before.want[j], r));
            }
        }
    }
}

/// A removal deletes only what was owned when it started, and comes to own
/// nothing. After a reconciliation that is what was owned before it or wanted
/// by it, so that a route of someone else is left alone by both.
pub proof fn law_removals_leave_unrelated_routes_alone(
    run: Seq<RunStep>,
    steps: Seq<RunStep>,
    i: int,
)
    requires
        reconciliation(run),
        removal(steps, run.last().after),
        0 <= i < steps.len(),
    ensures
        steps[i].act matches ActionView::Delete(r) ==> run[0].owned.contains(r)
            || run[0].before.want.contains(r),
        next_delete(clearing(run.last().after)).1 matches ActionView::Delete(r)
            ==> run[0].owned.contains(r) || run[0].before.want.contains(r),
        forall|x: RouteView| #[trigger]
            steps[i].after.contains(x) ==> run.last().after.contains(x),
{
    lemma_reconciliation(run, run.len() - 1);
    lemma_removal(steps, run.last().after, i);
    lemma_rank_members(run.last().after);
    lemma_next_delete_keeps(clearing(run.last().after), run.last().after);
}

proof fn lemma_removal(steps: Seq<RunStep>, owned: Seq<RouteView>, i: int)
    requires
        removal(steps, owned),
        0 <= i < steps.len(),
    ensures
        keeps_to(steps[i].next, owned),
        steps[i].next.phase != RunPhase::ListBefore,
        steps[i].next.want.len() == 0,
        steps[i].act matches ActionView::Delete(r) ==> owned.contains(r),
        forall|x: RouteView| #[trigger] steps[i].after.contains(x) ==> owned.contains(x),
    decreases i,
{
    if i == 0 {
        lemma_rank_members(owned);
        lemma_next_delete_keeps(clearing(owned), owned);
    } else {
        lemma_removal(steps, owned, i - 1);
        assert(steps[i].before == steps[i - 1].next);
    }
    lemma_step_keeps(steps[i], owned);
}

} // verus!
