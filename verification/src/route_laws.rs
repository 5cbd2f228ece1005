//! Laws of the reconciliation of kernel routes, stated on the routes.

use crate::membership::SplitTunnelMode;
use crate::route_engine::{
    additions, clearing, deletions, intrudes, lemma_rank_members, lemma_with_intruders, next_add,
    next_delete, run_starts, stepped, want_is, with_intruders, ActionView, RouteReply, RouteRun,
    RunPhase, RunView,
};
use crate::route_spec::{
    add_rank_of, by_add_rank, by_del_rank, has_route, lemma_only, only, same_route, RouteView,
};
use crate::system_routes::{DesiredRoutes, RouteError};
use crate::underlay::{IpAddr, UnderlayInfo};
use vstd::prelude::*;

verus! {

/// The kernel takes two routes for one: to the same destination, through the
/// same gateway, on the same interface.
pub open spec fn alike(a: RouteView, b: RouteView) -> bool {
    a.dest == b.dest && a.gateway == b.gateway && a.if_index == b.if_index
}

/// A list has a route that is alike.
pub open spec fn has_alike(s: Seq<RouteView>, r: RouteView) -> bool {
    exists|i: int| 0 <= i < s.len() && alike(#[trigger] s[i], r)
}

proof fn lemma_alike(s: Seq<RouteView>, r: RouteView)
    ensures
        has_route(s, r) <==> has_alike(s, r),
{
    if has_route(s, r) {
        let i = choose|i: int| 0 <= i < s.len() && same_route(#[trigger] s[i], r);
        assert(alike(s[i], r));
    }
    if has_alike(s, r) {
        let i = choose|i: int| 0 <= i < s.len() && alike(#[trigger] s[i], r);
        assert(same_route(s[i], r));
    }
}

/// A route of the kernel that has to leave: it is not wanted, and it is the
/// tunnel's own or stands where a wanted route goes.
pub open spec fn is_in_the_way(k: RouteView, want: Seq<RouteView>, tun_index: u32) -> bool {
    &&& !has_alike(want, k)
    &&& {
        ||| k.if_index == tun_index && k.gateway is None
        ||| exists|i: int| 0 <= i < want.len() && (#[trigger] want[i]).dest == k.dest
    }
}

/// What is deleted: every owned route that is no longer wanted, and every
/// route of the kernel that is in the way. Nothing else is.
pub proof fn law_what_is_deleted(
    owned: Seq<RouteView>,
    kernel: Seq<RouteView>,
    want: Seq<RouteView>,
    tun_index: u32,
    r: RouteView,
)
    ensures
        ({
            let gone = deletions(owned, kernel, want, tun_index);
            &&& owned.contains(r) && !has_alike(want, r) ==> gone.contains(r)
            &&& kernel.contains(r) && is_in_the_way(r, want, tun_index) ==> has_alike(gone, r)
            &&& gone.contains(r) ==> !has_alike(want, r) && (owned.contains(r) || (kernel.contains(
                r,
            ) && is_in_the_way(r, want, tun_index)))
        }),
{
    let keep = |o: RouteView| !has_route(want, o);
    let stale = only(owned, keep);
    lemma_only(owned, keep);
    lemma_with_intruders(stale, kernel, want, tun_index);
    let all = with_intruders(stale, kernel, want, tun_index);
    let gone = deletions(owned, kernel, want, tun_index);
    lemma_rank_members(all);
    lemma_alike(want, r);
    lemma_alike(gone, r);
    assert(intrudes(r, want, tun_index) <==> is_in_the_way(r, want, tun_index));
    assert(owned.contains(r) && !has_alike(want, r) ==> stale.contains(r));
    assert(stale.contains(r) ==> all.contains(r));
    if kernel.contains(r) && is_in_the_way(r, want, tun_index) {
        let i = choose|i: int| 0 <= i < kernel.len() && kernel[i] == r;
        assert(intrudes(kernel[i], want, tun_index));
        let x = choose|x: int| 0 <= x < all.len() && same_route(#[trigger] all[x], r);
        assert(all.contains(all[x]));
        assert(gone.contains(all[x]));
        let y = choose|y: int| 0 <= y < gone.len() && gone[y] == all[x];
        assert(alike(gone[y], r));
    }
    if gone.contains(r) {
        assert(all.contains(r));
        assert(stale.contains(r) ==> owned.contains(r) && keep(r));
    }
}

/// What is added: every wanted route that the kernel lacks, and nothing else.
pub proof fn law_what_is_added(kernel: Seq<RouteView>, want: Seq<RouteView>, r: RouteView)
    ensures
        additions(kernel, want).contains(r) <==> want.contains(r) && !has_alike(kernel, r),
{
    let keep = |w: RouteView| !has_route(kernel, w);
    lemma_only(want, keep);
    lemma_rank_members(only(want, keep));
    lemma_alike(kernel, r);
    assert(additions(kernel, want).contains(r) <==> only(want, keep).contains(r));
}

/// Escapes to single hosts are added first, then other escapes, then routes
/// into the tunnel, and the tunnel's default last. They leave the other way
/// round.
pub proof fn law_order_of_routes(s: Seq<RouteView>, i: int, j: int)
    ensures
        0 <= i < j < by_add_rank(s).len() ==> turn(by_add_rank(s)[i]) <= turn(by_add_rank(s)[j]),
        0 <= i < j < by_del_rank(s).len() ==> turn(by_del_rank(s)[i]) >= turn(by_del_rank(s)[j]),
        forall|x: RouteView| #[trigger] by_add_rank(s).contains(x) <==> s.contains(x),
        forall|x: RouteView| #[trigger] by_del_rank(s).contains(x) <==> s.contains(x),
{
    let f0 = |r: RouteView| add_rank_of(r) == 0;
    let f1 = |r: RouteView| add_rank_of(r) == 1;
    let f2 = |r: RouteView| add_rank_of(r) == 2;
    let f3 = |r: RouteView| add_rank_of(r) == 3;
    lemma_only(s, f0);
    lemma_only(s, f1);
    lemma_only(s, f2);
    lemma_only(s, f3);
    lemma_rank_members(s);
    let a = only(s, f0);
    let b = only(s, f1);
    let c = only(s, f2);
    let d = only(s, f3);
    assert(by_add_rank(s) == a + b + c + d);
    assert(by_del_rank(s) == d + c + b + a);
    lemma_parts(a, b, c, d, 0, 1, 2, 3, i);
    lemma_parts(a, b, c, d, 0, 1, 2, 3, j);
    lemma_parts(d, c, b, a, 3, 2, 1, 0, i);
    lemma_parts(d, c, b, a, 3, 2, 1, 0, j);
}

/// When a route is added: 0 to 3, from first to last.
pub open spec fn turn(r: RouteView) -> int {
    if r.gateway is Some {
        if r.dest.bits() == 32 {
            0
        } else {
            1
        }
    } else if r.dest.bits() == 0 {
        3
    } else {
        2
    }
}

proof fn lemma_parts(
    a: Seq<RouteView>,
    b: Seq<RouteView>,
    c: Seq<RouteView>,
    d: Seq<RouteView>,
    ta: int,
    tb: int,
    tc: int,
    td: int,
    i: int,
)
    requires
        forall|x: RouteView| #[trigger] a.contains(x) ==> add_rank_of(x) == ta,
        forall|x: RouteView| #[trigger] b.contains(x) ==> add_rank_of(x) == tb,
        forall|x: RouteView| #[trigger] c.contains(x) ==> add_rank_of(x) == tc,
        forall|x: RouteView| #[trigger] d.contains(x) ==> add_rank_of(x) == td,
    ensures
        ({
            let all = a + b + c + d;
            0 <= i < all.len() ==> turn(all[i]) == if i < a.len() {
                ta
            } else if i < a.len() + b.len() {
                tb
            } else if i < a.len() + b.len() + c.len() {
                tc
            } else {
                td
            }
        }),
{
    let all = a + b + c + d;
    if 0 <= i < all.len() {
        if i < a.len() {
            assert(a.contains(a[i]));
        } else if i < a.len() + b.len() {
            assert(b.contains(b[i - a.len()]));
        } else if i < a.len() + b.len() + c.len() {
            assert(c.contains(c[i - a.len() - b.len()]));
        } else {
            assert(d.contains(d[i - a.len() - b.len() - c.len()]));
        }
    }
}

/// An underlay with a way out over IPv4.
pub open spec fn way_out(u: Option<UnderlayInfo>, gw: u32) -> bool {
    u matches Some(i) && i.gateway == Some(IpAddr::V4(gw))
}

/// What a reconciliation wants, on the fields of what is desired. Into the
/// tunnel: the networks behind other members, the peers, what the profile
/// lists to be tunnelled, and everything where it leaves through an exit and
/// the underlay has a gateway. Around it, through that gateway: what the
/// profile lists, the private ranges and the hosts that are needed, where
/// everything else leaves through an exit.
pub proof fn law_what_a_run_wants(
    want: Seq<RouteView>,
    d: DesiredRoutes,
    u: Option<UnderlayInfo>,
    tun_index: u32,
    r: RouteView,
)
    requires
        want_is(want, d, u, tun_index),
    ensures
        r.gateway is None ==> (want.contains(r) <==> {
            &&& r.if_index == tun_index
            &&& r.if_name == d.ifname@
            &&& {
                ||| d.remote_subnets@.contains(r.dest)
                ||| d.peer_routes@.contains(r.dest)
                ||| d.profile.split_tunnel_mode == SplitTunnelMode::Include
                    && d.profile.split_tunnel_cidrs@.contains(r.dest)
                ||| d.profile.split_tunnel_mode == SplitTunnelMode::Exclude && (d.has_exit
                    || d.profile.exit_node_endpoint_id is Some) && r.dest.base() == 0
                    && r.dest.bits() == 0 && exists|gw: u32| way_out(u, gw)
            }
        }),
        r.gateway matches Some(gw) ==> (want.contains(r) <==> {
            &&& way_out(u, gw)
            &&& u matches Some(i) && r.if_index == i.interface_index && r.if_name
                == i.interface_name@
            &&& d.profile.split_tunnel_mode == SplitTunnelMode::Exclude
            &&& d.has_exit || d.profile.exit_node_endpoint_id is Some
            &&& {
                ||| d.profile.split_tunnel_cidrs@.contains(r.dest)
                ||| d.profile.allow_local_lan && (r.dest.base() == 0x0a00_0000 && r.dest.bits()
                    == 8 || r.dest.base() == 0xac10_0000 && r.dest.bits() == 12 || r.dest.base()
                    == 0xc0a8_0000 && r.dest.bits() == 16)
                ||| r.dest.bits() == 32 && d.underlay_hosts@.contains(r.dest.base())
            }
        }),
{
    let g = crate::route_engine::underlay_gateway(u);
    if let Some(gw) = g {
        assert(way_out(u, gw));
    }
    assert(g is Some <==> exists|gw: u32| way_out(u, gw));
    assert(want.contains(r) <==> d.wanted(
        r,
        g,
        crate::route_engine::underlay_interface(u),
        (tun_index, d.ifname@),
        crate::route_engine::default_allowed(d, u),
    ));
}

/// A run works its routes off one after the other. A deletion that succeeds
/// takes the route, and it alone, out of what is owned, and the next one
/// follows; after the last one the kernel is listed for what is to be added, or
/// the run ends with the errors that came up.
pub proof fn law_deletions_are_worked_off(
    v: RunView,
    owned: Seq<RouteView>,
    res: Result<(), RouteError>,
    next: RunView,
    after: Seq<RouteView>,
    act: ActionView,
    x: RouteView,
)
    requires
        v.phase == RunPhase::Deleting,
        v.left.len() > 0,
        stepped(v, owned, RouteReply::Changed(res), next, after, act),
    ensures
        (res is Ok || res == Err::<(), RouteError>(RouteError::NotFound)) ==> {
            &&& after.contains(x) <==> owned.contains(x) && !alike(x, v.left[0])
            &&& next.left == v.left.skip(1)
            &&& v.left.len() > 1 ==> act == ActionView::Delete(v.left[1]) && next.phase
                == RunPhase::Deleting
            &&& v.left.len() == 1 && v.then_add ==> act == ActionView::List && next.phase
                == RunPhase::ListAfter
            &&& v.left.len() == 1 && !v.then_add ==> act == ActionView::Done(v.errors)
        },
        !(res is Ok || res == Err::<(), RouteError>(RouteError::NotFound)) ==> {
            &&& after == owned
            &&& act == ActionView::List
            &&& next.phase == RunPhase::CheckDelete
            &&& next.pending == Some(res->Err_0)
            &&& next.left == v.left
        },
{
    let keep = |o: RouteView| !same_route(o, v.left[0]);
    lemma_only(owned, keep);
    assert(only(owned, keep).contains(x) <==> owned.contains(x) && keep(x));
    if v.left.len() > 1 {
        assert(v.left.skip(1)[0] == v.left[1]);
    }
}

/// A deletion that failed counts as done where the kernel has the route no
/// longer; else the route stays owned and the error is kept. Either way the
/// next one follows.
pub proof fn law_failed_deletions_are_looked_at(
    v: RunView,
    owned: Seq<RouteView>,
    res: Result<Vec<crate::route_spec::RouteSpec>, RouteError>,
    next: RunView,
    after: Seq<RouteView>,
    act: ActionView,
    x: RouteView,
)
    requires
        v.phase == RunPhase::CheckDelete,
        v.left.len() > 0,
        v.pending is Some,
        stepped(v, owned, RouteReply::Listed(res), next, after, act),
    ensures
        ({
            let gone = res matches Ok(list) && !has_alike(
                crate::route_spec::route_views(list@),
                v.left[0],
            );
            let errors = if gone {
                v.errors
            } else {
                v.errors.push(v.pending->0)
            };
            &&& gone ==> (after.contains(x) <==> owned.contains(x) && !alike(x, v.left[0]))
            &&& !gone ==> after == owned
            &&& next.left == v.left.skip(1)
            &&& v.left.len() > 1 ==> act == ActionView::Delete(v.left[1]) && next.errors == errors
            &&& v.left.len() == 1 && v.then_add ==> act == ActionView::List && next.errors == errors
            &&& v.left.len() == 1 && !v.then_add ==> act == ActionView::Done(errors)
        }),
{
    let keep = |o: RouteView| !same_route(o, v.left[0]);
    lemma_only(owned, keep);
    assert(only(owned, keep).contains(x) <==> owned.contains(x) && keep(x));
    if let Ok(list) = res {
        lemma_alike(crate::route_spec::route_views(list@), v.left[0]);
    }
    if v.left.len() > 1 {
        assert(v.left.skip(1)[0] == v.left[1]);
    }
}

/// A route for everything into the tunnel.
pub open spec fn is_tunnel_default(r: RouteView) -> bool {
    r.gateway is None && r.dest.bits() == 0
}

/// An escape of a single host.
pub open spec fn is_host_escape(r: RouteView) -> bool {
    r.gateway is Some && r.dest.bits() == 32
}

/// An addition that succeeds makes the route, and it alone, owned; one that
/// fails changes nothing that is owned, and its error is kept. Either way the
/// next route follows, and the run ends after the last one with all errors;
/// but a default into the tunnel is passed over once an escape of a host
/// failed. Where the kernel says that the route exists it is listed.
pub proof fn law_additions_are_worked_off(
    v: RunView,
    owned: Seq<RouteView>,
    res: Result<(), RouteError>,
    next: RunView,
    after: Seq<RouteView>,
    act: ActionView,
    x: RouteView,
)
    requires
        v.phase == RunPhase::Adding,
        v.left.len() > 0,
        stepped(v, owned, RouteReply::Changed(res), next, after, act),
    ensures
        res == Err::<(), RouteError>(RouteError::AlreadyExists) ==> after == owned && act
            == ActionView::List && next.phase == RunPhase::CheckAdd && next.left == v.left,
        res != Err::<(), RouteError>(RouteError::AlreadyExists) ==> ({
            let errors = if res is Ok {
                v.errors
            } else {
                v.errors.push(res->Err_0)
            };
            let escape_failed = v.escape_failed || (res is Err && is_host_escape(v.left[0]));
            &&& res is Ok ==> (after.contains(x) <==> x == v.left[0] || owned.contains(x))
            &&& res is Err ==> after == owned
            &&& v.left.len() == 1 ==> act == ActionView::Done(errors)
            &&& v.left.len() > 1 && !(escape_failed && is_tunnel_default(v.left[1])) ==> act
                == ActionView::Add(v.left[1]) && next.errors == errors && next.left == v.left.skip(
                1,
            )
            &&& v.left.len() == 2 && escape_failed && is_tunnel_default(v.left[1]) ==> act
                == ActionView::Done(errors)
        }),
{
    reveal_with_fuel(next_add, 3);
    let rest = v.left.skip(1);
    if v.left.len() > 1 {
        assert(rest[0] == v.left[1]);
    }
}

/// A route that the kernel said to have is owned where it is listed, and its
/// addition failed otherwise.
pub proof fn law_existing_routes_are_looked_at(
    v: RunView,
    owned: Seq<RouteView>,
    res: Result<Vec<crate::route_spec::RouteSpec>, RouteError>,
    next: RunView,
    after: Seq<RouteView>,
    act: ActionView,
    x: RouteView,
)
    requires
        v.phase == RunPhase::CheckAdd,
        v.left.len() > 0,
        v.pending is Some,
        stepped(v, owned, RouteReply::Listed(res), next, after, act),
    ensures
        ({
            let there = res matches Ok(list) && has_alike(
                crate::route_spec::route_views(list@),
                v.left[0],
            );
            let errors = if there {
                v.errors
            } else {
                v.errors.push(v.pending->0)
            };
            let escape_failed = v.escape_failed || (!there && is_host_escape(v.left[0]));
            &&& there ==> (after.contains(x) <==> x == v.left[0] || owned.contains(x))
            &&& !there ==> after == owned
            &&& v.left.len() == 1 ==> act == ActionView::Done(errors)
            &&& v.left.len() > 1 && !(escape_failed && is_tunnel_default(v.left[1])) ==> act
                == ActionView::Add(v.left[1]) && next.errors == errors && next.left == v.left.skip(
                1,
            )
        }),
{
    reveal_with_fuel(next_add, 3);
    if let Ok(list) = res {
        lemma_alike(crate::route_spec::route_views(list@), v.left[0]);
    }
    let rest = v.left.skip(1);
    if v.left.len() > 1 {
        assert(rest[0] == v.left[1]);
    }
}

/// A reconciliation looks at the kernel's routes first. Of the owned and the
/// wanted routes those that the kernel has are owned, and what is deleted comes
/// next; after that the kernel is listed again for what is to be added. Where
/// it cannot be listed the run ends with that error, and nothing changes.
pub proof fn law_listings_start_the_work(
    v: RunView,
    owned: Seq<RouteView>,
    res: Result<Vec<crate::route_spec::RouteSpec>, RouteError>,
    next: RunView,
    after: Seq<RouteView>,
    act: ActionView,
    x: RouteView,
)
    requires
        v.phase == RunPhase::ListBefore || v.phase == RunPhase::ListAfter,
        stepped(v, owned, RouteReply::Listed(res), next, after, act),
    ensures
        res matches Err(e) ==> act == ActionView::Failed(e) && after == owned && next.phase
            == RunPhase::Finished,
        res matches Ok(list) && v.phase == RunPhase::ListBefore ==> ({
            let kernel = crate::route_spec::route_views(res->Ok_0@);
            let gone = deletions(after, kernel, v.want, v.tun_index);
            &&& after.contains(x) <==> (owned.contains(x) || v.want.contains(x)) && has_alike(
                kernel,
                x,
            )
            &&& gone.len() > 0 ==> act == ActionView::Delete(gone[0]) && next.left == gone
                && next.phase == RunPhase::Deleting
            &&& gone.len() == 0 && v.then_add ==> act == ActionView::List && next.phase
                == RunPhase::ListAfter
        }),
        res matches Ok(list) && v.phase == RunPhase::ListAfter ==> ({
            let more = additions(crate::route_spec::route_views(res->Ok_0@), v.want);
            &&& after == owned
            &&& more.len() > 0 ==> act == ActionView::Add(more[0]) && next.left == more
                && next.phase == RunPhase::Adding
            &&& more.len() == 0 ==> act == ActionView::Done(v.errors)
        }),
{
    if let Ok(list) = res {
        lemma_alike(crate::route_spec::route_views(list@), x);
    }
}

/// A reconciliation starts where the number of the tunnel's interface is known
/// or was looked up, and fails by the interface's name otherwise. It takes the
/// interface's own number before the one that was looked up, and the underlay
/// that was given before the one that was found, and begins with a list of the
/// kernel's routes.
pub proof fn law_how_a_run_starts(
    r: Result<RouteRun, RouteError>,
    d: DesiredRoutes,
    discovered: Option<UnderlayInfo>,
    resolved: Option<u32>,
)
    requires
        run_starts(r, d, discovered, resolved),
    ensures
        d.tun_if_index is None && resolved is None ==> (r matches Err(
            RouteError::InvalidInterface { route },
        ) && route@ == d.ifname@),
        d.tun_if_index is Some || resolved is Some ==> r is Ok,
        r matches Ok(run) ==> {
            let v = run.state();
            &&& d.tun_if_index matches Some(i) ==> v.tun_index == i
            &&& d.tun_if_index is None ==> Some(v.tun_index) == resolved
            &&& d.underlay is Some ==> want_is(v.want, d, d.underlay, v.tun_index)
            &&& d.underlay is None ==> want_is(v.want, d, discovered, v.tun_index)
            &&& v.phase == RunPhase::ListBefore
            &&& v.errors.len() == 0
            &&& v.left.len() == 0
            &&& v.then_add
            &&& !v.escape_failed
        },
{
}

/// Taking everything back deletes each owned route, tunnel routes before the
/// escapes around them, adds nothing, and is done at once where nothing is
/// owned.
pub proof fn law_everything_owned_is_taken_back(owned: Seq<RouteView>, x: RouteView)
    ensures
        ({
            let first = next_delete(clearing(owned));
            &&& first.0.left.contains(x) <==> owned.contains(x)
            &&& !first.0.then_add
            &&& first.0.want.len() == 0
            &&& owned.len() > 0 ==> (first.1 matches ActionView::Delete(r) && owned.contains(r))
                && first.0.phase == RunPhase::Deleting
            &&& owned.len() == 0 ==> first.1 == ActionView::Done(Seq::empty())
        }),
{
    law_order_of_routes(owned, 0, 0);
    let all = by_del_rank(owned);
    if owned.len() > 0 {
        assert(owned.contains(owned[0]));
        assert(all.contains(owned[0]));
        assert(all.contains(all[0]));
    } else if all.len() > 0 {
        assert(all.contains(all[0]));
    }
}

} // verus!
