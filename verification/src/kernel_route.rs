//! Routes in the form in which the kernel takes and lists them.

use crate::forward::Platform;
use crate::membership::opt_text;
use crate::net::{lemma_net_eq, Ipv4Net};
use crate::route_spec::{RouteSpec, RouteView};
use crate::underlay::IpAddr;
use vstd::prelude::*;

verus! {

/// A route of the kernel's table, of either family.
#[derive(Debug)]
pub struct KernelRoute {
    pub destination: IpAddr,
    pub prefix: u8,
    pub gateway: Option<IpAddr>,
    pub if_index: Option<u32>,
    pub if_name: Option<String>,
    /// Left to the system where nothing is said.
    pub metric: Option<u32>,
}

pub struct KernelRouteView {
    pub destination: IpAddr,
    pub prefix: u8,
    pub gateway: Option<IpAddr>,
    pub if_index: Option<u32>,
    pub if_name: Option<Seq<char>>,
    pub metric: Option<u32>,
}

impl View for KernelRoute {
    type V = KernelRouteView;

    open spec fn view(&self) -> KernelRouteView {
        KernelRouteView {
            destination: self.destination,
            prefix: self.prefix,
            gateway: self.gateway,
            if_index: self.if_index,
            if_name: opt_text(self.if_name),
            metric: self.metric,
        }
    }
}

/// A route as it is handed to the kernel: without host bits, and where a route
/// into the tunnel could tie with one of the machine's own, ahead of it.
pub open spec fn handed(s: RouteView, platform: Platform) -> KernelRouteView {
    KernelRouteView {
        destination: IpAddr::V4(s.dest.first() as u32),
        prefix: s.dest.bits(),
        gateway: match s.gateway {
            Some(gw) => Some(IpAddr::V4(gw)),
            None => None,
        },
        if_index: Some(s.if_index),
        if_name: if s.if_name.len() == 0 {
            None
        } else {
            Some(s.if_name)
        },
        metric: if s.gateway is None && (platform == Platform::Linux || platform
            == Platform::Windows) {
            Some(1u32)
        } else {
            None
        },
    }
}

/// The route for the kernel.
pub fn spec_to_route(spec: &RouteSpec, platform: Platform) -> (r: KernelRoute)
    ensures
        r@ == handed(spec@, platform),
{
    let gateway = match spec.gateway {
        Some(gw) => Some(IpAddr::V4(gw)),
        None => None,
    };
    let if_name = if spec.if_name.as_str().unicode_len() == 0 {
        None
    } else {
        Some(spec.if_name.clone())
    };
    let metric: Option<u32> = if spec.gateway.is_none() && (platform == Platform::Linux || platform
        == Platform::Windows) {
        Some(1)
    } else {
        None
    };
    KernelRoute {
        destination: IpAddr::V4(spec.dest.network()),
        prefix: spec.dest.prefix_len(),
        gateway,
        if_index: Some(spec.if_index),
        if_name,
        metric,
    }
}

/// Whether a listed route is one of those that are looked at: IPv4, with a
/// gateway of the same family if any, and on a known interface.
pub open spec fn is_seen(k: KernelRouteView) -> bool {
    &&& k.destination is V4
    &&& k.prefix <= 32
    &&& !(k.gateway matches Some(IpAddr::V6(_)))
    &&& k.if_index is Some
}

/// A route is what the kernel lists.
pub open spec fn is_listed_as(s: RouteView, k: KernelRouteView) -> bool {
    &&& k.destination == IpAddr::V4(s.dest.base())
    &&& s.dest.bits() == k.prefix
    &&& s.gateway == match k.gateway {
        Some(IpAddr::V4(gw)) => Some(gw),
        _ => None,
    }
    &&& k.if_index == Some(s.if_index)
    &&& s.if_name == match k.if_name {
        Some(name) => name,
        None => Seq::empty(),
    }
}

/// The route that the kernel lists, unless it is none of those that are looked
/// at.
pub fn spec_from_route(route: &KernelRoute) -> (r: Option<RouteSpec>)
    ensures
        r is Some <==> is_seen(route@),
        r matches Some(s) ==> is_listed_as(s@, route@),
{
    let addr: u32 = match route.destination {
        IpAddr::V4(ip) => ip,
        IpAddr::V6(_) => {
            return None;
        },
    };
    let dest = match Ipv4Net::new(addr, route.prefix) {
        Some(net) => net,
        None => {
            return None;
        },
    };
    let gateway: Option<u32> = match route.gateway {
        Some(IpAddr::V4(ip)) => Some(ip),
        None => None,
        Some(IpAddr::V6(_)) => {
            return None;
        },
    };
    let if_index: u32 = match route.if_index {
        Some(i) => i,
        None => {
            return None;
        },
    };
    let if_name = match &route.if_name {
        Some(name) => name.clone(),
        None => String::new(),
    };
    proof {
        assert(route.if_name is None ==> if_name@ =~= Seq::<char>::empty());
    }
    Some(RouteSpec { dest, gateway, if_index, if_name })
}

/// The listed routes that are looked at, in order.
pub open spec fn seen_routes(listed: Seq<KernelRouteView>) -> Seq<KernelRouteView>
    decreases listed.len(),
{
    if listed.len() == 0 {
        Seq::empty()
    } else {
        let front = seen_routes(listed.drop_last());
        if is_seen(listed.last()) {
            front.push(listed.last())
        } else {
            front
        }
    }
}

/// The listed routes as values.
pub open spec fn kernel_views(v: Seq<KernelRoute>) -> Seq<KernelRouteView> {
    Seq::new(v.len(), |i: int| v[i]@)
}

/// Reads a list of the kernel's routes.
pub fn specs_from_routes(listed: &Vec<KernelRoute>) -> (r: Vec<RouteSpec>)
    ensures
        r@.len() == seen_routes(kernel_views(listed@)).len(),
        forall|i: int|
            0 <= i < r@.len() ==> is_listed_as(
                (#[trigger] r@[i])@,
                seen_routes(kernel_views(listed@))[i],
            ),
{
    let ghost all = kernel_views(listed@);
    let mut out: Vec<RouteSpec> = Vec::new();
    let mut i: usize = 0;
    while i < listed.len()
        invariant
            i <= listed@.len(),
            all == kernel_views(listed@),
            out@.len() == seen_routes(all.take(i as int)).len(),
            forall|j: int|
                0 <= j < out@.len() ==> is_listed_as(
                    (#[trigger] out@[j])@,
                    seen_routes(all.take(i as int))[j],
                ),
        decreases listed@.len() - i,
    {
        let ghost next = all.take(i + 1);
        proof {
            assert(next.drop_last() =~= all.take(i as int));
            assert(next.last() == listed@[i as int]@);
        }
        if let Some(s) = spec_from_route(&listed[i]) {
            out.push(s);
        }
        i = i + 1;
    }
    proof {
        assert(all.take(i as int) =~= all);
    }
    out
}

/// A route that was handed to the kernel and is listed by it unchanged is read
/// as the same route again, but for host bits of its destination.
pub proof fn law_kernel_gives_a_route_back(s: RouteView, back: RouteView, platform: Platform)
    requires
        s.dest.bits() <= 32,
        is_listed_as(back, handed(s, platform)),
    ensures
        is_seen(handed(s, platform)),
        back.dest.base() == s.dest.first(),
        back.dest.bits() == s.dest.bits(),
        back.gateway == s.gateway,
        back.if_index == s.if_index,
        back.if_name == s.if_name,
        s.dest.base() == s.dest.first() ==> back == s,
{
    broadcast use lemma_net_eq;

    crate::net::lemma_block_range(s.dest.base(), s.dest.base(), s.dest.bits());
    assert(s.if_name.len() == 0 ==> s.if_name =~= Seq::<char>::empty());
}

} // verus!
