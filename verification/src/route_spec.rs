//! Operating system routes: their identity, their order, and ordered sets of them.

use crate::net::{dotted, ipv4_text, lemma_net_eq, Ipv4Net};
use crate::text::{decimal, u64_text};
use vstd::prelude::*;

verus! {

/// A route as the kernel knows it.
#[derive(Debug)]
pub struct RouteSpec {
    pub dest: Ipv4Net,
    pub gateway: Option<u32>,
    pub if_index: u32,
    pub if_name: String,
}

pub struct RouteView {
    pub dest: Ipv4Net,
    pub gateway: Option<u32>,
    pub if_index: u32,
    pub if_name: Seq<char>,
}

impl View for RouteSpec {
    type V = RouteView;

    open spec fn view(&self) -> RouteView {
        RouteView {
            dest: self.dest,
            gateway: self.gateway,
            if_index: self.if_index,
            if_name: self.if_name@,
        }
    }
}

/// Two routes are the same to the kernel: destination, gateway and interface agree.
pub open spec fn same_route(a: RouteView, b: RouteView) -> bool {
    a.dest == b.dest && a.gateway == b.gateway && a.if_index == b.if_index
}

/// The order in which routes are added: escapes to single hosts, other escapes,
/// tunnel routes, and the tunnel's default last.
pub open spec fn add_rank_of(r: RouteView) -> int {
    match r.gateway {
        Some(_) => if r.dest.bits() == 32 {
            0
        } else {
            1
        },
        None => if r.dest.bits() == 0 {
            3
        } else {
            2
        },
    }
}

/// The tunnel's default route.
pub open spec fn default_tun(r: RouteView) -> bool {
    r.gateway is None && r.dest.bits() == 0
}

/// A route to one host around the tunnel.
pub open spec fn host_escape(r: RouteView) -> bool {
    r.gateway is Some && r.dest.bits() == 32
}

/// The text of a route.
pub open spec fn route_text(r: RouteView) -> Seq<char> {
    let dest = dotted(r.dest.first() as u32) + "/"@ + decimal(r.dest.bits() as nat);
    match r.gateway {
        Some(gw) => dest + " via "@ + dotted(gw) + " ifindex="@ + decimal(r.if_index as nat) + " ("@
            + r.if_name + ")"@,
        None => dest + " dev "@ + r.if_name + " ifindex="@ + decimal(r.if_index as nat),
    }
}

/// Dictionary order of texts.
pub open spec fn text_before(a: Seq<char>, b: Seq<char>) -> bool
    decreases a.len(),
{
    if b.len() == 0 {
        false
    } else if a.len() == 0 {
        true
    } else if a[0] != b[0] {
        a[0] < b[0]
    } else {
        text_before(a.skip(1), b.skip(1))
    }
}

/// Order of optional gateways: none comes first.
pub open spec fn gateway_before(a: Option<u32>, b: Option<u32>) -> bool {
    match (a, b) {
        (None, Some(_)) => true,
        (Some(x), Some(y)) => x < y,
        _ => false,
    }
}

/// The order of routes: by destination, prefix length, gateway, interface and name.
pub open spec fn precedes(a: RouteView, b: RouteView) -> bool {
    if a.dest.base() != b.dest.base() {
        a.dest.base() < b.dest.base()
    } else if a.dest.bits() != b.dest.bits() {
        a.dest.bits() < b.dest.bits()
    } else if a.gateway != b.gateway {
        gateway_before(a.gateway, b.gateway)
    } else if a.if_index != b.if_index {
        a.if_index < b.if_index
    } else {
        text_before(a.if_name, b.if_name)
    }
}

/// A list of routes in order, none of them twice.
pub open spec fn ordered(s: Seq<RouteView>) -> bool {
    forall|i: int, j: int| 0 <= i < j < s.len() ==> precedes(#[trigger] s[i], #[trigger] s[j])
}

/// The views of a list of routes.
pub open spec fn route_views(s: Seq<RouteSpec>) -> Seq<RouteView> {
    Seq::new(s.len(), |i: int| s[i]@)
}

/// A route of the list is the same to the kernel.
pub open spec fn has_route(s: Seq<RouteView>, r: RouteView) -> bool {
    exists|i: int| 0 <= i < s.len() && same_route(#[trigger] s[i], r)
}

proof fn lemma_text_total(a: Seq<char>, b: Seq<char>)
    ensures
        text_before(a, b) || text_before(b, a) || a == b,
        !(text_before(a, b) && text_before(b, a)),
        text_before(a, b) ==> a != b,
    decreases a.len(),
{
    if a.len() > 0 && b.len() > 0 && a[0] == b[0] {
        lemma_text_total(a.skip(1), b.skip(1));
        if a.skip(1) == b.skip(1) {
            assert(a =~= seq![a[0]] + a.skip(1));
            assert(b =~= seq![b[0]] + b.skip(1));
        }
    } else if a.len() == 0 && b.len() == 0 {
        assert(a =~= b);
    }
}

proof fn lemma_text_trans(a: Seq<char>, b: Seq<char>, c: Seq<char>)
    requires
        text_before(a, b),
        text_before(b, c),
    ensures
        text_before(a, c),
    decreases a.len(),
{
    if a.len() > 0 && a[0] == b[0] && b[0] == c[0] {
        lemma_text_trans(a.skip(1), b.skip(1), c.skip(1));
    }
}

/// Of two different routes one comes before the other.
pub proof fn lemma_order_total(a: RouteView, b: RouteView)
    ensures
        precedes(a, b) || precedes(b, a) || a == b,
        !(precedes(a, b) && precedes(b, a)),
        precedes(a, b) ==> a != b,
{
    lemma_text_total(a.if_name, b.if_name);
    lemma_net_eq(a.dest, b.dest);
}

proof fn lemma_order_trans(a: RouteView, b: RouteView, c: RouteView)
    requires
        precedes(a, b),
        precedes(b, c),
    ensures
        precedes(a, c),
{
    if text_before(a.if_name, b.if_name) && text_before(b.if_name, c.if_name) {
        lemma_text_trans(a.if_name, b.if_name, c.if_name);
    }
}

fn name_before(a: &String, b: &String) -> (r: bool)
    ensures
        r == text_before(a@, b@),
{
    let x = a.as_str();
    let y = b.as_str();
    let n: usize = x.unicode_len();
    let m: usize = y.unicode_len();
    let mut i: usize = 0;
    proof {
        assert(a@.skip(0) =~= a@);
        assert(b@.skip(0) =~= b@);
    }
    while i < n && i < m
        invariant
            n == a@.len(),
            m == b@.len(),
            x@ == a@,
            y@ == b@,
            i <= n,
            i <= m,
            text_before(a@, b@) == text_before(a@.skip(i as int), b@.skip(i as int)),
        decreases n - i,
    {
        let p: char = x.get_char(i);
        let q: char = y.get_char(i);
        proof {
            assert(a@.skip(i as int)[0] == p);
            assert(b@.skip(i as int)[0] == q);
            assert(a@.skip(i as int).skip(1) =~= a@.skip(i as int + 1));
            assert(b@.skip(i as int).skip(1) =~= b@.skip(i as int + 1));
        }
        if p != q {
            return p < q;
        }
        i = i + 1;
    }
    i < m
}

fn same_gateway(a: Option<u32>, b: Option<u32>) -> (r: bool)
    ensures
        r == (a == b),
{
    match (a, b) {
        (None, None) => true,
        (Some(x), Some(y)) => x == y,
        _ => false,
    }
}

impl RouteSpec {
    pub fn copy(&self) -> (r: RouteSpec)
        ensures
            r@ == self@,
    {
        RouteSpec {
            dest: self.dest,
            gateway: self.gateway,
            if_index: self.if_index,
            if_name: self.if_name.clone(),
        }
    }

    /// Whether the two are the same route to the kernel.
    pub fn is_same_route(&self, other: &RouteSpec) -> (r: bool)
        ensures
            r == same_route(self@, other@),
    {
        self.dest == other.dest && same_gateway(self.gateway, other.gateway) && self.if_index
            == other.if_index
    }

    pub fn add_rank(&self) -> (r: u8)
        ensures
            r == add_rank_of(self@),
            r <= 3,
    {
        let len: u8 = self.dest.prefix_len();
        match self.gateway {
            Some(_) => if len == 32 {
                0
            } else {
                1
            },
            None => if len == 0 {
                3
            } else {
                2
            },
        }
    }

    /// Routes leave in the opposite order.
    pub fn del_rank(&self) -> (r: u8)
        ensures
            r == 3 - add_rank_of(self@),
    {
        3 - self.add_rank()
    }

    pub fn is_default_tun(&self) -> (r: bool)
        ensures
            r == default_tun(self@),
    {
        self.gateway.is_none() && self.dest.prefix_len() == 0
    }

    pub fn is_host_escape(&self) -> (r: bool)
        ensures
            r == host_escape(self@),
    {
        self.gateway.is_some() && self.dest.prefix_len() == 32
    }

    pub fn to_text(&self) -> (r: String)
        ensures
            r@ == route_text(self@),
    {
        let mut out = ipv4_text(self.dest.network());
        out.append("/");
        out.append(u64_text(self.dest.prefix_len() as u64).as_str());
        match self.gateway {
            Some(gw) => {
                out.append(" via ");
                out.append(ipv4_text(gw).as_str());
                out.append(" ifindex=");
                out.append(u64_text(self.if_index as u64).as_str());
                out.append(" (");
                out.append(self.if_name.as_str());
                out.append(")");
            },
            None => {
                out.append(" dev ");
                out.append(self.if_name.as_str());
                out.append(" ifindex=");
                out.append(u64_text(self.if_index as u64).as_str());
            },
        }
        out
    }

    fn comes_before(&self, other: &RouteSpec) -> (r: bool)
        ensures
            r == precedes(self@, other@),
    {
        let a: u32 = self.dest.addr();
        let b: u32 = other.dest.addr();
        if a != b {
            return a < b;
        }
        let m: u8 = self.dest.prefix_len();
        let n: u8 = other.dest.prefix_len();
        if m != n {
            return m < n;
        }
        if !same_gateway(self.gateway, other.gateway) {
            return match (self.gateway, other.gateway) {
                (None, Some(_)) => true,
                (Some(x), Some(y)) => x < y,
                _ => false,
            };
        }
        if self.if_index != other.if_index {
            return self.if_index < other.if_index;
        }
        name_before(&self.if_name, &other.if_name)
    }
}

/// Adds a route to an ordered list that may hold it already.
pub fn insert_route(set: &mut Vec<RouteSpec>, r: &RouteSpec)
    requires
        ordered(route_views(old(set)@)),
    ensures
        ordered(route_views(final(set)@)),
        forall|x: RouteView| #[trigger]
            route_views(final(set)@).contains(x) <==> x == r@ || route_views(old(set)@).contains(x),
{
    let ghost s = route_views(set@);
    let mut k: usize = 0;
    while k < set.len() && set[k].comes_before(r)
        invariant
            k <= set@.len(),
            s == route_views(set@),
            forall|j: int| 0 <= j < k ==> precedes(#[trigger] s[j], r@),
        decreases set@.len() - k,
    {
        assert(s[k as int] == set@[k as int]@);
        k = k + 1;
    }
    if k < set.len() {
        assert(s[k as int] == set@[k as int]@);
        proof {
            lemma_order_total(s[k as int], r@);
        }
        if !r.comes_before(&set[k]) {
            // Neither comes before the other: the route is there already.
            assert(s[k as int] == r@);
            assert(s.contains(r@));
            return;
        }
    }
    let added = r.copy();
    set.insert(k, added);
    proof {
        let t = route_views(set@);
        assert(t =~= s.insert(k as int, r@));
        assert forall|i: int, j: int| 0 <= i < j < t.len() implies precedes(
            #[trigger] t[i],
            #[trigger] t[j],
        ) by {
            let a = if i < k {
                i
            } else {
                i - 1
            };
            let b = if j < k {
                j
            } else {
                j - 1
            };
            if i != k {
                assert(t[i] == s[a]);
            }
            if j != k {
                assert(t[j] == s[b]);
            }
            if i == k && b > k {
                lemma_order_trans(r@, s[k as int], s[b]);
            }
        }
        assert forall|x: RouteView| #[trigger] t.contains(x) <==> x == r@ || s.contains(x) by {
            if t.contains(x) {
                let i = choose|i: int| 0 <= i < t.len() && t[i] == x;
                if i < k {
                    assert(s[i] == x);
                } else if i > k {
                    assert(s[i - 1] == x);
                }
            }
            if s.contains(x) {
                let i = choose|i: int| 0 <= i < s.len() && s[i] == x;
                if i < k {
                    assert(t[i] == x);
                } else {
                    assert(t[i + 1] == x);
                }
            }
            if x == r@ {
                assert(t[k as int] == x);
            }
        }
    }
}

/// Whether a route of the list is the same to the kernel.
pub fn contains_route(list: &Vec<RouteSpec>, r: &RouteSpec) -> (b: bool)
    ensures
        b == has_route(route_views(list@), r@),
{
    let ghost s = route_views(list@);
    let mut i: usize = 0;
    while i < list.len()
        invariant
            i <= list@.len(),
            s == route_views(list@),
            forall|j: int| 0 <= j < i ==> !same_route(#[trigger] s[j], r@),
        decreases list@.len() - i,
    {
        assert(s[i as int] == list@[i as int]@);
        if list[i].is_same_route(r) {
            return true;
        }
        i = i + 1;
    }
    false
}

/// The routes of `s` that `keep` keeps, in their order.
pub open spec fn only(s: Seq<RouteView>, keep: spec_fn(RouteView) -> bool) -> Seq<RouteView>
    decreases s.len(),
{
    if s.len() == 0 {
        Seq::empty()
    } else if keep(s.last()) {
        only(s.drop_last(), keep).push(s.last())
    } else {
        only(s.drop_last(), keep)
    }
}

/// What a selection holds, and that it keeps the order.
pub proof fn lemma_only(s: Seq<RouteView>, keep: spec_fn(RouteView) -> bool)
    ensures
        forall|x: RouteView| #[trigger] only(s, keep).contains(x) <==> s.contains(x) && keep(x),
        ordered(s) ==> ordered(only(s, keep)),
    decreases s.len(),
{
    if s.len() > 0 {
        let f = s.drop_last();
        lemma_only(f, keep);
        let o = only(f, keep);
        let r = only(s, keep);
        assert(forall|i: int| 0 <= i < f.len() ==> #[trigger] f[i] == s[i]);
        assert forall|x: RouteView| #[trigger] r.contains(x) <==> s.contains(x) && keep(x) by {
            if r.contains(x) {
                let i = choose|i: int| 0 <= i < r.len() && r[i] == x;
                if i < o.len() {
                    assert(o[i] == x);
                    assert(o.contains(x));
                    let j = choose|j: int| 0 <= j < f.len() && f[j] == x;
                    assert(s[j] == x);
                } else {
                    assert(s[s.len() - 1] == x);
                }
            }
            if s.contains(x) && keep(x) {
                let i = choose|i: int| 0 <= i < s.len() && s[i] == x;
                if i < f.len() {
                    assert(f[i] == x);
                    assert(o.contains(x));
                    let j = choose|j: int| 0 <= j < o.len() && o[j] == x;
                    assert(r[j] == x);
                } else {
                    assert(r[r.len() - 1] == x);
                }
            }
        }
        if ordered(s) && keep(s.last()) {
            assert forall|i: int, j: int| 0 <= i < j < r.len() implies precedes(
                #[trigger] r[i],
                #[trigger] r[j],
            ) by {
                assert(r[i] == o[i]);
                if j < o.len() {
                    assert(r[j] == o[j]);
                } else {
                    assert(o.contains(o[i]));
                    let k = choose|k: int| 0 <= k < f.len() && f[k] == o[i];
                    assert(precedes(s[k], s[s.len() - 1]));
                }
            }
        }
    }
}

/// The routes of a list by rising rank, each rank in its old order.
pub open spec fn by_add_rank(s: Seq<RouteView>) -> Seq<RouteView> {
    only(s, |r: RouteView| add_rank_of(r) == 0) + only(s, |r: RouteView| add_rank_of(r) == 1)
        + only(s, |r: RouteView| add_rank_of(r) == 2) + only(s, |r: RouteView| add_rank_of(r) == 3)
}

/// The routes of a list by falling rank, each rank in its old order.
pub open spec fn by_del_rank(s: Seq<RouteView>) -> Seq<RouteView> {
    only(s, |r: RouteView| add_rank_of(r) == 3) + only(s, |r: RouteView| add_rank_of(r) == 2)
        + only(s, |r: RouteView| add_rank_of(r) == 1) + only(s, |r: RouteView| add_rank_of(r) == 0)
}

/// Copies the routes of one rank to the end of a list.
fn take_rank(from: &Vec<RouteSpec>, rank: u8, out: &mut Vec<RouteSpec>)
    ensures
        route_views(final(out)@) == route_views(old(out)@) + only(
            route_views(from@),
            |r: RouteView| add_rank_of(r) == rank as int,
        ),
{
    let ghost s = route_views(from@);
    let ghost keep = |r: RouteView| add_rank_of(r) == rank as int;
    let ghost start = route_views(out@);
    let mut i: usize = 0;
    proof {
        assert(s.take(0) =~= Seq::<RouteView>::empty());
        assert(start + Seq::<RouteView>::empty() =~= start);
    }
    while i < from.len()
        invariant
            i <= from@.len(),
            s == route_views(from@),
            keep == (|r: RouteView| add_rank_of(r) == rank as int),
            route_views(out@) == start + only(s.take(i as int), keep),
        decreases from@.len() - i,
    {
        proof {
            assert(s.take(i as int + 1).drop_last() =~= s.take(i as int));
            assert(s.take(i as int + 1).last() == from@[i as int]@);
        }
        let ghost before = out@;
        if from[i].add_rank() == rank {
            out.push(from[i].copy());
            proof {
                assert(route_views(out@) =~= route_views(before).push(from@[i as int]@));
                assert(route_views(out@) =~= start + only(s.take(i as int + 1), keep));
            }
        }
        i = i + 1;
    }
    proof {
        assert(s.take(i as int) =~= s);
    }
}

/// The routes in the order in which they are added.
pub fn in_add_order(from: &Vec<RouteSpec>) -> (r: Vec<RouteSpec>)
    ensures
        route_views(r@) == by_add_rank(route_views(from@)),
{
    let mut out: Vec<RouteSpec> = Vec::new();
    take_rank(from, 0, &mut out);
    take_rank(from, 1, &mut out);
    take_rank(from, 2, &mut out);
    take_rank(from, 3, &mut out);
    proof {
        assert(route_views(out@) =~= by_add_rank(route_views(from@)));
    }
    out
}

/// The routes in the order in which they are deleted.
pub fn in_del_order(from: &Vec<RouteSpec>) -> (r: Vec<RouteSpec>)
    ensures
        route_views(r@) == by_del_rank(route_views(from@)),
{
    let mut out: Vec<RouteSpec> = Vec::new();
    take_rank(from, 3, &mut out);
    take_rank(from, 2, &mut out);
    take_rank(from, 1, &mut out);
    take_rank(from, 0, &mut out);
    proof {
        assert(route_views(out@) =~= by_del_rank(route_views(from@)));
    }
    out
}

/// Drops the routes that are the same to the kernel as `gone`.
pub fn drop_route(set: &mut Vec<RouteSpec>, gone: &RouteSpec)
    requires
        ordered(route_views(old(set)@)),
    ensures
        ordered(route_views(final(set)@)),
        route_views(final(set)@) == only(
            route_views(old(set)@),
            |r: RouteView| !same_route(r, gone@),
        ),
{
    let ghost s = route_views(set@);
    let ghost keep = |r: RouteView| !same_route(r, gone@);
    let mut out: Vec<RouteSpec> = Vec::new();
    let mut i: usize = 0;
    proof {
        lemma_only(s, keep);
        assert(s.take(0) =~= Seq::<RouteView>::empty());
        assert(route_views(out@) =~= Seq::<RouteView>::empty());
    }
    while i < set.len()
        invariant
            i <= set@.len(),
            s == route_views(set@),
            keep == (|r: RouteView| !same_route(r, gone@)),
            route_views(out@) == only(s.take(i as int), keep),
        decreases set@.len() - i,
    {
        proof {
            assert(s.take(i as int + 1).drop_last() =~= s.take(i as int));
            assert(s.take(i as int + 1).last() == set@[i as int]@);
        }
        let ghost before = out@;
        if !set[i].is_same_route(gone) {
            out.push(set[i].copy());
            proof {
                assert(route_views(out@) =~= route_views(before).push(set@[i as int]@));
            }
        }
        i = i + 1;
    }
    proof {
        assert(s.take(i as int) =~= s);
    }
    *set = out;
}

/// In add order every escape to a host stands before the tunnel's default.
pub proof fn law_escapes_before_default(s: Seq<RouteView>, i: int, j: int)
    requires
        0 <= i < by_add_rank(s).len(),
        0 <= j < by_add_rank(s).len(),
        host_escape(by_add_rank(s)[i]),
        default_tun(by_add_rank(s)[j]),
    ensures
        i < j,
{
    let a = only(s, |r: RouteView| add_rank_of(r) == 0);
    let b = only(s, |r: RouteView| add_rank_of(r) == 1);
    let c = only(s, |r: RouteView| add_rank_of(r) == 2);
    let d = only(s, |r: RouteView| add_rank_of(r) == 3);
    lemma_only(s, |r: RouteView| add_rank_of(r) == 0);
    lemma_only(s, |r: RouteView| add_rank_of(r) == 1);
    lemma_only(s, |r: RouteView| add_rank_of(r) == 2);
    lemma_only(s, |r: RouteView| add_rank_of(r) == 3);
    let all = by_add_rank(s);
    if j < a.len() {
        assert(a.contains(all[j]));
    } else if j < a.len() + b.len() {
        assert(b[j - a.len()] == all[j]);
        assert(b.contains(all[j]));
    } else if j < a.len() + b.len() + c.len() {
        assert(c[j - a.len() - b.len()] == all[j]);
        assert(c.contains(all[j]));
    }
    if i >= a.len() + b.len() + c.len() {
        assert(d[i - a.len() - b.len() - c.len()] == all[i]);
        assert(d.contains(all[i]));
    }
}

} // verus!
