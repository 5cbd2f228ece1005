//! The life of the data plane: what is brought up in which order, and what is
//! taken down again.
//!
//! One thing is asked for at a time; the answer leads to the next.

use crate::control::{remote, remote_subnets};
use crate::membership::{default_profile, views, DeviceProfile};
use crate::net::Ipv4Net;
use crate::routing::RoutingTable;
use crate::sync::{is_member, membership_for_network, membership_place, EndpointSnapshot};
use crate::system_routes::{desired_direct, desired_from_membership, DesiredRoutes};
use crate::tables::{seen_all, PeerView};
use crate::text::{decimal, join2, u64_text};
use vstd::prelude::*;

verus! {

/// Why the data plane could not be brought up or kept up.
#[derive(Debug)]
pub enum DataPlaneError {
    Tun(String),
    Routes(String),
    Dns(String),
    Conflict(String),
}

pub enum PlaneErrorView {
    Tun(Seq<char>),
    Routes(Seq<char>),
    Dns(Seq<char>),
    Conflict(Seq<char>),
}

impl View for DataPlaneError {
    type V = PlaneErrorView;

    open spec fn view(&self) -> PlaneErrorView {
        match *self {
            DataPlaneError::Tun(e) => PlaneErrorView::Tun(e@),
            DataPlaneError::Routes(e) => PlaneErrorView::Routes(e@),
            DataPlaneError::Dns(e) => PlaneErrorView::Dns(e@),
            DataPlaneError::Conflict(e) => PlaneErrorView::Conflict(e@),
        }
    }
}

pub open spec fn plane_error_text(e: PlaneErrorView) -> Seq<char> {
    match e {
        PlaneErrorView::Tun(s) => "TUN build failed: "@ + s,
        PlaneErrorView::Routes(s) => "route reconcile failed: "@ + s,
        PlaneErrorView::Dns(s) => "PeerDNS failed: "@ + s,
        PlaneErrorView::Conflict(s) => "Direct network conflict: "@ + s,
    }
}

impl DataPlaneError {
    pub fn to_text(&self) -> (r: String)
        ensures
            r@ == plane_error_text(self@),
    {
        match self {
            DataPlaneError::Tun(s) => join2("TUN build failed: ", s.as_str()),
            DataPlaneError::Routes(s) => join2("route reconcile failed: ", s.as_str()),
            DataPlaneError::Dns(s) => join2("PeerDNS failed: ", s.as_str()),
            DataPlaneError::Conflict(s) => join2("Direct network conflict: ", s.as_str()),
        }
    }
}

/// Brings the data plane up.
#[derive(Clone, Copy, Debug)]
pub struct BringUp;

/// Takes the data plane down.
#[derive(Clone, Copy, Debug)]
pub struct BringDown;

/// Asks for the state of the data plane.
#[derive(Clone, Copy, Debug)]
pub struct GetStatus;

/// Takes the data plane down for good.
#[derive(Clone, Copy, Debug)]
pub struct ShutdownPlane;

/// Brings the data plane in line with changed membership.
#[derive(Clone, Copy, Debug)]
pub struct ReconcileDirectState;

/// The state of the data plane.
#[derive(Clone, Copy, Debug, PartialEq, Eq, Structural)]
pub struct DataPlaneStatus {
    pub up: bool,
    pub generation: u64,
}

/// What an answer is waited for.
#[derive(Clone, Copy, Debug, PartialEq, Eq, Structural)]
pub enum PlaneStage {
    Rest,
    /// Whether other networks are in the way, before coming up.
    Conflicts,
    StartDns,
    BuildTun,
    ApplyDns,
    /// The routes of a plane that comes up.
    Routes,
    /// Whether other networks are in the way, of a plane as it stands.
    Recheck,
    /// The routes of a managed plane that is up.
    ManagedRefresh,
    /// The routes of a direct plane that is up.
    DirectRefresh,
}

/// Something to carry out for the data plane.
#[derive(Clone, Copy, Debug, PartialEq, Eq, Structural)]
pub enum PlaneAction {
    /// Take the plane out of view.
    Unpublish,
    CancelGeneration,
    CloseHub,
    StopReader,
    StopWriter,
    StopDns,
    ClearRoutes,
    TeardownNat,
    /// Give the system's name service back.
    RestoreDns,
    MarkDown,
    ReportDown,
    ConfigureFirewall,
    SetDnsActive(bool),
    /// Translate addresses if this node offers a way out.
    EnsureNat,
    SpawnGeneration,
    Publish,
    ReportUp,
    ReconcileHub,
}

/// What is asked for next.
#[derive(Debug)]
pub enum PlaneAsk {
    CheckConflicts,
    StartDns,
    BuildTun,
    ApplyDns,
    ReconcileRoutes,
    Done(Result<(), DataPlaneError>),
}

pub enum PlaneAskView {
    CheckConflicts,
    StartDns,
    BuildTun,
    ApplyDns,
    ReconcileRoutes,
    Done(Option<PlaneErrorView>),
}

impl View for PlaneAsk {
    type V = PlaneAskView;

    open spec fn view(&self) -> PlaneAskView {
        match *self {
            PlaneAsk::CheckConflicts => PlaneAskView::CheckConflicts,
            PlaneAsk::StartDns => PlaneAskView::StartDns,
            PlaneAsk::BuildTun => PlaneAskView::BuildTun,
            PlaneAsk::ApplyDns => PlaneAskView::ApplyDns,
            PlaneAsk::ReconcileRoutes => PlaneAskView::ReconcileRoutes,
            PlaneAsk::Done(Ok(_)) => PlaneAskView::Done(None),
            PlaneAsk::Done(Err(e)) => PlaneAskView::Done(Some(e@)),
        }
    }
}

/// Why the system's name service was not taken over.
#[derive(Debug)]
pub enum DnsFault {
    /// The system refused.
    Refused(String),
    /// The work on it was cut short.
    CutShort(String),
}

/// Why the routes were not applied.
#[derive(Debug)]
pub enum RouteFault {
    TimedOut,
    Failed(String),
}

pub open spec fn dns_fault_text(f: DnsFault) -> Seq<char> {
    match f {
        DnsFault::Refused(e) => "OS configuration: "@ + e@,
        DnsFault::CutShort(e) => "configuration task: "@ + e@,
    }
}

pub open spec fn route_fault_text(f: RouteFault) -> Seq<char> {
    match f {
        RouteFault::TimedOut => "route apply timed out"@,
        RouteFault::Failed(e) => e@,
    }
}

impl DnsFault {
    pub fn to_text(&self) -> (r: String)
        ensures
            r@ == dns_fault_text(*self),
    {
        match self {
            DnsFault::Refused(e) => join2("OS configuration: ", e.as_str()),
            DnsFault::CutShort(e) => join2("configuration task: ", e.as_str()),
        }
    }
}

impl RouteFault {
    pub fn to_text(&self) -> (r: String)
        ensures
            r@ == route_fault_text(*self),
    {
        match self {
            RouteFault::TimedOut => "route apply timed out".to_owned(),
            RouteFault::Failed(e) => e.clone(),
        }
    }
}

/// An answer.
#[derive(Debug)]
pub enum PlaneReply {
    /// How many other networks are in the way.
    Conflicts(usize),
    DnsStarted(Result<(), String>),
    /// The interface's number, where it is known.
    TunBuilt(Result<Option<u32>, String>),
    /// Whether the system's name service asks this node now.
    DnsApplied(Result<bool, DnsFault>),
    Routed(Result<(), RouteFault>),
}

/// What follows: what is asked for, once these actions are carried out.
#[derive(Debug)]
pub struct PlaneStep {
    pub actions: Vec<PlaneAction>,
    pub ask: PlaneAsk,
}

/// The data plane.
#[derive(Clone, Copy, Debug, PartialEq, Eq, Structural)]
pub struct DataPlane {
    pub is_direct: bool,
    /// Whether the system's name service is to be taken over.
    pub has_dns: bool,
    pub up: bool,
    pub published: bool,
    pub generation: u64,
    /// Whether a generation was begun that can be cancelled.
    pub begun: bool,
    /// Whether the generation's workers run.
    pub spawned: bool,
    pub dns_running: bool,
    pub tun_if_index: Option<u32>,
    pub stage: PlaneStage,
}

/// Where the data plane goes: its state, what is asked for and what is done first.
pub struct PlaneMove {
    pub plane: DataPlane,
    pub ask: PlaneAskView,
    pub actions: Seq<PlaneAction>,
}

/// One action where a condition holds.
pub open spec fn act_if(on: bool, a: PlaneAction) -> Seq<PlaneAction> {
    if on {
        seq![a]
    } else {
        Seq::empty()
    }
}

/// What takes the data plane down.
pub open spec fn teardown_actions(p: DataPlane) -> Seq<PlaneAction> {
    seq![PlaneAction::Unpublish] + act_if(p.begun, PlaneAction::CancelGeneration) + act_if(
        p.spawned,
        PlaneAction::CloseHub,
    ) + act_if(p.spawned, PlaneAction::StopReader) + act_if(p.spawned, PlaneAction::StopWriter)
        + act_if(p.dns_running, PlaneAction::StopDns) + seq![
        PlaneAction::ClearRoutes,
        PlaneAction::TeardownNat,
    ] + act_if(p.has_dns, PlaneAction::RestoreDns) + seq![PlaneAction::MarkDown]
}

/// The data plane with nothing left of it.
pub open spec fn torn_down(p: DataPlane) -> DataPlane {
    DataPlane {
        up: false,
        published: false,
        begun: false,
        spawned: false,
        dns_running: false,
        tun_if_index: None,
        ..p
    }
}

/// Whether there is anything to take down.
pub open spec fn anything_up(p: DataPlane) -> bool {
    p.up || p.published || p.dns_running
}

/// The data plane after it was asked to come down, and what is done for it.
pub open spec fn brought_down(p: DataPlane) -> (DataPlane, Seq<PlaneAction>) {
    if anything_up(p) {
        (torn_down(p), teardown_actions(p).push(PlaneAction::ReportDown))
    } else {
        (p, Seq::empty())
    }
}

pub open spec fn at(p: DataPlane, stage: PlaneStage) -> DataPlane {
    DataPlane { stage, ..p }
}

/// Coming up begins with a look at other networks, unless it is up.
pub open spec fn coming_up(p: DataPlane, actions: Seq<PlaneAction>) -> PlaneMove {
    if p.up {
        PlaneMove { plane: at(p, PlaneStage::Rest), ask: PlaneAskView::Done(None), actions }
    } else {
        PlaneMove {
            plane: at(p, PlaneStage::Conflicts),
            ask: PlaneAskView::CheckConflicts,
            actions,
        }
    }
}

pub open spec fn conflict_error(n: usize) -> PlaneErrorView {
    PlaneErrorView::Conflict(decimal(n as nat) + " conflict(s)"@)
}

/// Nothing more is asked: the end of what was begun.
pub open spec fn ends(p: DataPlane, e: Option<PlaneErrorView>, actions: Seq<PlaneAction>) -> PlaneMove {
    PlaneMove { plane: at(p, PlaneStage::Rest), ask: PlaneAskView::Done(e), actions }
}

/// Whether an answer fits what was asked.
pub open spec fn fits(stage: PlaneStage, reply: PlaneReply) -> bool {
    match reply {
        PlaneReply::Conflicts(_) => stage == PlaneStage::Conflicts || stage == PlaneStage::Recheck,
        PlaneReply::DnsStarted(_) => stage == PlaneStage::StartDns,
        PlaneReply::TunBuilt(_) => stage == PlaneStage::BuildTun,
        PlaneReply::DnsApplied(_) => stage == PlaneStage::ApplyDns,
        PlaneReply::Routed(_) => stage == PlaneStage::Routes || stage
            == PlaneStage::ManagedRefresh || stage == PlaneStage::DirectRefresh,
    }
}

/// The number of the interface: zero is none.
pub open spec fn real_index(i: Option<u32>) -> Option<u32> {
    if i == Some(0u32) {
        None
    } else {
        i
    }
}

/// Where an answer leads.
pub open spec fn next_plane(p: DataPlane, reply: PlaneReply) -> PlaneMove {
    let none = Seq::<PlaneAction>::empty();
    match reply {
        PlaneReply::Conflicts(n) => if p.stage == PlaneStage::Recheck {
            if n > 0 {
                let down = brought_down(p);
                if p.up {
                    ends(down.0, Some(conflict_error(n)), down.1)
                } else {
                    ends(p, Some(conflict_error(n)), none)
                }
            } else if p.up {
                PlaneMove {
                    plane: at(p, PlaneStage::DirectRefresh),
                    ask: PlaneAskView::ReconcileRoutes,
                    actions: none,
                }
            } else {
                coming_up(p, none)
            }
        } else if n > 0 {
            ends(p, Some(conflict_error(n)), none)
        } else if p.has_dns && !p.dns_running {
            PlaneMove {
                plane: at(p, PlaneStage::StartDns),
                ask: PlaneAskView::StartDns,
                actions: none,
            }
        } else {
            PlaneMove {
                plane: at(p, PlaneStage::BuildTun),
                ask: PlaneAskView::BuildTun,
                actions: none,
            }
        },
        PlaneReply::DnsStarted(Err(e)) => ends(p, Some(PlaneErrorView::Dns(e@)), none),
        PlaneReply::DnsStarted(Ok(_)) => PlaneMove {
            plane: DataPlane { dns_running: true, stage: PlaneStage::BuildTun, ..p },
            ask: PlaneAskView::BuildTun,
            actions: none,
        },
        PlaneReply::TunBuilt(Err(e)) => ends(
            torn_down(p),
            Some(PlaneErrorView::Tun(e@)),
            teardown_actions(p),
        ),
        PlaneReply::TunBuilt(Ok(index)) => {
            let built = DataPlane { tun_if_index: real_index(index), begun: true, ..p };
            if p.has_dns {
                PlaneMove {
                    plane: at(built, PlaneStage::ApplyDns),
                    ask: PlaneAskView::ApplyDns,
                    actions: seq![PlaneAction::ConfigureFirewall],
                }
            } else {
                PlaneMove {
                    plane: at(built, PlaneStage::Routes),
                    ask: PlaneAskView::ReconcileRoutes,
                    actions: seq![
                        PlaneAction::ConfigureFirewall,
                        PlaneAction::SetDnsActive(false),
                    ],
                }
            }
        },
        PlaneReply::DnsApplied(Err(e)) => ends(
            torn_down(p),
            Some(PlaneErrorView::Dns(dns_fault_text(e))),
            teardown_actions(p),
        ),
        PlaneReply::DnsApplied(Ok(active)) => PlaneMove {
            plane: at(p, PlaneStage::Routes),
            ask: PlaneAskView::ReconcileRoutes,
            actions: seq![PlaneAction::SetDnsActive(active)],
        },
        PlaneReply::Routed(outcome) => if p.stage == PlaneStage::Routes {
            ends(
                (DataPlane {
                    up: true,
                    published: true,
                    spawned: true,
                    generation: p.generation.wrapping_add(1),
                    ..p
                }),
                None,
                seq![
                    PlaneAction::EnsureNat,
                    PlaneAction::SpawnGeneration,
                    PlaneAction::Publish,
                    PlaneAction::ReportUp,
                ],
            )
        } else if p.stage == PlaneStage::DirectRefresh {
            match outcome {
                Ok(_) => ends(p, None, none),
                Err(e) => ends(p, Some(PlaneErrorView::Routes(route_fault_text(e))), none),
            }
        } else {
            ends(p, None, none)
        },
    }
}

/// Where changed membership leads. A managed plane that is up refreshes its
/// routes. A direct one whose name service has ended comes down first, and
/// then looks at other networks.
pub open spec fn reconciled(p: DataPlane, dns_ended: bool) -> PlaneMove {
    let hub = act_if(p.spawned, PlaneAction::ReconcileHub);
    if !p.is_direct {
        if p.up {
            PlaneMove {
                plane: at(p, PlaneStage::ManagedRefresh),
                ask: PlaneAskView::ReconcileRoutes,
                actions: hub,
            }
        } else {
            ends(p, None, hub)
        }
    } else if p.dns_running && dns_ended {
        let down = brought_down(p);
        PlaneMove {
            plane: at(down.0, PlaneStage::Recheck),
            ask: PlaneAskView::CheckConflicts,
            actions: hub + down.1,
        }
    } else {
        PlaneMove {
            plane: at(p, PlaneStage::Recheck),
            ask: PlaneAskView::CheckConflicts,
            actions: hub,
        }
    }
}

fn push_if(v: &mut Vec<PlaneAction>, on: bool, a: PlaneAction)
    ensures
        final(v)@ == old(v)@ + act_if(on, a),
{
    if on {
        v.push(a);
    }
    proof {
        assert(v@ =~= old(v)@ + act_if(on, a));
    }
}

fn no_plane_actions() -> (r: Vec<PlaneAction>)
    ensures
        r@ == Seq::<PlaneAction>::empty(),
{
    Vec::new()
}

fn conflict_text(n: usize) -> (r: String)
    ensures
        r@ == decimal(n as nat) + " conflict(s)"@,
{
    join2(u64_text(n as u64).as_str(), " conflict(s)")
}

impl PlaneStep {
    /// That a step is the one that a move describes.
    pub open spec fn is(&self, m: PlaneMove) -> bool {
        self.ask@ == m.ask && self.actions@ == m.actions
    }
}

impl DataPlane {
    /// A data plane as it starts: down, or up where it was brought up before.
    pub fn new(is_direct: bool, has_dns: bool, initially_up: bool, generation: u64) -> (r: DataPlane)
        ensures
            r == (DataPlane {
                is_direct,
                has_dns,
                up: initially_up,
                published: initially_up,
                generation,
                begun: false,
                spawned: false,
                dns_running: false,
                tun_if_index: None,
                stage: PlaneStage::Rest,
            }),
    {
        DataPlane {
            is_direct,
            has_dns,
            up: initially_up,
            published: initially_up,
            generation,
            begun: false,
            spawned: false,
            dns_running: false,
            tun_if_index: None,
            stage: PlaneStage::Rest,
        }
    }

    pub fn status(&self) -> (r: DataPlaneStatus)
        ensures
            r == (DataPlaneStatus { up: self.up, generation: self.generation }),
    {
        DataPlaneStatus { up: self.up, generation: self.generation }
    }

    /// Takes everything down, in the order in which it stops to be used.
    pub fn teardown(&mut self) -> (r: Vec<PlaneAction>)
        ensures
            r@ == teardown_actions(*old(self)),
            *final(self) == torn_down(*old(self)),
    {
        let mut v = no_plane_actions();
        push_if(&mut v, true, PlaneAction::Unpublish);
        push_if(&mut v, self.begun, PlaneAction::CancelGeneration);
        push_if(&mut v, self.spawned, PlaneAction::CloseHub);
        push_if(&mut v, self.spawned, PlaneAction::StopReader);
        push_if(&mut v, self.spawned, PlaneAction::StopWriter);
        push_if(&mut v, self.dns_running, PlaneAction::StopDns);
        push_if(&mut v, true, PlaneAction::ClearRoutes);
        push_if(&mut v, true, PlaneAction::TeardownNat);
        push_if(&mut v, self.has_dns, PlaneAction::RestoreDns);
        push_if(&mut v, true, PlaneAction::MarkDown);
        proof {
            assert(v@ =~= teardown_actions(*old(self)));
        }
        self.up = false;
        self.published = false;
        self.begun = false;
        self.spawned = false;
        self.dns_running = false;
        self.tun_if_index = None;
        v
    }

    /// Takes the data plane down, if there is anything of it.
    pub fn bring_down(&mut self) -> (r: Vec<PlaneAction>)
        ensures
            (*final(self), r@) == brought_down(*old(self)),
    {
        if !self.up && !self.published && !self.dns_running {
            return no_plane_actions();
        }
        let mut v = self.teardown();
        v.push(PlaneAction::ReportDown);
        v
    }

    /// Begins to bring the data plane up.
    pub fn bring_up(&mut self) -> (r: PlaneStep)
        ensures
            r.is(coming_up(*old(self), Seq::empty())),
            *final(self) == coming_up(*old(self), Seq::empty()).plane,
    {
        if self.up {
            self.stage = PlaneStage::Rest;
            return PlaneStep { actions: no_plane_actions(), ask: PlaneAsk::Done(Ok(())) };
        }
        self.stage = PlaneStage::Conflicts;
        PlaneStep { actions: no_plane_actions(), ask: PlaneAsk::CheckConflicts }
    }

    /// The workers ended on their own: everything is taken down and brought up
    /// anew.
    pub fn workers_ended(&mut self) -> (r: PlaneStep)
        ensures
            ({
                let m = coming_up(torn_down(*old(self)), teardown_actions(*old(self)));
                &&& r.is(m)
                &&& *final(self) == m.plane
            }),
    {
        let actions = self.teardown();
        self.stage = PlaneStage::Conflicts;
        PlaneStep { actions, ask: PlaneAsk::CheckConflicts }
    }

    /// Brings the data plane in line with changed membership. `dns_ended` says
    /// whether the name service has ended on its own.
    pub fn reconcile(&mut self, dns_ended: bool) -> (r: PlaneStep)
        ensures
            r.is(reconciled(*old(self), dns_ended)),
            *final(self) == reconciled(*old(self), dns_ended).plane,
    {
        let mut actions = no_plane_actions();
        push_if(&mut actions, self.spawned, PlaneAction::ReconcileHub);
        proof {
            assert(actions@ =~= act_if(old(self).spawned, PlaneAction::ReconcileHub));
        }
        if !self.is_direct {
            if self.up {
                self.stage = PlaneStage::ManagedRefresh;
                return PlaneStep { actions, ask: PlaneAsk::ReconcileRoutes };
            }
            self.stage = PlaneStage::Rest;
            return PlaneStep { actions, ask: PlaneAsk::Done(Ok(())) };
        }
        if self.dns_running && dns_ended {
            let mut down = self.bring_down();
            let ghost first = actions@;
            let ghost second = down@;
            actions.append(&mut down);
            proof {
                assert(actions@ =~= first + second);
            }
        }
        self.stage = PlaneStage::Recheck;
        PlaneStep { actions, ask: PlaneAsk::CheckConflicts }
    }

    fn fail(&mut self, e: DataPlaneError) -> (r: PlaneStep)
        ensures
            r.is(ends(torn_down(*old(self)), Some(e@), teardown_actions(*old(self)))),
            *final(self) == at(torn_down(*old(self)), PlaneStage::Rest),
    {
        let actions = self.teardown();
        self.stage = PlaneStage::Rest;
        PlaneStep { actions, ask: PlaneAsk::Done(Err(e)) }
    }

    /// Takes an answer in.
    pub fn answer(&mut self, reply: PlaneReply) -> (r: PlaneStep)
        requires
            fits(old(self).stage, reply),
        ensures
            r.is(next_plane(*old(self), reply)),
            *final(self) == next_plane(*old(self), reply).plane,
    {
        let none = no_plane_actions();
        match reply {
            PlaneReply::Conflicts(n) => {
                if self.stage == PlaneStage::Recheck {
                    if n > 0 {
                        let actions = if self.up {
                            self.bring_down()
                        } else {
                            none
                        };
                        self.stage = PlaneStage::Rest;
                        let e = DataPlaneError::Conflict(conflict_text(n));
                        return PlaneStep { actions, ask: PlaneAsk::Done(Err(e)) };
                    }
                    if self.up {
                        self.stage = PlaneStage::DirectRefresh;
                        return PlaneStep { actions: none, ask: PlaneAsk::ReconcileRoutes };
                    }
                    return self.bring_up();
                }
                if n > 0 {
                    self.stage = PlaneStage::Rest;
                    let e = DataPlaneError::Conflict(conflict_text(n));
                    return PlaneStep { actions: none, ask: PlaneAsk::Done(Err(e)) };
                }
                if self.has_dns && !self.dns_running {
                    self.stage = PlaneStage::StartDns;
                    return PlaneStep { actions: none, ask: PlaneAsk::StartDns };
                }
                self.stage = PlaneStage::BuildTun;
                PlaneStep { actions: none, ask: PlaneAsk::BuildTun }
            },
            PlaneReply::DnsStarted(started) => match started {
                Err(e) => {
                    self.stage = PlaneStage::Rest;
                    PlaneStep { actions: none, ask: PlaneAsk::Done(Err(DataPlaneError::Dns(e))) }
                },
                Ok(_) => {
                    self.dns_running = true;
                    self.stage = PlaneStage::BuildTun;
                    PlaneStep { actions: none, ask: PlaneAsk::BuildTun }
                },
            },
            PlaneReply::TunBuilt(built) => match built {
                Err(e) => self.fail(DataPlaneError::Tun(e)),
                Ok(index) => {
                    self.tun_if_index = match index {
                        Some(i) => if i == 0 {
                            None
                        } else {
                            Some(i)
                        },
                        None => None,
                    };
                    self.begun = true;
                    let mut actions = none;
                    actions.push(PlaneAction::ConfigureFirewall);
                    if self.has_dns {
                        self.stage = PlaneStage::ApplyDns;
                        proof {
                            assert(actions@ =~= seq![PlaneAction::ConfigureFirewall]);
                        }
                        return PlaneStep { actions, ask: PlaneAsk::ApplyDns };
                    }
                    actions.push(PlaneAction::SetDnsActive(false));
                    self.stage = PlaneStage::Routes;
                    proof {
                        assert(actions@ =~= seq![
                            PlaneAction::ConfigureFirewall,
                            PlaneAction::SetDnsActive(false),
                        ]);
                    }
                    PlaneStep { actions, ask: PlaneAsk::ReconcileRoutes }
                },
            },
            PlaneReply::DnsApplied(applied) => match applied {
                Err(e) => self.fail(DataPlaneError::Dns(e.to_text())),
                Ok(active) => {
                    let mut actions = none;
                    actions.push(PlaneAction::SetDnsActive(active));
                    self.stage = PlaneStage::Routes;
                    proof {
                        assert(actions@ =~= seq![PlaneAction::SetDnsActive(active)]);
                    }
                    PlaneStep { actions, ask: PlaneAsk::ReconcileRoutes }
                },
            },
            PlaneReply::Routed(outcome) => {
                if self.stage == PlaneStage::Routes {
                    let mut actions = none;
                    actions.push(PlaneAction::EnsureNat);
                    actions.push(PlaneAction::SpawnGeneration);
                    actions.push(PlaneAction::Publish);
                    actions.push(PlaneAction::ReportUp);
                    self.up = true;
                    self.published = true;
                    self.spawned = true;
                    self.generation = self.generation.wrapping_add(1);
                    self.stage = PlaneStage::Rest;
                    proof {
                        assert(actions@ =~= seq![
                            PlaneAction::EnsureNat,
                            PlaneAction::SpawnGeneration,
                            PlaneAction::Publish,
                            PlaneAction::ReportUp,
                        ]);
                    }
                    return PlaneStep { actions, ask: PlaneAsk::Done(Ok(())) };
                }
                let direct = self.stage == PlaneStage::DirectRefresh;
                self.stage = PlaneStage::Rest;
                match outcome {
                    Err(e) => if direct {
                        PlaneStep {
                            actions: none,
                            ask: PlaneAsk::Done(Err(DataPlaneError::Routes(e.to_text()))),
                        }
                    } else {
                        PlaneStep { actions: none, ask: PlaneAsk::Done(Ok(())) }
                    },
                    Ok(_) => PlaneStep { actions: none, ask: PlaneAsk::Done(Ok(())) },
                }
            },
        }
    }
}

/// What a managed network asks of the routes, as last heard of.
pub struct RouteSnapshot {
    pub remote_subnets: Vec<Ipv4Net>,
    pub profile: DeviceProfile,
    pub has_exit: bool,
}

/// What the stored state says of a network: the networks behind others, the
/// device's settings and whether an exit is chosen. A direct network, or one
/// that is not in it, asks for nothing.
pub fn route_snapshot(
    cached: Option<&EndpointSnapshot>,
    is_direct: bool,
    network_id: u128,
    self_endpoint_id: &str,
) -> (r: RouteSnapshot)
    ensures
        ({
            let known = !is_direct && cached is Some && is_member(
                cached->0.memberships@,
                network_id,
            );
            let m = cached->0.memberships@[membership_place(cached->0.memberships@, network_id)];
            if known {
                &&& r.remote_subnets@ == remote(views(m.subnet_routes@), self_endpoint_id@)
                &&& r.profile@ == m.device_profile@
                &&& r.has_exit == (m.device_profile.exit_node_endpoint_id is Some)
            } else {
                &&& r.remote_subnets@ == Seq::<Ipv4Net>::empty()
                &&& r.profile@ == default_profile()
                &&& !r.has_exit
            }
        }),
{
    if !is_direct {
        if let Some(snap) = cached {
            if let Ok(m) = membership_for_network(snap, network_id) {
                return RouteSnapshot {
                    remote_subnets: remote_subnets(&m.subnet_routes, self_endpoint_id),
                    profile: m.device_profile.copy(),
                    has_exit: m.device_profile.exit_node_endpoint_id.is_some(),
                };
            }
        }
    }
    RouteSnapshot {
        remote_subnets: Vec::new(),
        profile: DeviceProfile::default(),
        has_exit: false,
    }
}

/// The addresses of the members, in order.
pub open spec fn member_ips(members: Seq<PeerView>) -> Seq<u32> {
    Seq::new(members.len(), |i: int| members[i].ip)
}

pub fn peer_ips(routes: &RoutingTable) -> (r: Vec<u32>)
    ensures
        r@ == member_ips(routes.model().members),
{
    let members = routes.peers();
    let ghost known = routes.model().members;
    let mut out: Vec<u32> = Vec::new();
    let mut i: usize = 0;
    while i < members.len()
        invariant
            i <= members@.len(),
            known == seen_all(members@),
            out@ =~= member_ips(known).take(i as int),
        decreases members@.len() - i,
    {
        proof {
            assert(known[i as int] == members@[i as int]@);
        }
        out.push(members[i].ip);
        i = i + 1;
    }
    proof {
        assert(member_ips(known).take(i as int) =~= member_ips(known));
    }
    out
}

/// What the data plane asks of the kernel's routes. A direct plane has one
/// route to each member. A managed one has what its network asks for, with the
/// given routes to peers, which lead to single hosts. The interface's own
/// number counts where it is known.
pub fn desired_routes(
    plane: &DataPlane,
    ifname: &str,
    looked_up: Option<u32>,
    routes: &RoutingTable,
    snapshot: RouteSnapshot,
    overlay: Vec<Ipv4Net>,
    underlay_hosts: &Vec<u32>,
) -> (r: DesiredRoutes)
    requires
        forall|i: int| 0 <= i < overlay@.len() ==> (#[trigger] overlay@[i]).bits() == 32,
    ensures
        r.wf(),
        r.ifname@ == ifname@,
        r.underlay_hosts@ == underlay_hosts@,
        r.underlay is None,
        r.tun_if_index == match real_index(plane.tun_if_index) {
            Some(i) => Some(i),
            None => looked_up,
        },
        plane.is_direct ==> {
            &&& r.profile@ == default_profile()
            &&& r.remote_subnets@ == Seq::<Ipv4Net>::empty()
            &&& !r.has_exit
            &&& r.peer_routes@.len() == routes.model().members.len()
            &&& forall|i: int|
                0 <= i < r.peer_routes@.len() ==> (#[trigger] r.peer_routes@[i]).base()
                    == routes.model().members[i].ip
        },
        !plane.is_direct ==> {
            &&& r.profile@ == snapshot.profile@
            &&& r.remote_subnets@ == snapshot.remote_subnets@
            &&& r.has_exit == snapshot.has_exit
            &&& r.peer_routes@ == overlay@
        },
{
    let mut desired = if plane.is_direct {
        let ips = peer_ips(routes);
        let d = desired_direct(ifname, looked_up, &ips, underlay_hosts);
        proof {
            assert forall|i: int| 0 <= i < d.peer_routes@.len() implies (
            #[trigger] d.peer_routes@[i]).base() == routes.model().members[i].ip by {
                assert(ips@[i] == routes.model().members[i].ip);
            }
        }
        d
    } else {
        let mut d = desired_from_membership(
            ifname,
            looked_up,
            &snapshot.profile,
            &snapshot.remote_subnets,
            snapshot.has_exit,
            underlay_hosts,
        );
        d.peer_routes = overlay;
        d
    };
    if let Some(index) = plane.tun_if_index {
        if index != 0 {
            desired.tun_if_index = Some(index);
        }
    }
    desired
}

/// What the control plane's own view of the network asks of the routes.
pub fn membership_desired(
    ifname: &str,
    looked_up: Option<u32>,
    profile: &DeviceProfile,
    remote_subnets: &Vec<Ipv4Net>,
    has_exit: bool,
    overlay: Vec<Ipv4Net>,
) -> (r: DesiredRoutes)
    requires
        forall|i: int| 0 <= i < overlay@.len() ==> (#[trigger] overlay@[i]).bits() == 32,
    ensures
        r.wf(),
        r.ifname@ == ifname@,
        r.tun_if_index == looked_up,
        r.profile@ == profile@,
        r.remote_subnets@ == remote_subnets@,
        r.peer_routes@ == overlay@,
        r.has_exit == has_exit,
        r.underlay_hosts@ == Seq::<u32>::empty(),
        r.underlay is None,
{
    let none: Vec<u32> = Vec::new();
    let mut desired = desired_from_membership(
        ifname,
        looked_up,
        profile,
        remote_subnets,
        has_exit,
        &none,
    );
    desired.peer_routes = overlay;
    desired
}

/// The end of waiting for the data plane, as its callers are told: it took too
/// long, it failed, or it is done.
pub fn bring_up_outcome(timed_out: bool, outcome: Result<(), DataPlaneError>) -> (r: Result<
    (),
    String,
>)
    ensures
        timed_out ==> (r matches Err(e) && e@ == "data plane bring-up timed out"@),
        !timed_out && outcome is Ok ==> r is Ok,
        !timed_out ==> (outcome matches Err(x) ==> (r matches Err(e) && e@
            == "data plane bring-up failed: "@ + plane_error_text(x@))),
{
    if timed_out {
        return Err("data plane bring-up timed out".to_owned());
    }
    match outcome {
        Ok(_) => Ok(()),
        Err(x) => Err(join2("data plane bring-up failed: ", x.to_text().as_str())),
    }
}

pub fn bring_down_outcome(timed_out: bool, outcome: Result<(), DataPlaneError>) -> (r: Result<
    (),
    String,
>)
    ensures
        timed_out ==> (r matches Err(e) && e@ == "data plane bring-down timed out"@),
        !timed_out && outcome is Ok ==> r is Ok,
        !timed_out ==> (outcome matches Err(x) ==> (r matches Err(e) && e@
            == "data plane bring-down failed: "@ + plane_error_text(x@))),
{
    if timed_out {
        return Err("data plane bring-down timed out".to_owned());
    }
    match outcome {
        Ok(_) => Ok(()),
        Err(x) => Err(join2("data plane bring-down failed: ", x.to_text().as_str())),
    }
}

/// Taking the data plane down twice is taking it down once.
pub proof fn law_bring_down_is_idempotent(p: DataPlane)
    ensures
        brought_down(brought_down(p).0) == (brought_down(p).0, Seq::<PlaneAction>::empty()),
        !brought_down(p).0.up,
        brought_down(p).0.generation == p.generation,
{
}

/// The data plane is in view exactly while it is up, whatever is answered.
pub proof fn law_in_view_while_up(p: DataPlane, reply: PlaneReply, dns_ended: bool)
    requires
        p.up == p.published,
    ensures
        next_plane(p, reply).plane.up == next_plane(p, reply).plane.published,
        reconciled(p, dns_ended).plane.up == reconciled(p, dns_ended).plane.published,
        brought_down(p).0.up == brought_down(p).0.published,
        coming_up(p, Seq::empty()).plane.up == coming_up(p, Seq::empty()).plane.published,
{
}

/// When the interface or the system's name service cannot be set up, nothing
/// of the attempt is left.
pub proof fn law_failed_attempt_leaves_nothing(p: DataPlane, reply: PlaneReply)
    requires
        reply matches PlaneReply::TunBuilt(b) ==> b is Err,
        reply matches PlaneReply::DnsApplied(b) ==> b is Err,
        reply is TunBuilt || reply is DnsApplied,
    ensures
        next_plane(p, reply).plane == at(torn_down(p), PlaneStage::Rest),
        next_plane(p, reply).actions == teardown_actions(p),
        next_plane(p, reply).ask is Done,
        !anything_up(next_plane(p, reply).plane),
{
}

/// Each time the data plane comes up its generation moves on by one, and
/// nothing else moves it.
pub proof fn law_generation_counts_starts(p: DataPlane, reply: PlaneReply)
    ensures
        ({
            let q = next_plane(p, reply).plane;
            &&& q.generation == if reply is Routed && p.stage == PlaneStage::Routes {
                p.generation.wrapping_add(1)
            } else {
                p.generation
            }
            &&& q.generation != p.generation ==> q.up
        }),
{
}

} // verus!
