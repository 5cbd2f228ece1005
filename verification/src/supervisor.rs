//! Which parts of the agent run, in which order they start and stop, and how
//! often each may be restarted.

use vstd::prelude::*;

verus! {

/// A part of the agent that is watched over.
#[derive(Clone, Copy, Debug, PartialEq, Eq, Structural)]
pub enum Child {
    /// The supervisor of the data plane.
    DataPlaneSupervisor,
    Route,
    DataPlane,
    SshRegistry,
    Control,
    Posture,
    /// One of several, by number.
    Presence(usize),
    Update,
}

/// What a failure of a part does to the others.
#[derive(Clone, Copy, Debug, PartialEq, Eq, Structural)]
pub enum Strategy {
    /// Only the part itself is restarted.
    OneForOne,
    /// The part and those that started after it are restarted.
    RestForOne,
}

/// How often a part may be restarted within a time.
#[derive(Clone, Copy, Debug, PartialEq, Eq, Structural)]
pub struct RestartLimit {
    pub times: u32,
    pub within_secs: u64,
}

/// Asks for the parts of the data plane.
#[derive(Clone, Copy, Debug)]
pub struct GetDataPlaneChildren;

/// Asks for the parts of the agent.
#[derive(Clone, Copy, Debug)]
pub struct GetAgentChildren;

/// Ends the agent.
#[derive(Clone, Copy, Debug)]
pub struct ShutdownAgent;

/// Restarts are allowed up to this limit; beyond it the part stays down.
pub open spec fn limit_of(c: Child) -> RestartLimit {
    match c {
        Child::DataPlaneSupervisor => RestartLimit { times: 5, within_secs: 120 },
        Child::Route => RestartLimit { times: 5, within_secs: 60 },
        Child::DataPlane => RestartLimit { times: 5, within_secs: 60 },
        Child::SshRegistry => RestartLimit { times: 5, within_secs: 60 },
        Child::Control => RestartLimit { times: 10, within_secs: 120 },
        Child::Posture => RestartLimit { times: 5, within_secs: 60 },
        Child::Presence(_) => RestartLimit { times: 3, within_secs: 120 },
        Child::Update => RestartLimit { times: 3, within_secs: 300 },
    }
}

pub fn restart_limit(c: Child) -> (r: RestartLimit)
    ensures
        r == limit_of(c),
{
    match c {
        Child::DataPlaneSupervisor => RestartLimit { times: 5, within_secs: 120 },
        Child::Route => RestartLimit { times: 5, within_secs: 60 },
        Child::DataPlane => RestartLimit { times: 5, within_secs: 60 },
        Child::SshRegistry => RestartLimit { times: 5, within_secs: 60 },
        Child::Control => RestartLimit { times: 10, within_secs: 120 },
        Child::Posture => RestartLimit { times: 5, within_secs: 60 },
        Child::Presence(_) => RestartLimit { times: 3, within_secs: 120 },
        Child::Update => RestartLimit { times: 3, within_secs: 300 },
    }
}

/// The data plane needs its routes, so a failure of these restarts it too. The
/// parts of the agent are independent of each other.
pub fn supervision_strategy(of_data_plane: bool) -> (r: Strategy)
    ensures
        r == if of_data_plane {
            Strategy::RestForOne
        } else {
            Strategy::OneForOne
        },
{
    if of_data_plane {
        Strategy::RestForOne
    } else {
        Strategy::OneForOne
    }
}

/// The parts of the data plane, in the order in which they start.
pub open spec fn plane_children() -> Seq<Child> {
    seq![Child::Route, Child::DataPlane]
}

/// The parts of the data plane in the order in which they stop: what is used
/// stops last.
pub fn plane_stop_order() -> (r: Vec<Child>)
    ensures
        r@ == plane_children().reverse(),
{
    let mut v: Vec<Child> = Vec::new();
    v.push(Child::DataPlane);
    v.push(Child::Route);
    proof {
        assert(v@ =~= plane_children().reverse());
    }
    v
}

pub fn plane_start_order() -> (r: Vec<Child>)
    ensures
        r@ == plane_children(),
{
    let mut v: Vec<Child> = Vec::new();
    v.push(Child::Route);
    v.push(Child::DataPlane);
    proof {
        assert(v@ =~= plane_children());
    }
    v
}

/// Which optional parts an agent has.
#[derive(Clone, Copy, Debug, PartialEq, Eq, Structural)]
pub struct AgentParts {
    pub control: bool,
    pub posture: bool,
    /// How many presences are announced.
    pub presences: usize,
    pub update: bool,
}

/// Posture reports go through the control plane, so there are none without it.
pub open spec fn has_posture(p: AgentParts) -> bool {
    p.posture && p.control
}

pub open spec fn child_if(on: bool, c: Child) -> Seq<Child> {
    if on {
        seq![c]
    } else {
        Seq::empty()
    }
}

/// The presences, by number.
pub open spec fn presence_children(n: nat) -> Seq<Child> {
    Seq::new(n, |i: int| Child::Presence(i as usize))
}

/// The parts of an agent in the order in which they start.
pub open spec fn start_order_of(p: AgentParts) -> Seq<Child> {
    seq![Child::DataPlaneSupervisor, Child::SshRegistry] + child_if(p.control, Child::Control)
        + child_if(has_posture(p), Child::Posture) + presence_children(p.presences as nat)
        + child_if(p.update, Child::Update)
}

/// The parts of an agent in the order in which they stop.
pub open spec fn stop_order_of(p: AgentParts) -> Seq<Child> {
    child_if(p.control, Child::Control) + presence_children(p.presences as nat) + child_if(
        has_posture(p),
        Child::Posture,
    ) + child_if(p.update, Child::Update) + seq![Child::DataPlaneSupervisor, Child::SshRegistry]
}

fn push_child(v: &mut Vec<Child>, on: bool, c: Child)
    ensures
        final(v)@ == old(v)@ + child_if(on, c),
{
    if on {
        v.push(c);
    }
    proof {
        assert(v@ =~= old(v)@ + child_if(on, c));
    }
}

fn push_presences(v: &mut Vec<Child>, n: usize)
    ensures
        final(v)@ == old(v)@ + presence_children(n as nat),
{
    let mut i: usize = 0;
    while i < n
        invariant
            i <= n,
            v@ =~= old(v)@ + presence_children(i as nat),
        decreases n - i,
    {
        v.push(Child::Presence(i));
        i = i + 1;
    }
}

/// The parts of an agent in the order in which they start: what others need
/// comes first.
pub fn start_order(parts: AgentParts) -> (r: Vec<Child>)
    ensures
        r@ == start_order_of(parts),
{
    let mut v: Vec<Child> = Vec::new();
    v.push(Child::DataPlaneSupervisor);
    v.push(Child::SshRegistry);
    proof {
        assert(v@ =~= seq![Child::DataPlaneSupervisor, Child::SshRegistry]);
    }
    push_child(&mut v, parts.control, Child::Control);
    push_child(&mut v, parts.posture && parts.control, Child::Posture);
    push_presences(&mut v, parts.presences);
    push_child(&mut v, parts.update, Child::Update);
    v
}

/// The parts of an agent in the order in which they stop.
pub fn stop_order(parts: AgentParts) -> (r: Vec<Child>)
    ensures
        r@ == stop_order_of(parts),
{
    let mut v: Vec<Child> = Vec::new();
    push_child(&mut v, parts.control, Child::Control);
    push_presences(&mut v, parts.presences);
    push_child(&mut v, parts.posture && parts.control, Child::Posture);
    push_child(&mut v, parts.update, Child::Update);
    v.push(Child::DataPlaneSupervisor);
    v.push(Child::SshRegistry);
    proof {
        assert(v@ =~= stop_order_of(parts));
    }
    v
}

/// How long a part may take to answer that it ends, in seconds; most are only
/// told.
pub fn shutdown_wait_secs(c: Child) -> (r: Option<u64>)
    ensures
        r == match c {
            Child::Control => Some(10u64),
            Child::DataPlane => Some(20u64),
            _ => None,
        },
{
    match c {
        Child::Control => Some(10),
        Child::DataPlane => Some(20),
        _ => None,
    }
}

/// Every part that was started is stopped, and no other.
pub proof fn law_all_that_starts_stops(p: AgentParts, c: Child)
    ensures
        start_order_of(p).contains(c) <==> stop_order_of(p).contains(c),
        start_order_of(p).len() == stop_order_of(p).len(),
{
    let a = start_order_of(p);
    let b = stop_order_of(p);
    let n = p.presences as int;
    let x: int = if p.control {
        1
    } else {
        0
    };
    let y: int = if has_posture(p) {
        1
    } else {
        0
    };
    let z: int = if p.update {
        1
    } else {
        0
    };
    if a.contains(c) {
        let i = choose|i: int| 0 <= i < a.len() && a[i] == c;
        let j: int = if i < 2 {
            b.len() - 2 + i
        } else if i < 2 + x {
            0
        } else if i < 2 + x + y {
            x + n
        } else if i < 2 + x + y + n {
            x + (i - 2 - x - y)
        } else {
            x + n + y
        };
        assert(b[j] == c);
    }
    if b.contains(c) {
        let j = choose|j: int| 0 <= j < b.len() && b[j] == c;
        let i: int = if j < x {
            2
        } else if j < x + n {
            2 + x + y + (j - x)
        } else if j < x + n + y {
            2 + x
        } else if j < x + n + y + z {
            2 + x + y + n
        } else {
            j - (x + n + y + z)
        };
        assert(a[i] == c);
    }
}

/// The control plane stops before the data plane that it drives, and the data
/// plane is the last but one to stop.
pub proof fn law_users_stop_before_what_they_use(p: AgentParts)
    ensures
        stop_order_of(p)[stop_order_of(p).len() - 2] == Child::DataPlaneSupervisor,
        stop_order_of(p)[stop_order_of(p).len() - 1] == Child::SshRegistry,
        p.control ==> stop_order_of(p)[0] == Child::Control,
        p.control ==> start_order_of(p)[2] == Child::Control,
        start_order_of(p)[0] == Child::DataPlaneSupervisor,
        start_order_of(p)[1] == Child::SshRegistry,
{
}

} // verus!
