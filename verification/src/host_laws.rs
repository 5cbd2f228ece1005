//! What is done to the machine: its name service, address translation and the
//! service that runs the agent.

use crate::commands::CommandView;
use crate::forward::{
    command_views, first_stage, is_teardown, removal, stage_after, stage_ask, ExitNat, NatAskView,
    NatPlan, NatStage, Platform,
};
use crate::service::{
    install_plan, launch_steps, reload_plan, reset_plan, start_plan, state_dir_of, status_lines,
    stop_plan, systemd_state, uninstall_plan, ReloadView, StepView,
};
use crate::system_dns::{
    dns_fits, fault_of, next_dns, wanted_settings, DnsAction, DnsAskView, DnsCapabilities,
    DnsController, DnsReply, DnsStage, FailureView, RestoreOutcome, UpdateOutcome,
};
use crate::system_routes::{os_failure, OsErrorKind, RouteError, RouteOp};
use vstd::prelude::*;

verus! {

/// A system that can split names by interface is asked for the suffix alone on
/// the tunnel's interface; one that knows interfaces for all names on it, and
/// one that does not for all names. Only a system that can do none of this is
/// asked for nothing.
pub proof fn law_which_name_service_is_asked_for(
    caps: DnsCapabilities,
    ifname: Seq<char>,
    nameserver: u32,
    suffix: Seq<char>,
)
    ensures
        ({
            let wanted = wanted_settings(caps, ifname, nameserver, suffix);
            let split = caps.per_interface_dns && caps.split_dns;
            &&& wanted is Some <==> caps.per_interface_dns || caps.global_dns
            &&& wanted matches Some(s) ==> {
                &&& s.nameserver == nameserver
                &&& caps.per_interface_dns ==> s.interface == Some(ifname)
                &&& !caps.per_interface_dns ==> s.interface is None
                &&& split ==> s.routing_domain == Some(suffix)
                &&& !split ==> s.routing_domain is None
                &&& split && caps.default_route ==> s.default_route == Some(false)
                &&& !(split && caps.default_route) ==> s.default_route is None
            }
        }),
{
}

/// A controller without a lease that is told what the system can do asks for
/// these settings, and holds the lease once they are applied.
pub proof fn law_name_service_is_taken(c: DnsController, caps: DnsCapabilities, later: DnsController)
    requires
        c.stage == (DnsStage::Capabilities { fresh: true }),
        caps.per_interface_dns || caps.global_dns,
        fault_of(wanted_settings(caps, c.ifname@, c.nameserver, c.suffix@)->0) is None,
    ensures
        ({
            let m = next_dns(c, DnsReply::Capabilities(Ok(caps)));
            &&& m.ask == DnsAskView::Apply(
                wanted_settings(caps, c.ifname@, c.nameserver, c.suffix@)->0,
            )
            &&& m.stage == DnsStage::Applying
            &&& m.leased == c.leased
        }),
        ({
            let end = next_dns(later, DnsReply::Applied(Ok(())));
            &&& end.leased
            &&& end.stage == DnsStage::Rest
            &&& end.ask == DnsAskView::Done(None)
            &&& end.actions == seq![DnsAction::FlushCache]
        }),
{
}

/// A controller with a lease moves it. Where that takes other resources, or
/// they are gone, the lease is given back and asked for anew.
pub proof fn law_name_service_is_moved(
    c: DnsController,
    caps: DnsCapabilities,
    updating: DnsController,
    giving: DnsController,
)
    requires
        c.stage == (DnsStage::Capabilities { fresh: false }),
        caps.per_interface_dns || caps.global_dns,
        fault_of(wanted_settings(caps, c.ifname@, c.nameserver, c.suffix@)->0) is None,
        giving.stage == (DnsStage::Restoring { rebind: true }),
    ensures
        next_dns(c, DnsReply::Capabilities(Ok(caps))).ask == DnsAskView::Update(
            wanted_settings(caps, c.ifname@, c.nameserver, c.suffix@)->0,
        ),
        next_dns(c, DnsReply::Capabilities(Ok(caps))).stage == DnsStage::Updating,
        ({
            let done = next_dns(updating, DnsReply::Updated(UpdateOutcome::Done));
            let again = next_dns(updating, DnsReply::Updated(UpdateOutcome::RequiresRebind));
            &&& done.ask == DnsAskView::Done(None) && done.leased == updating.leased
            &&& done.actions == seq![DnsAction::FlushCache]
            &&& again.ask == DnsAskView::Restore && again.stage == (DnsStage::Restoring {
                rebind: true,
            })
            &&& next_dns(updating, DnsReply::Updated(UpdateOutcome::ResourceGone)) == again
        }),
        ({
            let anew = next_dns(giving, DnsReply::Restored(RestoreOutcome::Done));
            &&& anew.ask == DnsAskView::Capabilities
            &&& anew.stage == (DnsStage::Capabilities { fresh: true })
            &&& !anew.leased
            &&& anew.actions == seq![DnsAction::FlushCache]
        }),
{
}

/// A lease that is given back is gone, and the cache is flushed; one that could
/// not be given back is kept.
pub proof fn law_name_service_is_given_back(c: DnsController, e: String)
    requires
        c.stage == (DnsStage::Restoring { rebind: false }),
    ensures
        ({
            let end = next_dns(c, DnsReply::Restored(RestoreOutcome::Done));
            &&& !end.leased
            &&& end.ask == DnsAskView::Done(None)
            &&& end.actions == seq![DnsAction::FlushCache]
        }),
        ({
            let kept = next_dns(c, DnsReply::Restored(RestoreOutcome::Failed(e)));
            &&& kept.leased
            &&& kept.ask == DnsAskView::Done(Some(FailureView::System(e@)))
        }),
{
}

/// What goes wrong on the way is passed on: a system that can do nothing of
/// what is needed, settings that are wrong, and what the system says.
pub proof fn law_name_service_failures(c: DnsController, caps: DnsCapabilities, e: String)
    ensures
        next_dns(c, DnsReply::Capabilities(Err(e))).ask == DnsAskView::Done(
            Some(FailureView::System(e@)),
        ),
        next_dns(c, DnsReply::Applied(Err(e))).ask == DnsAskView::Done(
            Some(FailureView::System(e@)),
        ),
        next_dns(c, DnsReply::Updated(UpdateOutcome::Failed(e))).ask == DnsAskView::Done(
            Some(FailureView::System(e@)),
        ),
        !caps.per_interface_dns && !caps.global_dns ==> (next_dns(
            c,
            DnsReply::Capabilities(Ok(caps)),
        ).ask matches DnsAskView::Done(Some(FailureView::Unsupported(_)))),
        (caps.per_interface_dns || caps.global_dns) && fault_of(
            wanted_settings(caps, c.ifname@, c.nameserver, c.suffix@)->0,
        ) is Some ==> next_dns(c, DnsReply::Capabilities(Ok(caps))).ask == DnsAskView::Done(
            Some(
                FailureView::Invalid(
                    fault_of(wanted_settings(caps, c.ifname@, c.nameserver, c.suffix@)->0)->0,
                ),
            ),
        ),
{
}

/// On Linux address translation is installed where nft loads the rules, or
/// else where iptables appends the rule; on macOS where the rules could be
/// written, and on Windows where the one program succeeded. Elsewhere there is
/// none.
#[verifier::rlimit(40)]
pub proof fn law_when_address_translation_is_installed(
    probe: bool,
    deleted: bool,
    loaded: bool,
    checked: bool,
    appended: bool,
)
    ensures
        first_stage(Platform::Linux) == NatStage::ProbeNft,
        ({
            let end = if probe {
                if loaded {
                    stage_after(NatStage::ProbeNft, seq![true, deleted, true])
                } else {
                    stage_after(NatStage::ProbeNft, seq![true, deleted, false, checked, appended])
                }
            } else {
                stage_after(NatStage::ProbeNft, seq![false, checked, appended])
            };
            &&& end == NatStage::Installed <==> (probe && loaded) || appended
            &&& end == NatStage::Installed || end == NatStage::Failed
        }),
        stage_after(first_stage(Platform::Macos), seq![true, loaded, checked])
            == NatStage::Installed,
        stage_after(first_stage(Platform::Macos), seq![false]) == NatStage::Failed,
        stage_after(first_stage(Platform::Windows), seq![appended]) == if appended {
            NatStage::Installed
        } else {
            NatStage::Failed
        },
        first_stage(Platform::Unix) == NatStage::Failed,
        first_stage(Platform::Other) == NatStage::Failed,
{
    reveal_with_fuel(stage_after, 6);
    let a = seq![true, deleted, true];
    assert(a.drop_first() =~= seq![deleted, true]);
    assert(seq![deleted, true].drop_first() =~= seq![true]);
    assert(seq![true].drop_first() =~= Seq::<bool>::empty());
    let b = seq![true, deleted, false, checked, appended];
    assert(b.drop_first() =~= seq![deleted, false, checked, appended]);
    assert(seq![deleted, false, checked, appended].drop_first() =~= seq![false, checked, appended]);
    assert(seq![false, checked, appended].drop_first() =~= seq![checked, appended]);
    assert(seq![checked, appended].drop_first() =~= seq![appended]);
    assert(seq![appended].drop_first() =~= Seq::<bool>::empty());
    let c = seq![true, loaded, checked];
    assert(c.drop_first() =~= seq![loaded, checked]);
    assert(seq![loaded, checked].drop_first() =~= seq![checked]);
    assert(seq![checked].drop_first() =~= Seq::<bool>::empty());
    assert(seq![false].drop_first() =~= Seq::<bool>::empty());
}

/// A text stands in a list of arguments.
pub open spec fn has_arg(c: CommandView, arg: Seq<char>) -> bool {
    c.args.contains(arg)
}

/// The rules that are installed are for the uplink, and what is taken back on
/// Linux is the rule of that uplink, with the table of nft where it was used.
#[verifier::rlimit(40)]
pub proof fn law_rules_are_for_the_uplink(uplink: Seq<char>, used_nft: bool)
    ensures
        stage_ask(NatStage::AppendRule, uplink) matches Some(NatAskView::Run(c)) && c.program
            == "iptables"@ && has_arg(c, uplink) && has_arg(c, "-A"@) && has_arg(c, "MASQUERADE"@),
        stage_ask(NatStage::CheckRule, uplink) matches Some(NatAskView::Run(c)) && c.program
            == "iptables"@ && has_arg(c, uplink) && has_arg(c, "-C"@),
        removal(Platform::Linux, uplink, used_nft).len() == if used_nft {
            2int
        } else {
            1
        },
        ({
            let c = removal(Platform::Linux, uplink, used_nft).last();
            c.program == "iptables"@ && has_arg(c, uplink) && has_arg(c, "-D"@) && has_arg(
                c,
                "MASQUERADE"@,
            )
        }),
        used_nft ==> removal(Platform::Linux, uplink, used_nft)[0].program == "nft"@ && has_arg(
            removal(Platform::Linux, uplink, used_nft)[0],
            "tunnet_nat"@,
        ),
        removal(Platform::Macos, uplink, used_nft).len() == 1,
        removal(Platform::Windows, uplink, used_nft).len() == 1,
{
    let a = stage_ask(NatStage::AppendRule, uplink)->0->Run_0;
    assert(a.args[2] == "-A"@ && a.args[5] == uplink && a.args[7] == "MASQUERADE"@);
    let c = stage_ask(NatStage::CheckRule, uplink)->0->Run_0;
    assert(c.args[2] == "-C"@ && c.args[5] == uplink);
    let d = removal(Platform::Linux, uplink, used_nft).last();
    assert(d.args[2] == "-D"@ && d.args[5] == uplink && d.args[7] == "MASQUERADE"@);
    if used_nft {
        let t = removal(Platform::Linux, uplink, used_nft)[0];
        assert(t.args[3] == "tunnet_nat"@);
    }
}

/// What is in force is taken back by the programs for its uplink.
pub proof fn law_what_is_in_force_is_taken_back(exit: ExitNat, plan: NatPlan)
    requires
        is_teardown(exit, plan),
        exit.in_force is Some,
        exit.platform == Platform::Linux,
    ensures
        plan is Remove,
        command_views(plan->Remove_0@).len() == if exit.in_force->0.used_nft {
            2int
        } else {
            1
        },
        has_arg(command_views(plan->Remove_0@).last(), exit.in_force->0.uplink@),
{
    law_rules_are_for_the_uplink(exit.in_force->0.uplink@, exit.in_force->0.used_nft);
}

/// On Linux and macOS the service is installed, started, stopped and removed by
/// root alone; Windows asks for the rights itself, and an unknown system has no
/// service to install.
pub proof fn law_who_may_change_the_service(
    platform: Platform,
    root: bool,
    unit_there: bool,
    exe: Seq<char>,
    state_dir: Option<Seq<char>>,
    announce: bool,
)
    ensures
        ({
            let unix = platform == Platform::Linux || platform == Platform::Macos;
            &&& unix && !root ==> {
                &&& install_plan(platform, root, exe, state_dir, announce) is Err
                &&& start_plan(platform, root, unit_there, exe, state_dir) is Err
                &&& stop_plan(platform, root, unit_there) is Err
                &&& uninstall_plan(platform, root, unit_there) is Err
            }
            &&& unix && root ==> {
                &&& install_plan(platform, root, exe, state_dir, announce) is Ok
                &&& start_plan(platform, root, unit_there, exe, state_dir) is Ok
                &&& uninstall_plan(platform, root, unit_there) is Ok
                &&& stop_plan(platform, root, unit_there) is Ok <==> platform == Platform::Macos
                    || unit_there
            }
            &&& platform == Platform::Windows ==> {
                &&& install_plan(platform, root, exe, state_dir, announce) is Ok
                &&& install_plan(platform, root, exe, state_dir, announce)->Ok_0[0]
                    == StepView::Elevate
                &&& start_plan(platform, root, unit_there, exe, state_dir)->Ok_0[0]
                    == StepView::Elevate
                &&& uninstall_plan(platform, root, unit_there)->Ok_0[0] == StepView::Elevate
            }
            &&& platform == Platform::Unix || platform == Platform::Other ==> install_plan(
                platform,
                root,
                exe,
                state_dir,
                announce,
            ) is Err
        }),
{
}

/// A start ends with waiting for the agent's interface and saying that it runs.
pub proof fn law_a_start_waits_for_the_agent(
    platform: Platform,
    unit_there: bool,
    exe: Seq<char>,
    state_dir: Option<Seq<char>>,
)
    requires
        platform == Platform::Linux || platform == Platform::Macos || platform
            == Platform::Windows,
    ensures
        ({
            let steps = start_plan(platform, true, unit_there, exe, state_dir)->Ok_0;
            let launch = launch_steps(platform);
            &&& launch.len() <= steps.len()
            &&& steps.skip(steps.len() - launch.len()) == launch
            &&& steps.len() >= 2
            &&& steps.last() == StepView::Say("Service is running."@)
            &&& steps[steps.len() - 2] == StepView::WaitForApi
        }),
{
    let steps = start_plan(platform, true, unit_there, exe, state_dir)->Ok_0;
    let launch = launch_steps(platform);
    assert(steps.skip(steps.len() - launch.len()) =~= launch);
}

/// What the status command says: that there is no service, that it runs, or
/// that it is installed and does not.
pub proof fn law_what_the_status_says(
    platform: Platform,
    installed: bool,
    active: bool,
    state: Seq<char>,
)
    ensures
        ({
            let lines = status_lines(platform, installed, active, state);
            &&& !installed ==> lines[0] == StepView::Say("Tunnet service is not installed."@)
            &&& installed && active ==> lines.len() == 1 && lines[0] == StepView::Say(
                "running ("@ + state + ")"@,
            )
            &&& installed && !active ==> lines.len() == 2 && lines[0] == StepView::Say(
                "installed, not running ("@ + state + ")"@,
            )
        }),
{
}

/// The state of the unit is what was printed, errors where nothing else was,
/// and `unknown` where nothing was at all.
pub proof fn law_state_of_the_unit(stdout: Seq<char>, stderr: Seq<char>)
    ensures
        stdout.len() > 0 ==> systemd_state(stdout, stderr) == stdout,
        stdout.len() == 0 && stderr.len() > 0 ==> systemd_state(stdout, stderr) == stderr,
        stdout.len() == 0 && stderr.len() == 0 ==> systemd_state(stdout, stderr) == "unknown"@,
{
}

/// After a change of the configuration the service is restarted by root where
/// it is installed, and otherwise the user is told; an unknown system does
/// nothing.
pub proof fn law_reloading_the_service(
    platform: Platform,
    installed: bool,
    root: bool,
    exe: Seq<char>,
    state_dir: Option<Seq<char>>,
)
    ensures
        ({
            let plan = reload_plan(platform, installed, root, exe, state_dir);
            let unix = platform == Platform::Linux || platform == Platform::Macos;
            &&& platform == Platform::Linux && installed && root ==> plan is Steps
                && plan->Steps_0.contains(StepView::WaitForApi)
            &&& platform == Platform::Macos && installed && root ==> plan is Bounce
            &&& platform == Platform::Windows && installed ==> plan is UpdateThen
                && plan->UpdateThen_0[0] == StepView::StopService(false) && plan->UpdateThen_0[1]
                == StepView::StartService
            &&& unix && (!installed || !root) ==> plan is Tell
            &&& platform == Platform::Windows && !installed ==> plan is Tell
            &&& platform == Platform::Unix || platform == Platform::Other ==> plan
                == ReloadView::Nothing
        }),
{
    let plan = reload_plan(platform, installed, root, exe, state_dir);
    if platform == Platform::Linux && installed && root {
        let steps = plan->Steps_0;
        assert(steps[steps.len() - 2] == StepView::WaitForApi);
    }
}

/// Before the state is wiped an installed service is stopped.
pub proof fn law_stopping_before_a_reset(platform: Platform, unit_there: bool)
    ensures
        platform == Platform::Linux ==> reset_plan(platform, unit_there).len() == if unit_there {
            1int
        } else {
            0
        },
        platform == Platform::Macos ==> reset_plan(platform, unit_there).len() == if unit_there {
            2int
        } else {
            1
        },
        platform == Platform::Windows ==> reset_plan(platform, unit_there) == seq![
            StepView::StopService(true),
        ],
{
}

/// The state lies where it was asked for, or else under `/var/lib`.
pub proof fn law_where_the_state_lies(dir: Seq<char>)
    ensures
        state_dir_of(Some(dir)) == dir,
        state_dir_of(None) == "/var/lib/tunnet"@,
{
}

/// The answer to each question fits the stage that the controller waits in.
pub proof fn law_name_service_can_answer(
    c: DnsController,
    reply: DnsReply,
    caps: Result<DnsCapabilities, String>,
    applied: Result<(), String>,
    updated: UpdateOutcome,
    restored: RestoreOutcome,
)
    ensures
        ({
            let m = next_dns(c, reply);
            match m.ask {
                DnsAskView::Capabilities => dns_fits(m.stage, DnsReply::Capabilities(caps)),
                DnsAskView::Apply(_) => dns_fits(m.stage, DnsReply::Applied(applied)),
                DnsAskView::Update(_) => dns_fits(m.stage, DnsReply::Updated(updated)),
                DnsAskView::Restore => dns_fits(m.stage, DnsReply::Restored(restored)),
                DnsAskView::Done(_) => m.stage == DnsStage::Rest,
            }
        }),
        !dns_fits(DnsStage::Rest, reply),
{
}

/// What the system says of a route that is there already, or is not there, is
/// just that; without rights the operation and the route are named, and any
/// other failure keeps the system's words.
pub proof fn law_failures_of_route_operations(
    e: RouteError,
    op: RouteOp,
    route: Seq<char>,
    msg: Seq<char>,
)
    ensures
        os_failure(e, op, route, OsErrorKind::AlreadyExists, msg) <==> e is AlreadyExists,
        os_failure(e, op, route, OsErrorKind::NotFound, msg) <==> e is NotFound,
        os_failure(e, op, route, OsErrorKind::PermissionDenied, msg) ==> e is PermissionDenied
            && e->PermissionDenied_route@ == route,
        os_failure(e, op, route, OsErrorKind::Other, msg) && e is Native ==> e->Native_route@
            == route && e->detail@ == msg && op != RouteOp::List,
        os_failure(e, op, route, OsErrorKind::Other, msg) && e is List ==> op == RouteOp::List,
        os_failure(e, op, route, OsErrorKind::Other, msg) ==> !(e is AlreadyExists) && !(
        e is NotFound),
{
}

} // verus!
