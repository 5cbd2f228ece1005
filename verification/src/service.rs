//! Installing and controlling the operating system's service for the daemon.
//!
//! What depends on the system (who runs this, what is installed) is passed in;
//! what is to be done comes back as a list of steps.

use crate::commands::{
    bare, command1, command2, command3, with_args, CommandLine, CommandView,
};
use crate::forward::Platform;
use crate::policy_key::opt_str;
use crate::scan::{trim, trim_back, trim_front};
use crate::text::{is_blank, join2, join3, same_text};
use vstd::prelude::*;

verus! {

/// How long the daemon has to answer after a start, in seconds.
pub const API_READY_SECS: u64 = 60;

/// What is known of the service.
#[derive(Debug)]
pub struct ServiceProbe {
    pub installed: bool,
    pub active: bool,
    pub state: String,
}

/// Something to do for the service.
#[derive(Debug)]
pub enum ServiceStep {
    /// Tell the user.
    Say(String),
    /// Write a file; a failure ends the plan.
    Write { path: String, text: String },
    /// Remove a file; a failure ends the plan.
    Remove { path: String },
    /// Run a program; a failure ends the plan where the program is required.
    Run { command: CommandLine, required: bool },
    /// Run a program, or the second where it fails, which then has to succeed.
    RunOr { command: CommandLine, other: CommandLine },
    /// Wait until the daemon answers; a failure ends the plan.
    WaitForApi,
    /// Go on with the rights of an administrator.
    Elevate,
    /// Stop the Windows service if its program is out of date and it runs.
    StopIfOutdated,
    /// Copy the daemon's program to where the Windows service runs it.
    StageDaemon,
    RegisterService,
    UnregisterService,
    StartService,
    /// Stop the Windows service, where that is required or else if possible.
    StopService { required: bool },
    StopIfActive,
    /// From here on a failure is told with this text behind it.
    OnFailure(String),
}

pub enum StepView {
    Say(Seq<char>),
    Write(Seq<char>, Seq<char>),
    Remove(Seq<char>),
    Run(CommandView, bool),
    RunOr(CommandView, CommandView),
    WaitForApi,
    Elevate,
    StopIfOutdated,
    StageDaemon,
    RegisterService,
    UnregisterService,
    StartService,
    StopService(bool),
    StopIfActive,
    OnFailure(Seq<char>),
}

impl View for ServiceStep {
    type V = StepView;

    open spec fn view(&self) -> StepView {
        match *self {
            ServiceStep::Say(s) => StepView::Say(s@),
            ServiceStep::Write { path, text } => StepView::Write(path@, text@),
            ServiceStep::Remove { path } => StepView::Remove(path@),
            ServiceStep::Run { command, required } => StepView::Run(command@, required),
            ServiceStep::RunOr { command, other } => StepView::RunOr(command@, other@),
            ServiceStep::WaitForApi => StepView::WaitForApi,
            ServiceStep::Elevate => StepView::Elevate,
            ServiceStep::StopIfOutdated => StepView::StopIfOutdated,
            ServiceStep::StageDaemon => StepView::StageDaemon,
            ServiceStep::RegisterService => StepView::RegisterService,
            ServiceStep::UnregisterService => StepView::UnregisterService,
            ServiceStep::StartService => StepView::StartService,
            ServiceStep::StopService { required } => StepView::StopService(required),
            ServiceStep::StopIfActive => StepView::StopIfActive,
            ServiceStep::OnFailure(hint) => StepView::OnFailure(hint@),
        }
    }
}

pub open spec fn step_views(v: Seq<ServiceStep>) -> Seq<StepView> {
    Seq::new(v.len(), |i: int| v[i]@)
}

/// A plan as a value: the steps, or why there is none.
pub open spec fn plan_view(r: Result<Vec<ServiceStep>, String>) -> Result<
    Seq<StepView>,
    Seq<char>,
> {
    match r {
        Ok(v) => Ok(step_views(v@)),
        Err(e) => Err(e@),
    }
}

/// Whether the process runs as root, by its effective user where the system
/// has such a thing.
pub fn is_root(euid: Option<u32>) -> (r: bool)
    ensures
        r == (euid == Some(0u32)),
{
    match euid {
        Some(id) => id == 0,
        None => false,
    }
}

/// What a process without rights is told.
pub open spec fn needs_root() -> Seq<char> {
    "this command needs root.\nRe-run with sudo, e.g.:\n  sudo tunnet <command>"@
}

/// Whether the process may go on with what only an administrator may do. On
/// Windows it asks for the rights; on a Unix system it has to be root.
pub fn ensure_admin(platform: Platform, is_admin: bool) -> (r: Result<Option<ServiceStep>, String>)
    ensures
        match platform {
            Platform::Windows => r matches Ok(Some(s)) && s@ == StepView::Elevate,
            Platform::Linux | Platform::Macos | Platform::Unix => if is_admin {
                r matches Ok(None)
            } else {
                r matches Err(e) && e@ == needs_root()
            },
            Platform::Other => r matches Ok(None),
        },
{
    match platform {
        Platform::Windows => Ok(Some(ServiceStep::Elevate)),
        Platform::Linux | Platform::Macos | Platform::Unix => if is_admin {
            Ok(None)
        } else {
            Err(
                "this command needs root.\nRe-run with sudo, e.g.:\n  sudo tunnet <command>".to_owned(),
            )
        },
        Platform::Other => Ok(None),
    }
}

/// Where the daemon keeps its state unless told otherwise.
pub open spec fn default_state_dir() -> Seq<char> {
    "/var/lib/tunnet"@
}

/// The directory for the daemon's state.
pub open spec fn state_dir_of(state_dir: Option<Seq<char>>) -> Seq<char> {
    match state_dir {
        Some(d) => d,
        None => default_state_dir(),
    }
}

/// The directory for the daemon's state on a Unix system.
pub fn system_state_dir() -> (r: &'static str)
    ensures
        r@ == default_state_dir(),
{
    "/var/lib/tunnet"
}

pub fn resolve_state_dir(state_dir: Option<&str>) -> (r: String)
    ensures
        r@ == state_dir_of(opt_str(state_dir)),
{
    match state_dir {
        Some(d) => d.to_owned(),
        None => system_state_dir().to_owned(),
    }
}

/// The systemd unit for a program and a state directory.
pub open spec fn systemd_unit(exe: Seq<char>, dir: Seq<char>) -> Seq<char> {
    "[Unit]\nDescription=Tunnet mesh agent\nAfter=network-online.target\nWants=network-online.target\n\n[Service]\nType=notify-reload\nExecStart="@
        + exe
        + "\nExecReload=/bin/kill -HUP $MAINPID\nRestart=always\nRestartSec=2\nKillMode=mixed\nTimeoutStartSec=30\nTimeoutStopSec=30\nStateDirectory=tunnet\nRuntimeDirectory=tunnet\nRuntimeDirectoryMode=0755\nEnvironment=TUNNET_STATE_DIR="@
        + dir
        + "\nEnvironment=TUNNET_RUNTIME_DIR=/run/tunnet\nEnvironment=TUNNET_SERVICE_MODE=1\n\n[Install]\nWantedBy=multi-user.target\n"@
}

pub fn render_systemd_unit(exe: &str, state_dir: Option<&str>) -> (r: String)
    ensures
        r@ == systemd_unit(exe@, state_dir_of(opt_str(state_dir))),
{
    let dir = resolve_state_dir(state_dir);
    let mut out = join3(
        "[Unit]\nDescription=Tunnet mesh agent\nAfter=network-online.target\nWants=network-online.target\n\n[Service]\nType=notify-reload\nExecStart=",
        exe,
        "\nExecReload=/bin/kill -HUP $MAINPID\nRestart=always\nRestartSec=2\nKillMode=mixed\nTimeoutStartSec=30\nTimeoutStopSec=30\nStateDirectory=tunnet\nRuntimeDirectory=tunnet\nRuntimeDirectoryMode=0755\nEnvironment=TUNNET_STATE_DIR=",
    );
    out.append(dir.as_str());
    out.append(
        "\nEnvironment=TUNNET_RUNTIME_DIR=/run/tunnet\nEnvironment=TUNNET_SERVICE_MODE=1\n\n[Install]\nWantedBy=multi-user.target\n",
    );
    out
}

/// The launchd description for a program and a state directory.
pub open spec fn launchd_plist(exe: Seq<char>, dir: Seq<char>) -> Seq<char> {
    "<?xml version=\"1.0\" encoding=\"UTF-8\"?>\n<!DOCTYPE plist PUBLIC \"-//Apple//DTD PLIST 1.0//EN\" \"http://www.apple.com/DTDs/PropertyList-1.0.dtd\">\n<plist version=\"1.0\">\n<dict>\n  <key>Label</key>\n  <string>com.tunnet.agent</string>\n  <key>ProgramArguments</key>\n  <array>\n    <string>"@
        + exe
        + "</string>\n  </array>\n  <key>RunAtLoad</key>\n  <true/>\n  <key>KeepAlive</key>\n  <true/>\n  <key>ThrottleInterval</key>\n  <integer>2</integer>\n  <key>EnvironmentVariables</key>\n  <dict>\n    <key>TUNNET_STATE_DIR</key>\n    <string>"@
        + dir + "</string>\n  </dict>\n</dict>\n</plist>\n"@
}

pub fn render_launchd_plist(exe: &str, state_dir: Option<&str>) -> (r: String)
    ensures
        r@ == launchd_plist(exe@, state_dir_of(opt_str(state_dir))),
{
    let dir = resolve_state_dir(state_dir);
    let mut out = join3(
        "<?xml version=\"1.0\" encoding=\"UTF-8\"?>\n<!DOCTYPE plist PUBLIC \"-//Apple//DTD PLIST 1.0//EN\" \"http://www.apple.com/DTDs/PropertyList-1.0.dtd\">\n<plist version=\"1.0\">\n<dict>\n  <key>Label</key>\n  <string>com.tunnet.agent</string>\n  <key>ProgramArguments</key>\n  <array>\n    <string>",
        exe,
        "</string>\n  </array>\n  <key>RunAtLoad</key>\n  <true/>\n  <key>KeepAlive</key>\n  <true/>\n  <key>ThrottleInterval</key>\n  <integer>2</integer>\n  <key>EnvironmentVariables</key>\n  <dict>\n    <key>TUNNET_STATE_DIR</key>\n    <string>",
    );
    out.append(dir.as_str());
    out.append("</string>\n  </dict>\n</dict>\n</plist>\n");
    out
}

/// Where systemd looks for the unit.
pub fn unit_path() -> (r: &'static str)
    ensures
        r@ == "/etc/systemd/system/tunnet.service"@,
{
    "/etc/systemd/system/tunnet.service"
}

/// Where launchd looks for the description.
pub fn launchd_plist_path() -> (r: &'static str)
    ensures
        r@ == "/Library/LaunchDaemons/com.tunnet.agent.plist"@,
{
    "/Library/LaunchDaemons/com.tunnet.agent.plist"
}

pub open spec fn systemctl(verb: Seq<char>) -> CommandView {
    with_args(bare("systemctl"@), seq![verb, "tunnet"@])
}

pub open spec fn daemon_reload() -> CommandView {
    with_args(bare("systemctl"@), seq!["daemon-reload"@])
}

pub open spec fn launchctl_bootout() -> CommandView {
    with_args(bare("launchctl"@), seq!["bootout"@, "system/com.tunnet.agent"@])
}

pub open spec fn launchctl_unload() -> CommandView {
    with_args(
        bare("launchctl"@),
        seq!["unload"@, "/Library/LaunchDaemons/com.tunnet.agent.plist"@],
    )
}

pub open spec fn launchctl_bootstrap() -> CommandView {
    with_args(
        bare("launchctl"@),
        seq!["bootstrap"@, "system"@, "/Library/LaunchDaemons/com.tunnet.agent.plist"@],
    )
}

pub open spec fn launchctl_load() -> CommandView {
    with_args(
        bare("launchctl"@),
        seq!["load"@, "-w"@, "/Library/LaunchDaemons/com.tunnet.agent.plist"@],
    )
}

fn do_systemctl(verb: &str, required: bool) -> (r: ServiceStep)
    ensures
        r@ == StepView::Run(systemctl(verb@), required),
{
    ServiceStep::Run { command: command2("systemctl", verb, "tunnet"), required }
}

fn do_daemon_reload(required: bool) -> (r: ServiceStep)
    ensures
        r@ == StepView::Run(daemon_reload(), required),
{
    ServiceStep::Run { command: command1("systemctl", "daemon-reload"), required }
}

fn do_bootout() -> (r: ServiceStep)
    ensures
        r@ == StepView::Run(launchctl_bootout(), false),
{
    ServiceStep::Run {
        command: command2("launchctl", "bootout", "system/com.tunnet.agent"),
        required: false,
    }
}

fn do_unload() -> (r: ServiceStep)
    ensures
        r@ == StepView::Run(launchctl_unload(), false),
{
    ServiceStep::Run {
        command: command2("launchctl", "unload", launchd_plist_path()),
        required: false,
    }
}

fn say(text: &str) -> (r: ServiceStep)
    ensures
        r@ == StepView::Say(text@),
{
    ServiceStep::Say(text.to_owned())
}

fn no_steps() -> (r: Vec<ServiceStep>)
    ensures
        step_views(r@) == Seq::<StepView>::empty(),
{
    let v: Vec<ServiceStep> = Vec::new();
    proof {
        assert(step_views(v@) =~= Seq::<StepView>::empty());
    }
    v
}

fn then_do(v: &mut Vec<ServiceStep>, s: ServiceStep)
    ensures
        step_views(final(v)@) == step_views(old(v)@).push(s@),
{
    let ghost before = v@;
    v.push(s);
    proof {
        assert(step_views(v@) =~= step_views(before).push(s@));
    }
}

fn then_all(v: &mut Vec<ServiceStep>, mut more: Vec<ServiceStep>)
    ensures
        step_views(final(v)@) == step_views(old(v)@) + step_views(more@),
{
    let ghost before = v@;
    let ghost added = more@;
    v.append(&mut more);
    proof {
        assert(step_views(v@) =~= step_views(before) + step_views(added));
    }
}

/// What is said after an installation.
pub open spec fn installed_banner(platform: Platform, dir: Seq<char>) -> Seq<char> {
    "Service installed (state dir "@ + dir + (if platform == Platform::Windows {
        "). Start with `tunnet service start`."@
    } else {
        "). Start with `sudo tunnet service start`."@
    })
}

/// How the service is installed, or brought up to date. Root is needed on
/// Linux and macOS, and an unknown system has no service.
pub open spec fn install_plan(
    platform: Platform,
    root: bool,
    exe: Seq<char>,
    state_dir: Option<Seq<char>>,
    announce: bool,
) -> Result<Seq<StepView>, Seq<char>> {
    let dir = state_dir_of(state_dir);
    let banner = if announce {
        seq![StepView::Say(installed_banner(platform, dir))]
    } else {
        Seq::empty()
    };
    match platform {
        Platform::Linux => if !root {
            Err("service install needs root: sudo tunnet service install"@)
        } else {
            Ok(
                seq![
                    StepView::Write(
                        "/etc/systemd/system/tunnet.service"@,
                        systemd_unit(exe, dir),
                    ),
                    StepView::Run(daemon_reload(), true),
                    StepView::Run(systemctl("enable"@), false),
                ] + banner,
            )
        },
        Platform::Macos => if !root {
            Err("service install needs root: sudo tunnet service install"@)
        } else {
            Ok(
                seq![
                    StepView::Write(
                        "/Library/LaunchDaemons/com.tunnet.agent.plist"@,
                        launchd_plist(exe, dir),
                    ),
                ] + banner,
            )
        },
        Platform::Windows => Ok(
            seq![
                StepView::Elevate,
                StepView::StopIfOutdated,
                StepView::StageDaemon,
                StepView::RegisterService,
            ] + banner,
        ),
        Platform::Unix | Platform::Other => Err("service install is not supported on this OS"@),
    }
}

fn install_inner(
    platform: Platform,
    root: bool,
    exe: &str,
    state_dir: Option<&str>,
    announce: bool,
) -> (r: Result<Vec<ServiceStep>, String>)
    ensures
        plan_view(r) == install_plan(platform, root, exe@, opt_str(state_dir), announce),
{
    let mut steps = no_steps();
    match platform {
        Platform::Linux => {
            if !root {
                return Err("service install needs root: sudo tunnet service install".to_owned());
            }
            then_do(
                &mut steps,
                ServiceStep::Write {
                    path: unit_path().to_owned(),
                    text: render_systemd_unit(exe, state_dir),
                },
            );
            then_do(&mut steps, do_daemon_reload(true));
            then_do(&mut steps, do_systemctl("enable", false));
        },
        Platform::Macos => {
            if !root {
                return Err("service install needs root: sudo tunnet service install".to_owned());
            }
            then_do(
                &mut steps,
                ServiceStep::Write {
                    path: launchd_plist_path().to_owned(),
                    text: render_launchd_plist(exe, state_dir),
                },
            );
        },
        Platform::Windows => {
            then_do(&mut steps, ServiceStep::Elevate);
            then_do(&mut steps, ServiceStep::StopIfOutdated);
            then_do(&mut steps, ServiceStep::StageDaemon);
            then_do(&mut steps, ServiceStep::RegisterService);
        },
        Platform::Unix | Platform::Other => {
            return Err("service install is not supported on this OS".to_owned());
        },
    }
    if announce {
        let dir = resolve_state_dir(state_dir);
        let end = if platform == Platform::Windows {
            "). Start with `tunnet service start`."
        } else {
            "). Start with `sudo tunnet service start`."
        };
        let text = join3("Service installed (state dir ", dir.as_str(), end);
        then_do(&mut steps, ServiceStep::Say(text));
    }
    proof {
        assert(step_views(steps@) =~= install_plan(
            platform,
            root,
            exe@,
            opt_str(state_dir),
            announce,
        )->Ok_0);
    }
    Ok(steps)
}

/// Installs the service and says so.
pub fn install(platform: Platform, root: bool, exe: &str, state_dir: Option<&str>) -> (r: Result<
    Vec<ServiceStep>,
    String,
>)
    ensures
        plan_view(r) == install_plan(platform, root, exe@, opt_str(state_dir), true),
{
    install_inner(platform, root, exe, state_dir, true)
}

/// Brings the installed service up to date without a word.
pub fn refresh_unit(platform: Platform, root: bool, exe: &str, state_dir: Option<&str>) -> (r:
    Result<Vec<ServiceStep>, String>)
    ensures
        plan_view(r) == install_plan(platform, root, exe@, opt_str(state_dir), false),
{
    install_inner(platform, root, exe, state_dir, false)
}

/// How the service is stopped. `unit_there` says whether the unit is installed.
pub open spec fn stop_plan(platform: Platform, root: bool, unit_there: bool) -> Result<
    Seq<StepView>,
    Seq<char>,
> {
    match platform {
        Platform::Linux => if !root {
            Err("stopping the service needs root: sudo tunnet service stop"@)
        } else if !unit_there {
            Err("service unit not installed (nothing to stop)"@)
        } else {
            Ok(
                seq![
                    StepView::Run(systemctl("stop"@), true),
                    StepView::Say("Service stopped."@),
                ],
            )
        },
        Platform::Macos => if !root {
            Err("stopping the service needs root: sudo tunnet service stop"@)
        } else {
            Ok(
                seq![
                    StepView::Run(launchctl_bootout(), false),
                    StepView::Run(launchctl_unload(), false),
                    StepView::Say("Service stopped."@),
                ],
            )
        },
        Platform::Windows => Ok(
            seq![
                StepView::Elevate,
                StepView::StopService(true),
                StepView::Say("Service stopped."@),
            ],
        ),
        Platform::Unix | Platform::Other => Ok(seq![StepView::Say("Service stopped."@)]),
    }
}

pub fn stop(platform: Platform, root: bool, unit_there: bool) -> (r: Result<
    Vec<ServiceStep>,
    String,
>)
    ensures
        plan_view(r) == stop_plan(platform, root, unit_there),
{
    let mut steps = no_steps();
    match platform {
        Platform::Linux => {
            if !root {
                return Err(
                    "stopping the service needs root: sudo tunnet service stop".to_owned(),
                );
            }
            if !unit_there {
                return Err("service unit not installed (nothing to stop)".to_owned());
            }
            then_do(&mut steps, do_systemctl("stop", true));
        },
        Platform::Macos => {
            if !root {
                return Err(
                    "stopping the service needs root: sudo tunnet service stop".to_owned(),
                );
            }
            then_do(&mut steps, do_bootout());
            then_do(&mut steps, do_unload());
        },
        Platform::Windows => {
            then_do(&mut steps, ServiceStep::Elevate);
            then_do(&mut steps, ServiceStep::StopService { required: true });
        },
        Platform::Unix | Platform::Other => {},
    }
    then_do(&mut steps, say("Service stopped."));
    proof {
        assert(step_views(steps@) =~= stop_plan(platform, root, unit_there)->Ok_0);
    }
    Ok(steps)
}

/// How the service is stopped before the state is wiped: without a word, and
/// not at all where it is not installed.
pub open spec fn reset_plan(platform: Platform, unit_there: bool) -> Seq<StepView> {
    match platform {
        Platform::Linux => if unit_there {
            seq![StepView::Run(systemctl("stop"@), true)]
        } else {
            Seq::empty()
        },
        Platform::Macos => if unit_there {
            seq![
                StepView::Run(launchctl_bootout(), false),
                StepView::Run(launchctl_unload(), false),
            ]
        } else {
            seq![StepView::Run(launchctl_bootout(), false)]
        },
        Platform::Windows => seq![StepView::StopService(true)],
        Platform::Unix | Platform::Other => Seq::empty(),
    }
}

pub fn stop_for_reset(platform: Platform, unit_there: bool) -> (r: Vec<ServiceStep>)
    ensures
        step_views(r@) == reset_plan(platform, unit_there),
{
    let mut steps = no_steps();
    match platform {
        Platform::Linux => {
            if unit_there {
                then_do(&mut steps, do_systemctl("stop", true));
            }
        },
        Platform::Macos => {
            then_do(&mut steps, do_bootout());
            if unit_there {
                then_do(&mut steps, do_unload());
            }
        },
        Platform::Windows => {
            then_do(&mut steps, ServiceStep::StopService { required: true });
        },
        Platform::Unix | Platform::Other => {},
    }
    proof {
        assert(step_views(steps@) =~= reset_plan(platform, unit_there));
    }
    steps
}

/// How the service is removed, once it was asked to stop. On Linux and macOS
/// root is needed.
pub open spec fn uninstall_plan(platform: Platform, root: bool, unit_there: bool) -> Result<
    Seq<StepView>,
    Seq<char>,
> {
    let done = seq![StepView::Say("Service uninstalled."@)];
    match platform {
        Platform::Linux => if !root {
            Err("service uninstall needs root: sudo tunnet service uninstall"@)
        } else if unit_there {
            Ok(
                seq![
                    StepView::Run(systemctl("disable"@), false),
                    StepView::Remove("/etc/systemd/system/tunnet.service"@),
                    StepView::Run(daemon_reload(), false),
                ] + done,
            )
        } else {
            Ok(seq![StepView::Run(systemctl("disable"@), false)] + done)
        },
        Platform::Macos => if !root {
            Err("service uninstall needs root: sudo tunnet service uninstall"@)
        } else if unit_there {
            Ok(seq![StepView::Remove("/Library/LaunchDaemons/com.tunnet.agent.plist"@)] + done)
        } else {
            Ok(done)
        },
        Platform::Windows => Ok(
            seq![StepView::Elevate, StepView::UnregisterService] + done,
        ),
        Platform::Unix | Platform::Other => Ok(done),
    }
}

pub fn uninstall(platform: Platform, root: bool, unit_there: bool) -> (r: Result<
    Vec<ServiceStep>,
    String,
>)
    ensures
        plan_view(r) == uninstall_plan(platform, root, unit_there),
{
    let mut steps = no_steps();
    match platform {
        Platform::Linux => {
            if !root {
                return Err(
                    "service uninstall needs root: sudo tunnet service uninstall".to_owned(),
                );
            }
            then_do(&mut steps, do_systemctl("disable", false));
            if unit_there {
                then_do(&mut steps, ServiceStep::Remove { path: unit_path().to_owned() });
                then_do(&mut steps, do_daemon_reload(false));
            }
        },
        Platform::Macos => {
            if !root {
                return Err(
                    "service uninstall needs root: sudo tunnet service uninstall".to_owned(),
                );
            }
            if unit_there {
                then_do(&mut steps, ServiceStep::Remove { path: launchd_plist_path().to_owned() });
            }
        },
        Platform::Windows => {
            then_do(&mut steps, ServiceStep::Elevate);
            then_do(&mut steps, ServiceStep::UnregisterService);
        },
        Platform::Unix | Platform::Other => {},
    }
    then_do(&mut steps, say("Service uninstalled."));
    proof {
        assert(step_views(steps@) =~= uninstall_plan(platform, root, unit_there)->Ok_0);
    }
    Ok(steps)
}

/// What brings an installed service up, with a word before and after.
pub open spec fn launch_steps(platform: Platform) -> Seq<StepView> {
    match platform {
        Platform::Linux => seq![
            StepView::Run(systemctl("start"@), true),
            StepView::Run(systemctl("enable"@), false),
            StepView::WaitForApi,
            StepView::Say("Service is running."@),
        ],
        Platform::Macos => seq![
            StepView::RunOr(launchctl_bootstrap(), launchctl_load()),
            StepView::WaitForApi,
            StepView::Say("Service is running."@),
        ],
        Platform::Windows => seq![
            StepView::StartService,
            StepView::WaitForApi,
            StepView::Say("Service is running."@),
        ],
        Platform::Unix | Platform::Other => Seq::empty(),
    }
}

/// What is said where the service could not be brought up to date on Windows.
pub open spec fn elevated_hint() -> Seq<char> {
    "\nRun an elevated Command Prompt: tunnet service start"@
}

/// How the service is started: it is installed or brought up to date first.
pub open spec fn start_plan(
    platform: Platform,
    root: bool,
    unit_there: bool,
    exe: Seq<char>,
    state_dir: Option<Seq<char>>,
) -> Result<Seq<StepView>, Seq<char>> {
    let update = install_plan(platform, root, exe, state_dir, false);
    let starting = seq![StepView::Say("Starting tunnet service…"@)];
    match platform {
        Platform::Linux => if !root {
            Err("starting the system service needs root: sudo tunnet service start"@)
        } else {
            Ok(starting + update->Ok_0 + launch_steps(platform))
        },
        Platform::Macos => if !root {
            Err("starting the service needs root: sudo tunnet service start"@)
        } else {
            Ok(
                (if unit_there {
                    Seq::empty()
                } else {
                    seq![StepView::Say("LaunchDaemon not found; installing…"@)]
                }) + update->Ok_0 + starting + launch_steps(platform),
            )
        },
        Platform::Windows => Ok(
            seq![StepView::Elevate, StepView::OnFailure(elevated_hint())] + update->Ok_0 + seq![
                StepView::OnFailure(Seq::empty()),
            ] + starting + launch_steps(platform),
        ),
        Platform::Unix | Platform::Other => Ok(Seq::empty()),
    }
}

fn list_launch(platform: Platform, steps: &mut Vec<ServiceStep>)
    ensures
        step_views(final(steps)@) == step_views(old(steps)@) + launch_steps(platform),
{
    match platform {
        Platform::Linux => {
            then_do(steps, do_systemctl("start", true));
            then_do(steps, do_systemctl("enable", false));
            then_do(steps, ServiceStep::WaitForApi);
            then_do(steps, say("Service is running."));
        },
        Platform::Macos => {
            let command = command3("launchctl", "bootstrap", "system", launchd_plist_path());
            let other = command3("launchctl", "load", "-w", launchd_plist_path());
            then_do(steps, ServiceStep::RunOr { command, other });
            then_do(steps, ServiceStep::WaitForApi);
            then_do(steps, say("Service is running."));
        },
        Platform::Windows => {
            then_do(steps, ServiceStep::StartService);
            then_do(steps, ServiceStep::WaitForApi);
            then_do(steps, say("Service is running."));
        },
        Platform::Unix | Platform::Other => {},
    }
    proof {
        assert(step_views(steps@) =~= step_views(old(steps)@) + launch_steps(platform));
    }
}

pub fn start(
    platform: Platform,
    root: bool,
    unit_there: bool,
    exe: &str,
    state_dir: Option<&str>,
) -> (r: Result<Vec<ServiceStep>, String>)
    ensures
        plan_view(r) == start_plan(platform, root, unit_there, exe@, opt_str(state_dir)),
{
    let mut steps = no_steps();
    match platform {
        Platform::Linux => {
            if !root {
                return Err(
                    "starting the system service needs root: sudo tunnet service start".to_owned(),
                );
            }
            then_do(&mut steps, say("Starting tunnet service…"));
            match install_inner(platform, root, exe, state_dir, false) {
                Ok(update) => then_all(&mut steps, update),
                Err(e) => {
                    return Err(e);
                },
            }
        },
        Platform::Macos => {
            if !root {
                return Err(
                    "starting the service needs root: sudo tunnet service start".to_owned(),
                );
            }
            if !unit_there {
                then_do(&mut steps, say("LaunchDaemon not found; installing…"));
            }
            match install_inner(platform, root, exe, state_dir, false) {
                Ok(update) => then_all(&mut steps, update),
                Err(e) => {
                    return Err(e);
                },
            }
            then_do(&mut steps, say("Starting tunnet service…"));
        },
        Platform::Windows => {
            then_do(&mut steps, ServiceStep::Elevate);
            then_do(
                &mut steps,
                ServiceStep::OnFailure(
                    "\nRun an elevated Command Prompt: tunnet service start".to_owned(),
                ),
            );
            match install_inner(platform, root, exe, state_dir, false) {
                Ok(update) => then_all(&mut steps, update),
                Err(e) => {
                    return Err(e);
                },
            }
            proof {
                reveal_strlit("");
                assert(""@ =~= Seq::<char>::empty());
            }
            then_do(&mut steps, ServiceStep::OnFailure("".to_owned()));
            then_do(&mut steps, say("Starting tunnet service…"));
        },
        Platform::Unix | Platform::Other => {
            return Ok(steps);
        },
    }
    list_launch(platform, &mut steps);
    proof {
        assert(step_views(steps@) =~= start_plan(
            platform,
            root,
            unit_there,
            exe@,
            opt_str(state_dir),
        )->Ok_0);
    }
    Ok(steps)
}

/// How the service is restarted on Windows: it is brought up to date, stopped
/// where it runs and started.
pub open spec fn windows_restart(exe: Seq<char>, state_dir: Option<Seq<char>>) -> Seq<StepView> {
    seq![StepView::Elevate, StepView::Say("Restarting tunnet service…"@)] + install_plan(
        Platform::Windows,
        true,
        exe,
        state_dir,
        false,
    )->Ok_0 + seq![StepView::StopIfActive] + launch_steps(Platform::Windows)
}

/// A restart: what is tried first, whatever comes of it, and what follows.
pub struct Restart {
    pub first: Vec<ServiceStep>,
    pub next: Result<Vec<ServiceStep>, String>,
}

/// Restarts the service. But for Windows that is a stop, whose failure does
/// not matter, and a start.
pub fn restart(
    platform: Platform,
    root: bool,
    unit_there: bool,
    exe: &str,
    state_dir: Option<&str>,
) -> (r: Restart)
    ensures
        platform == Platform::Windows ==> {
            &&& step_views(r.first@) == Seq::<StepView>::empty()
            &&& plan_view(r.next) == Ok::<Seq<StepView>, Seq<char>>(
                windows_restart(exe@, opt_str(state_dir)),
            )
        },
        platform != Platform::Windows ==> {
            &&& step_views(r.first@) == match stop_plan(platform, root, unit_there) {
                Ok(steps) => steps,
                Err(_) => Seq::empty(),
            }
            &&& plan_view(r.next) == start_plan(
                platform,
                root,
                unit_there,
                exe@,
                opt_str(state_dir),
            )
        },
{
    if platform != Platform::Windows {
        let first = match stop(platform, root, unit_there) {
            Ok(steps) => steps,
            Err(_) => no_steps(),
        };
        return Restart { first, next: start(platform, root, unit_there, exe, state_dir) };
    }
    let mut steps = no_steps();
    then_do(&mut steps, ServiceStep::Elevate);
    then_do(&mut steps, say("Restarting tunnet service…"));
    match install_inner(platform, true, exe, state_dir, false) {
        Ok(update) => then_all(&mut steps, update),
        Err(_) => {},
    }
    then_do(&mut steps, ServiceStep::StopIfActive);
    list_launch(platform, &mut steps);
    proof {
        assert(step_views(steps@) =~= windows_restart(exe@, opt_str(state_dir)));
    }
    Restart { first: no_steps(), next: Ok(steps) }
}

/// What follows a change of the configuration.
#[derive(Debug)]
pub enum Reload {
    /// Nothing.
    Nothing,
    /// Say how the change comes into force.
    Tell(String),
    /// Carry these steps out.
    Steps(Vec<ServiceStep>),
    /// Stop and start the service, whatever comes of it, and say so.
    Bounce(String),
    /// Try to bring the service up to date, then carry these steps out.
    UpdateThen(Vec<ServiceStep>),
}

pub enum ReloadView {
    Nothing,
    Tell(Seq<char>),
    Steps(Seq<StepView>),
    Bounce(Seq<char>),
    UpdateThen(Seq<StepView>),
}

impl View for Reload {
    type V = ReloadView;

    open spec fn view(&self) -> ReloadView {
        match *self {
            Reload::Nothing => ReloadView::Nothing,
            Reload::Tell(s) => ReloadView::Tell(s@),
            Reload::Steps(v) => ReloadView::Steps(step_views(v@)),
            Reload::Bounce(s) => ReloadView::Bounce(s@),
            Reload::UpdateThen(v) => ReloadView::UpdateThen(step_views(v@)),
        }
    }
}

/// After the configuration changed, an installed service is restarted, by root
/// where that is needed.
pub open spec fn reload_plan(
    platform: Platform,
    installed: bool,
    root: bool,
    exe: Seq<char>,
    state_dir: Option<Seq<char>>,
) -> ReloadView {
    let dir = state_dir_of(state_dir);
    let by_hand = ReloadView::Tell(
        "State written to "@ + dir + ".\nRun: sudo tunnet service restart"@,
    );
    match platform {
        Platform::Linux => if !installed {
            ReloadView::Tell(
                "State written to "@ + dir
                    + ". Start the agent with:\n  sudo tunnet service start"@,
            )
        } else if !root {
            by_hand
        } else {
            ReloadView::Steps(
                install_plan(platform, root, exe, state_dir, false)->Ok_0 + seq![
                    StepView::Run(systemctl("restart"@), false),
                    StepView::WaitForApi,
                    StepView::Say("Agent loading network from "@ + dir + "…"@),
                ],
            )
        },
        Platform::Macos => if !installed {
            ReloadView::Tell(
                "State written to "@ + dir + ". Start with: sudo tunnet service start"@,
            )
        } else if root {
            ReloadView::Bounce("Agent reloading from "@ + dir + "…"@)
        } else {
            by_hand
        },
        Platform::Windows => if installed {
            ReloadView::UpdateThen(
                seq![
                    StepView::StopService(false),
                    StepView::StartService,
                    StepView::WaitForApi,
                    StepView::Say("Agent reloading from "@ + dir + "…"@),
                ],
            )
        } else {
            ReloadView::Tell("State written to "@ + dir + ". Start with: tunnet service start"@)
        },
        Platform::Unix | Platform::Other => ReloadView::Nothing,
    }
}

pub fn reload_after_config(
    platform: Platform,
    installed: bool,
    root: bool,
    exe: &str,
    state_dir: Option<&str>,
) -> (r: Reload)
    ensures
        r@ == reload_plan(platform, installed, root, exe@, opt_str(state_dir)),
{
    let dir = resolve_state_dir(state_dir);
    match platform {
        Platform::Linux => {
            if !installed {
                return Reload::Tell(
                    join3(
                        "State written to ",
                        dir.as_str(),
                        ". Start the agent with:\n  sudo tunnet service start",
                    ),
                );
            }
            if !root {
                return Reload::Tell(
                    join3(
                        "State written to ",
                        dir.as_str(),
                        ".\nRun: sudo tunnet service restart",
                    ),
                );
            }
            let mut steps = match install_inner(platform, root, exe, state_dir, false) {
                Ok(update) => update,
                Err(_) => no_steps(),
            };
            then_do(&mut steps, do_systemctl("restart", false));
            then_do(&mut steps, ServiceStep::WaitForApi);
            then_do(
                &mut steps,
                ServiceStep::Say(join3("Agent loading network from ", dir.as_str(), "…")),
            );
            proof {
                assert(step_views(steps@) =~= reload_plan(
                    platform,
                    installed,
                    root,
                    exe@,
                    opt_str(state_dir),
                )->Steps_0);
            }
            Reload::Steps(steps)
        },
        Platform::Macos => {
            if !installed {
                return Reload::Tell(
                    join3(
                        "State written to ",
                        dir.as_str(),
                        ". Start with: sudo tunnet service start",
                    ),
                );
            }
            if root {
                return Reload::Bounce(join3("Agent reloading from ", dir.as_str(), "…"));
            }
            Reload::Tell(
                join3("State written to ", dir.as_str(), ".\nRun: sudo tunnet service restart"),
            )
        },
        Platform::Windows => {
            if !installed {
                return Reload::Tell(
                    join3(
                        "State written to ",
                        dir.as_str(),
                        ". Start with: tunnet service start",
                    ),
                );
            }
            let mut steps = no_steps();
            then_do(&mut steps, ServiceStep::StopService { required: false });
            then_do(&mut steps, ServiceStep::StartService);
            then_do(&mut steps, ServiceStep::WaitForApi);
            then_do(
                &mut steps,
                ServiceStep::Say(join3("Agent reloading from ", dir.as_str(), "…")),
            );
            proof {
                assert(step_views(steps@) =~= reload_plan(
                    platform,
                    installed,
                    root,
                    exe@,
                    opt_str(state_dir),
                )->UpdateThen_0);
            }
            Reload::UpdateThen(steps)
        },
        Platform::Unix | Platform::Other => Reload::Nothing,
    }
}

/// What the systemd state is, from what the program printed: its output, or
/// else its errors, or else that it is not known.
pub open spec fn systemd_state(stdout: Seq<char>, stderr: Seq<char>) -> Seq<char> {
    if stdout.len() > 0 {
        stdout
    } else if stderr.len() > 0 {
        stderr
    } else {
        "unknown"@
    }
}

impl ServiceProbe {
    /// No service is installed.
    pub fn not_installed() -> (r: ServiceProbe)
        ensures
            !r.installed,
            !r.active,
            r.state@ == "not-installed"@,
    {
        ServiceProbe { installed: false, active: false, state: "not-installed".to_owned() }
    }

    /// What systemd says of the unit, by the texts that `systemctl is-active`
    /// printed, where it could be run. White space around them does not count.
    pub fn from_systemd(unit_there: bool, printed: Option<(String, String)>) -> (r: ServiceProbe)
        ensures
            r.installed == unit_there,
            !unit_there ==> !r.active && r.state@ == "not-installed"@,
            unit_there ==> r.state@ == match printed {
                Some(p) => systemd_state(
                    trim_front(trim_back(p.0@)),
                    trim_front(trim_back(p.1@)),
                ),
                None => "unknown"@,
            } && r.active == (r.state@ == "active"@),
    {
        if !unit_there {
            return ServiceProbe::not_installed();
        }
        let state = match printed {
            Some((out, err)) => {
                let out = trim(out.as_str());
                let err = trim(err.as_str());
                if !is_blank(out.as_str()) {
                    out
                } else if !is_blank(err.as_str()) {
                    err
                } else {
                    "unknown".to_owned()
                }
            },
            None => "unknown".to_owned(),
        };
        let active = same_text(state.as_str(), "active");
        ServiceProbe { installed: true, active, state }
    }

    /// What launchd says of the service: whether it knows it.
    pub fn from_launchd(unit_there: bool, known: bool) -> (r: ServiceProbe)
        ensures
            r.installed == unit_there,
            r.active == (unit_there && known),
            r.state@ == if !unit_there {
                "not-installed"@
            } else if known {
                "active"@
            } else {
                "inactive"@
            },
    {
        if !unit_there {
            return ServiceProbe::not_installed();
        }
        if known {
            ServiceProbe { installed: true, active: true, state: "active".to_owned() }
        } else {
            ServiceProbe { installed: true, active: false, state: "inactive".to_owned() }
        }
    }

    /// A system without services.
    pub fn unsupported() -> (r: ServiceProbe)
        ensures
            !r.installed,
            !r.active,
            r.state@ == "unsupported"@,
    {
        ServiceProbe { installed: false, active: false, state: "unsupported".to_owned() }
    }
}

/// How a start is asked for.
pub open spec fn start_hint(platform: Platform) -> Seq<char> {
    if platform == Platform::Windows {
        "Start it with `tunnet service start`"@
    } else {
        "Start it with `sudo tunnet service start`"@
    }
}

/// The lines that the status command prints.
pub open spec fn status_lines(
    platform: Platform,
    installed: bool,
    active: bool,
    state: Seq<char>,
) -> Seq<StepView> {
    if !installed {
        seq![
            StepView::Say("Tunnet service is not installed."@),
            StepView::Say(start_hint(platform)),
        ]
    } else if active {
        seq![StepView::Say("running ("@ + state + ")"@)]
    } else {
        seq![
            StepView::Say("installed, not running ("@ + state + ")"@),
            StepView::Say(start_hint(platform) + "."@),
        ]
    }
}

pub fn status(platform: Platform, probe: &ServiceProbe) -> (r: Vec<ServiceStep>)
    ensures
        step_views(r@) == status_lines(platform, probe.installed, probe.active, probe.state@),
{
    let hint = if platform == Platform::Windows {
        "Start it with `tunnet service start`"
    } else {
        "Start it with `sudo tunnet service start`"
    };
    let mut steps = no_steps();
    if !probe.installed {
        then_do(&mut steps, say("Tunnet service is not installed."));
        then_do(&mut steps, say(hint));
    } else if probe.active {
        then_do(&mut steps, ServiceStep::Say(join3("running (", probe.state.as_str(), ")")));
    } else {
        then_do(
            &mut steps,
            ServiceStep::Say(join3("installed, not running (", probe.state.as_str(), ")")),
        );
        then_do(&mut steps, ServiceStep::Say(join2(hint, ".")));
    }
    proof {
        assert(step_views(steps@) =~= status_lines(
            platform,
            probe.installed,
            probe.active,
            probe.state@,
        ));
    }
    steps
}

/// Starting always brings the installation up to date first: where an
/// installation would be refused, so is a start.
pub proof fn law_start_includes_an_update(
    platform: Platform,
    root: bool,
    unit_there: bool,
    exe: Seq<char>,
    state_dir: Option<Seq<char>>,
    step: StepView,
)
    requires
        platform != Platform::Unix,
        platform != Platform::Other,
        start_plan(platform, root, unit_there, exe, state_dir) is Ok,
    ensures
        install_plan(platform, root, exe, state_dir, false) is Ok,
        install_plan(platform, root, exe, state_dir, false)->Ok_0.contains(step) ==> start_plan(
            platform,
            root,
            unit_there,
            exe,
            state_dir,
        )->Ok_0.contains(step),
{
    let update = install_plan(platform, root, exe, state_dir, false)->Ok_0;
    let whole = start_plan(platform, root, unit_there, exe, state_dir)->Ok_0;
    if update.contains(step) {
        let i = choose|i: int| 0 <= i < update.len() && update[i] == step;
        let offset: int = if platform == Platform::Macos && unit_there {
            0
        } else if platform == Platform::Windows {
            2
        } else {
            1
        };
        assert(whole[offset + i] == step);
    }
}

} // verus!
