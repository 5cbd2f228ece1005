//! Forwarding and address translation for a node that others leave the mesh
//! through.
//!
//! The programs to run are asked for one at a time; whether each succeeded is
//! the answer.

use crate::commands::{
    bare, command1, command2, command3, command4, with_args, CommandLine, CommandView,
};
use crate::text::join3;
use vstd::prelude::*;

verus! {

/// The operating system that the node runs on.
#[derive(Clone, Copy, Debug, PartialEq, Eq, Structural)]
pub enum Platform {
    Linux,
    Macos,
    Windows,
    /// Another Unix system.
    Unix,
    Other,
}

/// Where the macOS rules are written.
pub open spec fn pf_path() -> Seq<char> {
    "/tmp/tunnet-nat.conf"@
}

/// The rules for nft that translate what leaves by an interface.
pub open spec fn nft_script(uplink: Seq<char>) -> Seq<char> {
    "table ip tunnet_nat {\n  chain postrouting {\n    type nat hook postrouting priority 100;\n    oifname \""@
        + uplink + "\" masquerade\n  }\n}\n"@
}

/// The rules for pf that translate what leaves by an interface.
pub open spec fn pf_rules(uplink: Seq<char>) -> Seq<char> {
    "nat on "@ + uplink + " from any to any -> ("@ + uplink + ")\n"@
}

/// Takes the table that this program owns out of nft.
pub open spec fn nft_delete() -> CommandView {
    with_args(bare("nft"@), seq!["delete"@, "table"@, "ip"@, "tunnet_nat"@])
}

/// Loads the rules into nft from its input.
pub open spec fn nft_load(uplink: Seq<char>) -> CommandView {
    CommandView {
        stdin: Some(nft_script(uplink)),
        ..with_args(bare("nft"@), seq!["-f"@, "-"@])
    }
}

/// Checks, appends or deletes (`-C`, `-A`, `-D`) the rule in iptables.
pub open spec fn iptables_rule(flag: Seq<char>, uplink: Seq<char>) -> CommandView {
    with_args(
        bare("iptables"@),
        seq![
            "-t"@,
            "nat"@,
            flag,
            "POSTROUTING"@,
            "-o"@,
            uplink,
            "-j"@,
            "MASQUERADE"@,
            "-m"@,
            "comment"@,
            "--comment"@,
            "tunnet-exit"@,
        ],
    )
}

pub open spec fn nft_version() -> CommandView {
    with_args(bare("nft"@), seq!["--version"@])
}

pub open spec fn pf_load() -> CommandView {
    with_args(bare("pfctl"@), seq!["-a"@, "com.tunnet/nat"@, "-f"@, pf_path()])
}

pub open spec fn pf_enable() -> CommandView {
    with_args(bare("pfctl"@), seq!["-e"@])
}

pub open spec fn pf_flush() -> CommandView {
    with_args(bare("pfctl"@), seq!["-a"@, "com.tunnet/nat"@, "-F"@, "all"@])
}

pub open spec fn powershell(script: Seq<char>) -> CommandView {
    with_args(bare("powershell"@), seq!["-NoProfile"@, "-Command"@, script])
}

pub open spec fn new_net_nat() -> Seq<char> {
    "if (-not (Get-NetNat -Name 'TunnetExit' -ErrorAction SilentlyContinue)) { New-NetNat -Name 'TunnetExit' -InternalIPInterfaceAddressPrefix '0.0.0.0/0' -ErrorAction SilentlyContinue }; Write-Output 'ok'"@
}

pub open spec fn remove_net_nat() -> Seq<char> {
    "Remove-NetNat -Name 'TunnetExit' -Confirm:$false -ErrorAction SilentlyContinue"@
}

pub open spec fn forward_windows() -> Seq<char> {
    "Set-NetIPInterface -Forwarding Enabled -ErrorAction SilentlyContinue"@
}

/// Something to do to the system.
#[derive(Debug)]
pub enum NatAsk {
    /// Write a text to a file; the answer is whether that worked.
    Write { path: String, text: String },
    /// Run a program; the answer is whether it succeeded.
    Run(CommandLine),
}

/// A step as a value.
pub enum NatAskView {
    Write(Seq<char>, Seq<char>),
    Run(CommandView),
}

impl View for NatAsk {
    type V = NatAskView;

    open spec fn view(&self) -> NatAskView {
        match *self {
            NatAsk::Write { path, text } => NatAskView::Write(path@, text@),
            NatAsk::Run(c) => NatAskView::Run(c@),
        }
    }
}

pub open spec fn ask_view(a: Option<NatAsk>) -> Option<NatAskView> {
    match a {
        Some(a) => Some(a@),
        None => None,
    }
}

/// Where the set-up of address translation stands.
#[derive(Clone, Copy, Debug, PartialEq, Eq, Structural)]
pub enum NatStage {
    ProbeNft,
    DeleteTable,
    LoadTable,
    CheckRule,
    AppendRule,
    WriteRules,
    LoadRules,
    EnablePf,
    NewNat,
    Installed,
    Failed,
}

/// The first stage of a platform.
pub open spec fn first_stage(platform: Platform) -> NatStage {
    match platform {
        Platform::Linux => NatStage::ProbeNft,
        Platform::Macos => NatStage::WriteRules,
        Platform::Windows => NatStage::NewNat,
        Platform::Unix | Platform::Other => NatStage::Failed,
    }
}

/// What is asked for at a stage; nothing once the set-up has ended.
pub open spec fn stage_ask(stage: NatStage, uplink: Seq<char>) -> Option<NatAskView> {
    match stage {
        NatStage::ProbeNft => Some(NatAskView::Run(nft_version())),
        NatStage::DeleteTable => Some(NatAskView::Run(nft_delete())),
        NatStage::LoadTable => Some(NatAskView::Run(nft_load(uplink))),
        NatStage::CheckRule => Some(NatAskView::Run(iptables_rule("-C"@, uplink))),
        NatStage::AppendRule => Some(NatAskView::Run(iptables_rule("-A"@, uplink))),
        NatStage::WriteRules => Some(NatAskView::Write(pf_path(), pf_rules(uplink))),
        NatStage::LoadRules => Some(NatAskView::Run(pf_load())),
        NatStage::EnablePf => Some(NatAskView::Run(pf_enable())),
        NatStage::NewNat => Some(NatAskView::Run(powershell(new_net_nat()))),
        NatStage::Installed => None,
        NatStage::Failed => None,
    }
}

/// The stage after an answer. On Linux nft is used where it is there, and
/// iptables where it is not or fails; only the last word of each counts.
pub open spec fn next_stage(stage: NatStage, ok: bool) -> NatStage {
    match stage {
        NatStage::ProbeNft => if ok {
            NatStage::DeleteTable
        } else {
            NatStage::CheckRule
        },
        NatStage::DeleteTable => NatStage::LoadTable,
        NatStage::LoadTable => if ok {
            NatStage::Installed
        } else {
            NatStage::CheckRule
        },
        NatStage::CheckRule => NatStage::AppendRule,
        NatStage::AppendRule => if ok {
            NatStage::Installed
        } else {
            NatStage::Failed
        },
        NatStage::WriteRules => if ok {
            NatStage::LoadRules
        } else {
            NatStage::Failed
        },
        NatStage::LoadRules => NatStage::EnablePf,
        NatStage::EnablePf => NatStage::Installed,
        NatStage::NewNat => if ok {
            NatStage::Installed
        } else {
            NatStage::Failed
        },
        NatStage::Installed => NatStage::Installed,
        NatStage::Failed => NatStage::Failed,
    }
}

fn iptables(flag: &str, uplink: &str) -> (r: CommandLine)
    ensures
        r@ == iptables_rule(flag@, uplink@),
{
    let mut c = command4("iptables", "-t", "nat", flag, "POSTROUTING");
    c.arg("-o");
    c.arg(uplink);
    c.arg("-j");
    c.arg("MASQUERADE");
    c.arg("-m");
    c.arg("comment");
    c.arg("--comment");
    c.arg("tunnet-exit");
    proof {
        assert(c@.args =~= iptables_rule(flag@, uplink@).args);
    }
    c
}

fn nft_rules(uplink: &str) -> (r: CommandLine)
    ensures
        r@ == nft_load(uplink@),
{
    let mut c = command2("nft", "-f", "-");
    let script = join3(
        "table ip tunnet_nat {\n  chain postrouting {\n    type nat hook postrouting priority 100;\n    oifname \"",
        uplink,
        "\" masquerade\n  }\n}\n",
    );
    c.stdin = Some(script);
    c
}

fn pf_text(uplink: &str) -> (r: String)
    ensures
        r@ == pf_rules(uplink@),
{
    let mut out = join3("nat on ", uplink, " from any to any -> (");
    out.append(uplink);
    out.append(")\n");
    out
}

/// Address translation as it is being set up.
#[derive(Debug)]
pub struct NatInstall {
    pub uplink: String,
    pub stage: NatStage,
}

impl NatInstall {
    /// Begins the set-up for an interface.
    pub fn install_masquerade(platform: Platform, uplink: &str) -> (r: NatInstall)
        ensures
            r.uplink@ == uplink@,
            r.stage == first_stage(platform),
    {
        let stage = match platform {
            Platform::Linux => NatStage::ProbeNft,
            Platform::Macos => NatStage::WriteRules,
            Platform::Windows => NatStage::NewNat,
            Platform::Unix | Platform::Other => NatStage::Failed,
        };
        NatInstall { uplink: uplink.to_owned(), stage }
    }

    /// What to do next.
    pub fn ask(&self) -> (r: Option<NatAsk>)
        ensures
            ask_view(r) == stage_ask(self.stage, self.uplink@),
    {
        let uplink = self.uplink.as_str();
        match self.stage {
            NatStage::ProbeNft => Some(NatAsk::Run(command1("nft", "--version"))),
            NatStage::DeleteTable => Some(
                NatAsk::Run(command4("nft", "delete", "table", "ip", "tunnet_nat")),
            ),
            NatStage::LoadTable => Some(NatAsk::Run(nft_rules(uplink))),
            NatStage::CheckRule => Some(NatAsk::Run(iptables("-C", uplink))),
            NatStage::AppendRule => Some(NatAsk::Run(iptables("-A", uplink))),
            NatStage::WriteRules => Some(
                NatAsk::Write {
                    path: "/tmp/tunnet-nat.conf".to_owned(),
                    text: pf_text(uplink),
                },
            ),
            NatStage::LoadRules => Some(
                NatAsk::Run(
                    command4("pfctl", "-a", "com.tunnet/nat", "-f", "/tmp/tunnet-nat.conf"),
                ),
            ),
            NatStage::EnablePf => Some(NatAsk::Run(command1("pfctl", "-e"))),
            NatStage::NewNat => Some(
                NatAsk::Run(
                    command3(
                        "powershell",
                        "-NoProfile",
                        "-Command",
                        "if (-not (Get-NetNat -Name 'TunnetExit' -ErrorAction SilentlyContinue)) { New-NetNat -Name 'TunnetExit' -InternalIPInterfaceAddressPrefix '0.0.0.0/0' -ErrorAction SilentlyContinue }; Write-Output 'ok'",
                    ),
                ),
            ),
            NatStage::Installed => None,
            NatStage::Failed => None,
        }
    }

    /// Takes the answer in.
    pub fn answer(&mut self, ok: bool)
        ensures
            final(self).stage == next_stage(old(self).stage, ok),
            final(self).uplink == old(self).uplink,
    {
        self.stage = match self.stage {
            NatStage::ProbeNft => if ok {
                NatStage::DeleteTable
            } else {
                NatStage::CheckRule
            },
            NatStage::DeleteTable => NatStage::LoadTable,
            NatStage::LoadTable => if ok {
                NatStage::Installed
            } else {
                NatStage::CheckRule
            },
            NatStage::CheckRule => NatStage::AppendRule,
            NatStage::AppendRule => if ok {
                NatStage::Installed
            } else {
                NatStage::Failed
            },
            NatStage::WriteRules => if ok {
                NatStage::LoadRules
            } else {
                NatStage::Failed
            },
            NatStage::LoadRules => NatStage::EnablePf,
            NatStage::EnablePf => NatStage::Installed,
            NatStage::NewNat => if ok {
                NatStage::Installed
            } else {
                NatStage::Failed
            },
            NatStage::Installed => NatStage::Installed,
            NatStage::Failed => NatStage::Failed,
        };
    }
}

/// Address translation that is in force.
#[derive(Debug)]
pub struct NatGuard {
    pub uplink: String,
    pub used_nft: bool,
}

/// Whether nft rules may have to be taken back: only Linux has them.
pub fn cfg_nft(platform: Platform, state: &NatGuard) -> (r: bool)
    ensures
        r == (platform == Platform::Linux && state.used_nft),
{
    match platform {
        Platform::Linux => state.used_nft,
        _ => false,
    }
}

/// The programs that take address translation back.
pub open spec fn removal(platform: Platform, uplink: Seq<char>, used_nft: bool) -> Seq<CommandView> {
    match platform {
        Platform::Linux => (if used_nft {
            seq![nft_delete()]
        } else {
            Seq::empty()
        }) + seq![iptables_rule("-D"@, uplink)],
        Platform::Macos => seq![pf_flush()],
        Platform::Windows => seq![powershell(remove_net_nat())],
        Platform::Unix | Platform::Other => Seq::empty(),
    }
}

pub open spec fn command_views(v: Seq<CommandLine>) -> Seq<CommandView> {
    Seq::new(v.len(), |i: int| v[i]@)
}

fn push_command(v: &mut Vec<CommandLine>, c: CommandLine)
    ensures
        command_views(final(v)@) == command_views(old(v)@).push(c@),
{
    let ghost before = v@;
    v.push(c);
    proof {
        assert(command_views(v@) =~= command_views(before).push(c@));
    }
}

fn no_commands() -> (r: Vec<CommandLine>)
    ensures
        command_views(r@) == Seq::<CommandView>::empty(),
{
    let v: Vec<CommandLine> = Vec::new();
    proof {
        assert(command_views(v@) =~= Seq::<CommandView>::empty());
    }
    v
}

/// The programs that take address translation back, in order. Whether they
/// succeed does not matter.
pub fn remove_masquerade(platform: Platform, uplink: &str, used_nft: bool) -> (r: Vec<CommandLine>)
    ensures
        command_views(r@) == removal(platform, uplink@, used_nft),
{
    let mut out = no_commands();
    match platform {
        Platform::Linux => {
            if used_nft {
                push_command(&mut out, command4("nft", "delete", "table", "ip", "tunnet_nat"));
            }
            push_command(&mut out, iptables("-D", uplink));
        },
        Platform::Macos => {
            push_command(&mut out, command4("pfctl", "-a", "com.tunnet/nat", "-F", "all"));
        },
        Platform::Windows => {
            push_command(
                &mut out,
                command3(
                    "powershell",
                    "-NoProfile",
                    "-Command",
                    "Remove-NetNat -Name 'TunnetExit' -Confirm:$false -ErrorAction SilentlyContinue",
                ),
            );
        },
        Platform::Unix | Platform::Other => {},
    }
    proof {
        assert(command_views(out@) =~= removal(platform, uplink@, used_nft));
    }
    out
}

/// What turns forwarding on, where there is such a thing.
pub open spec fn forwarding(platform: Platform) -> Option<NatAskView> {
    match platform {
        Platform::Linux => Some(NatAskView::Write("/proc/sys/net/ipv4/ip_forward"@, "1"@)),
        Platform::Macos => Some(
            NatAskView::Run(
                with_args(bare("sysctl"@), seq!["-w"@, "net.inet.ip.forwarding=1"@]),
            ),
        ),
        Platform::Windows => Some(NatAskView::Run(powershell(forward_windows()))),
        Platform::Unix | Platform::Other => None,
    }
}

pub fn enable_forwarding(platform: Platform) -> (r: Option<NatAsk>)
    ensures
        ask_view(r) == forwarding(platform),
{
    match platform {
        Platform::Linux => Some(
            NatAsk::Write {
                path: "/proc/sys/net/ipv4/ip_forward".to_owned(),
                text: "1".to_owned(),
            },
        ),
        Platform::Macos => Some(
            NatAsk::Run(command2("sysctl", "-w", "net.inet.ip.forwarding=1")),
        ),
        Platform::Windows => Some(
            NatAsk::Run(
                command3(
                    "powershell",
                    "-NoProfile",
                    "-Command",
                    "Set-NetIPInterface -Forwarding Enabled -ErrorAction SilentlyContinue",
                ),
            ),
        ),
        Platform::Unix | Platform::Other => None,
    }
}

/// What a node does about address translation.
#[derive(Debug)]
pub enum NatPlan {
    /// Nothing.
    Leave,
    /// Run these programs to take it back.
    Remove(Vec<CommandLine>),
    /// Turn forwarding on, then go through the set-up.
    Install(NatInstall),
}

/// The address translation of this node.
#[derive(Debug)]
pub struct ExitNat {
    pub platform: Platform,
    pub in_force: Option<NatGuard>,
}

/// The plan that takes back what is in force.
pub open spec fn is_teardown(exit: ExitNat, plan: NatPlan) -> bool {
    match exit.in_force {
        None => plan is Leave,
        Some(g) => plan matches NatPlan::Remove(commands) && command_views(commands@) == removal(
            exit.platform,
            g.uplink@,
            exit.platform == Platform::Linux && g.used_nft,
        ),
    }
}

impl ExitNat {
    pub fn new(platform: Platform) -> (r: ExitNat)
        ensures
            r.platform == platform,
            r.in_force is None,
    {
        ExitNat { platform, in_force: None }
    }

    /// Brings address translation in line with whether this node offers a way
    /// out. Without a known uplink nothing is set up.
    pub fn ensure_exit_nat(&mut self, advertise: bool, uplink: Option<String>) -> (r: NatPlan)
        ensures
            final(self).platform == old(self).platform,
            !advertise ==> is_teardown(*old(self), r) && final(self).in_force is None,
            advertise ==> final(self).in_force == old(self).in_force,
            advertise && uplink is None ==> r is Leave,
            advertise && uplink is Some ==> (r matches NatPlan::Install(run) && run.uplink@
                == uplink->0@ && run.stage == first_stage(old(self).platform)),
    {
        if !advertise {
            return self.teardown_exit_nat();
        }
        match uplink {
            Some(uplink) => NatPlan::Install(
                NatInstall::install_masquerade(self.platform, uplink.as_str()),
            ),
            None => NatPlan::Leave,
        }
    }

    /// The set-up has ended. What was installed is remembered, with whether nft
    /// is there to take rules back from.
    pub fn installed(&mut self, run: NatInstall, nft_there: bool) -> (r: bool)
        ensures
            final(self).platform == old(self).platform,
            r == (run.stage == NatStage::Installed),
            !r ==> final(self).in_force == old(self).in_force,
            r ==> final(self).in_force == Some(
                NatGuard {
                    uplink: run.uplink,
                    used_nft: old(self).platform == Platform::Linux && nft_there,
                },
            ),
    {
        if run.stage != NatStage::Installed {
            return false;
        }
        let used_nft = self.platform == Platform::Linux && nft_there;
        self.in_force = Some(NatGuard { uplink: run.uplink, used_nft });
        true
    }

    /// Takes back what is in force, and forgets it.
    pub fn teardown_exit_nat(&mut self) -> (r: NatPlan)
        ensures
            is_teardown(*old(self), r),
            final(self).in_force is None,
            final(self).platform == old(self).platform,
    {
        let state = self.in_force.take();
        match state {
            None => NatPlan::Leave,
            Some(state) => {
                let nft = cfg_nft(self.platform, &state);
                NatPlan::Remove(remove_masquerade(self.platform, state.uplink.as_str(), nft))
            },
        }
    }
}

/// The stage after a row of answers.
pub open spec fn stage_after(stage: NatStage, answers: Seq<bool>) -> NatStage
    decreases answers.len(),
{
    if answers.len() == 0 {
        stage
    } else {
        stage_after(next_stage(stage, answers[0]), answers.drop_first())
    }
}

/// The set-up always ends, within five answers, whatever they are.
pub proof fn law_set_up_ends(platform: Platform, answers: Seq<bool>, uplink: Seq<char>)
    requires
        answers.len() == 5,
    ensures
        stage_ask(stage_after(first_stage(platform), answers), uplink) is None,
{
    let s0 = first_stage(platform);
    let s1 = next_stage(s0, answers[0]);
    let a1 = answers.drop_first();
    let s2 = next_stage(s1, a1[0]);
    let a2 = a1.drop_first();
    let s3 = next_stage(s2, a2[0]);
    let a3 = a2.drop_first();
    let s4 = next_stage(s3, a3[0]);
    let a4 = a3.drop_first();
    reveal_with_fuel(stage_after, 6);
    assert(stage_after(s0, answers) == next_stage(s4, a4[0]));
}

/// On Linux a set-up fails only when both nft, where it is there, and iptables
/// failed: rules that nft loaded are never followed by iptables.
pub proof fn law_iptables_is_the_fallback(stage: NatStage, ok: bool)
    requires
        next_stage(stage, ok) == NatStage::CheckRule,
    ensures
        stage == NatStage::ProbeNft || stage == NatStage::LoadTable,
        !ok,
{
}

/// After a teardown nothing is left to take back.
pub proof fn law_teardown_is_once(exit: ExitNat, plan: NatPlan)
    requires
        exit.in_force is None,
        is_teardown(exit, plan),
    ensures
        plan is Leave,
{
}

} // verus!
