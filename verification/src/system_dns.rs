//! The system's name service: which settings are asked of it, and how the
//! lease on them is kept.

use crate::membership::opt_text;
use crate::policy_key::opt_str;
use osdns::{DnsConfig, DnsScope, InterfaceSelector};
use vstd::prelude::*;

verus! {

/// What a system's name service can do.
#[derive(Clone, Copy, Debug, PartialEq, Eq, Structural)]
pub struct DnsCapabilities {
    pub per_interface_dns: bool,
    /// Names under a suffix can be asked for elsewhere than all others.
    pub split_dns: bool,
    /// Whether an interface answers for all other names can be set.
    pub default_route: bool,
    pub global_dns: bool,
    pub cache_flush: bool,
}

/// What is asked of the name service.
#[derive(Debug)]
pub struct DnsSettings {
    /// The interface that they are for; the whole system where there is none.
    pub interface: Option<String>,
    pub nameserver: u32,
    /// The suffix that alone is asked for here, where there is one.
    pub routing_domain: Option<String>,
    /// Left as it is where nothing is said.
    pub default_route: Option<bool>,
}

pub struct SettingsView {
    pub interface: Option<Seq<char>>,
    pub nameserver: u32,
    pub routing_domain: Option<Seq<char>>,
    pub default_route: Option<bool>,
}

impl View for DnsSettings {
    type V = SettingsView;

    open spec fn view(&self) -> SettingsView {
        SettingsView {
            interface: opt_text(self.interface),
            nameserver: self.nameserver,
            routing_domain: opt_text(self.routing_domain),
            default_route: self.default_route,
        }
    }
}

/// What `DnsConfigBuilder::build` finds wrong with settings: the text of its
/// error, or nothing.
pub uninterp spec fn settings_error(
    interface: Option<Seq<char>>,
    nameserver: u32,
    routing_domain: Option<Seq<char>>,
    default_route: Option<bool>,
) -> Option<Seq<char>>;

/// Calls `DnsConfig::builder` with these settings and `build`, whose error
/// depends on them alone. A name server that is an address, with neither a
/// domain nor a word on the default route, is always accepted.
#[verifier::external_body]
fn settings_fault(
    interface: Option<&str>,
    nameserver: u32,
    routing_domain: Option<&str>,
    default_route: Option<bool>,
) -> (r: Option<String>)
    ensures
        opt_text(r) == settings_error(
            opt_str(interface),
            nameserver,
            opt_str(routing_domain),
            default_route,
        ),
        nameserver != 0 && routing_domain is None && default_route is None ==> r is None,
{
    let scope = match interface {
        Some(name) => DnsScope::Interface(InterfaceSelector::Name(name.into())),
        None => DnsScope::Global,
    };
    let mut builder = DnsConfig::builder(scope).nameserver(nameserver.to_be_bytes().into());
    if let Some(domain) = routing_domain {
        builder = builder.routing_domain(domain);
    }
    if let Some(enabled) = default_route {
        builder = builder.default_route(enabled);
    }
    builder.build().err().map(|e| e.to_string())
}

/// Why there are no settings.
#[derive(Debug)]
pub enum SettingsError {
    /// The system can do none of what is needed.
    Unsupported(String),
    /// The settings themselves are wrong.
    Invalid(String),
}

/// The best settings that a system can take: only the suffix on the tunnel's
/// interface; else everything on the interface; else everything.
pub open spec fn wanted_settings(
    caps: DnsCapabilities,
    ifname: Seq<char>,
    nameserver: u32,
    suffix: Seq<char>,
) -> Option<SettingsView> {
    if caps.per_interface_dns && caps.split_dns {
        Some(
            SettingsView {
                interface: Some(ifname),
                nameserver,
                routing_domain: Some(suffix),
                default_route: if caps.default_route {
                    Some(false)
                } else {
                    None
                },
            },
        )
    } else if caps.per_interface_dns {
        Some(
            SettingsView {
                interface: Some(ifname),
                nameserver,
                routing_domain: None,
                default_route: None,
            },
        )
    } else if caps.global_dns {
        Some(
            SettingsView { interface: None, nameserver, routing_domain: None, default_route: None },
        )
    } else {
        None
    }
}

/// What is wrong with settings.
pub open spec fn fault_of(s: SettingsView) -> Option<Seq<char>> {
    settings_error(s.interface, s.nameserver, s.routing_domain, s.default_route)
}

/// The settings that a system is asked for, before they are looked at.
pub fn choose_settings(caps: DnsCapabilities, ifname: &str, nameserver: u32, suffix: &str) -> (r:
    Option<DnsSettings>)
    ensures
        r is Some <==> wanted_settings(caps, ifname@, nameserver, suffix@) is Some,
        r matches Some(s) ==> wanted_settings(caps, ifname@, nameserver, suffix@) == Some(s@),
{
    if caps.per_interface_dns && caps.split_dns {
        let default_route = if caps.default_route {
            Some(false)
        } else {
            None
        };
        return Some(
            DnsSettings {
                interface: Some(ifname.to_owned()),
                nameserver,
                routing_domain: Some(suffix.to_owned()),
                default_route,
            },
        );
    }
    if caps.per_interface_dns {
        return Some(
            DnsSettings {
                interface: Some(ifname.to_owned()),
                nameserver,
                routing_domain: None,
                default_route: None,
            },
        );
    }
    if caps.global_dns {
        return Some(
            DnsSettings { interface: None, nameserver, routing_domain: None, default_route: None },
        );
    }
    None
}

fn as_opt_str(o: &Option<String>) -> (r: Option<&str>)
    ensures
        opt_str(r) == opt_text(*o),
{
    match o {
        Some(s) => Some(s.as_str()),
        None => None,
    }
}

/// The settings that a system is asked for: the best that it can take, where
/// nothing is wrong with them.
pub fn desired_config(caps: DnsCapabilities, ifname: &str, nameserver: u32, suffix: &str) -> (r:
    Result<DnsSettings, SettingsError>)
    ensures
        match wanted_settings(caps, ifname@, nameserver, suffix@) {
            None => r matches Err(SettingsError::Unsupported(why)) && why@
                == "backend supports neither per-interface nor global DNS"@,
            Some(s) => match fault_of(s) {
                Some(e) => r matches Err(SettingsError::Invalid(why)) && why@ == e,
                None => r matches Ok(x) && x@ == s,
            },
        },
{
    let settings = match choose_settings(caps, ifname, nameserver, suffix) {
        Some(s) => s,
        None => {
            return Err(
                SettingsError::Unsupported(
                    "backend supports neither per-interface nor global DNS".to_owned(),
                ),
            );
        },
    };
    let fault = settings_fault(
        as_opt_str(&settings.interface),
        settings.nameserver,
        as_opt_str(&settings.routing_domain),
        settings.default_route,
    );
    match fault {
        Some(e) => Err(SettingsError::Invalid(e)),
        None => Ok(settings),
    }
}

/// Split settings never claim to answer for other names: the default route is
/// refused or left alone, never taken.
pub proof fn law_default_route_is_never_taken(
    caps: DnsCapabilities,
    ifname: Seq<char>,
    nameserver: u32,
    suffix: Seq<char>,
)
    ensures
        wanted_settings(caps, ifname, nameserver, suffix) matches Some(s) ==> s.default_route
            != Some(true) && (s.default_route is Some ==> caps.default_route) && (
        s.routing_domain is Some ==> caps.split_dns),
{
}

/// Why a change of the lease failed.
#[derive(Debug)]
pub enum DnsFailure {
    Settings(SettingsError),
    /// What the system said.
    System(String),
}

pub enum FailureView {
    Unsupported(Seq<char>),
    Invalid(Seq<char>),
    System(Seq<char>),
}

impl View for DnsFailure {
    type V = FailureView;

    open spec fn view(&self) -> FailureView {
        match *self {
            DnsFailure::Settings(SettingsError::Unsupported(e)) => FailureView::Unsupported(e@),
            DnsFailure::Settings(SettingsError::Invalid(e)) => FailureView::Invalid(e@),
            DnsFailure::System(e) => FailureView::System(e@),
        }
    }
}

/// What a change of the lease is waiting for.
#[derive(Clone, Copy, Debug, PartialEq, Eq, Structural)]
pub enum DnsStage {
    Rest,
    /// What the system can do, for a new lease or for the one there is.
    Capabilities { fresh: bool },
    Applying,
    Updating,
    /// Giving the lease back; a new one follows where `rebind`.
    Restoring { rebind: bool },
}

/// What is asked of the system.
#[derive(Debug)]
pub enum DnsAsk {
    Capabilities,
    Apply(DnsSettings),
    Update(DnsSettings),
    Restore,
    Done(Result<(), DnsFailure>),
}

pub enum DnsAskView {
    Capabilities,
    Apply(SettingsView),
    Update(SettingsView),
    Restore,
    Done(Option<FailureView>),
}

impl View for DnsAsk {
    type V = DnsAskView;

    open spec fn view(&self) -> DnsAskView {
        match *self {
            DnsAsk::Capabilities => DnsAskView::Capabilities,
            DnsAsk::Apply(s) => DnsAskView::Apply(s@),
            DnsAsk::Update(s) => DnsAskView::Update(s@),
            DnsAsk::Restore => DnsAskView::Restore,
            DnsAsk::Done(Ok(_)) => DnsAskView::Done(None),
            DnsAsk::Done(Err(e)) => DnsAskView::Done(Some(e@)),
        }
    }
}

/// What the system answered.
#[derive(Debug)]
pub enum DnsReply {
    Capabilities(Result<DnsCapabilities, String>),
    Applied(Result<(), String>),
    Updated(UpdateOutcome),
    Restored(RestoreOutcome),
}

/// How an update of a lease went.
#[derive(Debug)]
pub enum UpdateOutcome {
    Done,
    /// Other resources are needed now.
    RequiresRebind,
    /// What the lease was on is gone.
    ResourceGone,
    /// Whether it is still the same is not certain, or anything else.
    Failed(String),
}

/// How giving a lease back went.
#[derive(Debug)]
pub enum RestoreOutcome {
    Done,
    /// Others have changed the settings meanwhile.
    ExternallyModified,
    Failed(String),
}

/// Something to do beside.
#[derive(Clone, Copy, Debug, PartialEq, Eq, Structural)]
pub enum DnsAction {
    /// Forget cached answers, where the system can.
    FlushCache,
    /// Let go of the lease without touching the system.
    Abandon,
}

/// The lease on the system's name service: at most one.
#[derive(Debug)]
pub struct DnsController {
    pub leased: bool,
    pub stage: DnsStage,
    pub ifname: String,
    pub nameserver: u32,
    pub suffix: String,
}

/// Where the controller goes.
pub struct DnsMove {
    pub leased: bool,
    pub stage: DnsStage,
    pub ask: DnsAskView,
    pub actions: Seq<DnsAction>,
}

pub open spec fn dns_done(leased: bool, e: Option<FailureView>, actions: Seq<DnsAction>) -> DnsMove {
    DnsMove { leased, stage: DnsStage::Rest, ask: DnsAskView::Done(e), actions }
}

/// Whether an answer fits what was asked.
pub open spec fn dns_fits(stage: DnsStage, reply: DnsReply) -> bool {
    match reply {
        DnsReply::Capabilities(_) => stage is Capabilities,
        DnsReply::Applied(_) => stage == DnsStage::Applying,
        DnsReply::Updated(_) => stage == DnsStage::Updating,
        DnsReply::Restored(_) => stage is Restoring,
    }
}

/// Where an answer leads.
pub open spec fn next_dns(c: DnsController, reply: DnsReply) -> DnsMove {
    let none = Seq::<DnsAction>::empty();
    let rebind = DnsMove {
        leased: c.leased,
        stage: DnsStage::Restoring { rebind: true },
        ask: DnsAskView::Restore,
        actions: none,
    };
    match reply {
        DnsReply::Capabilities(Err(e)) => dns_done(
            c.leased,
            Some(FailureView::System(e@)),
            none,
        ),
        DnsReply::Capabilities(Ok(caps)) => {
            match wanted_settings(caps, c.ifname@, c.nameserver, c.suffix@) {
                None => dns_done(
                    c.leased,
                    Some(
                        FailureView::Unsupported(
                            "backend supports neither per-interface nor global DNS"@,
                        ),
                    ),
                    none,
                ),
                Some(s) => match fault_of(s) {
                    Some(e) => dns_done(c.leased, Some(FailureView::Invalid(e)), none),
                    None => if c.stage == (DnsStage::Capabilities { fresh: true }) {
                        DnsMove {
                            leased: c.leased,
                            stage: DnsStage::Applying,
                            ask: DnsAskView::Apply(s),
                            actions: none,
                        }
                    } else {
                        DnsMove {
                            leased: c.leased,
                            stage: DnsStage::Updating,
                            ask: DnsAskView::Update(s),
                            actions: none,
                        }
                    },
                },
            }
        },
        DnsReply::Applied(Ok(_)) => dns_done(true, None, seq![DnsAction::FlushCache]),
        DnsReply::Applied(Err(e)) => dns_done(c.leased, Some(FailureView::System(e@)), none),
        DnsReply::Updated(UpdateOutcome::Done) => dns_done(
            c.leased,
            None,
            seq![DnsAction::FlushCache],
        ),
        DnsReply::Updated(UpdateOutcome::RequiresRebind) => rebind,
        DnsReply::Updated(UpdateOutcome::ResourceGone) => rebind,
        DnsReply::Updated(UpdateOutcome::Failed(e)) => dns_done(
            c.leased,
            Some(FailureView::System(e@)),
            none,
        ),
        DnsReply::Restored(outcome) => {
            let again = c.stage == (DnsStage::Restoring { rebind: true });
            let actions = match outcome {
                RestoreOutcome::Done => seq![DnsAction::FlushCache],
                RestoreOutcome::ExternallyModified => seq![DnsAction::Abandon],
                RestoreOutcome::Failed(_) => none,
            };
            match outcome {
                RestoreOutcome::Failed(e) => dns_done(
                    true,
                    Some(FailureView::System(e@)),
                    none,
                ),
                _ => if again {
                    DnsMove {
                        leased: false,
                        stage: DnsStage::Capabilities { fresh: true },
                        ask: DnsAskView::Capabilities,
                        actions,
                    }
                } else {
                    dns_done(false, None, actions)
                },
            }
        },
    }
}

/// What follows.
#[derive(Debug)]
pub struct DnsStep {
    pub actions: Vec<DnsAction>,
    pub ask: DnsAsk,
}

fn dns_one(a: DnsAction) -> (r: Vec<DnsAction>)
    ensures
        r@ == seq![a],
{
    let mut v: Vec<DnsAction> = Vec::new();
    v.push(a);
    proof {
        assert(v@ =~= seq![a]);
    }
    v
}

impl DnsController {
    pub fn new() -> (r: DnsController)
        ensures
            !r.leased,
            r.stage == DnsStage::Rest,
    {
        DnsController {
            leased: false,
            stage: DnsStage::Rest,
            ifname: String::new(),
            nameserver: 0,
            suffix: String::new(),
        }
    }

    /// A controller, once what earlier runs left behind was seen to; where that
    /// failed there is none.
    pub fn wrap(recovered: Result<(), String>) -> (r: Result<DnsController, String>)
        ensures
            recovered is Ok ==> (r matches Ok(c) && !c.leased && c.stage == DnsStage::Rest),
            recovered matches Err(e) ==> r == Err::<DnsController, String>(e),
    {
        match recovered {
            Ok(_) => Ok(DnsController::new()),
            Err(e) => Err(e),
        }
    }

    /// Whether the name service is this node's at present.
    pub fn is_active(&self) -> (r: bool)
        ensures
            r == self.leased,
    {
        self.leased
    }

    /// Asks for the name service, or moves the lease that there is to these
    /// settings. Both begin with what the system can do.
    pub fn apply(&mut self, ifname: &str, nameserver: u32, suffix: &str) -> (r: DnsAsk)
        ensures
            r@ == DnsAskView::Capabilities,
            final(self).leased == old(self).leased,
            final(self).stage == (DnsStage::Capabilities { fresh: !old(self).leased }),
            final(self).ifname@ == ifname@,
            final(self).nameserver == nameserver,
            final(self).suffix@ == suffix@,
    {
        self.stage = DnsStage::Capabilities { fresh: !self.leased };
        self.ifname = ifname.to_owned();
        self.nameserver = nameserver;
        self.suffix = suffix.to_owned();
        DnsAsk::Capabilities
    }

    /// Moves to these settings; without a lease that is to ask for one.
    pub fn update(&mut self, ifname: &str, nameserver: u32, suffix: &str) -> (r: DnsAsk)
        ensures
            r@ == DnsAskView::Capabilities,
            final(self).leased == old(self).leased,
            final(self).stage == (DnsStage::Capabilities { fresh: !old(self).leased }),
            final(self).ifname@ == ifname@,
            final(self).nameserver == nameserver,
            final(self).suffix@ == suffix@,
    {
        self.apply(ifname, nameserver, suffix)
    }

    /// Gives the lease back; without one there is nothing to do.
    pub fn restore(&mut self) -> (r: DnsAsk)
        ensures
            final(self).leased == old(self).leased,
            final(self).ifname == old(self).ifname,
            final(self).nameserver == old(self).nameserver,
            final(self).suffix == old(self).suffix,
            if old(self).leased {
                r@ == DnsAskView::Restore && final(self).stage == (DnsStage::Restoring {
                    rebind: false,
                })
            } else {
                r@ == DnsAskView::Done(None) && final(self).stage == DnsStage::Rest
            },
    {
        if !self.leased {
            self.stage = DnsStage::Rest;
            return DnsAsk::Done(Ok(()));
        }
        self.stage = DnsStage::Restoring { rebind: false };
        DnsAsk::Restore
    }

    fn finish(&mut self, outcome: Result<(), DnsFailure>) -> (r: DnsStep)
        ensures
            r.actions@ == Seq::<DnsAction>::empty(),
            r.ask@ == match outcome {
                Ok(_) => DnsAskView::Done(None),
                Err(e) => DnsAskView::Done(Some(e@)),
            },
            *final(self) == (DnsController { stage: DnsStage::Rest, ..*old(self) }),
    {
        self.stage = DnsStage::Rest;
        DnsStep { actions: Vec::new(), ask: DnsAsk::Done(outcome) }
    }

    /// Takes an answer in.
    pub fn answer(&mut self, reply: DnsReply) -> (r: DnsStep)
        requires
            dns_fits(old(self).stage, reply),
        ensures
            ({
                let m = next_dns(*old(self), reply);
                &&& r.ask@ == m.ask
                &&& r.actions@ == m.actions
                &&& *final(self) == (DnsController {
                    leased: m.leased,
                    stage: m.stage,
                    ..*old(self)
                })
            }),
    {
        match reply {
            DnsReply::Capabilities(caps) => {
                let caps = match caps {
                    Ok(caps) => caps,
                    Err(e) => {
                        return self.finish(Err(DnsFailure::System(e)));
                    },
                };
                let settings = match desired_config(
                    caps,
                    self.ifname.as_str(),
                    self.nameserver,
                    self.suffix.as_str(),
                ) {
                    Ok(s) => s,
                    Err(e) => {
                        return self.finish(Err(DnsFailure::Settings(e)));
                    },
                };
                if self.stage == (DnsStage::Capabilities { fresh: true }) {
                    self.stage = DnsStage::Applying;
                    return DnsStep { actions: Vec::new(), ask: DnsAsk::Apply(settings) };
                }
                self.stage = DnsStage::Updating;
                DnsStep { actions: Vec::new(), ask: DnsAsk::Update(settings) }
            },
            DnsReply::Applied(outcome) => match outcome {
                Ok(_) => {
                    self.leased = true;
                    self.stage = DnsStage::Rest;
                    DnsStep { actions: dns_one(DnsAction::FlushCache), ask: DnsAsk::Done(Ok(())) }
                },
                Err(e) => self.finish(Err(DnsFailure::System(e))),
            },
            DnsReply::Updated(outcome) => match outcome {
                UpdateOutcome::Done => {
                    self.stage = DnsStage::Rest;
                    DnsStep { actions: dns_one(DnsAction::FlushCache), ask: DnsAsk::Done(Ok(())) }
                },
                UpdateOutcome::RequiresRebind => {
                    self.stage = DnsStage::Restoring { rebind: true };
                    DnsStep { actions: Vec::new(), ask: DnsAsk::Restore }
                },
                UpdateOutcome::ResourceGone => {
                    self.stage = DnsStage::Restoring { rebind: true };
                    DnsStep { actions: Vec::new(), ask: DnsAsk::Restore }
                },
                UpdateOutcome::Failed(e) => self.finish(Err(DnsFailure::System(e))),
            },
            DnsReply::Restored(outcome) => {
                let again = self.stage == (DnsStage::Restoring { rebind: true });
                let actions = match outcome {
                    RestoreOutcome::Done => dns_one(DnsAction::FlushCache),
                    RestoreOutcome::ExternallyModified => dns_one(DnsAction::Abandon),
                    RestoreOutcome::Failed(e) => {
                        self.leased = true;
                        return self.finish(Err(DnsFailure::System(e)));
                    },
                };
                self.leased = false;
                if again {
                    self.stage = DnsStage::Capabilities { fresh: true };
                    return DnsStep { actions, ask: DnsAsk::Capabilities };
                }
                self.stage = DnsStage::Rest;
                DnsStep { actions, ask: DnsAsk::Done(Ok(())) }
            },
        }
    }
}

/// A lease is claimed only once the system took the settings, and kept unless
/// it was given back or let go: failures never change whether there is one.
pub proof fn law_failures_keep_the_lease(c: DnsController, reply: DnsReply)
    requires
        dns_fits(c.stage, reply),
        c.stage is Restoring ==> c.leased,
        next_dns(c, reply).ask matches DnsAskView::Done(Some(_)),
    ensures
        next_dns(c, reply).leased == c.leased,
        next_dns(c, reply).actions.len() == 0,
{
}

/// When others have changed the settings, nothing of theirs is touched: the
/// lease is only let go.
pub proof fn law_foreign_settings_win(c: DnsController)
    requires
        c.stage is Restoring,
    ensures
        next_dns(c, DnsReply::Restored(RestoreOutcome::ExternallyModified)).actions == seq![
            DnsAction::Abandon,
        ],
        !next_dns(c, DnsReply::Restored(RestoreOutcome::ExternallyModified)).leased,
{
}

/// What became of a lease that an earlier run left behind.
#[derive(Clone, Copy, Debug, PartialEq, Eq, Structural)]
pub enum RecoveryOutcome {
    Restored,
    JournalCleared,
    Gone,
    Replaced,
    IdentityMismatch,
    Failed,
    ExternalConflict,
    Busy,
    Unknown,
}

/// How much a note matters.
#[derive(Clone, Copy, Debug, PartialEq, Eq, Structural)]
pub enum NoteLevel {
    Info,
    Warn,
    Error,
}

pub open spec fn recovery_text(o: RecoveryOutcome) -> (NoteLevel, Seq<char>) {
    match o {
        RecoveryOutcome::Restored => (NoteLevel::Info, "recovered stale DNS transaction"@),
        RecoveryOutcome::JournalCleared => (NoteLevel::Info, "cleared stale DNS journal"@),
        RecoveryOutcome::Gone => (
            NoteLevel::Info,
            "stale DNS resource incarnation is gone; journal cleared"@,
        ),
        RecoveryOutcome::Replaced => (
            NoteLevel::Info,
            "stale DNS resource was replaced; journal cleared"@,
        ),
        RecoveryOutcome::IdentityMismatch => (
            NoteLevel::Error,
            "stale DNS incarnation is unproven; left untouched"@,
        ),
        RecoveryOutcome::Failed => (
            NoteLevel::Error,
            "stale DNS recovery failed for one resource; continuing"@,
        ),
        RecoveryOutcome::ExternalConflict => (
            NoteLevel::Error,
            "stale DNS transaction conflicts with external state; left untouched"@,
        ),
        RecoveryOutcome::Busy => (
            NoteLevel::Warn,
            "stale DNS resource busy; left untouched"@,
        ),
        RecoveryOutcome::Unknown => (
            NoteLevel::Error,
            "unrecognized DNS recovery outcome; leaving resource untouched"@,
        ),
    }
}

/// What is noted of a lease that an earlier run left behind.
pub fn recovery_note(outcome: RecoveryOutcome) -> (r: (NoteLevel, &'static str))
    ensures
        (r.0, r.1@) == recovery_text(outcome),
{
    match outcome {
        RecoveryOutcome::Restored => (NoteLevel::Info, "recovered stale DNS transaction"),
        RecoveryOutcome::JournalCleared => (NoteLevel::Info, "cleared stale DNS journal"),
        RecoveryOutcome::Gone => (
            NoteLevel::Info,
            "stale DNS resource incarnation is gone; journal cleared",
        ),
        RecoveryOutcome::Replaced => (
            NoteLevel::Info,
            "stale DNS resource was replaced; journal cleared",
        ),
        RecoveryOutcome::IdentityMismatch => (
            NoteLevel::Error,
            "stale DNS incarnation is unproven; left untouched",
        ),
        RecoveryOutcome::Failed => (
            NoteLevel::Error,
            "stale DNS recovery failed for one resource; continuing",
        ),
        RecoveryOutcome::ExternalConflict => (
            NoteLevel::Error,
            "stale DNS transaction conflicts with external state; left untouched",
        ),
        RecoveryOutcome::Busy => (NoteLevel::Warn, "stale DNS resource busy; left untouched"),
        RecoveryOutcome::Unknown => (
            NoteLevel::Error,
            "unrecognized DNS recovery outcome; leaving resource untouched",
        ),
    }
}

} // verus!
