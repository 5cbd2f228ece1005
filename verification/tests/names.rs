use tunnet::net_text::parse_ipv4;
use tunnet::system_dns::{
    choose_settings, desired_config, recovery_note, DnsAction, DnsAsk, DnsCapabilities,
    DnsController, DnsFailure, DnsReply, DnsSettings, NoteLevel, RecoveryOutcome, RestoreOutcome,
    SettingsError, UpdateOutcome,
};

fn localhost() -> u32 {
    parse_ipv4("127.0.0.1").unwrap()
}

const NO_CAPS: DnsCapabilities = DnsCapabilities {
    per_interface_dns: false,
    split_dns: false,
    default_route: false,
    global_dns: false,
    cache_flush: false,
};

fn split_caps() -> DnsCapabilities {
    DnsCapabilities {
        per_interface_dns: true,
        split_dns: true,
        default_route: true,
        ..NO_CAPS
    }
}

/// Routing domains without explicit default-route control.
fn split_caps_no_default_route() -> DnsCapabilities {
    DnsCapabilities {
        per_interface_dns: true,
        split_dns: true,
        ..NO_CAPS
    }
}

fn full_caps() -> DnsCapabilities {
    DnsCapabilities {
        global_dns: true,
        cache_flush: true,
        ..split_caps()
    }
}

#[test]
fn split_with_default_route_cap_uses_explicit_no_default_route() {
    let config = desired_config(split_caps(), "tunnet0", localhost(), "tunnet").unwrap();
    assert_eq!(config.nameserver, localhost());
    assert_eq!(config.routing_domain.as_deref(), Some("tunnet"));
    assert_eq!(config.default_route, Some(false));
    assert_eq!(config.interface.as_deref(), Some("tunnet0"));
}

#[test]
fn split_without_default_route_cap_preserves_unspecified() {
    let caps = split_caps_no_default_route();
    let config = desired_config(caps, "tunnet0", localhost(), "tunnet").unwrap();
    assert_eq!(config.nameserver, localhost());
    assert!(config.routing_domain.is_some());
    // Never fake `false`: None means preserve/unspecified.
    assert_eq!(config.default_route, None);
}

#[test]
fn backend_without_split_dns_uses_full_peerdns_fallback() {
    let caps = DnsCapabilities {
        per_interface_dns: true,
        ..NO_CAPS
    };
    let config = desired_config(caps, "tunnet0", localhost(), "tunnet").unwrap();
    assert!(config.routing_domain.is_none());
    assert_eq!(config.nameserver, localhost());
    assert!(config.interface.is_some());
}

#[test]
fn global_only_backend_uses_global_fallback() {
    let caps = DnsCapabilities {
        global_dns: true,
        ..NO_CAPS
    };
    let config = desired_config(caps, "tunnet0", localhost(), "tunnet").unwrap();
    assert_eq!(config.interface, None);
    assert_eq!(config.nameserver, localhost());
}

#[test]
fn unsupported_capability_combination_fails_clearly() {
    let err = desired_config(NO_CAPS, "tunnet0", localhost(), "tunnet")
        .expect_err("backend with no DNS scope must fail");
    match err {
        SettingsError::Unsupported(why) => assert_eq!(
            why,
            "backend supports neither per-interface nor global DNS"
        ),
        other => panic!("expected unsupported, got {other:?}"),
    }
    assert!(choose_settings(NO_CAPS, "tunnet0", localhost(), "tunnet").is_none());
}

#[test]
fn configurable_interface_name_is_respected() {
    let config = desired_config(split_caps(), "custom0", localhost(), "tunnet").unwrap();
    assert_eq!(config.interface.as_deref(), Some("custom0"));
}

#[test]
fn overlong_labels_are_no_suffix() {
    let bad = format!("{}.tunnet", "a".repeat(64));
    match desired_config(split_caps(), "tunnet0", localhost(), &bad) {
        Err(SettingsError::Invalid(why)) => assert!(!why.is_empty()),
        other => panic!("expected invalid settings, got {other:?}"),
    }
    // Without a routing domain the suffix is of no account.
    let caps = DnsCapabilities {
        per_interface_dns: true,
        ..NO_CAPS
    };
    assert!(desired_config(caps, "tunnet0", localhost(), &bad).is_ok());
}

/// A system whose settings stand by interface.
struct System {
    caps: DnsCapabilities,
    held: Option<DnsSettings>,
    fail_next: bool,
    foreign: bool,
    actions: Vec<DnsAction>,
}

impl System {
    fn new(caps: DnsCapabilities) -> System {
        System {
            caps,
            held: None,
            fail_next: false,
            foreign: false,
            actions: vec![],
        }
    }

    fn fails(&mut self) -> bool {
        let f = self.fail_next;
        self.fail_next = false;
        f
    }

    fn drive(&mut self, dns: &mut DnsController, first: DnsAsk) -> Result<(), DnsFailure> {
        let mut ask = first;
        loop {
            let reply = match ask {
                DnsAsk::Done(outcome) => return outcome,
                DnsAsk::Capabilities => DnsReply::Capabilities(Ok(self.caps)),
                DnsAsk::Apply(s) => {
                    if self.fails() {
                        DnsReply::Applied(Err("simulated OS failure".to_string()))
                    } else {
                        self.held = Some(s);
                        DnsReply::Applied(Ok(()))
                    }
                }
                DnsAsk::Update(s) => {
                    if self.fails() {
                        DnsReply::Updated(UpdateOutcome::Failed("simulated OS failure".to_string()))
                    } else if self.held.as_ref().unwrap().interface != s.interface
                        || self.held.as_ref().unwrap().routing_domain != s.routing_domain
                    {
                        DnsReply::Updated(UpdateOutcome::RequiresRebind)
                    } else {
                        self.held = Some(s);
                        DnsReply::Updated(UpdateOutcome::Done)
                    }
                }
                DnsAsk::Restore => {
                    if self.fails() {
                        DnsReply::Restored(RestoreOutcome::Failed("busy".to_string()))
                    } else if self.foreign {
                        DnsReply::Restored(RestoreOutcome::ExternallyModified)
                    } else {
                        self.held = None;
                        DnsReply::Restored(RestoreOutcome::Done)
                    }
                }
            };
            let step = dns.answer(reply);
            self.actions.extend(step.actions);
            ask = step.ask;
        }
    }

    fn apply(
        &mut self,
        dns: &mut DnsController,
        ifname: &str,
        server: u32,
        suffix: &str,
    ) -> Result<(), DnsFailure> {
        let ask = dns.apply(ifname, server, suffix);
        self.drive(dns, ask)
    }

    fn update(
        &mut self,
        dns: &mut DnsController,
        ifname: &str,
        server: u32,
        suffix: &str,
    ) -> Result<(), DnsFailure> {
        let ask = dns.update(ifname, server, suffix);
        self.drive(dns, ask)
    }

    fn restore(&mut self, dns: &mut DnsController) -> Result<(), DnsFailure> {
        let ask = dns.restore();
        self.drive(dns, ask)
    }
}

#[test]
fn lease_lifecycle_apply_update_restore() {
    let mut system = System::new(full_caps());
    let mut dns = DnsController::wrap(Ok(())).unwrap();
    assert!(!dns.is_active());
    system.apply(&mut dns, "eth0", localhost(), "tunnet").unwrap();
    assert!(dns.is_active());
    system.update(&mut dns, "eth0", localhost(), "tunnet").unwrap();
    assert!(dns.is_active());
    system.restore(&mut dns).unwrap();
    assert!(!dns.is_active());
    assert!(system.held.is_none());
    // Restoring without a lease is a no-op success.
    system.restore(&mut dns).unwrap();
}

#[test]
fn tun_recreation_releases_old_lease_and_applies_new() {
    let mut system = System::new(full_caps());
    let mut dns = DnsController::wrap(Ok(())).unwrap();
    system.apply(&mut dns, "eth0", localhost(), "tunnet").unwrap();
    system.update(&mut dns, "wlan1", localhost(), "tunnet").unwrap();
    assert!(dns.is_active());
    assert_eq!(
        system.held.as_ref().unwrap().interface.as_deref(),
        Some("wlan1")
    );
    system.restore(&mut dns).unwrap();
    assert!(!dns.is_active());
}

#[test]
fn invalid_config_is_not_a_rebind() {
    let mut system = System::new(full_caps());
    let mut dns = DnsController::wrap(Ok(())).unwrap();
    system.apply(&mut dns, "eth0", localhost(), "tunnet").unwrap();
    // A malformed suffix is a real configuration error: the lease must be
    // retained untouched, never restored + re-applied.
    let bad_suffix = format!("{}.tunnet", "a".repeat(64));
    let err = system
        .update(&mut dns, "eth0", localhost(), &bad_suffix)
        .expect_err("overlong label must fail");
    assert!(matches!(
        err,
        DnsFailure::Settings(SettingsError::Invalid(_))
    ));
    assert!(dns.is_active());
    assert_eq!(
        system.held.as_ref().unwrap().routing_domain.as_deref(),
        Some("tunnet")
    );
}

#[test]
fn routing_domain_change_rebinds_to_new_resources() {
    let mut system = System::new(full_caps());
    let mut dns = DnsController::wrap(Ok(())).unwrap();
    system.apply(&mut dns, "eth0", localhost(), "tunnet").unwrap();
    system
        .update(&mut dns, "eth0", localhost(), "office.tunnet")
        .unwrap();
    assert!(dns.is_active());
    assert_eq!(
        system.held.as_ref().unwrap().routing_domain.as_deref(),
        Some("office.tunnet")
    );
    system.restore(&mut dns).unwrap();
    assert!(!dns.is_active());
}

#[test]
fn failed_update_preserves_previous_complete_configuration() {
    let mut system = System::new(full_caps());
    let mut dns = DnsController::wrap(Ok(())).unwrap();
    system.apply(&mut dns, "eth0", localhost(), "tunnet").unwrap();
    system.fail_next = true;
    let other = parse_ipv4("100.100.100.54").unwrap();
    match system.update(&mut dns, "eth0", other, "tunnet") {
        Err(DnsFailure::System(why)) => assert_eq!(why, "simulated OS failure"),
        other => panic!("expected the failure, got {other:?}"),
    }
    assert!(dns.is_active());
    assert_eq!(system.held.as_ref().unwrap().nameserver, localhost());
}

#[test]
fn failed_apply_does_not_claim_dns_active() {
    let mut system = System::new(NO_CAPS);
    let mut dns = DnsController::wrap(Ok(())).unwrap();
    let err = system
        .apply(&mut dns, "tunnet0", localhost(), "tunnet")
        .expect_err("backend without DNS scopes must fail");
    assert!(matches!(
        err,
        DnsFailure::Settings(SettingsError::Unsupported(_))
    ));
    assert!(!dns.is_active());
}

#[test]
fn fresh_state_recovery_is_empty_and_safe() {
    let dns = DnsController::wrap(Ok(())).unwrap();
    assert!(!dns.is_active());
}

#[test]
fn corrupt_journal_fails_closed() {
    assert_eq!(
        DnsController::wrap(Err("corrupt journal".to_string())).err(),
        Some("corrupt journal".to_string())
    );
}

#[test]
fn global_fallback_lifecycle_on_restricted_backend() {
    let caps = DnsCapabilities {
        global_dns: true,
        ..NO_CAPS
    };
    let mut system = System::new(caps);
    let mut dns = DnsController::wrap(Ok(())).unwrap();
    system
        .apply(&mut dns, "tunnet0", localhost(), "tunnet")
        .unwrap();
    assert!(dns.is_active());
    system.restore(&mut dns).unwrap();
    assert!(!dns.is_active());
}

#[test]
fn verification_failure_does_not_claim_dns_active() {
    let mut system = System::new(full_caps());
    let mut dns = DnsController::wrap(Ok(())).unwrap();
    system.fail_next = true;
    assert!(system.apply(&mut dns, "eth0", localhost(), "tunnet").is_err());
    assert!(!dns.is_active());
}

#[test]
fn split_without_default_route_control_applies_successfully() {
    let mut system = System::new(split_caps_no_default_route());
    let mut dns = DnsController::wrap(Ok(())).unwrap();
    system.apply(&mut dns, "eth0", localhost(), "tunnet").unwrap();
    assert!(dns.is_active());
    assert_eq!(system.held.as_ref().unwrap().default_route, None);
    system.restore(&mut dns).unwrap();
}

#[test]
fn restore_conflict_abandons_and_preserves_external_state() {
    let mut system = System::new(full_caps());
    let mut dns = DnsController::wrap(Ok(())).unwrap();
    system.apply(&mut dns, "eth0", localhost(), "tunnet").unwrap();
    system.foreign = true;
    system.restore(&mut dns).unwrap();
    assert!(!dns.is_active());
    assert!(system.actions.contains(&DnsAction::Abandon));
    // What the others set stays.
    assert!(system.held.is_some());
}

#[test]
fn vanished_tun_ends_lease_then_fresh_apply_can_target_a_live_interface() {
    let mut system = System::new(full_caps());
    let mut dns = DnsController::wrap(Ok(())).unwrap();
    system.apply(&mut dns, "eth0", localhost(), "tunnet").unwrap();
    let ask = dns.update("eth0", localhost(), "tunnet");
    assert!(matches!(ask, DnsAsk::Capabilities));
    let step = dns.answer(DnsReply::Capabilities(Ok(full_caps())));
    assert!(matches!(step.ask, DnsAsk::Update(_)));
    let step = dns.answer(DnsReply::Updated(UpdateOutcome::ResourceGone));
    let outcome = system.drive(&mut dns, step.ask);
    if outcome.is_err() {
        assert!(!dns.is_active());
        system.apply(&mut dns, "wlan1", localhost(), "tunnet").unwrap();
    }
    assert!(dns.is_active());
}

#[test]
fn ambiguous_identity_on_update_fails_closed() {
    let mut system = System::new(full_caps());
    let mut dns = DnsController::wrap(Ok(())).unwrap();
    system.apply(&mut dns, "eth0", localhost(), "tunnet").unwrap();
    dns.update("eth0", localhost(), "tunnet");
    dns.answer(DnsReply::Capabilities(Ok(full_caps())));
    let step = dns.answer(DnsReply::Updated(UpdateOutcome::Failed(
        "ambiguous identity".to_string(),
    )));
    match step.ask {
        DnsAsk::Done(Err(DnsFailure::System(why))) => assert_eq!(why, "ambiguous identity"),
        other => panic!("expected the failure, got {other:?}"),
    }
    assert!(dns.is_active());
}

#[test]
fn capabilities_that_cannot_be_read_end_the_attempt() {
    let mut dns = DnsController::new();
    dns.apply("eth0", localhost(), "tunnet");
    let step = dns.answer(DnsReply::Capabilities(Err("no bus".to_string())));
    assert!(matches!(
        step.ask,
        DnsAsk::Done(Err(DnsFailure::System(_)))
    ));
    assert!(!dns.is_active());
}

#[test]
fn recovery_is_noted_by_weight() {
    assert_eq!(recovery_note(RecoveryOutcome::Restored).0, NoteLevel::Info);
    assert_eq!(
        recovery_note(RecoveryOutcome::ExternalConflict).0,
        NoteLevel::Error
    );
    assert_eq!(
        recovery_note(RecoveryOutcome::Busy),
        (NoteLevel::Warn, "stale DNS resource busy; left untouched")
    );
    assert_eq!(recovery_note(RecoveryOutcome::Failed).0, NoteLevel::Error);
}
