use hmac::{Hmac, KeyInit, Mac};
use sha2::Sha256;
use tunnet::commands::CommandLine;
use tunnet::forward::{
    cfg_nft, enable_forwarding, remove_masquerade, ExitNat, NatAsk, NatGuard, NatInstall, NatPlan,
    NatStage, Platform,
};
use tunnet::scan::{lines, trim, word_at_end};
use tunnet::service::{
    ensure_admin, install, is_root, launchd_plist_path, refresh_unit, reload_after_config,
    render_launchd_plist, resolve_state_dir, restart, start, status, stop, stop_for_reset,
    system_state_dir, uninstall, unit_path, Reload, ServiceProbe, ServiceStep,
};
use tunnet::wrap_key::{derive_wrap_key, ioreg_machine_id, linux_machine_id, reg_machine_id};

fn line(c: &CommandLine) -> String {
    let mut all = vec![c.program.clone()];
    all.extend(c.args.iter().cloned());
    all.join(" ")
}

fn asked(run: &NatInstall) -> String {
    match run.ask() {
        Some(NatAsk::Run(c)) => line(&c),
        Some(NatAsk::Write { path, .. }) => format!("write {path}"),
        None => String::new(),
    }
}

#[test]
fn masquerade_prefers_nft() {
    let mut run = NatInstall::install_masquerade(Platform::Linux, "eth0");
    assert_eq!(asked(&run), "nft --version");
    run.answer(true);
    assert_eq!(asked(&run), "nft delete table ip tunnet_nat");
    run.answer(false);
    assert_eq!(asked(&run), "nft -f -");
    match run.ask() {
        Some(NatAsk::Run(c)) => assert_eq!(
            c.stdin.unwrap(),
            "table ip tunnet_nat {\n  chain postrouting {\n    type nat hook postrouting priority 100;\n    oifname \"eth0\" masquerade\n  }\n}\n"
        ),
        other => panic!("expected a program, got {other:?}"),
    }
    run.answer(true);
    assert_eq!(run.stage, NatStage::Installed);
    assert!(run.ask().is_none());
}

#[test]
fn iptables_is_the_fallback() {
    let mut run = NatInstall::install_masquerade(Platform::Linux, "eth0");
    run.answer(false);
    let rule = "POSTROUTING -o eth0 -j MASQUERADE -m comment --comment tunnet-exit";
    assert_eq!(asked(&run), format!("iptables -t nat -C {rule}"));
    run.answer(false);
    assert_eq!(asked(&run), format!("iptables -t nat -A {rule}"));
    run.answer(false);
    assert_eq!(run.stage, NatStage::Failed);
    // The same after nft could not load the rules.
    let mut run = NatInstall::install_masquerade(Platform::Linux, "eth0");
    run.answer(true);
    run.answer(true);
    run.answer(false);
    assert!(asked(&run).starts_with("iptables -t nat -C"));
}

#[test]
fn other_systems_translate_in_their_own_way() {
    let mut run = NatInstall::install_masquerade(Platform::Macos, "en0");
    match run.ask() {
        Some(NatAsk::Write { path, text }) => {
            assert_eq!(path, "/tmp/tunnet-nat.conf");
            assert_eq!(text, "nat on en0 from any to any -> (en0)\n");
        }
        other => panic!("expected a file, got {other:?}"),
    }
    run.answer(true);
    assert_eq!(asked(&run), "pfctl -a com.tunnet/nat -f /tmp/tunnet-nat.conf");
    run.answer(false);
    assert_eq!(asked(&run), "pfctl -e");
    run.answer(false);
    assert_eq!(run.stage, NatStage::Installed);
    let run = NatInstall::install_masquerade(Platform::Windows, "Ethernet");
    assert!(asked(&run).starts_with("powershell -NoProfile -Command if (-not (Get-NetNat"));
    assert_eq!(
        NatInstall::install_masquerade(Platform::Other, "x").stage,
        NatStage::Failed
    );
}

#[test]
fn translation_is_taken_back_once() {
    let mut nat = ExitNat::new(Platform::Linux);
    assert!(matches!(nat.ensure_exit_nat(true, None), NatPlan::Leave));
    let mut run = match nat.ensure_exit_nat(true, Some("eth0".to_string())) {
        NatPlan::Install(run) => run,
        other => panic!("expected a set-up, got {other:?}"),
    };
    run.answer(true);
    run.answer(true);
    run.answer(true);
    assert!(nat.installed(run, true));
    assert_eq!(nat.in_force.as_ref().unwrap().uplink, "eth0");
    match nat.ensure_exit_nat(false, None) {
        NatPlan::Remove(commands) => {
            assert_eq!(line(&commands[0]), "nft delete table ip tunnet_nat")
        }
        other => panic!("expected a removal, got {other:?}"),
    }
    assert!(matches!(nat.teardown_exit_nat(), NatPlan::Leave));
}

#[test]
fn forwarding_and_removal_by_system() {
    match enable_forwarding(Platform::Linux) {
        Some(NatAsk::Write { path, text }) => {
            assert_eq!(path, "/proc/sys/net/ipv4/ip_forward");
            assert_eq!(text, "1");
        }
        other => panic!("expected a file, got {other:?}"),
    }
    match enable_forwarding(Platform::Macos) {
        Some(NatAsk::Run(c)) => assert_eq!(line(&c), "sysctl -w net.inet.ip.forwarding=1"),
        other => panic!("expected a program, got {other:?}"),
    }
    assert!(enable_forwarding(Platform::Other).is_none());
    let removal = remove_masquerade(Platform::Linux, "eth0", false);
    assert!(line(&removal[0]).starts_with("iptables -t nat -D POSTROUTING -o eth0"));
    let guard = NatGuard {
        uplink: "eth0".to_string(),
        used_nft: true,
    };
    assert!(cfg_nft(Platform::Linux, &guard));
    assert!(!cfg_nft(Platform::Macos, &guard));
}

fn shown(steps: &[ServiceStep]) -> Vec<String> {
    steps
        .iter()
        .map(|s| match s {
            ServiceStep::Run { command, .. } => line(command),
            ServiceStep::Write { path, .. } => format!("write {path}"),
            ServiceStep::Remove { path } => format!("remove {path}"),
            ServiceStep::Say(text) => format!("say {text}"),
            other => format!("{other:?}"),
        })
        .collect()
}

#[test]
fn service_is_installed_by_root_only() {
    assert_eq!(
        install(Platform::Linux, false, "/usr/bin/tunnetd", None).unwrap_err(),
        "service install needs root: sudo tunnet service install"
    );
    assert_eq!(
        install(Platform::Other, true, "/usr/bin/tunnetd", None).unwrap_err(),
        "service install is not supported on this OS"
    );
    let steps = install(Platform::Linux, true, "/usr/bin/tunnetd", None).unwrap();
    let lines = shown(&steps);
    assert_eq!(lines[0], "write /etc/systemd/system/tunnet.service");
    assert_eq!(lines[1], "systemctl daemon-reload");
    assert!(lines[2].starts_with("systemctl enable"));
    assert!(lines[3].starts_with("say "));
    // Bringing it up to date says nothing.
    let steps = refresh_unit(Platform::Linux, true, "/usr/bin/tunnetd", None).unwrap();
    assert_eq!(steps.len(), 3);
    assert_eq!(unit_path(), "/etc/systemd/system/tunnet.service");
    assert_eq!(
        launchd_plist_path(),
        "/Library/LaunchDaemons/com.tunnet.agent.plist"
    );
}

#[test]
fn start_brings_the_unit_up_to_date_first() {
    let steps = start(Platform::Linux, true, true, "/usr/bin/tunnetd", None).unwrap();
    let lines = shown(&steps);
    let write = lines
        .iter()
        .position(|l| l == "write /etc/systemd/system/tunnet.service")
        .unwrap();
    let begin = lines
        .iter()
        .position(|l| l.starts_with("systemctl") && l.contains("start"))
        .unwrap();
    assert!(write < begin);
    assert!(steps.iter().any(|s| matches!(s, ServiceStep::WaitForApi)));
    assert!(start(Platform::Linux, false, true, "/usr/bin/tunnetd", None).is_err());
}

#[test]
fn stop_and_uninstall_need_the_unit() {
    assert!(stop(Platform::Linux, false, true).is_err());
    let steps = stop(Platform::Linux, true, true).unwrap();
    assert!(shown(&steps).iter().any(|l| l.starts_with("systemctl stop")));
    let steps = uninstall(Platform::Linux, true, true).unwrap();
    assert!(shown(&steps)
        .iter()
        .any(|l| l == "remove /etc/systemd/system/tunnet.service"));
    assert!(stop_for_reset(Platform::Linux, false).is_empty());
    assert!(!stop_for_reset(Platform::Linux, true).is_empty());
    let both = restart(Platform::Linux, true, true, "/usr/bin/tunnetd", None);
    assert!(!both.first.is_empty());
    assert!(both.next.is_ok());
}

#[test]
fn service_states() {
    let probe = ServiceProbe::from_systemd(true, Some(("active\n".to_string(), String::new())));
    assert!(probe.active);
    assert_eq!(probe.state, "active");
    let probe = ServiceProbe::from_systemd(true, None);
    assert_eq!(probe.state, "unknown");
    assert!(!ServiceProbe::from_systemd(false, None).installed);
    assert_eq!(ServiceProbe::from_launchd(true, false).state, "inactive");
    assert_eq!(ServiceProbe::not_installed().state, "not-installed");
    assert_eq!(ServiceProbe::unsupported().state, "unsupported");
    assert!(!status(Platform::Linux, &probe).is_empty());
}

#[test]
fn administrators() {
    assert!(is_root(Some(0)));
    assert!(!is_root(Some(1000)));
    assert!(!is_root(None));
    assert!(ensure_admin(Platform::Linux, true).unwrap().is_none());
    assert!(ensure_admin(Platform::Linux, false).is_err());
    assert!(matches!(
        ensure_admin(Platform::Windows, false),
        Ok(Some(ServiceStep::Elevate))
    ));
    assert_eq!(resolve_state_dir(None), system_state_dir());
    assert_eq!(resolve_state_dir(Some("/srv/tunnet")), "/srv/tunnet");
    assert!(render_launchd_plist("/usr/bin/tunnetd", None).contains("/usr/bin/tunnetd"));
}

#[test]
fn configuration_comes_into_force_only_where_there_is_a_service() {
    let reload = |installed: bool, root: bool| {
        reload_after_config(Platform::Linux, installed, root, "/usr/bin/tunnetd", Some("/srv"))
    };
    match reload(false, true) {
        Reload::Tell(text) => assert_eq!(
            text,
            "State written to /srv. Start the agent with:\n  sudo tunnet service start"
        ),
        other => panic!("expected words, got {other:?}"),
    }
    match reload(true, false) {
        Reload::Tell(text) => assert!(text.ends_with("Run: sudo tunnet service restart")),
        other => panic!("expected words, got {other:?}"),
    }
    match reload(true, true) {
        Reload::Steps(steps) => assert!(steps.len() > 3),
        other => panic!("expected steps, got {other:?}"),
    }
}

fn code(key: &[u8], message: &[u8]) -> Vec<u8> {
    let mut mac = Hmac::<Sha256>::new_from_slice(key).unwrap();
    mac.update(message);
    mac.finalize().into_bytes().to_vec()
}

#[test]
fn wrap_key_is_extract_and_expand() {
    let prk = code(b"salt", b"machineboot");
    let want = code(&prk, b"tunnet-state-enc-v1\x01");
    assert_eq!(derive_wrap_key("machine", Some("boot"), b"salt").unwrap(), want);
    assert_eq!(want.len(), 32);
    // No salt is a salt of zeros.
    assert_eq!(
        derive_wrap_key("machine", None, b""),
        derive_wrap_key("machine", None, &[0u8; 32])
    );
    assert_ne!(
        derive_wrap_key("machine", None, b""),
        derive_wrap_key("other", None, b"")
    );
}

#[test]
fn machine_ids_as_the_systems_print_them() {
    let printed = "  |   \"IOPlatformSerialNumber\" = \"C02\"\n  |   \"IOPlatformUUID\" = \"1234-ABCD\"\n";
    assert_eq!(ioreg_machine_id(printed).unwrap(), "1234-ABCD");
    assert_eq!(ioreg_machine_id("nothing").unwrap_err(), "IOPlatformUUID not found");
    let printed = "\r\nHKEY_LOCAL_MACHINE\\SOFTWARE\r\n    MachineGuid    REG_SZ    aaaa-bbbb\r\n";
    assert_eq!(reg_machine_id(printed).unwrap(), "aaaa-bbbb");
    assert_eq!(reg_machine_id("").unwrap_err(), "MachineGuid not found");
    let files = vec![None, Some(" \n".to_string()), Some("abc\n".to_string())];
    assert_eq!(linux_machine_id(&files).unwrap(), "abc");
    assert_eq!(linux_machine_id(&vec![None]).unwrap_err(), "no machine-id found");
}

#[test]
fn words_and_lines() {
    assert_eq!(trim(" \t a b \n"), "a b");
    assert_eq!(word_at_end("one two  "), "two");
    assert_eq!(word_at_end("   "), "");
    assert_eq!(lines("a\nb\r\nc"), vec!["a", "b", "c"]);
}

#[test]
fn other_unix_systems_ask_for_root() {
    assert!(ensure_admin(Platform::Unix, false).is_err());
    assert!(ensure_admin(Platform::Unix, true).unwrap().is_none());
    assert!(ensure_admin(Platform::Other, false).unwrap().is_none());
    assert_eq!(
        install(Platform::Unix, true, "/usr/bin/tunnetd", None).unwrap_err(),
        "service install is not supported on this OS"
    );
}

#[test]
fn failed_update_on_windows_says_what_to_run() {
    let steps = start(Platform::Windows, false, false, "tunnetd.exe", None).unwrap();
    assert!(matches!(steps[0], ServiceStep::Elevate));
    match &steps[1] {
        ServiceStep::OnFailure(hint) => assert_eq!(
            hint,
            "\nRun an elevated Command Prompt: tunnet service start"
        ),
        other => panic!("expected a hint, got {other:?}"),
    }
    let begins = steps
        .iter()
        .position(|s| matches!(s, ServiceStep::StartService))
        .unwrap();
    let ends = steps
        .iter()
        .position(|s| matches!(s, ServiceStep::OnFailure(hint) if hint.is_empty()))
        .unwrap();
    let registers = steps
        .iter()
        .position(|s| matches!(s, ServiceStep::RegisterService))
        .unwrap();
    assert!(1 < registers && registers < ends && ends < begins);
}
