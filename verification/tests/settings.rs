//! Connectivity settings, buffer sizes and the service's files.

use tunnet::connectivity::{
    endpoint_plan, relay_auth_denied_detail, relay_map_from_configs, relay_uses_n0_preset,
    ConnectivityOptions, ConnectivityRelayConfig, EffectiveRelayPolicy, HomeRelay, RelayChoice,
    DATAGRAM_RECEIVE_BUFFER, DATAGRAM_SEND_BUFFER,
};
use tunnet::peer::{hold_after_dial, DialStart, DIAL_COOLDOWN, PACKET_MAX_AGE, PEER_QUEUE_CAP};
use tunnet::service::{render_systemd_unit, system_state_dir};
use tunnet::tun::drain_ready_burst;

#[test]
fn managed_default_is_disabled_until_snapshot() {
    let opts = ConnectivityOptions::managed_default();
    assert!(opts.relay == EffectiveRelayPolicy::Disabled);
    assert!(!opts.enable_mdns);
    assert!(!opts.enable_lan_discovery);
    assert!(!opts.enable_dht);
}

#[test]
fn direct_default_is_n0_with_discovery() {
    let opts = ConnectivityOptions::direct_default(true);
    assert!(opts.relay == EffectiveRelayPolicy::N0);
    assert!(opts.enable_mdns);
    assert!(opts.enable_dht);
    assert!(opts.enable_lan_discovery);
    assert!(relay_uses_n0_preset(&opts.relay));
}

#[test]
fn from_direct_config_disabled_keeps_lan_discovery() {
    let resolved: Result<EffectiveRelayPolicy, String> = Ok(EffectiveRelayPolicy::Disabled);
    let opts = match ConnectivityOptions::direct_from_input(resolved, true, true, true) {
        Ok(opts) => opts,
        Err(e) => panic!("{e}"),
    };
    assert!(opts.relay == EffectiveRelayPolicy::Disabled);
    assert!(opts.enable_lan_discovery);
    assert!(opts.enable_mdns);
    assert!(!relay_uses_n0_preset(&opts.relay));
}

#[test]
fn send_buffer_is_64kib() {
    assert_eq!(DATAGRAM_SEND_BUFFER, 64 * 1024);
}

#[test]
fn receive_buffer_is_256kib() {
    assert_eq!(DATAGRAM_RECEIVE_BUFFER, 256 * 1024);
}

#[test]
fn queue_cap_is_small() {
    assert_eq!(PEER_QUEUE_CAP, 32);
}

#[test]
fn hold_retry_follows_dial_outcome() {
    let now: u64 = 77_000_000_000;
    assert_eq!(hold_after_dial(DialStart::Started, None, now), None);
    assert_eq!(hold_after_dial(DialStart::InFlight, None, now), None);
    let until = now + DIAL_COOLDOWN;
    assert_eq!(
        hold_after_dial(DialStart::Cooldown, Some(until), now),
        Some(until)
    );
    assert_eq!(
        hold_after_dial(DialStart::Denied, None, now),
        Some(now + PACKET_MAX_AGE)
    );
}

#[test]
fn windows_burst_stops_on_would_block() {
    let mut n = 0;
    let got = drain_ready_burst(32, || {
        n += 1;
        if n <= 3 {
            Ok(40)
        } else {
            Err(std::io::Error::from(std::io::ErrorKind::WouldBlock))
        }
    });
    assert_eq!(got, 3);
}

#[test]
fn burst_counts_what_was_read_up_to_the_limit() {
    for max in 0..6 {
        let mut calls = 0;
        let got = drain_ready_burst(max, || {
            calls += 1;
            if calls <= 4 {
                Ok(40)
            } else {
                Err(std::io::Error::from(std::io::ErrorKind::WouldBlock))
            }
        });
        assert_eq!(got, max.min(4));
        assert_eq!(calls, max.min(5));
    }
}

#[test]
fn systemd_unit_uses_tunnetd() {
    let unit = render_systemd_unit("/usr/bin/tunnetd", Some("/var/lib/tunnet"));
    assert!(unit.contains("Restart=always"));
    assert!(unit.contains("RestartSec=2"));
    assert!(unit.contains("After=network-online.target"));
    assert!(unit.contains("ExecStart=/usr/bin/tunnetd"));
    assert!(!unit.contains(" run"));
    assert!(unit.contains("Type=notify-reload"));
    assert!(unit.contains("TimeoutStartSec=30"));
    assert!(unit.contains("ExecReload=/bin/kill -HUP $MAINPID"));
    assert!(unit.contains("TUNNET_STATE_DIR=/var/lib/tunnet"));
    assert!(unit.contains("StateDirectory=tunnet"));
    assert!(unit.contains("RuntimeDirectory=tunnet"));
    assert!(unit.contains("RuntimeDirectoryMode=0755"));
    assert!(unit.contains("TUNNET_RUNTIME_DIR=/run/tunnet"));
    assert!(unit.contains("TUNNET_SERVICE_MODE=1"));
}

#[test]
fn systemd_unit_defaults_system_state_dir() {
    let unit = render_systemd_unit("/usr/bin/tunnetd", None);
    let expected = format!("TUNNET_STATE_DIR={}", system_state_dir());
    assert!(unit.contains(&expected), "unit missing {expected}: {unit}");
}

fn relay(url: &str, token: Option<&str>) -> ConnectivityRelayConfig {
    ConnectivityRelayConfig {
        url: url.to_string(),
        region: None,
        auth_token: token.map(|t| t.to_string()),
        metering: false,
    }
}

#[test]
fn custom_relays_show_only_real_tokens() {
    let policy = EffectiveRelayPolicy::Custom(vec![
        relay("https://a.example.com", Some("tok")),
        relay("https://b.example.com", Some("")),
        relay("https://c.example.com", None),
    ]);
    let Ok(entries) = relay_map_from_configs(policy.custom_relays()) else {
        panic!("every address is one of a relay");
    };
    assert_eq!(entries.len(), 3);
    assert_eq!(entries[0].url, "https://a.example.com/");
    assert_eq!(entries[0].auth_token.as_deref(), Some("tok"));
    assert_eq!(entries[1].auth_token, None);
    assert_eq!(entries[2].auth_token, None);
}

#[test]
fn endpoint_begins_with_the_public_preset_only_for_public_relays() {
    let direct = ConnectivityOptions::direct_default(false);
    let plan = endpoint_plan(&direct);
    assert!(plan.n0_preset);
    assert_eq!(plan.relays, RelayChoice::FromPreset);
    assert!(plan.dht);
    assert!(!plan.mdns);
    let managed = ConnectivityOptions::managed_default();
    let plan = endpoint_plan(&managed);
    assert!(!plan.n0_preset);
    assert_eq!(plan.relays, RelayChoice::Disabled);
}

#[test]
fn first_refusing_relay_is_reported() {
    let relays = vec![
        HomeRelay { url: "https://a".to_string(), auth_denied: None },
        HomeRelay { url: "https://b".to_string(), auth_denied: Some("bad token".to_string()) },
        HomeRelay { url: "https://c".to_string(), auth_denied: Some("later".to_string()) },
    ];
    assert_eq!(
        relay_auth_denied_detail(&relays),
        Some(("https://b".to_string(), "bad token".to_string()))
    );
    assert_eq!(relay_auth_denied_detail(&relays[..1]), None);
}

#[test]
fn disabled_plus_lan_discovery_is_valid() {
    let opts = ConnectivityOptions {
        relay: EffectiveRelayPolicy::Disabled,
        enable_dht: false,
        enable_mdns: true,
        enable_lan_discovery: true,
    };
    assert!(opts.relay == EffectiveRelayPolicy::Disabled);
    assert!(opts.enable_lan_discovery);
    assert!(!relay_uses_n0_preset(&opts.relay));
    let plan = endpoint_plan(&opts);
    assert_eq!(plan.relays, RelayChoice::Disabled);
    assert!(!plan.dht);
    assert!(plan.mdns);
}

#[test]
fn lan_discovery_independent_of_relay_mode() {
    for policy in [
        EffectiveRelayPolicy::N0,
        EffectiveRelayPolicy::Disabled,
        EffectiveRelayPolicy::Custom(vec![relay("https://relay.example.com", None)]),
    ] {
        let opts = ConnectivityOptions {
            relay: policy,
            enable_dht: true,
            enable_mdns: false,
            enable_lan_discovery: true,
        };
        assert!(opts.enable_lan_discovery);
        let plan = endpoint_plan(&opts);
        assert!(plan.dht);
        assert!(!plan.mdns);
    }
}

#[test]
fn custom_relays_builder_uses_custom_map() {
    let relays = vec![ConnectivityRelayConfig {
        url: "https://relay.example.com".to_string(),
        region: Some("us".to_string()),
        auth_token: Some("tok".to_string()),
        metering: false,
    }];
    let resolved: Result<EffectiveRelayPolicy, String> = Ok(EffectiveRelayPolicy::Custom(relays));
    let Ok(opts) = ConnectivityOptions::managed_default().with_managed_snapshot(resolved) else {
        panic!("snapshot");
    };
    assert!(!opts.relay.uses_n0_infrastructure());
    assert_eq!(endpoint_plan(&opts).relays, RelayChoice::Custom);
    let Ok(map) = relay_map_from_configs(opts.relay.custom_relays()) else {
        panic!("parse");
    };
    assert_eq!(map.len(), 1);
}

#[test]
fn managed_snapshot_overrides_local_direct_settings() {
    let local: Result<EffectiveRelayPolicy, String> = Ok(EffectiveRelayPolicy::N0);
    let Ok(local) = ConnectivityOptions::direct_from_input(local, true, true, true) else {
        panic!("local");
    };
    assert!(local.relay == EffectiveRelayPolicy::N0);

    let none: Result<EffectiveRelayPolicy, String> = Ok(EffectiveRelayPolicy::Disabled);
    let Ok(from_snapshot) = local.with_managed_snapshot(none) else {
        panic!("snapshot");
    };
    assert!(from_snapshot.relay == EffectiveRelayPolicy::Disabled);

    let org: Result<EffectiveRelayPolicy, String> =
        Ok(EffectiveRelayPolicy::Custom(vec![ConnectivityRelayConfig {
            url: "https://org-relay.example.com".to_string(),
            region: None,
            auth_token: Some("managed-tok".to_string()),
            metering: true,
        }]));
    let Ok(custom) = ConnectivityOptions::direct_default(true).with_managed_snapshot(org) else {
        panic!("snapshot");
    };
    match custom.relay {
        EffectiveRelayPolicy::Custom(ref relays) => {
            assert_eq!(relays[0].url, "https://org-relay.example.com");
        }
        _ => panic!("not the organisation's relays"),
    }
    assert!(!relay_uses_n0_preset(&custom.relay));
}

#[test]
fn snapshot_none_does_not_upgrade_to_n0() {
    let none: Result<EffectiveRelayPolicy, String> = Ok(EffectiveRelayPolicy::Disabled);
    let Ok(opts) = ConnectivityOptions::managed_default().with_managed_snapshot(none) else {
        panic!("snapshot");
    };
    assert!(opts.relay == EffectiveRelayPolicy::Disabled);
    assert!(opts.relay != EffectiveRelayPolicy::N0);
    assert!(!endpoint_plan(&opts).n0_preset);
}

#[test]
fn each_relay_is_entered_once() {
    let relays = [
        relay("https://a.example.com", Some("old")),
        relay("https://b.example.com", None),
        relay("https://a.example.com/", Some("new")),
    ];
    let Ok(map) = relay_map_from_configs(&relays) else {
        panic!("every address is one of a relay");
    };
    assert_eq!(map.len(), 2);
    assert_eq!(map[0].url, "https://a.example.com/");
    assert_eq!(map[0].auth_token.as_deref(), Some("new"));
    assert_eq!(map[1].url, "https://b.example.com/");
}

#[test]
fn address_that_is_none_is_named() {
    let relays = [
        relay("https://a.example.com", None),
        relay("no address", None),
        relay("nor this", None),
    ];
    match relay_map_from_configs(&relays) {
        Ok(_) => panic!("taken"),
        Err(e) => assert_eq!(e.url, "no address"),
    }
}
