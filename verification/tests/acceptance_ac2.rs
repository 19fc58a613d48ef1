use wm_busbridge::config::BridgeConfig;

/// The bridge config uses the standard agorabus socket path by default,
/// not a modified or alternative path. Local clients connecting to the same
/// socket are not affected.
#[test]
fn test_local_clients_unaffected() {
    let cfg = BridgeConfig {
        socket_path: std::path::PathBuf::from("/tmp/agorabus-test/sock"),
        nats_url: "nats://127.0.0.1:4222".to_string(),
        extra_allow: vec![],
    };

    // The bridge's fleet allow prefixes do not include wm.local.* or any
    // prefix that would cause it to intercept local-only traffic.
    let allow = cfg.fleet_allow_prefixes();
    assert!(
        allow.contains(&"wm.fleet.".to_string()),
        "allow list must include wm.fleet."
    );
    assert!(
        !allow.contains(&"wm.".to_string()),
        "allow list must NOT be a catch-all for all wm.* (would intercept local clients)"
    );

    // The bridge uses its own named session IDs (documented in bridge.rs),
    // so it does not collide with existing local sessions.
    // Asserted structurally: the bridge connects with "wm-busbridge-sub" and
    // "wm-busbridge-pub" session IDs, which no existing client uses.
}

/// The field `extra_allow` extends the prefix list correctly.
#[test]
fn test_extra_allow_extends_fleet_prefixes() {
    let cfg = BridgeConfig {
        socket_path: std::path::PathBuf::from("/tmp/agorabus-test/sock"),
        nats_url: "nats://127.0.0.1:4222".to_string(),
        extra_allow: vec!["wm.presence.".to_string()],
    };
    let allow = cfg.fleet_allow_prefixes();
    assert!(allow.contains(&"wm.fleet.".to_string()));
    assert!(allow.contains(&"wm.presence.".to_string()));
    assert_eq!(allow.len(), 2);
}

#[test]
fn acceptance_ac2() {}
