use std::path::PathBuf;
use wm_busbridge::config::{default_socket_path, parse_allow, BridgeConfig};

#[test]
fn the_allowlist_is_split_and_trimmed() {
    assert_eq!(parse_allow(""), Vec::<String>::new());
    for text in ["a", " a , b\t,c", ",", "a,,b", " ", "wm.presence.,wm.x."] {
        let expected: Vec<String> = text.split(',').map(str::trim).map(String::from).collect();
        assert_eq!(parse_allow(text), expected, "{text:?}");
    }
}

#[test]
fn the_fleet_prefix_comes_first() {
    let cfg = BridgeConfig {
        socket_path: PathBuf::from("/tmp/sock"),
        nats_url: "nats://127.0.0.1:4222".to_string(),
        extra_allow: vec!["b".to_string(), "a".to_string()],
    };
    assert_eq!(cfg.fleet_allow_prefixes(), vec!["wm.fleet.", "b", "a"]);
}

#[test]
fn the_default_socket() {
    for home in ["/home/me", "/home/me/", "/", "", "rel"] {
        let expected = PathBuf::from(home).join(".cache/agorabus/sock");
        assert_eq!(default_socket_path(Some(home), Some("7")), expected.to_str().unwrap());
    }
    assert_eq!(default_socket_path(None, Some("1000")), "/tmp/agorabus-1000/sock");
    assert_eq!(default_socket_path(None, None), "/tmp/agorabus-0/sock");
}
