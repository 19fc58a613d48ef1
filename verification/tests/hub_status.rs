use bytes::Bytes;
use wm_busbridge::hub_status::HubSummary;
use wm_busbridge::hub_watcher::{maybe_buffer, HubLivenessState, HubState, HubWatcherConfig};

#[test]
fn a_hub_that_is_up() {
    let liveness = HubLivenessState::new(5_000_000_000);
    let summary = HubSummary::of(&liveness, 17_999_999_999);
    assert_eq!(summary.to_line(), "hub: UP (12s in state, 0 events buffered, 0 dropped)");
    assert_eq!(summary.exit_code(), 0);
}

#[test]
fn a_hub_that_is_down() {
    let mut liveness = HubLivenessState::new(0);
    liveness.state = HubState::Down;
    let mut cfg = HubWatcherConfig::for_node("n".to_string());
    cfg.buffer_max_events = 2;
    for _ in 0..5 {
        maybe_buffer(&mut liveness, "wm.fleet.x", Bytes::from_static(b"{}"), &cfg);
    }
    let summary = HubSummary::of(&liveness, 61_000_000_000);
    assert_eq!(summary.to_line(), "hub: DOWN (61s in state, 2 events buffered, 3 dropped)");
    assert_eq!(
        summary.to_json().unwrap(),
        "{\n  \"buffered\": 2,\n  \"dropped\": 3,\n  \"seconds_in_state\": 61,\n  \"state\": \"DOWN\"\n}"
    );
    assert_eq!(summary.to_value().get("state").and_then(|v| v.as_str()), Some("DOWN"));
    assert_eq!(summary.exit_code(), 1);
}
