use bytes::Bytes;
use serde_json::Value;
use wm_busbridge::hub_watcher::{
    down_event, hostname, maybe_buffer, probe_again, up_event, EmitStep, HubLivenessState, HubState,
    HubWatcherConfig, Transition, Watcher, HUB_DOWN_TOPIC, HUB_UP_TOPIC,
};

/// A watcher with a bus and a hub that remember what they were told.
struct WatcherSim {
    cfg: HubWatcherConfig,
    liveness: HubLivenessState,
    watcher: Watcher,
    bus: Vec<(String, Value)>,
    hub: Vec<(String, Bytes)>,
    now: u64,
}

impl WatcherSim {
    fn new(cfg: HubWatcherConfig) -> Self {
        WatcherSim {
            cfg,
            liveness: HubLivenessState::new(0),
            watcher: Watcher::new(1000),
            bus: vec![],
            hub: vec![],
            now: 1000,
        }
    }

    fn tick(&mut self, ok: bool) {
        self.now += 5;
        let nanos = (self.now - 1000) * 1_000_000_000;
        match self.watcher.tick(&mut self.liveness, &self.cfg, ok, self.now, nanos) {
            Transition::Stay => {}
            Transition::WentDown { since_ts, last_ok_ts } => {
                let data = down_event(&self.cfg.node_id, since_ts, last_ok_ts);
                self.bus.push((HUB_DOWN_TOPIC.to_string(), data));
            }
            Transition::CameUp { down_duration_secs, events } => {
                for ev in events {
                    self.hub.push((ev.topic, ev.payload));
                }
                let data = up_event(&self.cfg.node_id, down_duration_secs);
                self.bus.push((HUB_UP_TOPIC.to_string(), data));
            }
        }
    }
}

fn test_cfg() -> HubWatcherConfig {
    HubWatcherConfig {
        probe_secs: 5,
        probe_timeout_secs: 3,
        down_threshold: 3,
        up_threshold: 2,
        buffer_max_events: 5,
        buffer_max_bytes: 1024,
        node_id: "test-node".to_string(),
    }
}

#[test]
fn test_down_threshold_exact() {
    let mut sim = WatcherSim::new(test_cfg());

    // 2 failures → no DOWN yet
    sim.tick(false);
    sim.tick(false);
    assert_eq!(sim.liveness.state, HubState::Up);
    assert!(sim.bus.is_empty());

    // 3rd failure → DOWN
    sim.tick(false);
    assert_eq!(sim.liveness.state, HubState::Down);
    let events: Vec<_> = sim.bus.drain(..).collect();
    assert_eq!(events.len(), 1);
    assert_eq!(events[0].0, "wm.fleet.hub.down");
    assert!(events[0].1.get("node").is_some());
    assert!(events[0].1.get("since_ts").is_some());
    assert!(events[0].1.get("last_ok_ts").is_some());
}

#[test]
fn test_up_after_down() {
    let mut sim = WatcherSim::new(test_cfg());

    // Go DOWN
    for _ in 0..3 {
        sim.tick(false);
    }
    assert_eq!(sim.liveness.state, HubState::Down);
    sim.bus.clear();

    // 1 success → still DOWN
    sim.tick(true);
    assert_eq!(sim.liveness.state, HubState::Down);

    // 2nd success → UP
    sim.tick(true);
    assert_eq!(sim.liveness.state, HubState::Up);
    let events: Vec<_> = sim.bus.drain(..).collect();
    assert_eq!(events.len(), 1);
    assert_eq!(events[0].0, "wm.fleet.hub.up");
    assert!(events[0].1.get("down_duration_secs").is_some());
}

#[test]
fn test_hysteresis_no_flap() {
    let mut sim = WatcherSim::new(test_cfg());

    // 2 failures then a success → must not emit DOWN
    sim.tick(false);
    sim.tick(false);
    sim.tick(true);

    assert_eq!(sim.liveness.state, HubState::Up);
    assert!(sim.bus.is_empty());
}

#[test]
fn test_buffer_flush_ordering() {
    let mut sim = WatcherSim::new(test_cfg());
    let cfg = test_cfg();

    // Go DOWN
    for _ in 0..3 {
        sim.tick(false);
    }

    // Buffer 3 events in order
    for i in 0u8..3 {
        let payload = Bytes::from(vec![i]);
        maybe_buffer(&mut sim.liveness, "wm.fleet.x", payload, &cfg);
    }
    assert_eq!(sim.liveness.buffered_count(), 3);

    // Recover → flush
    sim.tick(true);
    sim.tick(true);
    assert_eq!(sim.liveness.state, HubState::Up);
    assert_eq!(sim.liveness.buffered_count(), 0);

    let published: Vec<_> = sim.hub.drain(..).collect();
    assert_eq!(published.len(), 3);
    // Verify order: first in, first out
    assert_eq!(published[0].1.as_ref(), &[0u8]);
    assert_eq!(published[1].1.as_ref(), &[1u8]);
    assert_eq!(published[2].1.as_ref(), &[2u8]);
}

#[test]
fn test_ring_buffer_bounds() {
    let mut sim = WatcherSim::new(test_cfg());
    let cfg = test_cfg(); // buffer_max_events = 5

    // Go DOWN
    for _ in 0..3 {
        sim.tick(false);
    }

    // Push 7 events (2 over cap)
    for i in 0u8..7 {
        let payload = Bytes::from(vec![i]);
        maybe_buffer(&mut sim.liveness, "wm.fleet.x", payload, &cfg);
    }

    // Buffer should have at most max_events entries
    assert!(sim.liveness.buffered_count() <= cfg.buffer_max_events);
    // At least 2 should have been dropped
    assert!(sim.liveness.dropped >= 2);
    // The oldest are the ones that went
    let left: Vec<u8> = sim.liveness.buffer.iter().map(|e| e.payload[0]).collect();
    assert_eq!(left, vec![2, 3, 4, 5, 6]);
}

#[test]
fn test_probe_error_is_treated_as_failure() {
    // An always-failing probe is equivalent to an erroring probe.
    let mut sim = WatcherSim::new(test_cfg());

    for _ in 0..3 {
        sim.tick(false);
    }
    // We reach DOWN without panicking
    assert_eq!(sim.liveness.state, HubState::Down);
}

#[test]
fn test_not_buffered_when_up() {
    let mut liveness = HubLivenessState::new(0);
    let cfg = test_cfg();
    let buffered = maybe_buffer(&mut liveness, "wm.fleet.x", Bytes::from_static(b"hi"), &cfg);
    assert!(!buffered);
    assert_eq!(liveness.buffered_count(), 0);
}

#[test]
fn test_dropped_counter() {
    let mut liveness = HubLivenessState::new(0);
    liveness.state = HubState::Down;
    let cfg = HubWatcherConfig {
        buffer_max_events: 2,
        buffer_max_bytes: 10 * 1024 * 1024,
        ..test_cfg()
    };

    // Fill to cap
    maybe_buffer(&mut liveness, "wm.fleet.x", Bytes::from_static(b"a"), &cfg);
    maybe_buffer(&mut liveness, "wm.fleet.x", Bytes::from_static(b"b"), &cfg);
    // Overflow — drops oldest
    maybe_buffer(&mut liveness, "wm.fleet.x", Bytes::from_static(b"c"), &cfg);

    assert_eq!(liveness.dropped, 1);
    assert_eq!(liveness.buffered_count(), 2);
}

#[test]
fn state_changes_carry_their_times() {
    let mut sim = WatcherSim::new(test_cfg());
    sim.tick(true); // 1005
    for _ in 0..3 {
        sim.tick(false); // down at 1020
    }
    sim.tick(true);
    sim.tick(true); // up at 1030
    let texts: Vec<(String, String)> =
        sim.bus.iter().map(|(topic, data)| (topic.clone(), data.to_string())).collect();
    assert_eq!(
        texts,
        vec![
            (
                "wm.fleet.hub.down".to_string(),
                "{\"last_ok_ts\":1005,\"node\":\"test-node\",\"since_ts\":1020}".to_string()
            ),
            (
                "wm.fleet.hub.up".to_string(),
                "{\"down_duration_secs\":10,\"node\":\"test-node\"}".to_string()
            ),
        ]
    );
    assert_eq!(sim.liveness.state_since, 30_000_000_000);
    assert_eq!(sim.liveness.seconds_in_state(31_999_999_999), 1);
    assert_eq!(sim.liveness.seconds_in_state(29_000_000_000), 0);
}

fn down(max_events: usize, max_bytes: usize) -> (HubLivenessState, HubWatcherConfig) {
    let mut liveness = HubLivenessState::new(0);
    liveness.state = HubState::Down;
    let cfg = HubWatcherConfig {
        buffer_max_events: max_events,
        buffer_max_bytes: max_bytes,
        ..test_cfg()
    };
    (liveness, cfg)
}

fn held(liveness: &HubLivenessState) -> Vec<&[u8]> {
    liveness.buffer.iter().map(|e| e.payload.as_ref()).collect()
}

#[test]
fn a_byte_overflow_drops_only_the_oldest() {
    let (mut liveness, cfg) = down(5, 10);
    for payload in [&b"aaaa"[..], b"bbbb", b"cccc"] {
        assert!(maybe_buffer(&mut liveness, "wm.fleet.x", Bytes::from_static(payload), &cfg));
    }
    assert_eq!(held(&liveness), vec![&b"bbbb"[..], b"cccc"]);
    assert_eq!(liveness.dropped, 1);
    // as many go as it takes
    assert!(maybe_buffer(&mut liveness, "wm.fleet.x", Bytes::from_static(b"ddddddd"), &cfg));
    assert_eq!(held(&liveness), vec![&b"ddddddd"[..]]);
    assert_eq!(liveness.dropped, 3);
    // up to the cap nothing goes
    assert!(maybe_buffer(&mut liveness, "wm.fleet.x", Bytes::from_static(b"eee"), &cfg));
    assert_eq!((liveness.buffered_count(), liveness.dropped), (2, 3));
}

#[test]
fn what_is_too_large_is_not_held() {
    let (mut liveness, cfg) = down(5, 10);
    assert!(maybe_buffer(&mut liveness, "wm.fleet.x", Bytes::from_static(b"aaaa"), &cfg));
    assert!(maybe_buffer(&mut liveness, "wm.fleet.x", Bytes::from(vec![0u8; 11]), &cfg));
    assert_eq!(held(&liveness), vec![&b"aaaa"[..]]);
    assert_eq!(liveness.dropped, 1);
    assert!(maybe_buffer(&mut liveness, "wm.fleet.x", Bytes::from(vec![0u8; 10]), &cfg));
    assert_eq!((liveness.buffered_count(), liveness.dropped), (1, 2));
    let (mut liveness, cfg) = down(0, 10);
    assert!(maybe_buffer(&mut liveness, "wm.fleet.x", Bytes::from_static(b""), &cfg));
    assert_eq!((liveness.buffered_count(), liveness.dropped), (0, 1));
}

#[test]
fn the_buffer_keeps_within_both_bounds() {
    let (mut liveness, cfg) = down(4, 20);
    for n in 0..200usize {
        let payload = Bytes::from(vec![0u8; (n * 7) % 23]);
        maybe_buffer(&mut liveness, "wm.fleet.x", payload, &cfg);
        assert!(liveness.buffered_count() <= 4);
        assert!(held(&liveness).iter().map(|p| p.len()).sum::<usize>() <= 20);
        assert_eq!(liveness.dropped as usize + liveness.buffered_count(), n + 1);
    }
}

#[test]
fn the_dropped_counter_stops_at_its_end() {
    let (mut liveness, cfg) = down(1, 10);
    liveness.dropped = u64::MAX - 1;
    for _ in 0..4 {
        maybe_buffer(&mut liveness, "wm.fleet.x", Bytes::from_static(b"a"), &cfg);
    }
    assert_eq!(liveness.dropped, u64::MAX);
}

#[test]
fn a_hub_is_probed_until_it_is_decided() {
    assert!(probe_again(false, 0, 3));
    assert!(probe_again(false, 2, 3));
    assert!(!probe_again(false, 3, 3));
    assert!(!probe_again(true, 1, 3));
    assert!(!probe_again(false, 0, 0));
}

#[test]
fn a_status_event_is_tried_twice_at_most() {
    assert_eq!(EmitStep::begin(true), EmitStep::Publish);
    assert_eq!(EmitStep::begin(false), EmitStep::Reconnect);
    assert_eq!(EmitStep::Publish.next(true), EmitStep::Done);
    assert_eq!(EmitStep::Publish.next(false), EmitStep::Reconnect);
    assert_eq!(EmitStep::Reconnect.next(true), EmitStep::PublishAgain);
    assert_eq!(EmitStep::Reconnect.next(false), EmitStep::Done);
    assert_eq!(EmitStep::PublishAgain.next(false), EmitStep::Done);
    assert_eq!(EmitStep::PublishAgain.next(true), EmitStep::Done);
}

#[test]
fn the_defaults_are_those_that_are_documented() {
    let cfg = HubWatcherConfig::for_node("nomad".to_string());
    assert_eq!((cfg.probe_secs, cfg.probe_timeout_secs), (5, 3));
    assert_eq!((cfg.down_threshold, cfg.up_threshold), (3, 2));
    assert_eq!((cfg.buffer_max_events, cfg.buffer_max_bytes), (1000, 10 * 1024 * 1024));
    assert_eq!(cfg.node_id, "nomad");
    assert_eq!(hostname(Some(" nomad\n")), "nomad");
    assert_eq!(hostname(None), "unknown");
    assert_eq!(HubState::Up.to_string(), "UP");
    assert_eq!(HubState::Down.to_string(), "DOWN");
}

#[test]
fn counters_do_not_overflow() {
    let mut sim = WatcherSim::new(HubWatcherConfig { down_threshold: 0, up_threshold: 0, ..test_cfg() });
    sim.watcher.consecutive_successes = u32::MAX;
    sim.tick(true);
    assert_eq!(sim.watcher.consecutive_successes, u32::MAX);
    sim.tick(false);
    assert_eq!(sim.liveness.state, HubState::Down);
    sim.tick(true);
    assert_eq!(sim.liveness.state, HubState::Up);
}
