use serde_json::Value;
use wm_busbridge::bridge::{inbound, inject, outbound, Outbound};
use wm_busbridge::selftest::{payload, tagged_data, verdict, Reply, Round, TEST_SUBJECT};

#[test]
fn the_selftest_sends_its_ping() {
    assert_eq!(TEST_SUBJECT, "wm.fleet.selftest");
    assert_eq!(
        String::from_utf8(payload().unwrap()).unwrap(),
        "{\"msg\":\"wm-busbridge selftest ping\",\"selftest\":true}"
    );
}

#[test]
fn the_selftest_passes_only_when_the_ping_comes_back() {
    assert_eq!(verdict(Reply::Received(51)).unwrap(), "NATS event received: 51 bytes");
    assert_eq!(
        verdict(Reply::Ended).unwrap_err(),
        "selftest: NATS subscriber stream ended without a message"
    );
    assert_eq!(
        verdict(Reply::TimedOut).unwrap_err(),
        "selftest: timed out waiting for NATS message"
    );
}

#[test]
fn a_tagged_event_goes_round_once() {
    let allow = vec!["wm.fleet.".to_string()];
    let data = tagged_data("t1");
    assert_eq!(
        data.to_string(),
        "{\"msg\":\"wm-busbridge selftest ping\",\"selftest\":true,\"tag\":\"t1\"}"
    );
    let mut round = Round::new();
    round.see_event(TEST_SUBJECT, &data, "t1");
    assert_eq!(round, Round::new());
    let bytes = match outbound(TEST_SUBJECT, &data, &allow) {
        Outbound::Forward(bytes) => bytes,
        other => panic!("{other:?}"),
    };
    round.see_message(&bytes, "t1");
    assert_eq!((round.crossed, round.returned), (1, 0));
    assert!(!round.settles(false));
    assert_eq!(
        round.outcome().unwrap_err(),
        "selftest: the event did not come back to the local bus"
    );
    let back = inbound(TEST_SUBJECT, &bytes, &allow).unwrap();
    assert!(matches!(outbound(TEST_SUBJECT, &back, &allow), Outbound::Bridged));
    round.see_event(TEST_SUBJECT, &back, "t1");
    assert_eq!((round.crossed, round.returned), (1, 1));
    assert!(round.outcome().is_ok());
    assert!(round.settles(false));
    assert!(!round.settles(true));
    round.see_message(&bytes, "t1");
    assert_eq!(
        round.outcome().unwrap_err(),
        "selftest: the event reached NATS more than once"
    );
}

#[test]
fn other_events_do_not_count() {
    let mut round = Round::new();
    round.see_message(&payload().unwrap(), "t1");
    round.see_message(b"not json", "t1");
    round.see_message(b"{\"tag\":1}", "t1");
    round.see_message(b"\"t1\"", "t1");
    round.see_data(&tagged_data("t2"), "t1");
    round.see_event(TEST_SUBJECT, &inject(TEST_SUBJECT, tagged_data("t2")), "t1");
    round.see_event("wm.fleet.x", &inject(TEST_SUBJECT, tagged_data("t1")), "t1");
    round.see_event(TEST_SUBJECT, &Value::Null, "t1");
    assert_eq!(round, Round::new());
    assert_eq!(round.outcome().unwrap_err(), "selftest: the event did not reach NATS");
    round.returned = 5;
    assert_eq!(round.outcome().unwrap_err(), "selftest: the event did not reach NATS");
    round.crossed = u32::MAX;
    round.see_data(&tagged_data("t1"), "t1");
    assert_eq!(round.crossed, u32::MAX);
}

#[test]
fn acceptance_ac7() {}
