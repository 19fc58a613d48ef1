use serde_json::Value;
use wm_busbridge::forward::{should_forward, BridgedPayload};

fn object(members: Vec<(&str, Value)>) -> Value {
    members.into_iter().map(|(key, value)| (key.to_string(), value)).collect()
}

fn default_allow() -> Vec<String> {
    vec!["wm.fleet.".to_string()]
}

#[test]
fn fleet_topic_is_forwarded() {
    assert!(should_forward("wm.fleet.presence", &default_allow()));
    assert!(should_forward("wm.fleet.heartbeat.laptop", &default_allow()));
}

#[test]
fn blocked_audio_chunk_not_forwarded() {
    assert!(!should_forward("wm.audio.speech.chunk", &default_allow()));
    assert!(!should_forward("wm.audio.speech.chunk.raw", &default_allow()));
}

#[test]
fn local_topics_not_forwarded() {
    assert!(!should_forward("wm.local.debug", &default_allow()));
    assert!(!should_forward("wm.local.foo.bar", &default_allow()));
}

#[test]
fn unknown_topic_not_forwarded() {
    assert!(!should_forward("wm.stt.transcript", &default_allow()));
    assert!(!should_forward("wm.brain.reply", &default_allow()));
}

#[test]
fn bridge_marker_detected() {
    let val = object(vec![
        ("_wm_bridged", Value::Bool(true)),
        ("topic", Value::from("wm.fleet.x")),
        ("data", object(vec![])),
        ("from", Value::from("x")),
    ]);
    assert!(BridgedPayload::is_bridged(&val));
}

#[test]
fn non_bridged_payload_not_detected() {
    let val = object(vec![("topic", Value::from("wm.fleet.x")), ("data", object(vec![]))]);
    assert!(!BridgedPayload::is_bridged(&val));
}

#[test]
fn extra_allow_prefix_forwarded() {
    let allow = vec!["wm.fleet.".to_string(), "wm.presence.".to_string()];
    assert!(should_forward("wm.presence.announce", &allow));
    assert!(!should_forward("wm.audio.raw", &allow));
}

fn suffixes() -> Vec<String> {
    let mut out = vec![String::new()];
    for a in ["a", ".", "zz.q", "...", "speech.chunk"] {
        for b in ["", ".b", "x"] {
            out.push(format!("{a}{b}"));
        }
    }
    out
}

#[test]
fn blocked_prefix_always_blocks() {
    let allow = vec!["wm.fleet.".to_string(), "wm.audio.".to_string()];
    for suffix in suffixes() {
        assert!(!should_forward(&format!("wm.audio.speech.chunk{suffix}"), &allow));
    }
}

#[test]
fn local_topics_always_blocked() {
    let allow = vec!["wm.fleet.".to_string(), "wm.local.".to_string(), String::new()];
    for suffix in suffixes() {
        assert!(!should_forward(&format!("wm.local.{suffix}"), &allow));
    }
}

#[test]
fn bridged_payload_roundtrips() {
    for topic in suffixes() {
        let original = BridgedPayload::new(
            topic.clone(),
            object(vec![("test", Value::Bool(true))]),
            "some-one".to_string(),
        );
        let val = original.to_value();
        assert!(BridgedPayload::is_bridged(&val));
        assert_eq!(val.get("topic").and_then(|v| v.as_str()), Some(topic.as_str()));
    }
}

#[test]
fn non_bridged_never_detected() {
    for key in ["a", "_wm_bridge", "_wm_bridged_", "wm_bridged"] {
        assert!(!BridgedPayload::is_bridged(&object(vec![(key, Value::Bool(true))])));
    }
    for value in [Value::from("true"), Value::from(1u64), Value::Null, Value::Bool(false)] {
        assert!(!BridgedPayload::is_bridged(&object(vec![("_wm_bridged", value)])));
    }
    assert!(!BridgedPayload::is_bridged(&Value::Bool(true)));
    assert!(!BridgedPayload::is_bridged(&Value::Array(vec![Value::from("_wm_bridged")])));
}

#[test]
fn a_wrapped_event_in_full() {
    let payload = BridgedPayload::new("wm.fleet.x".to_string(), Value::from(7u64), "nats".to_string());
    assert_eq!(
        payload.to_value().to_string(),
        "{\"_wm_bridged\":true,\"data\":7,\"from\":\"nats\",\"topic\":\"wm.fleet.x\"}"
    );
}

#[test]
fn a_prefix_is_no_word() {
    let allow = vec!["wm.fleet.".to_string()];
    assert!(!should_forward("wm.fleet", &allow));
    assert!(should_forward("wm.fleet.", &allow));
    assert!(!should_forward("wm.fleetx.y", &allow));
    assert!(!should_forward("wm.fleet.x", &[]));
    assert!(should_forward("anything", &[String::new()]));
}
