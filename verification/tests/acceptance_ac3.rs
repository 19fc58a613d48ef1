use serde_json::Value;
use wm_busbridge::forward::BridgedPayload;

fn object(members: Vec<(&str, Value)>) -> Value {
    members.into_iter().map(|(key, value)| (key.to_string(), value)).collect()
}

/// A bridged payload is recognized and skipped on the agorabus→NATS path.
#[test]
fn test_loop_guard_no_echo() {
    // Simulate a NATS-originated event that has been injected into agorabus
    let bridged = BridgedPayload::new(
        "wm.fleet.presence".to_string(),
        object(vec![("node", Value::from("laptop")), ("status", Value::from("online"))]),
        "nats".to_string(),
    );
    let wrapped = bridged.to_value();

    // The loop guard must detect this as bridged
    assert!(
        BridgedPayload::is_bridged(&wrapped),
        "event injected from NATS must be detected as bridged"
    );
}

/// A locally-originated event is NOT detected as bridged.
#[test]
fn test_local_event_not_detected_as_bridged() {
    let local_payload = object(vec![("node", Value::from("laptop")), ("status", Value::from("online"))]);
    assert!(
        !BridgedPayload::is_bridged(&local_payload),
        "a locally-originated event must NOT be detected as bridged"
    );
}

/// The bridge marker key is the canonical constant.
#[test]
fn test_bridge_marker_key_constant() {
    assert_eq!(
        wm_busbridge::forward::BRIDGE_MARKER_KEY,
        "_wm_bridged",
        "bridge marker key must be the documented constant"
    );
}

/// A bridged payload always has _wm_bridged: true in the serialized form.
#[test]
fn test_bridged_payload_serialization() {
    let bridged = BridgedPayload::new(
        "wm.fleet.test".to_string(),
        object(vec![]),
        "nats".to_string(),
    );
    let val = bridged.to_value();
    assert_eq!(
        val.get("_wm_bridged").and_then(|v| v.as_bool()),
        Some(true),
        "_wm_bridged must be true in serialized BridgedPayload"
    );
}

#[test]
fn acceptance_ac3() {}
