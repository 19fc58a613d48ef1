//! The events that `selftest` sends round, and what becomes of them.
//!
//! One event goes out and comes back over NATS alone. Another one is published on the
//! local bus: through the bridge it is to reach NATS exactly once, and to come back to
//! the local bus from there.

use crate::bridge::{data_or_null, injected, passage, NATS_ORIGIN};
use crate::config::allow_list;
use crate::forward::{
    fleet_topics_always_cross, forwards, marked, only_the_marker_marks, wrapping_keeps_the_event,
    BridgedPayload,
    BRIDGE_MARKER_KEY,
};
use crate::hub_watcher::counted;
use crate::json::{
    bytes_of_json, filled, from_bool, from_pairs, from_text, get, json, keys_differ, member, object,
    objects_hold_their_pairs, pairs_in, parse_bytes, write_bytes, EncodeError, Json,
};
use crate::text::{decimal, same_text, to_decimal};
use vstd::prelude::*;

verus! {

/// The subject of the event.
pub const TEST_SUBJECT: &'static str = "wm.fleet.selftest";

/// How long the event may take.
pub const TIMEOUT_SECS: u64 = 5;

/// The data of the event.
pub open spec fn ping() -> Json {
    object(
        seq![
            ("selftest"@, Json::Bool(true)),
            ("msg"@, Json::Text("wm-busbridge selftest ping"@)),
        ],
    )
}

/// The payload of the event. Writing it never fails.
pub fn payload() -> (r: Result<Vec<u8>, EncodeError>)
    ensures
        r is Ok,
        r->Ok_0@ == bytes_of_json(ping()),
{
    let mut pairs: Vec<(String, serde_json::Value)> = Vec::new();
    pairs.push(("selftest".to_string(), from_bool(true)));
    pairs.push(("msg".to_string(), from_text("wm-busbridge selftest ping".to_string())));
    assert(pairs_in(pairs@) =~= seq![
        ("selftest"@, Json::Bool(true)),
        ("msg"@, Json::Text("wm-busbridge selftest ping"@)),
    ]);
    proof {
        reveal_strlit("selftest");
        reveal_strlit("msg");
        assert("selftest"@.len() == 8);
        assert("msg"@.len() == 3);
        assert(keys_differ(pairs_in(pairs@)));
    }
    match write_bytes(&from_pairs(pairs)) {
        Ok(b) => Ok(b),
        Err(e) => Err(EncodeError::new("selftest: serializing payload", &e)),
    }
}

/// What became of the event.
#[derive(Debug, Clone, Copy, PartialEq, Eq, Structural)]
pub enum Reply {
    /// It came back with a payload of this many bytes.
    Received(usize),
    /// The subscription ended before it came back.
    Ended,
    /// It did not come back in time.
    TimedOut,
}

/// Whether the selftest passed: what to say, or why it failed.
pub fn verdict(reply: Reply) -> (r: Result<String, String>)
    ensures
        match reply {
            Reply::Received(n) => r is Ok && r->Ok_0@ == "NATS event received: "@ + decimal(n as nat)
                + " bytes"@,
            Reply::Ended => r is Err && r->Err_0@
                == "selftest: NATS subscriber stream ended without a message"@,
            Reply::TimedOut => r is Err && r->Err_0@
                == "selftest: timed out waiting for NATS message"@,
        },
{
    match reply {
        Reply::Received(n) => {
            let mut s = "NATS event received: ".to_string();
            s.append(to_decimal(n as u64).as_str());
            s.append(" bytes");
            Ok(s)
        },
        Reply::Ended => Err(
            "selftest: NATS subscriber stream ended without a message".to_string(),
        ),
        Reply::TimedOut => Err("selftest: timed out waiting for NATS message".to_string()),
    }
}

// ─── the way through the bridge ─────────────────────────────────────────────
/// The session that publishes and listens on the local bus.
pub const SELFTEST_SESSION: &'static str = "wm-busbridge-selftest";

/// What that session announces itself for.
pub const SELFTEST_INTENT: &'static str = "fleet bridge selftest";

/// How long to wait for a second copy once all is well.
pub const SETTLE_MILLIS: u64 = 500;

/// The data of an event with a tag of its own.
pub open spec fn tagged_ping(tag: Seq<char>) -> Json {
    object(
        seq![
            ("selftest"@, Json::Bool(true)),
            ("msg"@, Json::Text("wm-busbridge selftest ping"@)),
            ("tag"@, Json::Text(tag)),
        ],
    )
}

/// Whether data has this tag.
pub open spec fn carries(j: Json, tag: Seq<char>) -> bool {
    member(j, "tag"@) == Some(Json::Text(tag))
}

/// Whether an event on the local bus is the tagged one, come back from NATS.
pub open spec fn came_back(topic: Seq<char>, data: Json, tag: Seq<char>) -> bool {
    &&& topic == TEST_SUBJECT@
    &&& marked(data)
    &&& member(data, "data"@) is Some
    &&& carries(member(data, "data"@)->0, tag)
}

/// The data of an event with a tag of its own.
pub fn tagged_data(tag: &str) -> (v: serde_json::Value)
    ensures
        json(v) == tagged_ping(tag@),
{
    let mut pairs: Vec<(String, serde_json::Value)> = Vec::new();
    pairs.push(("selftest".to_string(), from_bool(true)));
    pairs.push(("msg".to_string(), from_text("wm-busbridge selftest ping".to_string())));
    pairs.push(("tag".to_string(), from_text(tag.to_string())));
    assert(pairs_in(pairs@) =~= seq![
        ("selftest"@, Json::Bool(true)),
        ("msg"@, Json::Text("wm-busbridge selftest ping"@)),
        ("tag"@, Json::Text(tag@)),
    ]);
    proof {
        reveal_strlit("selftest");
        reveal_strlit("msg");
        reveal_strlit("tag");
        assert("selftest"@.len() == 8);
        assert("msg"@.len() == 3);
        assert("tag"@.len() == 3);
        assert("msg"@[0] != "tag"@[0]);
        assert(keys_differ(pairs_in(pairs@)));
    }
    from_pairs(pairs)
}

fn carries_tag(v: &serde_json::Value, tag: &str) -> (r: bool)
    ensures
        r == carries(json(*v), tag@),
{
    match get(v, "tag") {
        Some(m) => match m.as_str() {
            Some(s) => same_text(s, tag),
            None => false,
        },
        None => false,
    }
}

/// How often the tagged event was seen.
#[derive(Debug, Clone, Copy, PartialEq, Eq, Structural)]
pub struct Round {
    /// On NATS.
    pub crossed: u32,
    /// Back on the local bus.
    pub returned: u32,
}

impl Round {
    /// Nothing was seen yet.
    pub fn new() -> (r: Round)
        ensures
            r == (Round { crossed: 0, returned: 0 }),
    {
        Round { crossed: 0, returned: 0 }
    }

    /// Takes a message on the test subject of NATS into account.
    pub fn see_message(&mut self, payload: &[u8], tag: &str)
        ensures
            *final(self) == (Round {
                crossed: if carries(data_or_null(payload@), tag@) {
                    counted(old(self).crossed)
                } else {
                    old(self).crossed
                },
                ..*old(self)
            }),
    {
        match parse_bytes(payload) {
            Ok(v) => {
                self.see_data(&v, tag);
            },
            Err(_) => {},
        }
    }

    /// Takes the data of a message on the test subject of NATS into account.
    pub fn see_data(&mut self, data: &serde_json::Value, tag: &str)
        ensures
            *final(self) == (Round {
                crossed: if carries(json(*data), tag@) {
                    counted(old(self).crossed)
                } else {
                    old(self).crossed
                },
                ..*old(self)
            }),
    {
        if carries_tag(data, tag) {
            self.crossed = self.crossed.saturating_add(1);
        }
    }

    /// Takes an event on the local bus into account.
    pub fn see_event(&mut self, topic: &str, data: &serde_json::Value, tag: &str)
        ensures
            *final(self) == (Round {
                returned: if came_back(topic@, json(*data), tag@) {
                    counted(old(self).returned)
                } else {
                    old(self).returned
                },
                ..*old(self)
            }),
    {
        if !same_text(topic, TEST_SUBJECT) || !BridgedPayload::is_bridged(data) {
            return;
        }
        match get(data, "data") {
            Some(inner) => {
                if carries_tag(inner, tag) {
                    self.returned = self.returned.saturating_add(1);
                }
            },
            None => {},
        }
    }

    /// Whether the event reached NATS exactly once and came back.
    pub open spec fn is_complete(self) -> bool {
        self.crossed == 1 && self.returned > 0
    }

    /// Whether to begin to wait for a second copy: all is well, and that wait has not
    /// begun yet.
    pub fn settles(&self, settling: bool) -> (r: bool)
        ensures
            r == (self.is_complete() && !settling),
    {
        self.outcome().is_ok() && !settling
    }

    /// Whether the event reached NATS exactly once and came back; or why not.
    pub fn outcome(&self) -> (r: Result<(), String>)
        ensures
            r is Ok <==> self.is_complete(),
            r is Err ==> r->Err_0@ == (if self.crossed == 0 {
                "selftest: the event did not reach NATS"@
            } else if self.crossed > 1 {
                "selftest: the event reached NATS more than once"@
            } else {
                "selftest: the event did not come back to the local bus"@
            }),
    {
        if self.crossed == 0 {
            Err("selftest: the event did not reach NATS".to_string())
        } else if self.crossed > 1 {
            Err("selftest: the event reached NATS more than once".to_string())
        } else if self.returned == 0 {
            Err("selftest: the event did not come back to the local bus".to_string())
        } else {
            Ok(())
        }
    }
}

// ─── laws ───────────────────────────────────────────────────────────────────
proof fn lemma_tag(tag: Seq<char>)
    ensures
        carries(tagged_ping(tag), tag),
        !marked(tagged_ping(tag)),
{
    reveal_strlit("_wm_bridged");
    reveal_strlit("selftest");
    reveal_strlit("msg");
    reveal_strlit("tag");
    let p = seq![
        ("selftest"@, Json::Bool(true)),
        ("msg"@, Json::Text("wm-busbridge selftest ping"@)),
        ("tag"@, Json::Text(tag)),
    ];
    let p1 = p.drop_last().drop_last();
    let p2 = p.drop_last();
    assert(p1.drop_last() =~= Seq::empty());
    assert(filled(p1.drop_last()) == Map::<Seq<char>, Json>::empty());
    assert(filled(p1) == Map::<Seq<char>, Json>::empty().insert(p[0].0, p[0].1));
    assert(filled(p2) == filled(p1).insert(p[1].0, p[1].1));
    assert(filled(p) == filled(p2).insert(p[2].0, p[2].1));
    assert("tag"@.len() != BRIDGE_MARKER_KEY@.len());
    assert("msg"@.len() != BRIDGE_MARKER_KEY@.len());
    assert("selftest"@.len() != BRIDGE_MARKER_KEY@.len());
}

/// The tagged event may cross to NATS, whatever else may. What the bridge makes of it
/// on its way back counts as its return, while the event itself does not; and that
/// return does not cross again.
pub proof fn the_round_closes(tag: Seq<char>, extra: Seq<Seq<char>>)
    ensures
        forwards(TEST_SUBJECT@, allow_list(extra)),
        !marked(tagged_ping(tag)),
        !came_back(TEST_SUBJECT@, tagged_ping(tag), tag),
        came_back(TEST_SUBJECT@, injected(TEST_SUBJECT@, tagged_ping(tag)), tag),
        passage(
            TEST_SUBJECT@,
            injected(TEST_SUBJECT@, tagged_ping(tag)),
            allow_list(extra),
        ) is Bridged,
{
    lemma_tag(tag);
    the_test_subject_crosses(extra);
    wrapping_keeps_the_event(true, TEST_SUBJECT@, tagged_ping(tag), NATS_ORIGIN@);
}

/// The selftest's subject is one that crosses the bridge, whatever else does.
pub proof fn the_test_subject_crosses(extra: Seq<Seq<char>>)
    ensures
        forwards(TEST_SUBJECT@, allow_list(extra)),
{
    reveal_strlit("wm.fleet.selftest");
    reveal_strlit("wm.fleet.");
    assert("wm.fleet."@.is_prefix_of("wm.fleet.selftest"@));
    fleet_topics_always_cross(TEST_SUBJECT@, extra);
}

/// The event over NATS alone says that it is a test.
pub proof fn a_ping_in_full()
    ensures
        ping() == Json::Object(
            map![
                "selftest"@ => Json::Bool(true),
                "msg"@ => Json::Text("wm-busbridge selftest ping"@)
            ],
        ),
{
    reveal_strlit("selftest");
    reveal_strlit("msg");
    assert("selftest"@.len() == 8);
    assert("msg"@.len() == 3);
    let p = seq![
        ("selftest"@, Json::Bool(true)),
        ("msg"@, Json::Text("wm-busbridge selftest ping"@)),
    ];
    assert(keys_differ(p));
    objects_hold_their_pairs(p);
    assert(p[0].0 == "selftest"@ && p[1].0 == "msg"@);
    let m = map![
        "selftest"@ => Json::Bool(true),
        "msg"@ => Json::Text("wm-busbridge selftest ping"@)
    ];
    assert(object(p)->Object_0 =~= m);
}

/// The event through the bridge has its tag besides.
pub proof fn a_tagged_ping_in_full(tag: Seq<char>)
    ensures
        tagged_ping(tag) == Json::Object(
            map![
                "selftest"@ => Json::Bool(true),
                "msg"@ => Json::Text("wm-busbridge selftest ping"@),
                "tag"@ => Json::Text(tag)
            ],
        ),
{
    reveal_strlit("selftest");
    reveal_strlit("msg");
    reveal_strlit("tag");
    assert("selftest"@.len() == 8);
    assert("msg"@.len() == 3);
    assert("tag"@.len() == 3);
    assert("msg"@[0] != "tag"@[0]);
    let p = seq![
        ("selftest"@, Json::Bool(true)),
        ("msg"@, Json::Text("wm-busbridge selftest ping"@)),
        ("tag"@, Json::Text(tag)),
    ];
    assert(keys_differ(p));
    objects_hold_their_pairs(p);
    assert(p[0].0 == "selftest"@ && p[1].0 == "msg"@ && p[2].0 == "tag"@);
    let m = map![
        "selftest"@ => Json::Bool(true),
        "msg"@ => Json::Text("wm-busbridge selftest ping"@),
        "tag"@ => Json::Text(tag)
    ];
    assert(object(p)->Object_0 =~= m);
}

/// Data is told by its tag alone, and the round by what has the tag: on NATS as it is, on
/// the local bus wrapped as coming from there, on the test subject.
pub proof fn the_tag_tells_the_event(topic: Seq<char>, data: Json, tag: Seq<char>)
    ensures
        carries(data, tag) <==> data is Object && data->Object_0.contains_key("tag"@)
            && data->Object_0["tag"@] == Json::Text(tag),
        came_back(topic, data, tag) <==> {
            &&& topic == "wm.fleet.selftest"@
            &&& data is Object
            &&& data->Object_0.contains_key("_wm_bridged"@)
            &&& data->Object_0["_wm_bridged"@] == Json::Bool(true)
            &&& data->Object_0.contains_key("data"@)
            &&& data->Object_0["data"@] is Object
            &&& data->Object_0["data"@]->Object_0.contains_key("tag"@)
            &&& data->Object_0["data"@]->Object_0["tag"@] == Json::Text(tag)
        },
{
    only_the_marker_marks(data);
}

/// A round is complete if and only if the event was seen on NATS exactly once and came
/// back at least once.
pub proof fn complete_means_once_across_and_back(r: Round)
    ensures
        r.is_complete() <==> r.crossed == 1 && r.returned >= 1,
{
}

} // verus!
