//! Topic forwarding policy: which agorabus topics cross to NATS.
//!
//! The loop guard stands here too: a message that arrived from NATS carries a
//! `_wm_bridged` marker and is not forwarded back to NATS.

use crate::config::{allow_list, FLEET_PREFIX};
use crate::json::{
    bool_in, filled, from_bool, from_pairs, from_text, get, json, keys_differ, member, object,
    objects_hold_their_pairs, pairs_in, Json,
};
use crate::text::{starts_with, texts, texts_are_taken_one_by_one};
use vstd::prelude::*;

verus! {

/// The key of the marker on messages that came from NATS.
///
/// The bridge wraps what it injects into the local bus in an object that has
/// this member set to `true`; on the way to NATS such an event is dropped.
pub const BRIDGE_MARKER_KEY: &'static str = "_wm_bridged";

/// Topic prefixes that never cross to NATS, whatever the allowlist says:
/// high-volume or privacy-sensitive local chatter.
pub const BLOCKED_PREFIXES: [&'static str; 2] = ["wm.audio.speech.chunk", "wm.local."];

/// An event from NATS, wrapped with the loop-guard marker.
#[derive(Debug, Clone)]
pub struct BridgedPayload {
    /// Always `true`: this came from the NATS side. On the wire, `_wm_bridged`.
    pub bridged: bool,
    /// The original topic from the source side.
    pub topic: String,
    /// The original data payload.
    pub data: serde_json::Value,
    /// The `session_id` of the original publisher.
    pub from: String,
}

/// Whether a topic is one of those that never cross.
pub open spec fn blocked(topic: Seq<char>) -> bool {
    exists|i: int|
        0 <= i < BLOCKED_PREFIXES@.len() && (#[trigger] BLOCKED_PREFIXES@[i])@.is_prefix_of(topic)
}

/// Whether a topic begins with one of the prefixes.
pub open spec fn begins_with_any(topic: Seq<char>, prefixes: Seq<Seq<char>>) -> bool {
    exists|i: int| 0 <= i < prefixes.len() && (#[trigger] prefixes[i]).is_prefix_of(topic)
}

/// Whether a topic crosses to NATS under an allowlist.
pub open spec fn forwards(topic: Seq<char>, allow: Seq<Seq<char>>) -> bool {
    !blocked(topic) && begins_with_any(topic, allow)
}

/// Whether a value carries the loop-guard marker.
pub open spec fn marked(j: Json) -> bool {
    match member(j, BRIDGE_MARKER_KEY@) {
        Some(m) => bool_in(m) == Some(true),
        None => false,
    }
}

/// The wrapped form of an event, as it goes over the wire.
pub open spec fn wrapped(bridged: bool, topic: Seq<char>, data: Json, from: Seq<char>) -> Json {
    object(
        seq![
            (BRIDGE_MARKER_KEY@, Json::Bool(bridged)),
            ("topic"@, Json::Text(topic)),
            ("data"@, data),
            ("from"@, Json::Text(from)),
        ],
    )
}

impl BridgedPayload {
    /// Wraps an event.
    pub fn new(topic: String, data: serde_json::Value, from: String) -> (r: Self)
        ensures
            r.bridged,
            r.topic@ == topic@,
            json(r.data) == json(data),
            r.from@ == from@,
    {
        BridgedPayload { bridged: true, topic, data, from }
    }

    /// Whether `value` has the bridge marker set to `true`.
    ///
    /// Used on the receiving side of the local bus to drop what came from NATS.
    pub fn is_bridged(value: &serde_json::Value) -> (r: bool)
        ensures
            r == marked(json(*value)),
            r <==> json(*value) is Object && json(*value)->Object_0.contains_key("_wm_bridged"@)
                && json(*value)->Object_0["_wm_bridged"@] == Json::Bool(true),
    {
        match get(value, BRIDGE_MARKER_KEY) {
            Some(m) => match m.as_bool() {
                Some(b) => b,
                None => false,
            },
            None => false,
        }
    }

    /// The JSON value that goes over the wire.
    pub fn to_value(&self) -> (r: serde_json::Value)
        ensures
            json(r) == wrapped(self.bridged, self.topic@, json(self.data), self.from@),
    {
        let mut pairs: Vec<(String, serde_json::Value)> = Vec::new();
        pairs.push((BRIDGE_MARKER_KEY.to_string(), from_bool(self.bridged)));
        pairs.push(("topic".to_string(), from_text(self.topic.clone())));
        pairs.push(("data".to_string(), self.data.clone()));
        pairs.push(("from".to_string(), from_text(self.from.clone())));
        assert(pairs_in(pairs@) =~= seq![
            (BRIDGE_MARKER_KEY@, Json::Bool(self.bridged)),
            ("topic"@, Json::Text(self.topic@)),
            ("data"@, json(self.data)),
            ("from"@, Json::Text(self.from@)),
        ]);
    proof {
        reveal_strlit("_wm_bridged");
        reveal_strlit("topic");
        reveal_strlit("data");
        reveal_strlit("from");
        assert("_wm_bridged"@.len() == 11);
        assert("topic"@.len() == 5);
        assert("data"@.len() == 4);
        assert("from"@.len() == 4);
        assert("data"@[0] != "from"@[0]);
        assert(keys_differ(pairs_in(pairs@)));
    }
        from_pairs(pairs)
    }
}

/// Whether `topic` crosses to NATS under the allowlist.
///
/// Rules, in order:
/// 1. A topic with one of the [`BLOCKED_PREFIXES`] never crosses.
/// 2. A topic with one of `allow_prefixes` does.
/// 3. Any other does not.
pub fn should_forward(topic: &str, allow_prefixes: &[String]) -> (r: bool)
    ensures
        r == forwards(topic@, texts(allow_prefixes@)),
        r <==> !"wm.audio.speech.chunk"@.is_prefix_of(topic@)
            && !"wm.local."@.is_prefix_of(topic@) && exists|k: int|
            0 <= k < allow_prefixes@.len() && (#[trigger] allow_prefixes@[k])@.is_prefix_of(topic@),
{
    proof {
        lemma_blocked(topic@);
        texts_are_taken_one_by_one(allow_prefixes@);
    }
    let mut i: usize = 0;
    while i < BLOCKED_PREFIXES.len()
        invariant
            i <= BLOCKED_PREFIXES@.len(),
            forall|k: int|
                0 <= k < i ==> !(#[trigger] BLOCKED_PREFIXES@[k])@.is_prefix_of(topic@),
        decreases BLOCKED_PREFIXES@.len() - i,
    {
        if starts_with(topic, BLOCKED_PREFIXES[i]) {
            return false;
        }
        i = i + 1;
    }
    let mut j: usize = 0;
    while j < allow_prefixes.len()
        invariant
            j <= allow_prefixes@.len(),
            !blocked(topic@),
            forall|k: int|
                0 <= k < j ==> !(#[trigger] texts(allow_prefixes@)[k]).is_prefix_of(topic@),
        decreases allow_prefixes@.len() - j,
    {
        assert(texts(allow_prefixes@)[j as int] == allow_prefixes@[j as int]@);
        if starts_with(topic, allow_prefixes[j].as_str()) {
            assert(allow_prefixes@[j as int]@.is_prefix_of(topic@));
            return true;
        }
        j = j + 1;
    }
    assert forall|k: int| 0 <= k < allow_prefixes@.len() implies !(
    #[trigger] allow_prefixes@[k])@.is_prefix_of(topic@) by {
        assert(texts(allow_prefixes@)[k] == allow_prefixes@[k]@);
    }
    false
}

// ─── laws ───────────────────────────────────────────────────────────────────
/// A wrapped event is recognised: whatever arrives from NATS and is injected
/// into the local bus carries the marker that keeps it from going back.
pub proof fn loop_guard_holds(topic: Seq<char>, data: Json, from: Seq<char>)
    ensures
        marked(wrapped(true, topic, data, from)),
{
    lemma_wrapped_members(true, topic, data, from);
}

/// Wrapping keeps the topic, the data and the publisher.
pub proof fn wrapping_keeps_the_event(bridged: bool, topic: Seq<char>, data: Json, from: Seq<char>)
    ensures
        member(wrapped(bridged, topic, data, from), "topic"@) == Some(Json::Text(topic)),
        member(wrapped(bridged, topic, data, from), "data"@) == Some(data),
        member(wrapped(bridged, topic, data, from), "from"@) == Some(Json::Text(from)),
        marked(wrapped(bridged, topic, data, from)) == bridged,
{
    lemma_wrapped_members(bridged, topic, data, from);
}

proof fn lemma_wrapped_members(bridged: bool, topic: Seq<char>, data: Json, from: Seq<char>)
    ensures
        member(wrapped(bridged, topic, data, from), BRIDGE_MARKER_KEY@) == Some(
            Json::Bool(bridged),
        ),
        member(wrapped(bridged, topic, data, from), "topic"@) == Some(Json::Text(topic)),
        member(wrapped(bridged, topic, data, from), "data"@) == Some(data),
        member(wrapped(bridged, topic, data, from), "from"@) == Some(Json::Text(from)),
{
    reveal_strlit("_wm_bridged");
    reveal_strlit("topic");
    reveal_strlit("data");
    reveal_strlit("from");
    let p = seq![
        (BRIDGE_MARKER_KEY@, Json::Bool(bridged)),
        ("topic"@, Json::Text(topic)),
        ("data"@, data),
        ("from"@, Json::Text(from)),
    ];
    assert("data"@[0] == 'd' && "from"@[0] == 'f');
    assert(BRIDGE_MARKER_KEY@.len() == 11 && "topic"@.len() == 5 && "data"@.len() == 4
        && "from"@.len() == 4);
    let p3 = p.drop_last();
    let p2 = p3.drop_last();
    let p1 = p2.drop_last();
    assert(p1.drop_last() =~= seq![]);
    assert(filled(p1.drop_last()) == Map::<Seq<char>, Json>::empty());
    assert(filled(p1) == Map::<Seq<char>, Json>::empty().insert(p[0].0, p[0].1));
    assert(filled(p2) == filled(p1).insert(p[1].0, p[1].1));
    assert(filled(p3) == filled(p2).insert(p[2].0, p[2].1));
    assert(filled(p) == filled(p3).insert(p[3].0, p[3].1));
}

/// A blocked topic stays off NATS under every allowlist.
pub proof fn blocked_topics_never_cross(topic: Seq<char>, allow: Seq<Seq<char>>)
    requires
        blocked(topic),
    ensures
        !forwards(topic, allow),
{
}

/// Anything under a blocked prefix is blocked.
pub proof fn blocked_prefix_blocks(i: int, suffix: Seq<char>)
    requires
        0 <= i < BLOCKED_PREFIXES@.len(),
    ensures
        blocked(BLOCKED_PREFIXES@[i]@ + suffix),
{
    let p = BLOCKED_PREFIXES@[i]@;
    assert(p =~= (p + suffix).subrange(0, p.len() as int));
}

/// More prefixes let no fewer topics cross.
pub proof fn longer_allowlist_forwards_more(
    topic: Seq<char>,
    allow: Seq<Seq<char>>,
    more: Seq<Seq<char>>,
)
    requires
        forwards(topic, allow),
    ensures
        forwards(topic, allow + more),
{
    let i = choose|i: int|
        0 <= i < allow.len() && (#[trigger] allow[i]).is_prefix_of(topic);
    assert((allow + more)[i] == allow[i]);
}

/// A fleet topic crosses whatever else is allowed.
pub proof fn fleet_topics_always_cross(topic: Seq<char>, extra: Seq<Seq<char>>)
    requires
        FLEET_PREFIX@.is_prefix_of(topic),
    ensures
        forwards(topic, allow_list(extra)),
{
    reveal_strlit("wm.fleet.");
    reveal_strlit("wm.audio.speech.chunk");
    reveal_strlit("wm.local.");
    assert(topic[3] == FLEET_PREFIX@[3]);
    assert(allow_list(extra)[0] == FLEET_PREFIX@);
    assert forall|i: int| 0 <= i < BLOCKED_PREFIXES@.len() implies !(
    #[trigger] BLOCKED_PREFIXES@[i])@.is_prefix_of(topic) by {
        assert(BLOCKED_PREFIXES@[i]@[3] != 'f');
    }
}

/// Without additional prefixes, fleet topics are the only ones that cross.
pub proof fn only_fleet_topics_cross_by_default(topic: Seq<char>)
    ensures
        forwards(topic, allow_list(seq![])) == FLEET_PREFIX@.is_prefix_of(topic),
{
    if FLEET_PREFIX@.is_prefix_of(topic) {
        fleet_topics_always_cross(topic, seq![]);
    }
}

proof fn lemma_blocked(topic: Seq<char>)
    ensures
        blocked(topic) <==> "wm.audio.speech.chunk"@.is_prefix_of(topic)
            || "wm.local."@.is_prefix_of(topic),
{
    assert(BLOCKED_PREFIXES@[0]@ == "wm.audio.speech.chunk"@);
    assert(BLOCKED_PREFIXES@[1]@ == "wm.local."@);
}

/// A topic crosses if and only if it begins with one of the allowed prefixes, whichever,
/// and neither with `wm.audio.speech.chunk` nor with `wm.local.`.
pub proof fn a_topic_crosses_by_its_prefixes(topic: Seq<char>, allow: Seq<Seq<char>>)
    ensures
        forwards(topic, allow) <==> !"wm.audio.speech.chunk"@.is_prefix_of(topic)
            && !"wm.local."@.is_prefix_of(topic) && exists|k: int|
            0 <= k < allow.len() && (#[trigger] allow[k]).is_prefix_of(topic),
{
    lemma_blocked(topic);
}

/// Every prefix of the allowlist lets all topics under it cross that are not blocked,
/// wherever in the list it stands.
pub proof fn every_allowed_prefix_counts(allow: Seq<Seq<char>>, k: int, suffix: Seq<char>)
    requires
        0 <= k < allow.len(),
        !"wm.audio.speech.chunk"@.is_prefix_of(allow[k] + suffix),
        !"wm.local."@.is_prefix_of(allow[k] + suffix),
    ensures
        forwards(allow[k] + suffix, allow),
{
    let topic = allow[k] + suffix;
    assert(allow[k] =~= topic.subrange(0, allow[k].len() as int));
    a_topic_crosses_by_its_prefixes(topic, allow);
}

/// A topic that begins with none of the allowed prefixes stays.
pub proof fn what_is_not_allowed_stays(topic: Seq<char>, allow: Seq<Seq<char>>)
    requires
        forall|k: int| 0 <= k < allow.len() ==> !(#[trigger] allow[k]).is_prefix_of(topic),
    ensures
        !forwards(topic, allow),
{
    a_topic_crosses_by_its_prefixes(topic, allow);
}

/// Nothing marks an event but a member `_wm_bridged` that is `true`: not what other
/// members it has, and not that the member is there with another value.
pub proof fn only_the_marker_marks(j: Json)
    ensures
        marked(j) <==> j is Object && j->Object_0.contains_key("_wm_bridged"@)
            && j->Object_0["_wm_bridged"@] == Json::Bool(true),
{
}

/// Members other than the marker make no difference to the loop guard.
pub proof fn other_members_do_not_mark(
    members: Map<Seq<char>, Json>,
    key: Seq<char>,
    value: Json,
)
    requires
        key != "_wm_bridged"@,
    ensures
        marked(Json::Object(members.insert(key, value))) == marked(Json::Object(members)),
        marked(Json::Object(members.remove(key))) == marked(Json::Object(members)),
{
}

/// A wrapped event has the marker, the topic, the data and the publisher, and nothing
/// else.
pub proof fn a_wrapped_event_in_full(
    bridged: bool,
    topic: Seq<char>,
    data: Json,
    from: Seq<char>,
)
    ensures
        wrapped(bridged, topic, data, from) == Json::Object(
            map![
                "_wm_bridged"@ => Json::Bool(bridged),
                "topic"@ => Json::Text(topic),
                "data"@ => data,
                "from"@ => Json::Text(from)
            ],
        ),
{
    lemma_wrapped_members(bridged, topic, data, from);
    let p = seq![
        (BRIDGE_MARKER_KEY@, Json::Bool(bridged)),
        ("topic"@, Json::Text(topic)),
        ("data"@, data),
        ("from"@, Json::Text(from)),
    ];
    lemma_wrapped_keys_differ(p);
    objects_hold_their_pairs(p);
    let m = map![
        "_wm_bridged"@ => Json::Bool(bridged),
        "topic"@ => Json::Text(topic),
        "data"@ => data,
        "from"@ => Json::Text(from)
    ];
    assert(p[0].0 == "_wm_bridged"@ && p[1].0 == "topic"@ && p[2].0 == "data"@ && p[3].0
        == "from"@);
    assert(object(p)->Object_0 =~= m);
}

proof fn lemma_wrapped_keys_differ(p: Seq<(Seq<char>, Json)>)
    requires
        p.len() == 4,
        p[0].0 == "_wm_bridged"@,
        p[1].0 == "topic"@,
        p[2].0 == "data"@,
        p[3].0 == "from"@,
    ensures
        keys_differ(p),
{
    reveal_strlit("_wm_bridged");
    reveal_strlit("topic");
    reveal_strlit("data");
    reveal_strlit("from");
    assert("_wm_bridged"@.len() == 11);
    assert("topic"@.len() == 5);
    assert("data"@.len() == 4);
    assert("from"@.len() == 4);
    assert("data"@[0] != "from"@[0]);
}

} // verus!
