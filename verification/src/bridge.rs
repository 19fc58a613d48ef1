//! The bridge between agorabus and NATS: the frames that it exchanges with the
//! local bus, and what becomes of an event in either direction.

use crate::forward::{
    a_topic_crosses_by_its_prefixes, a_wrapped_event_in_full, every_allowed_prefix_counts, forwards,
    loop_guard_holds, marked, only_the_marker_marks, should_forward, wrapped,
    wrapping_keeps_the_event, BridgedPayload,
};
use crate::json::{
    bytes_of_json, from_number, from_pairs, from_text, get, json, json_of_bytes, json_of_text,
    keys_differ, member, null, number, object, objects_hold_their_pairs, one_line, pairs_in,
    parse_bytes, parse_text, plain, text_in, write_bytes, EncodeError, Json, LINE_FEED,
    NESTING_LIMIT,
};
use crate::text::{decimal, texts, trim, trimmed};
use vstd::prelude::*;

verus! {

/// The topics on the local bus that the bridge listens to.
pub const BUS_PREFIX: &'static str = "wm.";

/// The subjects on NATS that the bridge listens to.
pub const NATS_SUBJECTS: &'static str = "wm.>";

/// The session that publishes on the local bus.
pub const PUBLISHER_SESSION: &'static str = "wm-busbridge-pub";

/// What that session announces itself for.
pub const PUBLISHER_INTENT: &'static str = "fleet bridge publisher";

/// The session that listens on the local bus.
pub const SUBSCRIBER_SESSION: &'static str = "wm-busbridge-sub";

/// What that session announces itself for.
pub const SUBSCRIBER_INTENT: &'static str = "fleet bridge subscriber";

/// The publisher named on events that came from NATS.
pub const NATS_ORIGIN: &'static str = "nats";

// ─── frames ─────────────────────────────────────────────────────────────────
/// Whether bytes are a value as one line of JSON, with its line feed.
pub open spec fn framed(bytes: Seq<u8>, j: Json) -> bool {
    one_line(bytes_of_json(j)) && bytes == bytes_of_json(j).push(LINE_FEED)
}

/// The request that names a session.
pub open spec fn announcement(session: Seq<char>, pid: u32, intent: Seq<char>) -> Json {
    object(
        seq![
            ("op"@, Json::Text("announce"@)),
            ("session_id"@, Json::Text(session)),
            ("pid"@, number(pid as nat)),
            ("cwd"@, Json::Text("/"@)),
            ("intent"@, Json::Text(intent)),
        ],
    )
}

/// The request for all topics with a prefix.
pub open spec fn subscription(prefix: Seq<char>) -> Json {
    object(seq![("op"@, Json::Text("subscribe"@)), ("prefix"@, Json::Text(prefix))])
}

/// The request to publish an event.
pub open spec fn publication(topic: Seq<char>, data: Json) -> Json {
    object(
        seq![
            ("op"@, Json::Text("publish"@)),
            ("topic"@, Json::Text(topic)),
            ("data"@, data),
        ],
    )
}

/// The request to publish an event in the name of a session.
pub open spec fn signed_publication(topic: Seq<char>, data: Json, from: Seq<char>) -> Json {
    object(
        seq![
            ("op"@, Json::Text("publish"@)),
            ("topic"@, Json::Text(topic)),
            ("data"@, data),
            ("from"@, Json::Text(from)),
        ],
    )
}

fn to_frame(v: &serde_json::Value, what: &str) -> (r: Result<Vec<u8>, EncodeError>)
    ensures
        r is Ok,
        framed(r->Ok_0@, json(*v)),
{
    match write_bytes(v) {
        Ok(mut b) => {
            b.push(LINE_FEED);
            Ok(b)
        },
        Err(e) => Err(EncodeError::new(what, &e)),
    }
}

/// The frame that names a session on the local bus.
pub fn announce_frame(session: &str, pid: u32, intent: &str) -> (r: Result<Vec<u8>, EncodeError>)
    ensures
        r is Ok,
        framed(r->Ok_0@, announcement(session@, pid, intent@)),
{
    let mut pairs: Vec<(String, serde_json::Value)> = Vec::new();
    pairs.push(("op".to_string(), from_text("announce".to_string())));
    pairs.push(("session_id".to_string(), from_text(session.to_string())));
    pairs.push(("pid".to_string(), from_number(pid as u64)));
    pairs.push(("cwd".to_string(), from_text("/".to_string())));
    pairs.push(("intent".to_string(), from_text(intent.to_string())));
    assert(pairs_in(pairs@) =~= seq![
        ("op"@, Json::Text("announce"@)),
        ("session_id"@, Json::Text(session@)),
        ("pid"@, number(pid as nat)),
        ("cwd"@, Json::Text("/"@)),
        ("intent"@, Json::Text(intent@)),
    ]);
    proof {
        reveal_strlit("op");
        reveal_strlit("session_id");
        reveal_strlit("pid");
        reveal_strlit("cwd");
        reveal_strlit("intent");
        assert("op"@.len() == 2);
        assert("session_id"@.len() == 10);
        assert("pid"@.len() == 3);
        assert("cwd"@.len() == 3);
        assert("intent"@.len() == 6);
        assert("pid"@[0] != "cwd"@[0]);
        assert(keys_differ(pairs_in(pairs@)));
    }
    to_frame(&from_pairs(pairs), "serializing announce")
}

/// The frame that asks the local bus for all topics with a prefix.
pub fn subscribe_frame(prefix: &str) -> (r: Result<Vec<u8>, EncodeError>)
    ensures
        r is Ok,
        framed(r->Ok_0@, subscription(prefix@)),
{
    let mut pairs: Vec<(String, serde_json::Value)> = Vec::new();
    pairs.push(("op".to_string(), from_text("subscribe".to_string())));
    pairs.push(("prefix".to_string(), from_text(prefix.to_string())));
    assert(pairs_in(pairs@) =~= seq![
        ("op"@, Json::Text("subscribe"@)),
        ("prefix"@, Json::Text(prefix@)),
    ]);
    proof {
        reveal_strlit("op");
        reveal_strlit("prefix");
        assert("op"@.len() == 2);
        assert("prefix"@.len() == 6);
        assert(keys_differ(pairs_in(pairs@)));
    }
    to_frame(&from_pairs(pairs), "serializing subscribe")
}

/// The frame that publishes an event on the local bus.
pub fn publish_frame(topic: &str, data: serde_json::Value) -> (r: Result<Vec<u8>, EncodeError>)
    ensures
        r is Ok,
        framed(r->Ok_0@, publication(topic@, json(data))),
{
    let ghost d = json(data);
    let mut pairs: Vec<(String, serde_json::Value)> = Vec::new();
    pairs.push(("op".to_string(), from_text("publish".to_string())));
    pairs.push(("topic".to_string(), from_text(topic.to_string())));
    pairs.push(("data".to_string(), data));
    assert(pairs_in(pairs@) =~= seq![
        ("op"@, Json::Text("publish"@)),
        ("topic"@, Json::Text(topic@)),
        ("data"@, d),
    ]);
    proof {
        reveal_strlit("op");
        reveal_strlit("topic");
        reveal_strlit("data");
        assert("op"@.len() == 2);
        assert("topic"@.len() == 5);
        assert("data"@.len() == 4);
        assert(keys_differ(pairs_in(pairs@)));
    }
    to_frame(&from_pairs(pairs), "serializing publish")
}

/// The frame that publishes an event on the local bus in the name of a session.
pub fn signed_publish_frame(topic: &str, data: serde_json::Value, from: &str) -> (r: Result<
    Vec<u8>,
    EncodeError,
>)
    ensures
        r is Ok,
        framed(r->Ok_0@, signed_publication(topic@, json(data), from@)),
{
    let ghost d = json(data);
    let mut pairs: Vec<(String, serde_json::Value)> = Vec::new();
    pairs.push(("op".to_string(), from_text("publish".to_string())));
    pairs.push(("topic".to_string(), from_text(topic.to_string())));
    pairs.push(("data".to_string(), data));
    pairs.push(("from".to_string(), from_text(from.to_string())));
    assert(pairs_in(pairs@) =~= seq![
        ("op"@, Json::Text("publish"@)),
        ("topic"@, Json::Text(topic@)),
        ("data"@, d),
        ("from"@, Json::Text(from@)),
    ]);
    proof {
        reveal_strlit("op");
        reveal_strlit("topic");
        reveal_strlit("data");
        reveal_strlit("from");
        assert("op"@.len() == 2);
        assert("topic"@.len() == 5);
        assert("data"@.len() == 4);
        assert("from"@.len() == 4);
        assert("data"@[0] != "from"@[0]);
        assert(keys_differ(pairs_in(pairs@)));
    }
    to_frame(&from_pairs(pairs), "serializing publish")
}

// ─── what the local bus sends ───────────────────────────────────────────────
/// An event on the local bus.
#[derive(Debug)]
pub struct BusEvent {
    /// Its topic.
    pub topic: String,
    /// Its data.
    pub data: serde_json::Value,
    /// The session that published it.
    pub from: String,
}

/// A line from the local bus.
#[derive(Debug)]
pub enum BusLine {
    /// Nothing but white space.
    Blank,
    /// Not JSON.
    Malformed,
    /// JSON that is no event, such as an acknowledgement.
    Other,
    /// An event.
    Event(BusEvent),
}

/// What an event on the local bus says: its topic, its data and its publisher.
pub type Said = (Seq<char>, Json, Seq<char>);

impl BusEvent {
    pub open spec fn view(&self) -> Said {
        (self.topic@, json(self.data), self.from@)
    }
}

/// The text under `key`, or `default` if there is none.
pub open spec fn text_under(j: Json, key: Seq<char>, default: Seq<char>) -> Seq<char> {
    match member(j, key) {
        Some(m) => match text_in(m) {
            Some(s) => s,
            None => default,
        },
        None => default,
    }
}

/// The event that a value from the local bus is: it has a topic and data.
pub open spec fn said(j: Json) -> Option<Said> {
    if member(j, "topic"@) is Some && member(j, "data"@) is Some {
        Some(
            (
                text_under(j, "topic"@, ""@),
                member(j, "data"@)->0,
                text_under(j, "from"@, "unknown"@),
            ),
        )
    } else {
        None
    }
}

fn text_at(v: &serde_json::Value, key: &str, default: &str) -> (s: String)
    ensures
        s@ == text_under(json(*v), key@, default@),
{
    match get(v, key) {
        Some(m) => match m.as_str() {
            Some(s) => s.to_string(),
            None => default.to_string(),
        },
        None => default.to_string(),
    }
}

/// The event that a value from the local bus is, if it is one.
pub fn event_in(v: &serde_json::Value) -> (r: Option<BusEvent>)
    ensures
        match said(json(*v)) {
            Some(e) => r is Some && r->0@ == e,
            None => r is None,
        },
        r is Some <==> json(*v) is Object && json(*v)->Object_0.contains_key("topic"@) && json(
            *v,
        )->Object_0.contains_key("data"@),
        r is Some ==> json(r->0.data) == json(*v)->Object_0["data"@],
        r is Some && json(*v)->Object_0["topic"@] is Text ==> r->0.topic@ == json(
            *v,
        )->Object_0["topic"@]->Text_0,
{
    if get(v, "topic").is_none() {
        return None;
    }
    match get(v, "data") {
        Some(data) => Some(
            BusEvent {
                topic: text_at(v, "topic", ""),
                data: data.clone(),
                from: text_at(v, "from", "unknown"),
            },
        ),
        None => None,
    }
}

/// Reads a line from the local bus.
pub fn read_line(line: &str) -> (r: BusLine)
    ensures
        r is Blank <==> trimmed(line@).len() == 0,
        r is Malformed <==> trimmed(line@).len() > 0 && json_of_text(line@) is None,
        r is Event <==> trimmed(line@).len() > 0 && json_of_text(line@) is Some && said(
            json_of_text(line@)->0,
        ) is Some,
        r is Event ==> r->Event_0@ == said(json_of_text(line@)->0)->0,
{
    if trim(line).as_str().is_empty() {
        return BusLine::Blank;
    }
    match parse_text(line) {
        Ok(v) => match event_in(&v) {
            Some(e) => BusLine::Event(e),
            None => BusLine::Other,
        },
        Err(_) => BusLine::Malformed,
    }
}

// ─── agorabus to NATS ───────────────────────────────────────────────────────
/// What becomes of an event on its way to NATS.
#[derive(Debug)]
pub enum Outbound {
    /// Dropped: it came from NATS.
    Bridged,
    /// Dropped: its topic does not cross.
    NotAllowed,
    /// Dropped: its data could not be serialized.
    Unencodable(EncodeError),
    /// To be published with this payload.
    Forward(Vec<u8>),
}

/// What becomes of an event on its way to NATS, in mathematical terms.
pub enum Passage {
    Bridged,
    NotAllowed,
    Unencodable(Seq<char>, Seq<char>),
    Forward(Seq<u8>),
}

impl Outbound {
    pub open spec fn view(&self) -> Passage {
        match self {
            Outbound::Bridged => Passage::Bridged,
            Outbound::NotAllowed => Passage::NotAllowed,
            Outbound::Unencodable(e) => Passage::Unencodable(e.what@, e.cause@),
            Outbound::Forward(b) => Passage::Forward(b@),
        }
    }
}

/// What becomes of an event with this topic and data on its way to NATS.
pub open spec fn passage(topic: Seq<char>, data: Json, allow: Seq<Seq<char>>) -> Passage {
    if marked(data) {
        Passage::Bridged
    } else if !forwards(topic, allow) {
        Passage::NotAllowed
    } else {
        Passage::Forward(bytes_of_json(data))
    }
}

/// Decides what becomes of an event from the local bus on its way to NATS: what
/// came from there does not go back, what is not allowed does not cross, and the
/// rest is forwarded as raw JSON bytes.
///
/// All that is allowed is forwarded, and whoever reads the bytes on the other side
/// finds the same data there: all of it, unless it holds a number with a fraction or
/// is nested too deep to be read.
pub fn outbound(topic: &str, data: &serde_json::Value, allow: &[String]) -> (r: Outbound)
    ensures
        r@ == passage(topic@, json(*data), texts(allow@)),
        !(r is Unencodable),
        r is Bridged <==> json(*data) is Object && json(*data)->Object_0.contains_key(
            "_wm_bridged"@,
        ) && json(*data)->Object_0["_wm_bridged"@] == Json::Bool(true),
        r is Forward <==> !(r is Bridged) && forwards(topic@, texts(allow@)),
        r is Forward ==> r->Forward_0@ == bytes_of_json(json(*data)),
        r is Forward && plain(json(*data), NESTING_LIMIT as nat) ==> data_or_null(r->Forward_0@)
            == json(*data),
{
    if BridgedPayload::is_bridged(data) {
        return Outbound::Bridged;
    }
    if !should_forward(topic, allow) {
        return Outbound::NotAllowed;
    }
    match write_bytes(data) {
        Ok(b) => Outbound::Forward(b),
        Err(e) => Outbound::Unencodable(EncodeError::new("serializing payload for NATS", &e)),
    }
}

// ─── NATS to agorabus ───────────────────────────────────────────────────────
/// What is injected into the local bus for data that arrived from NATS.
pub open spec fn injected(subject: Seq<char>, data: Json) -> Json {
    wrapped(true, subject, data, NATS_ORIGIN@)
}

/// The data that a payload from NATS spells: `null` where it is not JSON.
pub open spec fn data_or_null(payload: Seq<u8>) -> Json {
    match json_of_bytes(payload) {
        Some(j) => j,
        None => Json::Null,
    }
}

/// Wraps data that arrived from NATS for the local bus.
pub fn inject(subject: &str, data: serde_json::Value) -> (r: serde_json::Value)
    ensures
        json(r) == injected(subject@, json(data)),
{
    BridgedPayload::new(subject.to_string(), data, NATS_ORIGIN.to_string()).to_value()
}

/// Decides what is injected into the local bus for a message from NATS: nothing if
/// its subject is not allowed, and otherwise its data, wrapped with the marker that
/// keeps it from going back.
pub fn inbound(subject: &str, payload: &[u8], allow: &[String]) -> (r: Option<serde_json::Value>)
    ensures
        r is Some <==> forwards(subject@, texts(allow@)),
        r is Some ==> json(r->0) == injected(subject@, data_or_null(payload@)),
{
    if !should_forward(subject, allow) {
        return None;
    }
    let data = match parse_bytes(payload) {
        Ok(v) => v,
        Err(_) => null(),
    };
    Some(inject(subject, data))
}

// ─── laws ───────────────────────────────────────────────────────────────────
/// What came from NATS never goes back: an event that was injected for a message
/// from NATS is dropped on its way to NATS, under every topic and allowlist.
pub proof fn what_came_from_nats_never_goes_back(
    subject: Seq<char>,
    payload: Seq<u8>,
    topic: Seq<char>,
    allow: Seq<Seq<char>>,
)
    ensures
        passage(topic, injected(subject, data_or_null(payload)), allow) == Passage::Bridged,
{
    loop_guard_holds(subject, data_or_null(payload), NATS_ORIGIN@);
}

/// What is injected for a message from NATS carries the message: its subject, its
/// data, and that it came from there.
pub proof fn injecting_keeps_the_message(subject: Seq<char>, payload: Seq<u8>)
    ensures
        member(injected(subject, data_or_null(payload)), "topic"@) == Some(Json::Text(subject)),
        member(injected(subject, data_or_null(payload)), "data"@) == Some(data_or_null(payload)),
        member(injected(subject, data_or_null(payload)), "from"@) == Some(
            Json::Text(NATS_ORIGIN@),
        ),
{
    wrapping_keeps_the_event(true, subject, data_or_null(payload), NATS_ORIGIN@);
}

/// An event crosses to NATS if and only if the allowlist lets its topic through and it
/// does not carry the marker; and it crosses as its data is written.
pub proof fn allowed_unmarked_events_cross(topic: Seq<char>, data: Json, allow: Seq<Seq<char>>)
    ensures
        passage(topic, data, allow) is Forward <==> forwards(topic, allow) && !marked(data),
        passage(topic, data, allow) is Forward ==> passage(topic, data, allow)->Forward_0
            == bytes_of_json(data),
{
}

/// The request that names a session tells the session, the process and its intent.
pub proof fn an_announcement_in_full(session: Seq<char>, pid: u32, intent: Seq<char>)
    ensures
        announcement(session, pid, intent) == Json::Object(
            map![
                "op"@ => Json::Text("announce"@),
                "session_id"@ => Json::Text(session),
                "pid"@ => Json::Number(decimal(pid as nat)),
                "cwd"@ => Json::Text("/"@),
                "intent"@ => Json::Text(intent)
            ],
        ),
{
    reveal_strlit("op");
    reveal_strlit("session_id");
    reveal_strlit("pid");
    reveal_strlit("cwd");
    reveal_strlit("intent");
    assert("op"@.len() == 2);
    assert("session_id"@.len() == 10);
    assert("pid"@.len() == 3);
    assert("cwd"@.len() == 3);
    assert("intent"@.len() == 6);
    assert("pid"@[0] != "cwd"@[0]);
    let p = seq![
        ("op"@, Json::Text("announce"@)),
        ("session_id"@, Json::Text(session)),
        ("pid"@, Json::Number(decimal(pid as nat))),
        ("cwd"@, Json::Text("/"@)),
        ("intent"@, Json::Text(intent)),
    ];
    assert(keys_differ(p));
    objects_hold_their_pairs(p);
    assert(p[0].0 == "op"@ && p[1].0 == "session_id"@ && p[2].0 == "pid"@);
    assert(p[3].0 == "cwd"@ && p[4].0 == "intent"@);
    let m = map![
        "op"@ => Json::Text("announce"@),
        "session_id"@ => Json::Text(session),
        "pid"@ => Json::Number(decimal(pid as nat)),
        "cwd"@ => Json::Text("/"@),
        "intent"@ => Json::Text(intent)
    ];
    assert(object(p)->Object_0 =~= m);
}

/// The request for topics tells their prefix.
pub proof fn a_subscription_in_full(prefix: Seq<char>)
    ensures
        subscription(prefix) == Json::Object(
            map![
                "op"@ => Json::Text("subscribe"@),
                "prefix"@ => Json::Text(prefix)
            ],
        ),
{
    reveal_strlit("op");
    reveal_strlit("prefix");
    assert("op"@.len() == 2);
    assert("prefix"@.len() == 6);
    let p = seq![
        ("op"@, Json::Text("subscribe"@)),
        ("prefix"@, Json::Text(prefix)),
    ];
    assert(keys_differ(p));
    objects_hold_their_pairs(p);
    assert(p[0].0 == "op"@ && p[1].0 == "prefix"@);
    let m = map![
        "op"@ => Json::Text("subscribe"@),
        "prefix"@ => Json::Text(prefix)
    ];
    assert(object(p)->Object_0 =~= m);
}

/// The request to publish an event tells its topic and its data.
pub proof fn a_publication_in_full(topic: Seq<char>, data: Json)
    ensures
        publication(topic, data) == Json::Object(
            map![
                "op"@ => Json::Text("publish"@),
                "topic"@ => Json::Text(topic),
                "data"@ => data
            ],
        ),
{
    reveal_strlit("op");
    reveal_strlit("topic");
    reveal_strlit("data");
    assert("op"@.len() == 2);
    assert("topic"@.len() == 5);
    assert("data"@.len() == 4);
    let p = seq![
        ("op"@, Json::Text("publish"@)),
        ("topic"@, Json::Text(topic)),
        ("data"@, data),
    ];
    assert(keys_differ(p));
    objects_hold_their_pairs(p);
    assert(p[0].0 == "op"@ && p[1].0 == "topic"@ && p[2].0 == "data"@);
    let m = map![
        "op"@ => Json::Text("publish"@),
        "topic"@ => Json::Text(topic),
        "data"@ => data
    ];
    assert(object(p)->Object_0 =~= m);
}

/// The request to publish an event in the name of a session tells the session too.
pub proof fn a_signed_publication_in_full(topic: Seq<char>, data: Json, from: Seq<char>)
    ensures
        signed_publication(topic, data, from) == Json::Object(
            map![
                "op"@ => Json::Text("publish"@),
                "topic"@ => Json::Text(topic),
                "data"@ => data,
                "from"@ => Json::Text(from)
            ],
        ),
{
    reveal_strlit("op");
    reveal_strlit("topic");
    reveal_strlit("data");
    reveal_strlit("from");
    assert("op"@.len() == 2);
    assert("topic"@.len() == 5);
    assert("data"@.len() == 4);
    assert("from"@.len() == 4);
    assert("data"@[0] != "from"@[0]);
    let p = seq![
        ("op"@, Json::Text("publish"@)),
        ("topic"@, Json::Text(topic)),
        ("data"@, data),
        ("from"@, Json::Text(from)),
    ];
    assert(keys_differ(p));
    objects_hold_their_pairs(p);
    assert(p[0].0 == "op"@ && p[1].0 == "topic"@ && p[2].0 == "data"@ && p[3].0 == "from"@);
    let m = map![
        "op"@ => Json::Text("publish"@),
        "topic"@ => Json::Text(topic),
        "data"@ => data,
        "from"@ => Json::Text(from)
    ];
    assert(object(p)->Object_0 =~= m);
}

/// A frame is the bytes of its value and one line feed, which is the only one in it.
pub proof fn a_frame_is_one_line(bytes: Seq<u8>, j: Json)
    requires
        framed(bytes, j),
    ensures
        bytes == bytes_of_json(j) + seq![10u8],
        forall|i: int| 0 <= i < bytes.len() - 1 ==> #[trigger] bytes[i] != 10,
{
    assert(bytes =~= bytes_of_json(j) + seq![10u8]);
    assert forall|i: int| 0 <= i < bytes.len() - 1 implies #[trigger] bytes[i] != 10 by {
        assert(bytes[i] == bytes_of_json(j)[i]);
    }
}

/// An event says its topic, its data and its publisher.
pub proof fn an_event_says_all_it_holds(e: BusEvent)
    ensures
        e@.0 == e.topic@,
        e@.1 == json(e.data),
        e@.2 == e.from@,
{
}

/// An object is an event if and only if it has a topic and data; where the topic or the
/// publisher is no string, or is missing, the topic is empty and the publisher unknown.
pub proof fn events_are_told_by_topic_and_data(m: Map<Seq<char>, Json>)
    ensures
        said(Json::Object(m)) is Some <==> m.contains_key("topic"@) && m.contains_key("data"@),
        said(Json::Object(m)) is Some ==> {
            let (topic, data, from) = said(Json::Object(m))->0;
            &&& data == m["data"@]
            &&& m["topic"@] is Text ==> topic == m["topic"@]->Text_0
            &&& !(m["topic"@] is Text) ==> topic == ""@
            &&& m.contains_key("from"@) && m["from"@] is Text ==> from == m["from"@]->Text_0
            &&& !(m.contains_key("from"@) && m["from"@] is Text) ==> from == "unknown"@
        },
{
}

/// What is no object is no event.
pub proof fn only_objects_are_events(j: Json)
    requires
        !(j is Object),
    ensures
        said(j) is None,
{
}

/// A decision on the way to NATS says all that it holds.
pub proof fn a_decision_says_all_it_holds(o: Outbound)
    ensures
        o is Bridged <==> o@ is Bridged,
        o is NotAllowed <==> o@ is NotAllowed,
        o is Forward <==> o@ is Forward,
        o is Forward ==> o@->Forward_0 == o->Forward_0@,
        o is Unencodable ==> o@ == Passage::Unencodable(
            o->Unencodable_0.what@,
            o->Unencodable_0.cause@,
        ),
{
}

/// An event goes to NATS, as its data is written, if and only if it has no member
/// `_wm_bridged` that is `true`, begins with an allowed prefix, and begins neither with
/// `wm.audio.speech.chunk` nor with `wm.local.`. What has that member came from NATS,
/// and what is left is not allowed.
pub proof fn what_becomes_of_an_event(topic: Seq<char>, data: Json, allow: Seq<Seq<char>>)
    ensures
        ({
            let from_nats = data is Object && data->Object_0.contains_key("_wm_bridged"@)
                && data->Object_0["_wm_bridged"@] == Json::Bool(true);
            let allowed = !"wm.audio.speech.chunk"@.is_prefix_of(topic)
                && !"wm.local."@.is_prefix_of(topic) && exists|k: int|
                0 <= k < allow.len() && (#[trigger] allow[k]).is_prefix_of(topic);
            &&& from_nats ==> passage(topic, data, allow) == Passage::Bridged
            &&& !from_nats && !allowed ==> passage(topic, data, allow) == Passage::NotAllowed
            &&& !from_nats && allowed ==> passage(topic, data, allow) == Passage::Forward(
                bytes_of_json(data),
            )
        }),
{
    only_the_marker_marks(data);
    a_topic_crosses_by_its_prefixes(topic, allow);
}

/// A local event on a topic under any allowed prefix is forwarded, whatever members its
/// data has besides the marker.
pub proof fn local_events_are_forwarded(
    allow: Seq<Seq<char>>,
    k: int,
    suffix: Seq<char>,
    members: Map<Seq<char>, Json>,
)
    requires
        0 <= k < allow.len(),
        !"wm.audio.speech.chunk"@.is_prefix_of(allow[k] + suffix),
        !"wm.local."@.is_prefix_of(allow[k] + suffix),
        !members.contains_key("_wm_bridged"@) || members["_wm_bridged"@] != Json::Bool(true),
    ensures
        passage(allow[k] + suffix, Json::Object(members), allow) == Passage::Forward(
            bytes_of_json(Json::Object(members)),
        ),
{
    every_allowed_prefix_counts(allow, k, suffix);
    only_the_marker_marks(Json::Object(members));
}

/// What arrives from NATS is injected as an object with the marker, the subject, the data
/// and where it came from; a payload that is not JSON counts as `null`.
pub proof fn what_is_injected_in_full(subject: Seq<char>, data: Json, payload: Seq<u8>)
    ensures
        injected(subject, data) == Json::Object(
            map![
                "_wm_bridged"@ => Json::Bool(true),
                "topic"@ => Json::Text(subject),
                "data"@ => data,
                "from"@ => Json::Text("nats"@)
            ],
        ),
        json_of_bytes(payload) is Some ==> data_or_null(payload) == json_of_bytes(payload)->0,
        json_of_bytes(payload) is None ==> data_or_null(payload) == Json::Null,
{
    a_wrapped_event_in_full(true, subject, data, "nats"@);
}

} // verus!
