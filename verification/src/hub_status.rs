//! What `hub-status` says of the hub: a line of text or JSON, and an exit code.

use crate::hub_watcher::{HubLivenessState, HubState};
use crate::json::{
    from_number, from_pairs, from_text, json, keys_differ, number, object, objects_hold_their_pairs,
    pairs_in, pretty_of_json, write_pretty, EncodeError, Json,
};
use crate::text::{decimal, to_decimal};
use vstd::prelude::*;

verus! {

/// The exit code when the hub is up.
pub const EXIT_UP: i32 = 0;

/// The exit code when the hub is down.
pub const EXIT_DOWN: i32 = 1;

/// What is said of the hub.
#[derive(Debug, Clone, Copy)]
pub struct HubSummary {
    /// Whether the hub is reachable.
    pub state: HubState,
    /// For how many seconds it has been so.
    pub seconds_in_state: u64,
    /// How many events wait for it.
    pub buffered: usize,
    /// How many events were dropped.
    pub dropped: u64,
}

impl HubSummary {
    /// The summary as one line.
    pub open spec fn line(self) -> Seq<char> {
        "hub: "@ + self.state.text() + " ("@ + decimal(self.seconds_in_state as nat)
            + "s in state, "@ + decimal(self.buffered as nat) + " events buffered, "@ + decimal(
            self.dropped as nat,
        ) + " dropped)"@
    }

    /// The summary as a JSON object.
    pub open spec fn document(self) -> Json {
        object(
            seq![
                ("state"@, Json::Text(self.state.text())),
                ("seconds_in_state"@, number(self.seconds_in_state as nat)),
                ("buffered"@, number(self.buffered as nat)),
                ("dropped"@, number(self.dropped as nat)),
            ],
        )
    }

    /// Sums up the state of the hub at `now_nanos`.
    pub fn of(liveness: &HubLivenessState, now_nanos: u64) -> (r: HubSummary)
        ensures
            r.state == liveness.state,
            r.seconds_in_state == liveness.seconds_at(now_nanos),
            r.buffered == liveness.waiting().len(),
            r.dropped == liveness.dropped,
    {
        HubSummary {
            state: liveness.state,
            seconds_in_state: liveness.seconds_in_state(now_nanos),
            buffered: liveness.buffered_count(),
            dropped: liveness.dropped,
        }
    }

    /// The summary as one line, without a line feed.
    pub fn to_line(&self) -> (s: String)
        ensures
            s@ == self.line(),
    {
        let mut s = "hub: ".to_string();
        s.append(self.state.to_string().as_str());
        s.append(" (");
        s.append(to_decimal(self.seconds_in_state).as_str());
        s.append("s in state, ");
        s.append(to_decimal(self.buffered as u64).as_str());
        s.append(" events buffered, ");
        s.append(to_decimal(self.dropped).as_str());
        s.append(" dropped)");
        s
    }

    /// The summary as a JSON value.
    pub fn to_value(&self) -> (v: serde_json::Value)
        ensures
            json(v) == self.document(),
    {
        let mut pairs: Vec<(String, serde_json::Value)> = Vec::new();
        pairs.push(("state".to_string(), from_text(self.state.to_string())));
        pairs.push(("seconds_in_state".to_string(), from_number(self.seconds_in_state)));
        pairs.push(("buffered".to_string(), from_number(self.buffered as u64)));
        pairs.push(("dropped".to_string(), from_number(self.dropped)));
        assert(pairs_in(pairs@) =~= seq![
            ("state"@, Json::Text(self.state.text())),
            ("seconds_in_state"@, number(self.seconds_in_state as nat)),
            ("buffered"@, number(self.buffered as nat)),
            ("dropped"@, number(self.dropped as nat)),
        ]);
    proof {
        reveal_strlit("state");
        reveal_strlit("seconds_in_state");
        reveal_strlit("buffered");
        reveal_strlit("dropped");
        assert("state"@.len() == 5);
        assert("seconds_in_state"@.len() == 16);
        assert("buffered"@.len() == 8);
        assert("dropped"@.len() == 7);
        assert(keys_differ(pairs_in(pairs@)));
    }
        from_pairs(pairs)
    }

    /// The summary as indented JSON. Writing it never fails.
    pub fn to_json(&self) -> (r: Result<String, EncodeError>)
        ensures
            r is Ok,
            r->Ok_0@ == pretty_of_json(self.document()),
    {
        match write_pretty(&self.to_value()) {
            Ok(s) => Ok(s),
            Err(e) => Err(EncodeError::new("serializing hub status", &e)),
        }
    }

    /// The process exit code.
    pub fn exit_code(&self) -> (r: i32)
        ensures
            r == (match self.state {
                HubState::Up => EXIT_UP,
                HubState::Down => EXIT_DOWN,
            }),
            r == 0 || r == 1,
            r == 0 <==> self.state == HubState::Up,
    {
        match self.state {
            HubState::Up => EXIT_UP,
            HubState::Down => EXIT_DOWN,
        }
    }
}

// ─── laws ───────────────────────────────────────────────────────────────────
/// The line names the state, how long it has lasted, and how many events wait and were
/// dropped.
pub proof fn the_line_in_full(s: HubSummary)
    ensures
        s.state == HubState::Up ==> s.line() == "hub: UP ("@ + decimal(s.seconds_in_state as nat)
            + "s in state, "@ + decimal(s.buffered as nat) + " events buffered, "@ + decimal(
            s.dropped as nat,
        ) + " dropped)"@,
        s.state == HubState::Down ==> s.line() == "hub: DOWN ("@ + decimal(
            s.seconds_in_state as nat,
        ) + "s in state, "@ + decimal(s.buffered as nat) + " events buffered, "@ + decimal(
            s.dropped as nat,
        ) + " dropped)"@,
{
    reveal_strlit("hub: UP (");
    reveal_strlit("hub: DOWN (");
    reveal_strlit("hub: ");
    reveal_strlit("UP");
    reveal_strlit("DOWN");
    reveal_strlit(" (");
    assert("hub: UP ("@ =~= "hub: "@ + "UP"@ + " ("@);
    assert("hub: DOWN ("@ =~= "hub: "@ + "DOWN"@ + " ("@);
}

/// The JSON object says the same under four names.
pub proof fn the_document_in_full(s: HubSummary)
    ensures
        s.document() == Json::Object(
            map![
                "state"@ => Json::Text(
                    if s.state == HubState::Up {
                        "UP"@
                    } else {
                        "DOWN"@
                    },
                ),
                "seconds_in_state"@ => Json::Number(decimal(s.seconds_in_state as nat)),
                "buffered"@ => Json::Number(decimal(s.buffered as nat)),
                "dropped"@ => Json::Number(decimal(s.dropped as nat))
            ],
        ),
{
    reveal_strlit("state");
    reveal_strlit("seconds_in_state");
    reveal_strlit("buffered");
    reveal_strlit("dropped");
    assert("state"@.len() == 5);
    assert("seconds_in_state"@.len() == 16);
    assert("buffered"@.len() == 8);
    assert("dropped"@.len() == 7);
    let p = seq![
        ("state"@, Json::Text(
                    if s.state == HubState::Up {
                        "UP"@
                    } else {
                        "DOWN"@
                    },
                )),
        ("seconds_in_state"@, Json::Number(decimal(s.seconds_in_state as nat))),
        ("buffered"@, Json::Number(decimal(s.buffered as nat))),
        ("dropped"@, Json::Number(decimal(s.dropped as nat))),
    ];
    assert(keys_differ(p));
    objects_hold_their_pairs(p);
    assert(p[0].0 == "state"@ && p[1].0 == "seconds_in_state"@);
    assert(p[2].0 == "buffered"@ && p[3].0 == "dropped"@);
    let m = map![
        "state"@ => Json::Text(
                    if s.state == HubState::Up {
                        "UP"@
                    } else {
                        "DOWN"@
                    },
                ),
        "seconds_in_state"@ => Json::Number(decimal(s.seconds_in_state as nat)),
        "buffered"@ => Json::Number(decimal(s.buffered as nat)),
        "dropped"@ => Json::Number(decimal(s.dropped as nat))
    ];
    assert(object(p)->Object_0 =~= m);
}

} // verus!
