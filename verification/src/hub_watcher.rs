//! Hub-liveness watcher: what probes of the NATS hub come to, the DOWN and UP
//! events that follow, and the buffer of outbound fleet events while the hub is
//! unreachable.

use crate::json::{
    from_number, from_pairs, from_text, json, keys_differ, number, object,
    objects_hold_their_pairs, pairs_in, Json,
};
use crate::text::{decimal, trim, trimmed};
use std::collections::VecDeque;
use vstd::prelude::*;

verus! {

/// `bytes::Bytes`, opaque but for the bytes that it holds.
#[verifier::external_type_specification]
#[verifier::external_body]
pub struct ExBytes(bytes::Bytes);

/// The bytes that a `bytes::Bytes` holds.
pub uninterp spec fn contents(b: bytes::Bytes) -> Seq<u8>;

/// `Bytes::len`: the number of bytes that it holds.
pub assume_specification[ bytes::Bytes::len ](b: &bytes::Bytes) -> (n: usize)
    ensures
        n == contents(*b).len(),
;

// ─── state ──────────────────────────────────────────────────────────────────
/// Current hub reachability state.
#[derive(Debug, Clone, Copy, PartialEq, Eq, Structural)]
pub enum HubState {
    /// Hub is reachable.
    Up,
    /// Hub is not reachable.
    Down,
}

impl HubState {
    pub open spec fn text(self) -> Seq<char> {
        match self {
            HubState::Up => "UP"@,
            HubState::Down => "DOWN"@,
        }
    }

    /// `UP` or `DOWN`.
    pub fn to_string(&self) -> (s: String)
        ensures
            s@ == self.text(),
    {
        match self {
            HubState::Up => "UP".to_string(),
            HubState::Down => "DOWN".to_string(),
        }
    }
}

/// A buffered fleet event waiting to be flushed once the hub recovers.
#[derive(Debug)]
pub struct BufferedEvent {
    /// The agorabus topic (e.g. `wm.fleet.node.heartbeat`).
    pub topic: String,
    /// Raw JSON payload bytes to forward to NATS.
    pub payload: bytes::Bytes,
}

/// An event: its topic and its payload.
pub type Event = (Seq<char>, Seq<u8>);

/// The events in a buffer, the oldest first.
pub open spec fn events(buffer: Seq<BufferedEvent>) -> Seq<Event> {
    Seq::new(buffer.len(), |i: int| (buffer[i].topic@, contents(buffer[i].payload)))
}

/// How many payload bytes some events hold.
pub open spec fn payload_bytes(evs: Seq<Event>) -> nat
    decreases evs.len(),
{
    if evs.len() == 0 {
        0
    } else {
        payload_bytes(evs.drop_last()) + evs.last().1.len()
    }
}

/// Shared liveness state.
#[derive(Debug)]
pub struct HubLivenessState {
    /// Current reachability state.
    pub state: HubState,
    /// When the current state began, in nanoseconds on a monotonic clock.
    pub state_since: u64,
    /// Ring buffer of events accumulated while DOWN.
    pub buffer: VecDeque<BufferedEvent>,
    /// Count of events dropped due to buffer overflow.
    pub dropped: u64,
}

impl HubLivenessState {
    /// The events in the buffer, the oldest first.
    pub open spec fn waiting(&self) -> Seq<Event> {
        events(self.buffer@)
    }

    /// A hub that is taken to be up, as of now, with nothing buffered.
    pub fn new(now_nanos: u64) -> (r: Self)
        ensures
            r.state == HubState::Up,
            r.state_since == now_nanos,
            r.waiting() == Seq::<Event>::empty(),
            r.dropped == 0,
    {
        let r = HubLivenessState {
            state: HubState::Up,
            state_since: now_nanos,
            buffer: VecDeque::new(),
            dropped: 0,
        };
        assert(r.waiting() =~= Seq::<Event>::empty());
        r
    }

    /// Whole seconds elapsed in the current state at `now_nanos`.
    pub open spec fn seconds_at(&self, now_nanos: u64) -> int {
        if now_nanos >= self.state_since {
            (now_nanos - self.state_since) / 1_000_000_000
        } else {
            0
        }
    }

    /// Whole seconds elapsed in the current state at `now_nanos`.
    pub fn seconds_in_state(&self, now_nanos: u64) -> (r: u64)
        ensures
            r == self.seconds_at(now_nanos),
    {
        now_nanos.saturating_sub(self.state_since) / 1_000_000_000
    }

    /// Number of events currently in the buffer.
    pub fn buffered_count(&self) -> (r: usize)
        ensures
            r == self.waiting().len(),
    {
        self.buffer.len()
    }
}

// ─── configuration ──────────────────────────────────────────────────────────
/// Configuration for the hub-liveness watcher.
#[derive(Debug, Clone)]
pub struct HubWatcherConfig {
    /// How often to probe the hub (seconds).
    pub probe_secs: u64,
    /// Probe timeout (seconds).
    pub probe_timeout_secs: u64,
    /// Consecutive failures before declaring DOWN.
    pub down_threshold: u32,
    /// Consecutive successes before declaring UP.
    pub up_threshold: u32,
    /// Maximum number of events in the ring buffer.
    pub buffer_max_events: usize,
    /// Maximum total byte size of the ring buffer.
    pub buffer_max_bytes: usize,
    /// This node's identifier (for event payloads).
    pub node_id: String,
}

impl HubWatcherConfig {
    /// The defaults, for the node of that name.
    pub fn for_node(node_id: String) -> (r: Self)
        ensures
            r.probe_secs == 5,
            r.probe_timeout_secs == 3,
            r.down_threshold == 3,
            r.up_threshold == 2,
            r.buffer_max_events == 1000,
            r.buffer_max_bytes == 10 * 1024 * 1024,
            r.node_id@ == node_id@,
    {
        HubWatcherConfig {
            probe_secs: 5,
            probe_timeout_secs: 3,
            down_threshold: 3,
            up_threshold: 2,
            buffer_max_events: 1000,
            buffer_max_bytes: 10 * 1024 * 1024,
            node_id,
        }
    }
}

/// This machine's name by the text of `/etc/hostname`, `unknown` without it.
pub fn hostname(text: Option<&str>) -> (r: String)
    ensures
        r@ == (match text {
            Some(t) => trimmed(t@),
            None => "unknown"@,
        }),
{
    match text {
        Some(t) => trim(t),
        None => "unknown".to_string(),
    }
}

// ─── buffering ──────────────────────────────────────────────────────────────
/// Whether one more event with `new_bytes` of payload fits in with those that wait.
pub open spec fn fits(evs: Seq<Event>, new_bytes: nat, max_events: nat, max_bytes: nat) -> bool {
    evs.len() + 1 <= max_events && payload_bytes(evs) + new_bytes <= max_bytes
}

/// Whether an event with `new_bytes` of payload fits in at all.
pub open spec fn admits(new_bytes: nat, max_events: nat, max_bytes: nat) -> bool {
    fits(seq![], new_bytes, max_events, max_bytes)
}

/// What remains of the waiting events when one more with `new_bytes` of payload is to
/// be buffered: as many of the latest as it fits in with.
pub open spec fn kept(evs: Seq<Event>, new_bytes: nat, max_events: nat, max_bytes: nat) -> Seq<
    Event,
>
    decreases evs.len(),
{
    if evs.len() == 0 || fits(evs, new_bytes, max_events, max_bytes) {
        evs
    } else {
        kept(evs.drop_first(), new_bytes, max_events, max_bytes)
    }
}

/// The waiting events after one more came: it is the latest of them, unless it does not
/// fit in at all.
pub open spec fn joined(evs: Seq<Event>, ev: Event, max_events: nat, max_bytes: nat) -> Seq<
    Event,
> {
    if admits(ev.1.len(), max_events, max_bytes) {
        kept(evs, ev.1.len(), max_events, max_bytes).push(ev)
    } else {
        evs
    }
}

/// `n`, as far as it can be counted.
pub open spec fn capped(n: int) -> int {
    if n <= u64::MAX {
        n
    } else {
        u64::MAX as int
    }
}

/// The payload bytes in the buffer.
fn count_bytes(buffer: &VecDeque<BufferedEvent>) -> (total: u128)
    ensures
        total == payload_bytes(events(buffer@)),
        total + usize::MAX <= u128::MAX,
{
    let ghost evs = events(buffer@);
    let mut total: u128 = 0;
    let mut i: usize = 0;
    assert(evs.take(0) =~= seq![]);
    while i < buffer.len()
        invariant
            i <= buffer@.len(),
            evs == events(buffer@),
            total == payload_bytes(evs.take(i as int)),
            total <= i * usize::MAX,
        decreases buffer@.len() - i,
    {
        let n: usize = buffer[i].payload.len();
        proof {
            assert(evs.take(i + 1).drop_last() =~= evs.take(i as int));
            assert(evs.take(i + 1).last().1.len() == n);
            assert((i + 1) * usize::MAX == i * usize::MAX + usize::MAX) by (nonlinear_arith);
            lemma_square_fits(i);
        }
        total = total + n as u128;
        i = i + 1;
    }
    proof {
        assert(evs.take(i as int) =~= evs);
        lemma_square_fits(i);
    }
    total
}

proof fn lemma_square_fits(i: usize)
    ensures
        i * usize::MAX + usize::MAX <= u128::MAX,
{
    assert(i * usize::MAX + usize::MAX <= u128::MAX) by (nonlinear_arith)
        requires
            i <= usize::MAX,
            usize::MAX <= 0xffff_ffff_ffff_ffff,
    ;
}

proof fn lemma_bytes_of_first(evs: Seq<Event>)
    requires
        evs.len() > 0,
    ensures
        payload_bytes(evs) == evs[0].1.len() + payload_bytes(evs.drop_first()),
    decreases evs.len(),
{
    if evs.len() == 1 {
        assert(evs.drop_last() =~= seq![]);
        assert(evs.drop_first() =~= seq![]);
    } else {
        lemma_bytes_of_first(evs.drop_last());
        assert(evs.drop_last().drop_first() =~= evs.drop_first().drop_last());
    }
}

/// Buffers an outbound fleet event while the hub is DOWN, and says whether it is taken
/// care of: while the hub is UP, the caller forwards the event as usual.
///
/// Drops the oldest events when the ring buffer is full, and no more of them than it
/// takes to make room. An event that is too large for the buffer is dropped itself.
pub fn maybe_buffer(
    liveness: &mut HubLivenessState,
    topic: &str,
    payload: bytes::Bytes,
    cfg: &HubWatcherConfig,
) -> (buffered: bool)
    ensures
        buffered == (old(liveness).state == HubState::Down),
        !buffered ==> *final(liveness) == *old(liveness),
        buffered ==> {
            &&& final(liveness).waiting() == joined(
                old(liveness).waiting(),
                (topic@, contents(payload)),
                cfg.buffer_max_events as nat,
                cfg.buffer_max_bytes as nat,
            )
            &&& final(liveness).dropped == capped(
                old(liveness).dropped + old(liveness).waiting().len() + 1
                    - final(liveness).waiting().len(),
            )
            &&& final(liveness).state == old(liveness).state
            &&& final(liveness).state_since == old(liveness).state_since
        },
{
    match liveness.state {
        HubState::Up => {
            return false;
        },
        HubState::Down => {},
    }
    let ghost before = liveness.waiting();
    let new_bytes: usize = payload.len();
    if cfg.buffer_max_events == 0 || new_bytes > cfg.buffer_max_bytes {
        liveness.dropped = liveness.dropped.saturating_add(1);
        return true;
    }
    let mut current_bytes: u128 = count_bytes(&liveness.buffer);
    let ghost mut gone: int = 0;
    while liveness.buffer.len() > 0 && (liveness.buffer.len() >= cfg.buffer_max_events
        || current_bytes + new_bytes as u128 > cfg.buffer_max_bytes as u128)
        invariant
            0 <= gone <= before.len(),
            before == old(liveness).waiting(),
            liveness.waiting() == before.skip(gone),
            liveness.dropped == capped(old(liveness).dropped + gone),
            liveness.state == old(liveness).state,
            liveness.state_since == old(liveness).state_since,
            current_bytes == payload_bytes(liveness.waiting()),
            current_bytes + usize::MAX <= u128::MAX,
            kept(
                before,
                new_bytes as nat,
                cfg.buffer_max_events as nat,
                cfg.buffer_max_bytes as nat,
            ) == kept(
                liveness.waiting(),
                new_bytes as nat,
                cfg.buffer_max_events as nat,
                cfg.buffer_max_bytes as nat,
            ),
        decreases before.len() - gone,
    {
        let ghost held = liveness.buffer@;
        proof {
            assert(before.skip(gone).len() == held.len());
            lemma_bytes_of_first(events(held));
        }
        match liveness.buffer.pop_front() {
            Some(oldest) => {
                current_bytes = current_bytes - oldest.payload.len() as u128;
                liveness.dropped = liveness.dropped.saturating_add(1);
                proof {
                    assert(events(liveness.buffer@) =~= events(held).drop_first());
                    assert(before.skip(gone).drop_first() =~= before.skip(gone + 1));
                    gone = gone + 1;
                }
            },
            None => {},
        }
    }
    let ghost held = liveness.buffer@;
    liveness.buffer.push_back(BufferedEvent { topic: topic.to_string(), payload });
    assert(events(liveness.buffer@) =~= events(held).push((topic@, contents(payload))));
    true
}

// ─── probing ────────────────────────────────────────────────────────────────
/// How the probes stand: the state, and how many of the latest probes in a row
/// failed or succeeded since the state last changed.
pub struct Streak {
    pub state: HubState,
    pub failures: u32,
    pub successes: u32,
}

/// One more than `n`, up to what can be counted.
pub open spec fn counted(n: u32) -> u32 {
    if n == u32::MAX {
        n
    } else {
        (n + 1) as u32
    }
}

/// Whether a probe takes the hub down: the hub is up, the probe fails, and enough
/// have failed in a row.
pub open spec fn goes_down(s: Streak, down_threshold: u32, ok: bool) -> bool {
    s.state == HubState::Up && !ok && counted(s.failures) >= down_threshold
}

/// Whether a probe brings the hub back up: the hub is down, the probe succeeds,
/// and enough have succeeded in a row.
pub open spec fn comes_up(s: Streak, up_threshold: u32, ok: bool) -> bool {
    s.state == HubState::Down && ok && counted(s.successes) >= up_threshold
}

/// How the probes stand after one more.
pub open spec fn probed(s: Streak, down_threshold: u32, up_threshold: u32, ok: bool) -> Streak {
    if goes_down(s, down_threshold, ok) {
        Streak { state: HubState::Down, failures: 0, successes: 0 }
    } else if comes_up(s, up_threshold, ok) {
        Streak { state: HubState::Up, failures: 0, successes: 0 }
    } else if ok {
        Streak { state: s.state, failures: 0, successes: counted(s.successes) }
    } else {
        Streak { state: s.state, failures: counted(s.failures), successes: 0 }
    }
}

/// What the watcher remembers between probes.
#[derive(Debug, Clone, Copy)]
pub struct Watcher {
    /// Failed probes in a row.
    pub consecutive_failures: u32,
    /// Successful probes in a row.
    pub consecutive_successes: u32,
    /// When the last probe succeeded (seconds since Unix epoch).
    pub last_ok_ts: u64,
    /// When the hub last went down (seconds since Unix epoch).
    pub down_since_ts: u64,
}

/// What a probe leads to.
#[derive(Debug)]
pub enum Transition {
    /// Nothing changes.
    Stay,
    /// The hub went down: announce it on the local bus.
    WentDown {
        /// Since when.
        since_ts: u64,
        /// When a probe last succeeded.
        last_ok_ts: u64,
    },
    /// The hub came back: publish the events to it in order, then announce it on
    /// the local bus.
    CameUp {
        /// For how long it was down, in seconds.
        down_duration_secs: u64,
        /// What was buffered in the meantime, the oldest first.
        events: Vec<BufferedEvent>,
    },
}

impl Watcher {
    /// A watcher that starts now, as if a probe had just succeeded.
    pub fn new(now_ts: u64) -> (r: Self)
        ensures
            r == (Watcher {
                consecutive_failures: 0,
                consecutive_successes: 0,
                last_ok_ts: now_ts,
                down_since_ts: 0,
            }),
    {
        Watcher {
            consecutive_failures: 0,
            consecutive_successes: 0,
            last_ok_ts: now_ts,
            down_since_ts: 0,
        }
    }

    /// How the probes stand, with the hub in `state`.
    pub open spec fn streak(self, state: HubState) -> Streak {
        Streak {
            state,
            failures: self.consecutive_failures,
            successes: self.consecutive_successes,
        }
    }

    /// Takes the result of a probe at `now_ts` (seconds since Unix epoch) and
    /// `now_nanos` (monotonic) into account.
    pub fn tick(
        &mut self,
        liveness: &mut HubLivenessState,
        cfg: &HubWatcherConfig,
        ok: bool,
        now_ts: u64,
        now_nanos: u64,
    ) -> (t: Transition)
        ensures
            final(self).streak(final(liveness).state) == probed(
                old(self).streak(old(liveness).state),
                cfg.down_threshold,
                cfg.up_threshold,
                ok,
            ),
            final(self).last_ok_ts == (if ok {
                now_ts
            } else {
                old(self).last_ok_ts
            }),
            final(liveness).dropped == old(liveness).dropped,
            t is WentDown <==> old(liveness).state == HubState::Up && !ok
                && old(self).consecutive_failures + 1 >= cfg.down_threshold,
            t is CameUp <==> old(liveness).state == HubState::Down && ok
                && old(self).consecutive_successes + 1 >= cfg.up_threshold,
            t is WentDown ==> final(liveness).state == HubState::Down,
            t is CameUp ==> final(liveness).state == HubState::Up,
            t is Stay ==> final(liveness).state == old(liveness).state,
            ({
                let s = old(self).streak(old(liveness).state);
                if goes_down(s, cfg.down_threshold, ok) {
                    &&& t == (Transition::WentDown {
                        since_ts: now_ts,
                        last_ok_ts: old(self).last_ok_ts,
                    })
                    &&& final(self).down_since_ts == now_ts
                    &&& final(liveness).state_since == now_nanos
                    &&& final(liveness).waiting() == old(liveness).waiting()
                } else if comes_up(s, cfg.up_threshold, ok) {
                    &&& t is CameUp
                    &&& t->down_duration_secs == (if now_ts >= old(self).down_since_ts {
                        now_ts - old(self).down_since_ts
                    } else {
                        0
                    })
                    &&& t->down_duration_secs == outage_secs(old(self).down_since_ts, now_ts)
                    &&& events(t->events@) == old(liveness).waiting()
                    &&& final(self).down_since_ts == old(self).down_since_ts
                    &&& final(liveness).state_since == now_nanos
                    &&& final(liveness).waiting() == Seq::<Event>::empty()
                } else {
                    &&& t is Stay
                    &&& final(self).down_since_ts == old(self).down_since_ts
                    &&& final(liveness).state_since == old(liveness).state_since
                    &&& final(liveness).waiting() == old(liveness).waiting()
                }
            }),
    {
        if ok {
            self.last_ok_ts = now_ts;
            self.consecutive_failures = 0;
            self.consecutive_successes = self.consecutive_successes.saturating_add(1);
            if liveness.state == HubState::Down && self.consecutive_successes >= cfg.up_threshold {
                liveness.state = HubState::Up;
                liveness.state_since = now_nanos;
                let events = drain(&mut liveness.buffer);
                self.consecutive_successes = 0;
                return Transition::CameUp {
                    down_duration_secs: now_ts.saturating_sub(self.down_since_ts),
                    events,
                };
            }
        } else {
            self.consecutive_successes = 0;
            self.consecutive_failures = self.consecutive_failures.saturating_add(1);
            if liveness.state == HubState::Up && self.consecutive_failures >= cfg.down_threshold {
                self.down_since_ts = now_ts;
                liveness.state = HubState::Down;
                liveness.state_since = now_nanos;
                self.consecutive_failures = 0;
                return Transition::WentDown { since_ts: now_ts, last_ok_ts: self.last_ok_ts };
            }
        }
        Transition::Stay
    }
}

/// Whether one more probe is due after `tried` of them, of which the last one went `ok`.
pub open spec fn tries_again(ok: bool, tried: u32, down_threshold: u32) -> bool {
    !ok && tried < down_threshold
}

/// For how long the hub was down at `now_ts`; not at all if that lies before.
pub open spec fn outage_secs(down_since_ts: u64, now_ts: u64) -> int {
    if now_ts >= down_since_ts {
        now_ts - down_since_ts
    } else {
        0
    }
}

/// Whether a hub whose state is asked for once is to be probed again, after `tried`
/// probes of which the last one went `ok`: until one succeeds, and no more often than it
/// takes to call it down.
pub fn probe_again(ok: bool, tried: u32, down_threshold: u32) -> (r: bool)
    ensures
        r == (!ok && tried < down_threshold),
        r == tries_again(ok, tried, down_threshold),
{
    !ok && tried < down_threshold
}

/// Takes everything out of the buffer, the oldest first.
fn drain(buffer: &mut VecDeque<BufferedEvent>) -> (out: Vec<BufferedEvent>)
    ensures
        out@ == old(buffer)@,
        events(out@) == events(old(buffer)@),
        events(final(buffer)@) == Seq::<Event>::empty(),
{
    let ghost all = buffer@;
    let mut out: Vec<BufferedEvent> = Vec::new();
    while buffer.len() > 0
        invariant
            out@ + buffer@ == all,
        decreases buffer@.len(),
    {
        let ghost rest = buffer@;
        match buffer.pop_front() {
            Some(ev) => {
                out.push(ev);
                assert(out@ + buffer@ =~= all) by {
                    assert(rest =~= seq![ev] + buffer@);
                }
            },
            None => {},
        }
    }
    assert(out@ =~= all);
    assert(events(buffer@) =~= Seq::<Event>::empty());
    out
}

// ─── status events on the local bus ─────────────────────────────────────────
/// Topic of the event that the hub went down.
pub const HUB_DOWN_TOPIC: &'static str = "wm.fleet.hub.down";

/// Topic of the event that the hub came back.
pub const HUB_UP_TOPIC: &'static str = "wm.fleet.hub.up";

/// The session that the watcher announces on the local bus.
pub const WATCHER_SESSION: &'static str = "wm-busbridge-hub-watcher";

/// What the watcher announces itself for.
pub const WATCHER_INTENT: &'static str = "hub liveness watcher";

/// What the event that the hub went down says.
pub open spec fn down_data(node: Seq<char>, since_ts: u64, last_ok_ts: u64) -> Json {
    object(
        seq![
            ("node"@, Json::Text(node)),
            ("since_ts"@, number(since_ts as nat)),
            ("last_ok_ts"@, number(last_ok_ts as nat)),
        ],
    )
}

/// What the event that the hub came back says.
pub open spec fn up_data(node: Seq<char>, down_duration_secs: u64) -> Json {
    object(
        seq![
            ("node"@, Json::Text(node)),
            ("down_duration_secs"@, number(down_duration_secs as nat)),
        ],
    )
}

/// The data of the event that the hub went down.
pub fn down_event(node: &str, since_ts: u64, last_ok_ts: u64) -> (v: serde_json::Value)
    ensures
        json(v) == object(
            seq![
                ("node"@, Json::Text(node@)),
                ("since_ts"@, number(since_ts as nat)),
                ("last_ok_ts"@, number(last_ok_ts as nat)),
            ],
        ),
        json(v) == down_data(node@, since_ts, last_ok_ts),
{
    let mut pairs: Vec<(String, serde_json::Value)> = Vec::new();
    pairs.push(("node".to_string(), from_text(node.to_string())));
    pairs.push(("since_ts".to_string(), from_number(since_ts)));
    pairs.push(("last_ok_ts".to_string(), from_number(last_ok_ts)));
    assert(pairs_in(pairs@) =~= seq![
        ("node"@, Json::Text(node@)),
        ("since_ts"@, number(since_ts as nat)),
        ("last_ok_ts"@, number(last_ok_ts as nat)),
    ]);
    proof {
        reveal_strlit("node");
        reveal_strlit("since_ts");
        reveal_strlit("last_ok_ts");
        assert("node"@.len() == 4);
        assert("since_ts"@.len() == 8);
        assert("last_ok_ts"@.len() == 10);
        assert(keys_differ(pairs_in(pairs@)));
    }
    from_pairs(pairs)
}

/// The data of the event that the hub came back.
pub fn up_event(node: &str, down_duration_secs: u64) -> (v: serde_json::Value)
    ensures
        json(v) == object(
            seq![
                ("node"@, Json::Text(node@)),
                ("down_duration_secs"@, number(down_duration_secs as nat)),
            ],
        ),
        json(v) == up_data(node@, down_duration_secs),
{
    let mut pairs: Vec<(String, serde_json::Value)> = Vec::new();
    pairs.push(("node".to_string(), from_text(node.to_string())));
    pairs.push(("down_duration_secs".to_string(), from_number(down_duration_secs)));
    assert(pairs_in(pairs@) =~= seq![
        ("node"@, Json::Text(node@)),
        ("down_duration_secs"@, number(down_duration_secs as nat)),
    ]);
    proof {
        reveal_strlit("node");
        reveal_strlit("down_duration_secs");
        assert("node"@.len() == 4);
        assert("down_duration_secs"@.len() == 18);
        assert(keys_differ(pairs_in(pairs@)));
    }
    from_pairs(pairs)
}

/// What is left to do to publish a status event on the local bus.
#[derive(Debug, Clone, Copy, PartialEq, Eq, Structural)]
pub enum EmitStep {
    /// Publish over the connection that there is; give it up if that fails.
    Publish,
    /// Connect anew.
    Reconnect,
    /// Publish over the new connection, which stays whether or not that works.
    PublishAgain,
    /// Nothing.
    Done,
}

impl EmitStep {
    /// The first step, with a connection or without.
    pub open spec fn first(connected: bool) -> EmitStep {
        if connected {
            EmitStep::Publish
        } else {
            EmitStep::Reconnect
        }
    }

    /// The step after this one, which worked or did not.
    pub open spec fn following(self, ok: bool) -> EmitStep {
        match self {
            EmitStep::Publish => if ok {
                EmitStep::Done
            } else {
                EmitStep::Reconnect
            },
            EmitStep::Reconnect => if ok {
                EmitStep::PublishAgain
            } else {
                EmitStep::Done
            },
            EmitStep::PublishAgain => EmitStep::Done,
            EmitStep::Done => EmitStep::Done,
        }
    }

    /// Where to begin, with a connection or without.
    pub fn begin(connected: bool) -> (r: EmitStep)
        ensures
            r == EmitStep::first(connected),
    {
        if connected {
            EmitStep::Publish
        } else {
            EmitStep::Reconnect
        }
    }

    /// How to go on after this step worked or did not.
    pub fn next(&self, ok: bool) -> (r: EmitStep)
        ensures
            r == self.following(ok),
    {
        match self {
            EmitStep::Publish => if ok {
                EmitStep::Done
            } else {
                EmitStep::Reconnect
            },
            EmitStep::Reconnect => if ok {
                EmitStep::PublishAgain
            } else {
                EmitStep::Done
            },
            EmitStep::PublishAgain => EmitStep::Done,
            EmitStep::Done => EmitStep::Done,
        }
    }
}

// ─── laws ───────────────────────────────────────────────────────────────────
/// A status event is done with after at most three steps, the bus is connected to
/// at most once, and what is published a first time successfully is not published
/// again.
pub proof fn emitting_ends(connected: bool, a: bool, b: bool, c: bool)
    ensures
        EmitStep::first(connected).following(a).following(b).following(c) == EmitStep::Done,
        connected && a ==> EmitStep::first(connected).following(a) == EmitStep::Done,
        EmitStep::Reconnect.following(a) != EmitStep::Reconnect,
        EmitStep::Reconnect.following(a).following(b) != EmitStep::Reconnect,
{
}

/// How the probes stand at the start.
pub open spec fn at_start() -> Streak {
    Streak { state: HubState::Up, failures: 0, successes: 0 }
}

/// How the probes stand after some.
pub open spec fn after(s: Streak, down_threshold: u32, up_threshold: u32, probes: Seq<bool>) -> Streak
    decreases probes.len(),
{
    if probes.len() == 0 {
        s
    } else {
        probed(
            after(s, down_threshold, up_threshold, probes.drop_last()),
            down_threshold,
            up_threshold,
            probes.last(),
        )
    }
}

/// How many of the latest probes went `ok`, in a row.
pub open spec fn latest(probes: Seq<bool>, ok: bool) -> nat
    decreases probes.len(),
{
    if probes.len() > 0 && probes.last() == ok {
        1 + latest(probes.drop_last(), ok)
    } else {
        0
    }
}

proof fn lemma_counts_are_in_a_row(down_threshold: u32, up_threshold: u32, probes: Seq<bool>)
    ensures
        after(at_start(), down_threshold, up_threshold, probes).failures <= latest(probes, false),
        after(at_start(), down_threshold, up_threshold, probes).successes <= latest(probes, true),
    decreases probes.len(),
{
    if probes.len() > 0 {
        lemma_counts_are_in_a_row(down_threshold, up_threshold, probes.drop_last());
    }
}

/// The hub goes down only after as many failed probes in a row as the threshold
/// asks for, and comes back only after as many successful ones.
pub proof fn transitions_take_enough_probes_in_a_row(
    down_threshold: u32,
    up_threshold: u32,
    probes: Seq<bool>,
    ok: bool,
)
    ensures
        goes_down(after(at_start(), down_threshold, up_threshold, probes), down_threshold, ok)
            ==> latest(probes.push(ok), false) >= down_threshold && !ok,
        comes_up(after(at_start(), down_threshold, up_threshold, probes), up_threshold, ok)
            ==> latest(probes.push(ok), true) >= up_threshold && ok,
{
    lemma_counts_are_in_a_row(down_threshold, up_threshold, probes);
    assert(probes.push(ok).drop_last() =~= probes);
}

/// As long as failures never come as many in a row as the threshold asks for, the
/// hub stays up: blips do not flap the state.
pub proof fn blips_do_not_flap(down_threshold: u32, up_threshold: u32, probes: Seq<bool>)
    requires
        forall|n: int|
            0 <= n <= probes.len() ==> latest(#[trigger] probes.take(n), false) < down_threshold,
    ensures
        after(at_start(), down_threshold, up_threshold, probes).state == HubState::Up,
    decreases probes.len(),
{
    if probes.len() > 0 {
        let front = probes.drop_last();
        assert forall|n: int| 0 <= n <= front.len() implies latest(
            #[trigger] front.take(n),
            false,
        ) < down_threshold by {
            assert(front.take(n) =~= probes.take(n));
        }
        blips_do_not_flap(down_threshold, up_threshold, front);
        transitions_take_enough_probes_in_a_row(down_threshold, up_threshold, front, probes.last());
        assert(front.push(probes.last()) =~= probes);
        assert(probes.take(probes.len() as int) =~= probes);
    }
}

/// `n` probes that all go `ok`.
pub open spec fn all_probes(n: nat, ok: bool) -> Seq<bool> {
    Seq::new(n, |i: int| ok)
}

/// From up with no failures counted, the hub is down after exactly as many failed
/// probes as the threshold asks for, and up after fewer.
pub proof fn hub_goes_down_at_the_threshold(
    s: Streak,
    down_threshold: u32,
    up_threshold: u32,
    n: nat,
)
    requires
        s.state == HubState::Up,
        s.failures == 0,
        0 < down_threshold,
        n <= down_threshold,
    ensures
        after(s, down_threshold, up_threshold, all_probes(n, false)).state == (if n
            == down_threshold {
            HubState::Down
        } else {
            HubState::Up
        }),
        n < down_threshold ==> after(
            s,
            down_threshold,
            up_threshold,
            all_probes(n, false),
        ).failures == n,
    decreases n,
{
    let probes = all_probes(n, false);
    if n > 0 {
        assert(probes.drop_last() =~= all_probes((n - 1) as nat, false));
        hub_goes_down_at_the_threshold(s, down_threshold, up_threshold, (n - 1) as nat);
    }
}

/// From down with no successes counted, the hub is up after exactly as many
/// successful probes as the threshold asks for, and down after fewer.
pub proof fn hub_comes_up_at_the_threshold(
    s: Streak,
    down_threshold: u32,
    up_threshold: u32,
    n: nat,
)
    requires
        s.state == HubState::Down,
        s.successes == 0,
        0 < up_threshold,
        n <= up_threshold,
    ensures
        after(s, down_threshold, up_threshold, all_probes(n, true)).state == (if n
            == up_threshold {
            HubState::Up
        } else {
            HubState::Down
        }),
        n < up_threshold ==> after(
            s,
            down_threshold,
            up_threshold,
            all_probes(n, true),
        ).successes == n,
    decreases n,
{
    let probes = all_probes(n, true);
    if n > 0 {
        assert(probes.drop_last() =~= all_probes((n - 1) as nat, true));
        hub_comes_up_at_the_threshold(s, down_threshold, up_threshold, (n - 1) as nat);
    }
}

/// Every change of state is a transition, and every transition a change of state.
pub proof fn every_change_of_state_is_told(
    s: Streak,
    down_threshold: u32,
    up_threshold: u32,
    ok: bool,
)
    ensures
        (probed(s, down_threshold, up_threshold, ok).state != s.state) == (goes_down(
            s,
            down_threshold,
            ok,
        ) || comes_up(s, up_threshold, ok)),
{
}

proof fn lemma_bytes_of_pushed(evs: Seq<Event>, ev: Event)
    ensures
        payload_bytes(evs.push(ev)) == payload_bytes(evs) + ev.1.len(),
{
    assert(evs.push(ev).drop_last() =~= evs);
}

/// What is dropped to make room is the oldest.
pub proof fn only_the_oldest_are_dropped(
    evs: Seq<Event>,
    new_bytes: nat,
    max_events: nat,
    max_bytes: nat,
)
    ensures
        kept(evs, new_bytes, max_events, max_bytes).len() <= evs.len(),
        kept(evs, new_bytes, max_events, max_bytes) == evs.skip(
            evs.len() - kept(evs, new_bytes, max_events, max_bytes).len(),
        ),
    decreases evs.len(),
{
    let stays = kept(evs, new_bytes, max_events, max_bytes);
    if evs.len() == 0 || fits(evs, new_bytes, max_events, max_bytes) {
        assert(evs.skip(0) =~= evs);
    } else {
        only_the_oldest_are_dropped(evs.drop_first(), new_bytes, max_events, max_bytes);
        assert(evs.drop_first().skip(evs.len() - 1 - stays.len()) =~= evs.skip(
            evs.len() - stays.len(),
        ));
    }
}

/// No more is dropped than has to be: an event that fits in at all fits in with what is
/// kept, and would not with any more of the latest.
pub proof fn no_more_is_dropped_than_has_to_be(
    evs: Seq<Event>,
    new_bytes: nat,
    max_events: nat,
    max_bytes: nat,
)
    requires
        admits(new_bytes, max_events, max_bytes),
    ensures
        fits(kept(evs, new_bytes, max_events, max_bytes), new_bytes, max_events, max_bytes),
        forall|n: int|
            0 <= n < evs.len() - kept(evs, new_bytes, max_events, max_bytes).len() ==> !fits(
                #[trigger] evs.skip(n),
                new_bytes,
                max_events,
                max_bytes,
            ),
    decreases evs.len(),
{
    let stays = kept(evs, new_bytes, max_events, max_bytes);
    if evs.len() == 0 {
        assert(evs =~= seq![]);
    } else if !fits(evs, new_bytes, max_events, max_bytes) {
        let rest = evs.drop_first();
        no_more_is_dropped_than_has_to_be(rest, new_bytes, max_events, max_bytes);
        assert forall|n: int| 0 <= n < evs.len() - stays.len() implies !fits(
            #[trigger] evs.skip(n),
            new_bytes,
            max_events,
            max_bytes,
        ) by {
            if n == 0 {
                assert(evs.skip(0) =~= evs);
            } else {
                assert(evs.skip(n) =~= rest.skip(n - 1));
            }
        }
    }
}

/// Events are dropped if and only if the buffer is full: it holds as many as it may, or
/// the new one would take it beyond its bytes. What waits afterwards is the latest of
/// what waited before, and the new event behind it.
pub proof fn events_are_dropped_only_when_full(
    evs: Seq<Event>,
    ev: Event,
    max_events: nat,
    max_bytes: nat,
)
    requires
        max_events >= 1,
        ev.1.len() <= max_bytes,
    ensures
        ({
            let now = joined(evs, ev, max_events, max_bytes);
            let gone = evs.len() + 1 - now.len();
            &&& 0 <= gone <= evs.len()
            &&& now == evs.skip(gone).push(ev)
            &&& gone > 0 <==> evs.len() >= max_events || payload_bytes(evs) + ev.1.len()
                > max_bytes
        }),
{
    only_the_oldest_are_dropped(evs, ev.1.len(), max_events, max_bytes);
    no_more_is_dropped_than_has_to_be(evs, ev.1.len(), max_events, max_bytes);
    assert(evs.skip(0) =~= evs);
}

/// Whether waiting events keep within the bounds of the buffer.
pub open spec fn within(evs: Seq<Event>, max_events: nat, max_bytes: nat) -> bool {
    evs.len() <= max_events && payload_bytes(evs) <= max_bytes
}

/// A buffer that is within its bounds stays within them, whatever comes; and one that
/// takes an event in is within them afterwards, however it was before.
pub proof fn buffer_stays_bounded(evs: Seq<Event>, ev: Event, max_events: nat, max_bytes: nat)
    ensures
        within(evs, max_events, max_bytes) || admits(ev.1.len(), max_events, max_bytes) ==> within(
            joined(evs, ev, max_events, max_bytes),
            max_events,
            max_bytes,
        ),
{
    if admits(ev.1.len(), max_events, max_bytes) {
        no_more_is_dropped_than_has_to_be(evs, ev.1.len(), max_events, max_bytes);
        lemma_bytes_of_pushed(kept(evs, ev.1.len(), max_events, max_bytes), ev);
    }
}

/// The waiting events after more have come in turn.
pub open spec fn buffered(evs: Seq<Event>, more: Seq<Event>, max_events: nat, max_bytes: nat) -> Seq<
    Event,
>
    decreases more.len(),
{
    if more.len() == 0 {
        evs
    } else {
        joined(
            buffered(evs, more.drop_last(), max_events, max_bytes),
            more.last(),
            max_events,
            max_bytes,
        )
    }
}

/// The buffer never grows beyond its bounds, however long the hub is down.
pub proof fn a_long_outage_stays_bounded(more: Seq<Event>, max_events: nat, max_bytes: nat)
    ensures
        within(buffered(seq![], more, max_events, max_bytes), max_events, max_bytes),
    decreases more.len(),
{
    if more.len() > 0 {
        a_long_outage_stays_bounded(more.drop_last(), max_events, max_bytes);
        buffer_stays_bounded(
            buffered(seq![], more.drop_last(), max_events, max_bytes),
            more.last(),
            max_events,
            max_bytes,
        );
    }
}

/// An outage whose events fit in the buffer loses none of them and keeps their
/// order.
pub proof fn an_outage_that_fits_loses_nothing(
    evs: Seq<Event>,
    more: Seq<Event>,
    max_events: nat,
    max_bytes: nat,
)
    requires
        evs.len() + more.len() <= max_events,
        payload_bytes(evs) + payload_bytes(more) <= max_bytes,
    ensures
        buffered(evs, more, max_events, max_bytes) == evs + more,
        payload_bytes(evs + more) == payload_bytes(evs) + payload_bytes(more),
    decreases more.len(),
{
    if more.len() == 0 {
        assert(evs + more =~= evs);
    } else {
        let front = more.drop_last();
        an_outage_that_fits_loses_nothing(evs, front, max_events, max_bytes);
        assert((evs + front).push(more.last()) =~= evs + more);
        lemma_bytes_of_pushed(evs + front, more.last());
    }
}

/// What waits is told event by event, the oldest first.
pub proof fn events_are_told_one_by_one(buffer: Seq<BufferedEvent>)
    ensures
        events(buffer).len() == buffer.len(),
        forall|i: int|
            0 <= i < buffer.len() ==> (#[trigger] events(buffer)[i]).0 == buffer[i].topic@
                && events(buffer)[i].1 == contents(buffer[i].payload),
{
}

/// The bytes of events add up, each by the length of its payload.
pub proof fn payload_bytes_add_up(evs: Seq<Event>, ev: Event)
    ensures
        payload_bytes(seq![]) == 0,
        payload_bytes(evs.push(ev)) == payload_bytes(evs) + ev.1.len(),
{
    lemma_bytes_of_pushed(evs, ev);
}

/// Of the waiting events, as many of the latest stay as leave room for the new one, by
/// number and by bytes; it comes last. One that is too large by itself, or for which no
/// place is allowed, changes nothing.
pub proof fn the_buffer_in_full(evs: Seq<Event>, ev: Event, max_events: nat, max_bytes: nat)
    ensures
        max_events == 0 || ev.1.len() > max_bytes ==> joined(evs, ev, max_events, max_bytes)
            == evs,
        max_events > 0 && ev.1.len() <= max_bytes ==> {
            let now = joined(evs, ev, max_events, max_bytes);
            let gone = evs.len() + 1 - now.len();
            &&& 0 <= gone <= evs.len()
            &&& now == evs.skip(gone).push(ev)
            &&& now.len() <= max_events
            &&& payload_bytes(now) <= max_bytes
            &&& forall|n: int|
                0 <= n < gone ==> evs.len() - n + 1 > max_events || payload_bytes(
                    #[trigger] evs.skip(n),
                ) + ev.1.len() > max_bytes
        },
{
    assert(payload_bytes(seq![]) == 0);
    if max_events > 0 && ev.1.len() <= max_bytes {
        events_are_dropped_only_when_full(evs, ev, max_events, max_bytes);
        no_more_is_dropped_than_has_to_be(evs, ev.1.len(), max_events, max_bytes);
        buffer_stays_bounded(evs, ev, max_events, max_bytes);
        let stays = kept(evs, ev.1.len(), max_events, max_bytes);
        let gone = evs.len() + 1 - joined(evs, ev, max_events, max_bytes).len();
        assert forall|n: int| 0 <= n < gone implies evs.len() - n + 1 > max_events
            || payload_bytes(#[trigger] evs.skip(n)) + ev.1.len() > max_bytes by {
            assert(n < evs.len() - stays.len());
            assert(!fits(evs.skip(n), ev.1.len(), max_events, max_bytes));
        }
    }
}

/// A count goes on as far as it can, and stays there.
pub proof fn counts_stop_at_their_end(n: u32, k: int)
    ensures
        n < u32::MAX ==> counted(n) == n + 1,
        n == u32::MAX ==> counted(n) == n,
        k <= u64::MAX ==> capped(k) == k,
        k > u64::MAX ==> capped(k) == u64::MAX,
{
}

/// The watcher's counts are those of the probes.
pub proof fn the_watcher_counts_probes(w: Watcher, state: HubState)
    ensures
        w.streak(state).state == state,
        w.streak(state).failures == w.consecutive_failures,
        w.streak(state).successes == w.consecutive_successes,
{
}

/// One probe: a failure takes a hub down that is up, if it is one of at least as many in
/// a row as the threshold asks for; a success brings one back up in the same way; and
/// either ends the row of the other.
pub proof fn one_probe_in_full(s: Streak, down_threshold: u32, up_threshold: u32, ok: bool)
    ensures
        ({
            let t = probed(s, down_threshold, up_threshold, ok);
            &&& s.state == HubState::Up && ok ==> t.state == HubState::Up
            &&& s.state == HubState::Down && !ok ==> t.state == HubState::Down
            &&& s.state == HubState::Up && !ok ==> (t.state == HubState::Down <==> s.failures + 1
                >= down_threshold)
            &&& s.state == HubState::Down && ok ==> (t.state == HubState::Up <==> s.successes + 1
                >= up_threshold)
            &&& ok ==> t.failures == 0
            &&& !ok ==> t.successes == 0
            &&& t.state != s.state ==> t.failures == 0 && t.successes == 0
            &&& t.state == s.state && ok && s.successes < u32::MAX ==> t.successes == s.successes
                + 1
            &&& t.state == s.state && ok && s.successes == u32::MAX ==> t.successes == u32::MAX
            &&& t.state == s.state && !ok && s.failures < u32::MAX ==> t.failures == s.failures + 1
            &&& t.state == s.state && !ok && s.failures == u32::MAX ==> t.failures == u32::MAX
        }),
{
}

/// However the probes stand, as many failures in a row as the threshold asks for leave
/// the hub down, and as many successes leave it up.
pub proof fn enough_in_a_row_decide(
    s: Streak,
    down_threshold: u32,
    up_threshold: u32,
    n: nat,
    ok: bool,
)
    requires
        n >= 1,
        ok ==> n >= up_threshold,
        !ok ==> n >= down_threshold,
    ensures
        after(s, down_threshold, up_threshold, all_probes(n, ok)).state == (if ok {
            HubState::Up
        } else {
            HubState::Down
        }),
{
    lemma_row(s, down_threshold, up_threshold, n, ok);
}

proof fn lemma_row(s: Streak, down_threshold: u32, up_threshold: u32, n: nat, ok: bool)
    ensures
        ({
            let t = after(s, down_threshold, up_threshold, all_probes(n, ok));
            &&& ok ==> t.state == HubState::Up || (t.successes >= n || t.successes == u32::MAX)
                && n < up_threshold || n == 0
            &&& !ok ==> t.state == HubState::Down || (t.failures >= n || t.failures == u32::MAX)
                && n < down_threshold || n == 0
        }),
    decreases n,
{
    if n > 0 {
        assert(all_probes(n, ok).drop_last() =~= all_probes((n - 1) as nat, ok));
        lemma_row(s, down_threshold, up_threshold, (n - 1) as nat, ok);
    }
}

/// How a status event is published: over the connection that there is; failing that, or
/// without one, over a new one; and no more than that.
pub proof fn publishing_step_by_step(ok: bool)
    ensures
        EmitStep::first(true) == EmitStep::Publish,
        EmitStep::first(false) == EmitStep::Reconnect,
        EmitStep::Publish.following(true) == EmitStep::Done,
        EmitStep::Publish.following(false) == EmitStep::Reconnect,
        EmitStep::Reconnect.following(true) == EmitStep::PublishAgain,
        EmitStep::Reconnect.following(false) == EmitStep::Done,
        EmitStep::PublishAgain.following(ok) == EmitStep::Done,
        EmitStep::Done.following(ok) == EmitStep::Done,
{
}

/// The time in a state is counted in whole seconds.
pub proof fn seconds_are_whole(liveness: HubLivenessState, now_nanos: u64)
    ensures
        now_nanos >= liveness.state_since ==> liveness.seconds_at(now_nanos) * 1_000_000_000
            <= now_nanos - liveness.state_since < (liveness.seconds_at(now_nanos) + 1)
            * 1_000_000_000,
        now_nanos < liveness.state_since ==> liveness.seconds_at(now_nanos) == 0,
{
}

/// The states have their names.
pub proof fn states_are_named(state: HubState)
    ensures
        state == HubState::Up ==> state.text() == "UP"@,
        state == HubState::Down ==> state.text() == "DOWN"@,
{
}

/// The event that the hub went down tells the node, since when, and when all was well
/// last.
pub proof fn a_down_event_in_full(node: Seq<char>, since_ts: u64, last_ok_ts: u64)
    ensures
        down_data(node, since_ts, last_ok_ts) == Json::Object(
            map![
                "node"@ => Json::Text(node),
                "since_ts"@ => Json::Number(decimal(since_ts as nat)),
                "last_ok_ts"@ => Json::Number(decimal(last_ok_ts as nat))
            ],
        ),
{
    reveal_strlit("node");
    reveal_strlit("since_ts");
    reveal_strlit("last_ok_ts");
    assert("node"@.len() == 4);
    assert("since_ts"@.len() == 8);
    assert("last_ok_ts"@.len() == 10);
    let p = seq![
        ("node"@, Json::Text(node)),
        ("since_ts"@, Json::Number(decimal(since_ts as nat))),
        ("last_ok_ts"@, Json::Number(decimal(last_ok_ts as nat))),
    ];
    assert(keys_differ(p));
    objects_hold_their_pairs(p);
    assert(p[0].0 == "node"@ && p[1].0 == "since_ts"@ && p[2].0 == "last_ok_ts"@);
    let m = map![
        "node"@ => Json::Text(node),
        "since_ts"@ => Json::Number(decimal(since_ts as nat)),
        "last_ok_ts"@ => Json::Number(decimal(last_ok_ts as nat))
    ];
    assert(object(p)->Object_0 =~= m);
}

/// The event that the hub came back tells the node, and for how long it was down.
pub proof fn an_up_event_in_full(node: Seq<char>, down_duration_secs: u64)
    ensures
        up_data(node, down_duration_secs) == Json::Object(
            map![
                "node"@ => Json::Text(node),
                "down_duration_secs"@ => Json::Number(decimal(down_duration_secs as nat))
            ],
        ),
{
    reveal_strlit("node");
    reveal_strlit("down_duration_secs");
    assert("node"@.len() == 4);
    assert("down_duration_secs"@.len() == 18);
    let p = seq![
        ("node"@, Json::Text(node)),
        ("down_duration_secs"@, Json::Number(decimal(down_duration_secs as nat))),
    ];
    assert(keys_differ(p));
    objects_hold_their_pairs(p);
    assert(p[0].0 == "node"@ && p[1].0 == "down_duration_secs"@);
    let m = map![
        "node"@ => Json::Text(node),
        "down_duration_secs"@ => Json::Number(decimal(down_duration_secs as nat))
    ];
    assert(object(p)->Object_0 =~= m);
}

/// A hub is probed until a probe succeeds, and if none does, exactly as often as it takes
/// to call it down.
pub proof fn probing_ends_in_time(tried: u32, down_threshold: u32)
    ensures
        !tries_again(true, tried, down_threshold),
        tries_again(false, tried, down_threshold) <==> tried + 1 <= down_threshold,
{
}

/// The hub comes back as long after it went down as it says.
pub proof fn outages_last_until_they_end(down_since_ts: u64, now_ts: u64)
    ensures
        down_since_ts <= now_ts ==> down_since_ts + outage_secs(down_since_ts, now_ts) == now_ts,
        down_since_ts > now_ts ==> outage_secs(down_since_ts, now_ts) == 0,
{
}

} // verus!
