//! Constellation dispatch layer: jobs, the capability registry and placement.
//!
//! - Jobs go onto the `WM_WORK` stream under subjects `wm.work.<class>.<detail>`.
//!   They carry references and paths, never large blobs: what exceeds
//!   [`MAX_JOB_PAYLOAD_BYTES`] is rejected.
//! - Each node reports a [`NodeCapability`] under `node.<name>` in the `WM_NODES`
//!   bucket.
//! - [`place_job`] routes by capability: GPU jobs to nodes with a GPU, build and
//!   test jobs to the node with the lowest load per core.
//!
//! # Cloud-build routing invariant
//!
//! Nodes that serve the local LLM advertise `no_build: true` or the role
//! [`NodeRole::LocalLlm`], or both. Build and test jobs are never placed on them.

use crate::json::{
    filled, from_number, from_text, json, json_of_bytes, keys_differ, member, null, number, object,
    ordered_bytes, pairs_in, plain, whole, write_members, EncodeError, Json, NESTING_LIMIT,
};
use crate::load::{lemma_lower_chains, LoadAverage};
use crate::text::{
    case_is_set_aside_letter_by_letter, contains, decimal, decimal_reads_back, first_word,
    first_word_of, lemma_contains_middle, lines, lines_of, number_of, parse_number,
    same_but_for_case, same_ignoring_case, same_letter, same_text, strip_prefix, text_opt, texts,
    to_decimal, trim, trimmed,
};
use vstd::prelude::*;

verus! {

// ─── constants ──────────────────────────────────────────────────────────────
/// NATS stream name for the work-queue.
pub const WORK_STREAM: &'static str = "WM_WORK";

/// NATS KV bucket name for the capability registry.
pub const NODES_BUCKET: &'static str = "WM_NODES";

/// Subject prefix for work messages.
pub const WORK_SUBJECT_PREFIX: &'static str = "wm.work.";

/// Hard upper bound on job payload bytes to keep the bus lean: 64 KiB.
pub const MAX_JOB_PAYLOAD_BYTES: usize = 64 * 1024;

// ─── node capability ────────────────────────────────────────────────────────
/// High-level role of a fleet node. A `LocalLlm` node never receives
/// compilation workloads.
#[derive(Debug, Clone, Copy, PartialEq, Eq, Structural)]
pub enum NodeRole {
    /// Dedicated local-LLM inference node: build and test jobs never go here.
    LocalLlm,
    /// Generic cloud worker: build, test, and (if GPU present) infer.
    CloudWorker,
    /// Laptop or personal machine.
    Laptop,
    /// Specialised GPU inference server.
    GpuInfer,
}

/// Live snapshot of a node's hardware capacity, written to the registry.
#[derive(Debug, Clone, Copy, PartialEq)]
pub struct NodeCapability {
    /// Logical CPU count (hyperthreads).
    pub cores: u32,
    /// Total installed RAM in GiB.
    pub ram_gb: u32,
    /// Whether a GPU is present.
    pub gpu: bool,
    /// GPU VRAM in GiB (0 when no GPU).
    pub vram_gb: u32,
    /// 1-minute load average.
    pub load1: LoadAverage,
    /// Current queue depth (jobs claimed, not yet acked).
    pub queue_depth: u32,
    /// Unix timestamp of this snapshot (seconds since epoch).
    pub ts: u64,
    /// When `true`, build and test jobs are never placed on this node.
    pub no_build: bool,
    /// Semantic node role, a guard alongside `no_build`.
    pub role: Option<NodeRole>,
}

impl NodeCapability {
    /// The load per core is below two.
    pub open spec fn available(self) -> bool {
        self.cores != 0 && self.load1.below((2 * self.cores) as nat)
    }

    pub open spec fn gpu_capable(self) -> bool {
        self.gpu && self.vram_gb > 0
    }

    pub open spec fn build_eligible(self) -> bool {
        !self.no_build && self.role != Some(NodeRole::LocalLlm)
    }

    /// How long ago the snapshot was taken; none at all if it lies ahead.
    pub open spec fn age(self, now_secs: u64) -> u64 {
        if now_secs >= self.ts {
            (now_secs - self.ts) as u64
        } else {
            0
        }
    }

    pub open spec fn stale(self, now_secs: u64, max_age_secs: u64) -> bool {
        self.age(now_secs) > max_age_secs
    }

    /// Whether this node is healthy and can accept new jobs: its load per core is
    /// below two. Whether the record is recent is for the caller to check.
    pub fn is_available(&self) -> (r: bool)
        ensures
            r == self.available(),
            r <==> self.cores >= 1 && self.load1.below((2 * self.cores) as nat),
    {
        if self.cores == 0 {
            return false;
        }
        self.load1.is_below(2 * (self.cores as u64))
    }

    /// Whether this node can serve GPU / inference jobs.
    pub fn has_gpu(&self) -> (r: bool)
        ensures
            r == self.gpu_capable(),
            r <==> self.gpu && self.vram_gb >= 1,
    {
        self.gpu && self.vram_gb > 0
    }

    /// Whether the record is older than `max_age_secs` at `now_secs` (seconds
    /// since epoch).
    pub fn is_stale(&self, now_secs: u64, max_age_secs: u64) -> (r: bool)
        ensures
            r == self.stale(now_secs, max_age_secs),
            r <==> self.ts + max_age_secs < now_secs,
    {
        now_secs.saturating_sub(self.ts) > max_age_secs
    }

    /// Whether build and test jobs may be placed on this node: `no_build` is
    /// `false` and the role is not [`NodeRole::LocalLlm`].
    pub fn is_build_eligible(&self) -> (r: bool)
        ensures
            r == self.build_eligible(),
            r <==> !self.no_build && (self.role is None || self.role->0 is CloudWorker
                || self.role->0 is Laptop || self.role->0 is GpuInfer),
    {
        if self.no_build {
            return false;
        }
        match self.role {
            Some(NodeRole::LocalLlm) => false,
            _ => true,
        }
    }
}

// ─── jobs ───────────────────────────────────────────────────────────────────
/// Job class: the routing domain.
#[derive(Debug, Clone, Copy, PartialEq, Eq, Hash, Structural)]
pub enum JobClass {
    /// Compilation job, routed by cores and load.
    Build,
    /// Inference / embedding job, requires a GPU.
    Infer,
    /// Test execution job.
    Test,
    /// Any class that is not known here.
    Unknown,
}

impl JobClass {
    pub open spec fn suffix(self) -> Seq<char> {
        match self {
            JobClass::Build => "build"@,
            JobClass::Infer => "infer"@,
            JobClass::Test => "test"@,
            JobClass::Unknown => "unknown"@,
        }
    }

    /// Whether jobs of this class keep off nodes that must not build.
    pub open spec fn compiles(self) -> bool {
        self is Build || self is Test
    }

    /// The NATS subject suffix for this class (e.g. `build`).
    pub fn subject_suffix(&self) -> (s: &'static str)
        ensures
            s@ == self.suffix(),
    {
        match self {
            JobClass::Build => "build",
            JobClass::Infer => "infer",
            JobClass::Test => "test",
            JobClass::Unknown => "unknown",
        }
    }

    /// The full NATS subject prefix for this class.
    pub fn subject_prefix(&self) -> (s: String)
        ensures
            s@ == WORK_SUBJECT_PREFIX@ + self.suffix(),
    {
        let mut s = WORK_SUBJECT_PREFIX.to_string();
        s.append(self.subject_suffix());
        s
    }
}

/// A job submitted onto `WM_WORK`.
#[derive(Debug, Clone)]
pub struct Job {
    /// Unique job identifier.
    pub id: String,
    /// Routing class.
    pub class: JobClass,
    /// Optional detail tag (appended to the subject: `wm.work.build.rust`).
    pub detail: Option<String>,
    /// Job payload: a path or reference, not a large blob.
    pub payload: serde_json::Value,
    /// Wall-clock submission time (seconds since Unix epoch).
    pub submitted_at: u64,
    /// If set, the one node that this job is intended for.
    pub pinned_node: Option<String>,
}

/// An optional string as a JSON value.
pub open spec fn text_or_null(s: Option<String>) -> Json {
    match s {
        Some(t) => Json::Text(t@),
        None => Json::Null,
    }
}

fn value_of(s: &Option<String>) -> (v: serde_json::Value)
    ensures
        json(v) == text_or_null(*s),
{
    match s {
        Some(t) => from_text(t.clone()),
        None => null(),
    }
}

impl Job {
    /// `wm.work.<class>[.<detail>]`
    pub open spec fn subject_text(self) -> Seq<char> {
        let base = WORK_SUBJECT_PREFIX@ + self.class.suffix();
        match self.detail {
            Some(d) => if d@.len() > 0 {
                base + "."@ + d@
            } else {
                base
            },
            None => base,
        }
    }

    /// Where the job is routed to: its subject, and the node that it is pinned to.
    pub open spec fn route_text(self) -> Seq<char> {
        match self.pinned_node {
            Some(pin) => if pin@.len() > 0 {
                self.subject_text() + "."@ + pin@
            } else {
                self.subject_text()
            },
            None => self.subject_text(),
        }
    }

    /// The members of the job's JSON object, in the order in which they stand.
    pub open spec fn fields(self) -> Seq<(Seq<char>, Json)> {
        seq![
            ("id"@, Json::Text(self.id@)),
            ("class"@, Json::Text(self.class.suffix())),
            ("detail"@, text_or_null(self.detail)),
            ("payload"@, json(self.payload)),
            ("submitted_at"@, number(self.submitted_at as nat)),
            ("pinned_node"@, text_or_null(self.pinned_node)),
        ]
    }

    /// The NATS subject for this job: `wm.work.<class>[.<detail>]`.
    pub fn subject(&self) -> (s: String)
        ensures
            s@ == self.subject_text(),
    {
        let mut s = self.class.subject_prefix();
        match &self.detail {
            Some(d) => {
                if !d.as_str().is_empty() {
                    s.append(".");
                    s.append(d.as_str());
                }
            },
            None => {},
        }
        s
    }

    /// The NATS subject that this job is routed to:
    /// `wm.work.<class>[.<detail>][.<pinned node>]`.
    pub fn route(&self) -> (s: String)
        ensures
            s@ == self.route_text(),
    {
        let mut s = self.subject();
        match &self.pinned_node {
            Some(pin) => {
                if !pin.as_str().is_empty() {
                    s.append(".");
                    s.append(pin.as_str());
                }
            },
            None => {},
        }
        s
    }

    /// Serializes the job to bytes for publishing. It never fails.
    ///
    /// Whoever reads the bytes finds the members of the job there, unless the payload
    /// holds a number with a fraction or is nested too deep to be read.
    pub fn to_bytes(&self) -> (r: Result<Vec<u8>, EncodeError>)
        ensures
            r is Ok,
            r->Ok_0@ == ordered_bytes(self.fields()),
            plain(json(self.payload), (NESTING_LIMIT - 1) as nat) ==> json_of_bytes(r->Ok_0@)
                == Some(object(self.fields())),
    {
        let mut fields: Vec<(String, serde_json::Value)> = Vec::new();
        fields.push(("id".to_string(), from_text(self.id.clone())));
        fields.push(("class".to_string(), from_text(self.class.subject_suffix().to_string())));
        fields.push(("detail".to_string(), value_of(&self.detail)));
        fields.push(("payload".to_string(), self.payload.clone()));
        fields.push(("submitted_at".to_string(), from_number(self.submitted_at)));
        fields.push(("pinned_node".to_string(), value_of(&self.pinned_node)));
        assert(pairs_in(fields@) =~= self.fields());
        proof {
            lemma_job_members(*self);
            if plain(json(self.payload), (NESTING_LIMIT - 1) as nat) {
                lemma_plain_job(*self);
            }
        }
        match write_members(fields) {
            Ok(b) => Ok(b),
            Err(e) => Err(EncodeError::new("job serialize", &e)),
        }
    }
}

proof fn lemma_job_members(job: Job)
    ensures
        keys_differ(job.fields()),
        filled(job.fields()) == map![
            "id"@ => Json::Text(job.id@),
            "class"@ => Json::Text(job.class.suffix()),
            "detail"@ => text_or_null(job.detail),
            "payload"@ => json(job.payload),
            "submitted_at"@ => number(job.submitted_at as nat),
            "pinned_node"@ => text_or_null(job.pinned_node)
        ],
{
    reveal_strlit("id");
    reveal_strlit("class");
    reveal_strlit("detail");
    reveal_strlit("payload");
    reveal_strlit("submitted_at");
    reveal_strlit("pinned_node");
    assert("id"@.len() == 2);
    assert("class"@.len() == 5);
    assert("detail"@.len() == 6);
    assert("payload"@.len() == 7);
    assert("submitted_at"@.len() == 12);
    assert("pinned_node"@.len() == 11);
    let p6 = job.fields();
    let p5 = p6.drop_last();
    let p4 = p5.drop_last();
    let p3 = p4.drop_last();
    let p2 = p3.drop_last();
    let p1 = p2.drop_last();
    assert(p1.drop_last() =~= Seq::empty());
    assert(filled(p1.drop_last()) == Map::<Seq<char>, Json>::empty());
    assert(filled(p1) == Map::<Seq<char>, Json>::empty().insert(p6[0].0, p6[0].1));
    assert(filled(p2) == filled(p1).insert(p6[1].0, p6[1].1));
    assert(filled(p3) == filled(p2).insert(p6[2].0, p6[2].1));
    assert(filled(p4) == filled(p3).insert(p6[3].0, p6[3].1));
    assert(filled(p5) == filled(p4).insert(p6[4].0, p6[4].1));
    assert(filled(p6) == filled(p5).insert(p6[5].0, p6[5].1));
}

proof fn lemma_plain_job(job: Job)
    requires
        plain(json(job.payload), (NESTING_LIMIT - 1) as nat),
    ensures
        plain(object(job.fields()), NESTING_LIMIT as nat),
{
    lemma_job_members(job);
    let members = filled(job.fields());
    assert(whole(decimal(job.submitted_at as nat)));
    assert forall|key: Seq<char>| #[trigger] members.contains_key(key) implies plain(
        members[key],
        (NESTING_LIMIT - 1) as nat,
    ) by {}
}

/// What a job was made of can be read off its JSON object: each part stands under a
/// name of its own, so that jobs with the same object agree in all of them.
pub proof fn jobs_are_told_by_their_members(a: Job, b: Job)
    ensures
        member(object(a.fields()), "id"@) == Some(Json::Text(a.id@)),
        member(object(a.fields()), "class"@) == Some(Json::Text(a.class.suffix())),
        member(object(a.fields()), "detail"@) == Some(text_or_null(a.detail)),
        member(object(a.fields()), "payload"@) == Some(json(a.payload)),
        member(object(a.fields()), "submitted_at"@) == Some(number(a.submitted_at as nat)),
        member(object(a.fields()), "pinned_node"@) == Some(text_or_null(a.pinned_node)),
        object(a.fields()) == object(b.fields()) ==> {
            &&& a.id@ == b.id@
            &&& a.class == b.class
            &&& text_opt(a.detail) == text_opt(b.detail)
            &&& json(a.payload) == json(b.payload)
            &&& a.submitted_at == b.submitted_at
            &&& text_opt(a.pinned_node) == text_opt(b.pinned_node)
        },
{
    lemma_job_members(a);
    lemma_job_members(b);
    reveal_strlit("id");
    reveal_strlit("class");
    reveal_strlit("detail");
    reveal_strlit("payload");
    reveal_strlit("submitted_at");
    reveal_strlit("pinned_node");
    if object(a.fields()) == object(b.fields()) {
        reveal_strlit("build");
        reveal_strlit("infer");
        reveal_strlit("test");
        reveal_strlit("unknown");
        assert("build"@.len() == 5 && "infer"@.len() == 5);
        assert("test"@.len() == 4 && "unknown"@.len() == 7);
        assert("build"@[0] != "infer"@[0]);
        assert(a.class.suffix() == b.class.suffix());
        decimal_reads_back(a.submitted_at as nat, u64::MAX as nat);
        decimal_reads_back(b.submitted_at as nat, u64::MAX as nat);
    }
}

// ─── payload size guard ─────────────────────────────────────────────────────
/// A job payload exceeds the bus size limit.
#[derive(Debug, Clone, Copy, PartialEq, Eq, Structural)]
pub struct PayloadTooLarge {
    /// Actual serialized size in bytes.
    pub actual: usize,
    /// Configured limit in bytes.
    pub limit: usize,
}

impl PayloadTooLarge {
    /// The message for the user.
    pub fn to_string(&self) -> (s: String)
        ensures
            s@ == "job payload "@ + decimal(self.actual as nat) + " bytes exceeds bus limit "@
                + decimal(self.limit as nat)
                + " bytes — use shared storage for large artifacts"@,
    {
        let mut s = "job payload ".to_string();
        s.append(to_decimal(self.actual as u64).as_str());
        s.append(" bytes exceeds bus limit ");
        s.append(to_decimal(self.limit as u64).as_str());
        s.append(" bytes — use shared storage for large artifacts");
        s
    }
}

/// Checks that a serialized job payload stays within [`MAX_JOB_PAYLOAD_BYTES`].
pub fn check_payload_size(bytes: &[u8]) -> (r: Result<(), PayloadTooLarge>)
    ensures
        r is Ok <==> bytes@.len() <= MAX_JOB_PAYLOAD_BYTES,
        r is Ok <==> bytes@.len() <= 65536,
        r is Err ==> r->Err_0 == (PayloadTooLarge {
            actual: bytes@.len() as usize,
            limit: MAX_JOB_PAYLOAD_BYTES,
        }),
{
    if bytes.len() > MAX_JOB_PAYLOAD_BYTES {
        Err(PayloadTooLarge { actual: bytes.len(), limit: MAX_JOB_PAYLOAD_BYTES })
    } else {
        Ok(())
    }
}

// ─── the fleet ──────────────────────────────────────────────────────────────
/// The nodes of the fleet by name. No name occurs twice.
pub struct Fleet {
    nodes: Vec<(String, NodeCapability)>,
}

/// What entries filled in turn hold.
spec fn registry(nodes: Seq<(String, NodeCapability)>) -> Map<Seq<char>, NodeCapability>
    decreases nodes.len(),
{
    if nodes.len() == 0 {
        Map::empty()
    } else {
        registry(nodes.drop_last()).insert(nodes.last().0@, nodes.last().1)
    }
}

spec fn names_distinct(nodes: Seq<(String, NodeCapability)>) -> bool {
    forall|i: int, j: int|
        0 <= i < j < nodes.len() ==> (#[trigger] nodes[i]).0@ != (#[trigger] nodes[j]).0@
}

/// The registry holds the entries and nothing else.
proof fn lemma_registry(nodes: Seq<(String, NodeCapability)>)
    requires
        names_distinct(nodes),
    ensures
        forall|i: int|
            0 <= i < nodes.len() ==> registry(nodes).contains_key((#[trigger] nodes[i]).0@)
                && registry(nodes)[nodes[i].0@] == nodes[i].1,
        forall|name: Seq<char>| #[trigger]
            registry(nodes).contains_key(name) ==> exists|i: int|
                0 <= i < nodes.len() && (#[trigger] nodes[i]).0@ == name,
    decreases nodes.len(),
{
    if nodes.len() > 0 {
        let front = nodes.drop_last();
        assert forall|i: int, j: int| 0 <= i < j < front.len() implies (#[trigger] front[i]).0@ != (
        #[trigger] front[j]).0@ by {
            assert(nodes[i].0@ != nodes[j].0@);
        }
        lemma_registry(front);
        let last = nodes.len() - 1;
        assert forall|i: int| 0 <= i < nodes.len() implies registry(nodes).contains_key(
            (#[trigger] nodes[i]).0@,
        ) && registry(nodes)[nodes[i].0@] == nodes[i].1 by {
            if i < last {
                assert(front[i] == nodes[i]);
                assert(nodes[i].0@ != nodes[last].0@);
            }
        }
        assert forall|name: Seq<char>| #[trigger]
            registry(nodes).contains_key(name) implies exists|i: int|
            0 <= i < nodes.len() && (#[trigger] nodes[i]).0@ == name by {
            if name == nodes[last].0@ {
            } else {
                assert(registry(front).contains_key(name));
                let i = choose|i: int| 0 <= i < front.len() && (#[trigger] front[i]).0@ == name;
                assert(nodes[i] == front[i]);
            }
        }
    }
}

impl Fleet {
    #[verifier::type_invariant]
    spec fn no_name_twice(self) -> bool {
        names_distinct(self.nodes@)
    }

    /// The nodes by name.
    pub closed spec fn view(&self) -> Map<Seq<char>, NodeCapability> {
        registry(self.nodes@)
    }

    /// A fleet without nodes.
    pub fn new() -> (r: Fleet)
        ensures
            r@ == Map::<Seq<char>, NodeCapability>::empty(),
    {
        Fleet { nodes: Vec::new() }
    }

    /// Enters a node, in place of the one that had its name before.
    pub fn insert(&mut self, name: String, cap: NodeCapability)
        ensures
            final(self)@ == old(self)@.insert(name@, cap),
    {
        proof {
            use_type_invariant(&*self);
        }
        let mut nodes: Vec<(String, NodeCapability)> = Vec::new();
        std::mem::swap(&mut nodes, &mut self.nodes);
        let ghost before = nodes@;
        let mut i: usize = 0;
        while i < nodes.len() && !same_text(nodes[i].0.as_str(), name.as_str())
            invariant
                i <= nodes@.len(),
                forall|k: int| 0 <= k < i ==> (#[trigger] nodes@[k]).0@ != name@,
            decreases nodes@.len() - i,
        {
            i = i + 1;
        }
        if i < nodes.len() {
            nodes.set(i, (name, cap));
            proof {
                lemma_replaced(before, i as int, nodes@[i as int]);
            }
        } else {
            nodes.push((name, cap));
            proof {
                assert(nodes@.drop_last() =~= before);
            }
        }
        self.nodes = nodes;
    }
}

/// To replace the entry of a name is to enter it anew.
proof fn lemma_replaced(
    nodes: Seq<(String, NodeCapability)>,
    i: int,
    entry: (String, NodeCapability),
)
    requires
        names_distinct(nodes),
        0 <= i < nodes.len(),
        nodes[i].0@ == entry.0@,
    ensures
        names_distinct(nodes.update(i, entry)),
        registry(nodes.update(i, entry)) == registry(nodes).insert(entry.0@, entry.1),
    decreases nodes.len(),
{
    let after = nodes.update(i, entry);
    assert forall|a: int, b: int| 0 <= a < b < after.len() implies (#[trigger] after[a]).0@ != (
    #[trigger] after[b]).0@ by {
        assert(nodes[a].0@ != nodes[b].0@);
    }
    let front = nodes.drop_last();
    if i == nodes.len() - 1 {
        assert(after.drop_last() =~= front);
        assert(registry(after) =~= registry(nodes).insert(entry.0@, entry.1));
    } else {
        assert forall|a: int, b: int| 0 <= a < b < front.len() implies (#[trigger] front[a]).0@ != (
        #[trigger] front[b]).0@ by {
            assert(nodes[a].0@ != nodes[b].0@);
        }
        lemma_replaced(front, i, entry);
        assert(after.drop_last() =~= front.update(i, entry));
        assert(nodes[i].0@ != nodes[nodes.len() - 1].0@);
        assert(registry(after) =~= registry(nodes).insert(entry.0@, entry.1));
    }
}

// ─── placement ──────────────────────────────────────────────────────────────
/// Outcome of a placement decision.
#[derive(Debug, Clone, PartialEq, Eq)]
pub enum PlacementDecision {
    /// Route the job to this NATS subject (already includes the node pin, if any).
    Route(String),
    /// No qualifying node is available; the job cannot be placed right now.
    Unplaceable {
        /// Human-readable explanation of why placement failed.
        reason: String,
    },
}

/// What a placement decision says.
pub enum Placement {
    /// The subject.
    Route(Seq<char>),
    /// The reason.
    Unplaceable(Seq<char>),
}

impl PlacementDecision {
    pub open spec fn view(&self) -> Placement {
        match self {
            PlacementDecision::Route(subject) => Placement::Route(subject@),
            PlacementDecision::Unplaceable { reason } => Placement::Unplaceable(reason@),
        }
    }
}

/// Whether a node comes into question for a job: it is the one that the job is
/// pinned to, if the job is pinned; it may build, if the job compiles; and it is
/// available.
pub open spec fn candidate(job: Job, name: Seq<char>, cap: NodeCapability) -> bool {
    &&& job.pinned_node is Some ==> job.pinned_node->0@ == name
    &&& job.class.compiles() ==> cap.build_eligible()
    &&& cap.available()
}

/// Whether a node can take a job: a candidate, with a GPU if the job needs one.
pub open spec fn qualifies(job: Job, name: Seq<char>, cap: NodeCapability) -> bool {
    candidate(job, name, cap) && (job.class is Infer ==> cap.gpu_capable())
}

/// Whether some node of the fleet is a candidate for the job.
pub open spec fn has_candidate(job: Job, fleet: Map<Seq<char>, NodeCapability>) -> bool {
    exists|name: Seq<char>| #[trigger]
        fleet.contains_key(name) && candidate(job, name, fleet[name])
}

/// Whether some node of the fleet can take the job.
pub open spec fn has_qualified(job: Job, fleet: Map<Seq<char>, NodeCapability>) -> bool {
    exists|name: Seq<char>| #[trigger]
        fleet.contains_key(name) && qualifies(job, name, fleet[name])
}

/// Whether `a` is the better node for a job than `b`: a lower load for inference,
/// a lower load per core for anything else.
pub open spec fn better(class: JobClass, a: NodeCapability, b: NodeCapability) -> bool {
    if class is Infer {
        a.load1.lower(1, b.load1, 1)
    } else {
        a.load1.lower(a.cores as nat, b.load1, b.cores as nat)
    }
}

/// Where a job goes.
pub open spec fn placement(job: Job, fleet: Map<Seq<char>, NodeCapability>) -> Placement {
    if has_qualified(job, fleet) {
        Placement::Route(job.route_text())
    } else if has_candidate(job, fleet) {
        Placement::Unplaceable("no GPU-capable node available for infer job"@)
    } else {
        match job.pinned_node {
            Some(pin) => Placement::Unplaceable(
                "pinned node '"@ + pin@ + "' is not available"@,
            ),
            None => Placement::Unplaceable("no available nodes in fleet"@),
        }
    }
}

fn is_candidate(job: &Job, name: &str, cap: &NodeCapability) -> (r: bool)
    ensures
        r == candidate(*job, name@, *cap),
{
    match &job.pinned_node {
        Some(pin) => {
            if !same_text(name, pin.as_str()) {
                return false;
            }
        },
        None => {},
    }
    let compiles = match job.class {
        JobClass::Build => true,
        JobClass::Test => true,
        _ => false,
    };
    if compiles && !cap.is_build_eligible() {
        return false;
    }
    cap.is_available()
}

fn is_better(class: JobClass, a: &NodeCapability, b: &NodeCapability) -> (r: bool)
    ensures
        r == better(class, *a, *b),
{
    match class {
        JobClass::Infer => a.load1.is_lower(1, &b.load1, 1),
        _ => a.load1.is_lower(a.cores, &b.load1, b.cores),
    }
}

/// Selects the best node of the fleet for `job`: one that qualifies, such that no
/// other that does is better.
pub fn select_node(job: &Job, nodes: &Fleet) -> (r: Option<String>)
    ensures
        r is Some <==> has_qualified(*job, nodes@),
        r is Some ==> {
            let name = r->0@;
            &&& nodes@.contains_key(name)
            &&& qualifies(*job, name, nodes@[name])
            &&& forall|n: Seq<char>| #[trigger]
                nodes@.contains_key(n) && qualifies(*job, n, nodes@[n]) ==> !better(
                    job.class,
                    nodes@[n],
                    nodes@[name],
                )
        },
{
    proof {
        use_type_invariant(nodes);
        lemma_registry(nodes.nodes@);
    }
    let all = &nodes.nodes;
    let mut best: Option<usize> = None;
    let mut i: usize = 0;
    while i < all.len()
        invariant
            all@ == nodes.nodes@,
            i <= all@.len(),
            best is None ==> forall|k: int|
                0 <= k < i ==> !qualifies(*job, (#[trigger] all@[k]).0@, all@[k].1),
            best is Some ==> {
                let b = best->0 as int;
                &&& 0 <= b < i
                &&& qualifies(*job, all@[b].0@, all@[b].1)
                &&& forall|k: int|
                    0 <= k < i && qualifies(*job, (#[trigger] all@[k]).0@, all@[k].1) ==> !better(
                        job.class,
                        all@[k].1,
                        all@[b].1,
                    )
            },
        decreases all@.len() - i,
    {
        let cap = &all[i].1;
        let qualified = is_candidate(job, all[i].0.as_str(), cap) && match job.class {
            JobClass::Infer => cap.has_gpu(),
            _ => true,
        };
        if qualified {
            match best {
                None => {
                    proof {
                        lemma_better_is_strict(job.class, *cap);
                    }
                    best = Some(i);
                },
                Some(b) => {
                    if is_better(job.class, cap, &all[b].1) {
                        proof {
                            lemma_better_is_strict(job.class, *cap);
                            assert forall|k: int|
                                0 <= k < i + 1 && qualifies(
                                    *job,
                                    (#[trigger] all@[k]).0@,
                                    all@[k].1,
                                ) implies !better(job.class, all@[k].1, *cap) by {
                                if k < i && better(job.class, all@[k].1, *cap) {
                                    lemma_better_chains(
                                        job.class,
                                        all@[k].1,
                                        *cap,
                                        all@[b as int].1,
                                    );
                                }
                            }
                        }
                        best = Some(i);
                    }
                },
            }
        }
        i = i + 1;
    }
    match best {
        Some(b) => {
            let name = all[b].0.clone();
            proof {
                assert(nodes@.contains_key(all@[b as int].0@));
                assert forall|n: Seq<char>| #[trigger]
                    nodes@.contains_key(n) && qualifies(*job, n, nodes@[n]) implies !better(
                    job.class,
                    nodes@[n],
                    nodes@[name@],
                ) by {
                    let k = choose|k: int| 0 <= k < all@.len() && (#[trigger] all@[k]).0@ == n;
                    assert(nodes@[n] == all@[k].1);
                }
            }
            Some(name)
        },
        None => {
            proof {
                assert forall|n: Seq<char>| #[trigger] nodes@.contains_key(n) implies !qualifies(
                    *job,
                    n,
                    nodes@[n],
                ) by {
                    let k = choose|k: int| 0 <= k < all@.len() && (#[trigger] all@[k]).0@ == n;
                    assert(nodes@[n] == all@[k].1);
                }
            }
            None
        },
    }
}

/// Whether some node of the fleet is a candidate for the job.
fn any_candidate(job: &Job, nodes: &Fleet) -> (r: bool)
    ensures
        r == has_candidate(*job, nodes@),
{
    proof {
        use_type_invariant(nodes);
        lemma_registry(nodes.nodes@);
    }
    let all = &nodes.nodes;
    let mut i: usize = 0;
    while i < all.len()
        invariant
            all@ == nodes.nodes@,
            names_distinct(all@),
            i <= all@.len(),
            forall|k: int| 0 <= k < i ==> !candidate(*job, (#[trigger] all@[k]).0@, all@[k].1),
        decreases all@.len() - i,
    {
        if is_candidate(job, all[i].0.as_str(), &all[i].1) {
            proof {
                lemma_registry(all@);
                assert(nodes@.contains_key(all@[i as int].0@));
            }
            return true;
        }
        i = i + 1;
    }
    proof {
        assert forall|n: Seq<char>| #[trigger] nodes@.contains_key(n) implies !candidate(
            *job,
            n,
            nodes@[n],
        ) by {
            let k = choose|k: int| 0 <= k < all@.len() && (#[trigger] all@[k]).0@ == n;
            assert(nodes@[n] == all@[k].1);
        }
    }
    false
}

/// Decides where `job` goes in the fleet `nodes`.
///
/// - [`JobClass::Infer`]: among nodes with a GPU, the one with the lowest load.
/// - [`JobClass::Build`] / [`JobClass::Test`]: among nodes that may build, the one
///   with the lowest load per core.
/// - If the job has `pinned_node`, only that node is considered.
///
/// A job for which there is a node goes to the subject of the job, with the node that
/// it is pinned to, if any; the node takes it from the work-queue. Nodes that the job
/// must not run on are never considered, and overloaded nodes neither.
pub fn place_job(job: &Job, nodes: &Fleet) -> (d: PlacementDecision)
    ensures
        d@ == placement(*job, nodes@),
        d is Route <==> exists|name: Seq<char>| #[trigger]
            nodes@.contains_key(name) && {
                &&& job.pinned_node is None || job.pinned_node->0@ == name
                &&& nodes@[name].cores >= 1 && nodes@[name].load1.below(
                    (2 * nodes@[name].cores) as nat,
                )
                &&& job.class is Build || job.class is Test ==> !nodes@[name].no_build
                    && nodes@[name].role != Some(NodeRole::LocalLlm)
                &&& job.class is Infer ==> nodes@[name].gpu && nodes@[name].vram_gb >= 1
            },
{
    proof {
        a_job_is_routed_where_a_node_can_take_it(*job, nodes@);
    }
    if !any_candidate(job, nodes) {
        proof {
            lemma_qualified_is_candidate(*job, nodes@);
        }
        return match &job.pinned_node {
            Some(pin) => {
                let mut reason = "pinned node '".to_string();
                reason.append(pin.as_str());
                reason.append("' is not available");
                PlacementDecision::Unplaceable { reason }
            },
            None => PlacementDecision::Unplaceable {
                reason: "no available nodes in fleet".to_string(),
            },
        };
    }
    match select_node(job, nodes) {
        Some(_name) => PlacementDecision::Route(job.route()),
        None => PlacementDecision::Unplaceable {
            reason: "no GPU-capable node available for infer job".to_string(),
        },
    }
}

proof fn lemma_qualified_is_candidate(job: Job, fleet: Map<Seq<char>, NodeCapability>)
    ensures
        has_qualified(job, fleet) ==> has_candidate(job, fleet),
{
    if has_qualified(job, fleet) {
        let n = choose|n: Seq<char>| #[trigger]
            fleet.contains_key(n) && qualifies(job, n, fleet[n]);
        assert(fleet.contains_key(n) && candidate(job, n, fleet[n]));
    }
}

/// No node is better than itself.
proof fn lemma_better_is_strict(class: JobClass, a: NodeCapability)
    ensures
        !better(class, a, a),
{
}

/// Better than better is better, among nodes that have cores.
proof fn lemma_better_chains(
    class: JobClass,
    a: NodeCapability,
    b: NodeCapability,
    c: NodeCapability,
)
    requires
        a.cores > 0,
        b.cores > 0,
        c.cores > 0,
        better(class, a, b),
        better(class, b, c),
    ensures
        better(class, a, c),
{
    if class is Infer {
        lemma_lower_chains(a.load1, 1, b.load1, 1, c.load1, 1);
    } else {
        lemma_lower_chains(
            a.load1,
            a.cores as nat,
            b.load1,
            b.cores as nat,
            c.load1,
            c.cores as nat,
        );
    }
}

// ─── laws of placement ──────────────────────────────────────────────────────
/// A node that is no candidate for a job makes no difference to it.
proof fn lemma_others_make_no_difference(
    job: Job,
    fleet: Map<Seq<char>, NodeCapability>,
    name: Seq<char>,
    cap: NodeCapability,
)
    requires
        !candidate(job, name, cap),
        !fleet.contains_key(name),
    ensures
        placement(job, fleet.insert(name, cap)) == placement(job, fleet),
{
    let more = fleet.insert(name, cap);
    if has_candidate(job, more) {
        let n = choose|n: Seq<char>| #[trigger]
            more.contains_key(n) && candidate(job, n, more[n]);
        assert(fleet.contains_key(n) && candidate(job, n, fleet[n]));
    }
    if has_candidate(job, fleet) {
        let n = choose|n: Seq<char>| #[trigger]
            fleet.contains_key(n) && candidate(job, n, fleet[n]);
        assert(more.contains_key(n) && candidate(job, n, more[n]));
    }
    if has_qualified(job, more) {
        let n = choose|n: Seq<char>| #[trigger]
            more.contains_key(n) && qualifies(job, n, more[n]);
        assert(fleet.contains_key(n) && qualifies(job, n, fleet[n]));
    }
    if has_qualified(job, fleet) {
        let n = choose|n: Seq<char>| #[trigger]
            fleet.contains_key(n) && qualifies(job, n, fleet[n]);
        assert(more.contains_key(n) && qualifies(job, n, more[n]));
    }
}

/// A node that must not build takes no build or test job, and makes no difference to
/// one: with it in the fleet, the job is placed as without it.
pub proof fn ineligible_node_never_gets_build_work(
    job: Job,
    fleet: Map<Seq<char>, NodeCapability>,
    name: Seq<char>,
    cap: NodeCapability,
)
    requires
        job.class.compiles(),
        !cap.build_eligible(),
        !fleet.contains_key(name),
    ensures
        !qualifies(job, name, cap),
        placement(job, fleet.insert(name, cap)) == placement(job, fleet),
{
    lemma_others_make_no_difference(job, fleet, name, cap);
}

/// A fleet of which no node may build takes no build or test job: there is no
/// silent fallback.
pub proof fn fleet_without_builders_takes_no_build_work(
    job: Job,
    fleet: Map<Seq<char>, NodeCapability>,
)
    requires
        job.class.compiles(),
        forall|n: Seq<char>| #[trigger] fleet.contains_key(n) ==> !fleet[n].build_eligible(),
    ensures
        placement(job, fleet) is Unplaceable,
{
    lemma_qualified_is_candidate(job, fleet);
    assert(!has_candidate(job, fleet));
}

/// A build or test job for which there is a node that may build, is available and
/// is not ruled out by a pin is placed.
pub proof fn build_work_is_placed_where_it_can_run(
    job: Job,
    fleet: Map<Seq<char>, NodeCapability>,
    name: Seq<char>,
)
    requires
        job.class.compiles(),
        job.pinned_node is Some ==> job.pinned_node->0@ == name,
        fleet.contains_key(name),
        fleet[name].build_eligible(),
        fleet[name].available(),
    ensures
        placement(job, fleet) == Placement::Route(job.route_text()),
{
    assert(fleet.contains_key(name) && qualifies(job, name, fleet[name]));
}

/// An inference job goes nowhere without an available GPU node, and somewhere
/// with one, whatever the node says about builds.
pub proof fn inference_needs_a_gpu(job: Job, fleet: Map<Seq<char>, NodeCapability>)
    requires
        job.class is Infer,
        job.pinned_node is None,
    ensures
        placement(job, fleet) is Route <==> exists|n: Seq<char>| #[trigger]
            fleet.contains_key(n) && fleet[n].available() && fleet[n].gpu_capable(),
{
    if has_qualified(job, fleet) {
        let n = choose|n: Seq<char>| #[trigger]
            fleet.contains_key(n) && qualifies(job, n, fleet[n]);
        assert(fleet.contains_key(n) && fleet[n].available() && fleet[n].gpu_capable());
    }
    if exists|n: Seq<char>| #[trigger]
        fleet.contains_key(n) && fleet[n].available() && fleet[n].gpu_capable() {
        let n = choose|n: Seq<char>| #[trigger]
            fleet.contains_key(n) && fleet[n].available() && fleet[n].gpu_capable();
        assert(fleet.contains_key(n) && qualifies(job, n, fleet[n]));
    }
}

/// An empty fleet takes no job of any class.
pub proof fn empty_fleet_takes_nothing(job: Job)
    ensures
        placement(job, Map::empty()) is Unplaceable,
{
    lemma_qualified_is_candidate(job, Map::empty());
}

/// A job pinned to a node that is not in the fleet goes nowhere, and one pinned to
/// a node that is goes by that node alone.
pub proof fn only_the_pinned_node_counts(
    job: Job,
    fleet: Map<Seq<char>, NodeCapability>,
    pin: String,
)
    requires
        job.pinned_node == Some(pin),
    ensures
        placement(job, fleet) is Route <==> fleet.contains_key(pin@) && qualifies(
            job,
            pin@,
            fleet[pin@],
        ),
{
}

/// An overloaded node, with two or more of load per core, takes no job, and makes no
/// difference to any.
pub proof fn overloaded_nodes_take_nothing(
    job: Job,
    fleet: Map<Seq<char>, NodeCapability>,
    name: Seq<char>,
    cap: NodeCapability,
)
    requires
        cap.cores == 0 || !cap.load1.below((2 * cap.cores) as nat),
        !fleet.contains_key(name),
    ensures
        !qualifies(job, name, cap),
        placement(job, fleet.insert(name, cap)) == placement(job, fleet),
{
    lemma_others_make_no_difference(job, fleet, name, cap);
}

/// Wherever a job is routed to, the subject begins with that of the job, which begins
/// with the work prefix and the name of its class.
pub proof fn job_subjects_begin_with_their_class(job: Job)
    ensures
        (WORK_SUBJECT_PREFIX@ + job.class.suffix()).is_prefix_of(job.subject_text()),
        job.subject_text().is_prefix_of(job.route_text()),
{
    let base = WORK_SUBJECT_PREFIX@ + job.class.suffix();
    assert(base =~= job.subject_text().subrange(0, base.len() as int));
    let subject = job.subject_text();
    assert(subject =~= job.route_text().subrange(0, subject.len() as int));
}

/// The route of a pinned job names the node that it is pinned to.
pub proof fn a_pinned_route_names_its_node(
    job: Job,
    fleet: Map<Seq<char>, NodeCapability>,
    pin: String,
)
    requires
        job.pinned_node == Some(pin),
        placement(job, fleet) is Route,
    ensures
        contains(placement(job, fleet)->Route_0, pin@),
        pin@.len() > 0 ==> placement(job, fleet)->Route_0 == job.subject_text() + "."@ + pin@,
{
    let front = if pin@.len() > 0 {
        job.subject_text() + "."@
    } else {
        job.subject_text()
    };
    lemma_contains_middle(front, pin@, seq![]);
    assert(front + pin@ + seq![] =~= job.route_text());
}

// ─── drop / unplaceable log record ──────────────────────────────────────────
/// Logged when a job is dropped, capped, or unplaceable, so that no job loss is
/// silent.
#[derive(Debug, Clone)]
pub struct JobDropRecord {
    /// Job identifier.
    pub job_id: String,
    /// Reason for the drop.
    pub reason: String,
    /// Unix timestamp (seconds).
    pub ts: u64,
}

// ─── local capacity sampler ─────────────────────────────────────────────────
/// What a node reads about itself; each reading may fail.
pub struct LocalReadings {
    /// How many threads can run at once.
    pub parallelism: Option<usize>,
    /// The text of `/proc/meminfo`.
    pub meminfo: Option<String>,
    /// The 1-minute load average from `/proc/loadavg`.
    pub load1: Option<LoadAverage>,
    /// The environment variable `WM_VRAM_GB`.
    pub vram_gb: Option<String>,
    /// Seconds since the Unix epoch.
    pub unix_secs: Option<u64>,
    /// The environment variable `WM_NO_BUILD`.
    pub no_build: Option<String>,
    /// The environment variable `WM_NODE_ROLE`.
    pub role: Option<String>,
}

/// KiB in whole GiB, as far as they can be counted.
pub open spec fn whole_gib(kib: nat) -> u32 {
    if kib / (1024 * 1024) <= u32::MAX {
        (kib / (1024 * 1024)) as u32
    } else {
        u32::MAX
    }
}

/// The total RAM, in GiB, by the first of the lines that tells it.
pub open spec fn total_ram(lines: Seq<Seq<char>>) -> Option<u32>
    decreases lines.len(),
{
    if lines.len() == 0 {
        None
    } else if "MemTotal:"@.is_prefix_of(lines[0]) {
        match first_word_of(lines[0].skip("MemTotal:"@.len() as int)) {
            Some(word) => match number_of(word, u64::MAX as nat) {
                Some(kib) => Some(whole_gib(kib)),
                None => None,
            },
            None => None,
        }
    } else {
        total_ram(lines.drop_first())
    }
}

/// The role that a word names.
pub open spec fn role_of(word: Seq<char>) -> Option<NodeRole> {
    if word == "local_llm"@ {
        Some(NodeRole::LocalLlm)
    } else if word == "cloud_worker"@ {
        Some(NodeRole::CloudWorker)
    } else if word == "laptop"@ {
        Some(NodeRole::Laptop)
    } else if word == "gpu_infer"@ {
        Some(NodeRole::GpuInfer)
    } else {
        None
    }
}

/// Whether a word says yes.
pub open spec fn says_yes(word: Seq<char>) -> bool {
    word == "1"@ || same_but_for_case(word, "true"@)
}

impl LocalReadings {
    pub open spec fn cores(self) -> u32 {
        match self.parallelism {
            Some(n) => if 0 < n <= u32::MAX {
                n as u32
            } else {
                1
            },
            None => 1,
        }
    }

    pub open spec fn ram_gb(self) -> u32 {
        match self.meminfo {
            Some(text) => match total_ram(lines_of(text@)) {
                Some(gib) => gib,
                None => 0,
            },
            None => 0,
        }
    }

    pub open spec fn vram(self) -> u32 {
        match self.vram_gb {
            Some(text) => match number_of(text@, u32::MAX as nat) {
                Some(gib) => gib as u32,
                None => 0,
            },
            None => 0,
        }
    }

    /// The record that these readings come to.
    pub open spec fn capacity(self, queue_depth: u32) -> NodeCapability {
        NodeCapability {
            cores: self.cores(),
            ram_gb: self.ram_gb(),
            gpu: self.vram() > 0,
            vram_gb: self.vram(),
            load1: match self.load1 {
                Some(load) => load,
                None => LoadAverage { bits: 0 },
            },
            queue_depth,
            ts: match self.unix_secs {
                Some(secs) => secs,
                None => 0,
            },
            no_build: match self.no_build {
                Some(text) => says_yes(trimmed(text@)),
                None => false,
            },
            role: match self.role {
                Some(text) => role_of(trimmed(text@)),
                None => None,
            },
        }
    }
}

/// The local node's hardware capacity, as far as it could be read: what could not
/// takes its default, so that there always is a valid record.
pub fn sample_local_capacity(queue_depth: u32, readings: &LocalReadings) -> (r: NodeCapability)
    ensures
        r == readings.capacity(queue_depth),
        r.queue_depth == queue_depth,
        r.gpu <==> r.vram_gb >= 1,
        r.no_build <==> readings.no_build is Some && ({
            let word = trimmed(readings.no_build->0@);
            ||| word.len() == 1 && word[0] == '1'
            ||| word.len() == 4 && (word[0] == 't' || word[0] == 'T') && (word[1] == 'r' || word[1]
                == 'R') && (word[2] == 'u' || word[2] == 'U') && (word[3] == 'e' || word[3] == 'E')
        }),
        r.cores >= 1,
{
    proof {
        if readings.no_build is Some {
            lemma_yes(trimmed(readings.no_build->0@));
        }
    }
    let cores: u32 = match readings.parallelism {
        Some(n) => if 0 < n && n <= u32::MAX as usize {
            n as u32
        } else {
            1
        },
        None => 1,
    };
    let ram_gb: u32 = match &readings.meminfo {
        Some(text) => match read_ram_gb_from_meminfo(text.as_str()) {
            Some(gib) => gib,
            None => 0,
        },
        None => 0,
    };
    let load1 = match readings.load1 {
        Some(load) => load,
        None => LoadAverage { bits: 0 },
    };
    let vram_gb: u32 = match &readings.vram_gb {
        Some(text) => match parse_number(text.as_str(), u32::MAX as u64) {
            Some(gib) => gib as u32,
            None => 0,
        },
        None => 0,
    };
    let ts: u64 = match readings.unix_secs {
        Some(secs) => secs,
        None => 0,
    };
    let no_build = match &readings.no_build {
        Some(text) => {
            let word = trim(text.as_str());
            same_text(word.as_str(), "1") || same_ignoring_case(word.as_str(), "true")
        },
        None => false,
    };
    let role = match &readings.role {
        Some(text) => parse_role(trim(text.as_str()).as_str()),
        None => None,
    };
    NodeCapability {
        cores,
        ram_gb,
        gpu: vram_gb > 0,
        vram_gb,
        load1,
        queue_depth,
        ts,
        no_build,
        role,
    }
}

/// The role that `word` names (e.g. `local_llm`).
pub fn parse_role(word: &str) -> (r: Option<NodeRole>)
    ensures
        r == role_of(word@),
{
    if same_text(word, "local_llm") {
        Some(NodeRole::LocalLlm)
    } else if same_text(word, "cloud_worker") {
        Some(NodeRole::CloudWorker)
    } else if same_text(word, "laptop") {
        Some(NodeRole::Laptop)
    } else if same_text(word, "gpu_infer") {
        Some(NodeRole::GpuInfer)
    } else {
        None
    }
}

/// Total RAM in GiB, from the text of `/proc/meminfo`.
pub fn read_ram_gb_from_meminfo(text: &str) -> (r: Option<u32>)
    ensures
        r == total_ram(lines_of(text@)),
{
    let all = lines(text);
    let ghost views = lines_of(text@);
    let mut i: usize = 0;
    assert(views.skip(0) =~= views);
    while i < all.len()
        invariant
            i <= all@.len(),
            texts(all@) == views,
            views == lines_of(text@),
            total_ram(views) == total_ram(views.skip(i as int)),
        decreases all@.len() - i,
    {
        assert(views[i as int] == all@[i as int]@);
        assert(views.skip(i as int)[0] == views[i as int]);
        match strip_prefix(all[i].as_str(), "MemTotal:") {
            Some(rest) => {
                return match first_word(rest.as_str()) {
                    Some(word) => match parse_number(word.as_str(), u64::MAX) {
                        Some(kib) => {
                            let gib: u64 = kib / (1024 * 1024);
                            if gib <= u32::MAX as u64 {
                                Some(gib as u32)
                            } else {
                                Some(u32::MAX)
                            }
                        },
                        None => None,
                    },
                    None => None,
                };
            },
            None => {},
        }
        assert(views.skip(i as int).drop_first() =~= views.skip(i + 1));
        i = i + 1;
    }
    None
}

proof fn lemma_yes(word: Seq<char>)
    ensures
        says_yes(word) <==> {
            ||| word.len() == 1 && word[0] == '1'
            ||| word.len() == 4 && (word[0] == 't' || word[0] == 'T') && (word[1] == 'r' || word[1]
                == 'R') && (word[2] == 'u' || word[2] == 'U') && (word[3] == 'e' || word[3] == 'E')
        },
{
    reveal_strlit("1");
    reveal_strlit("true");
    let t = "true"@;
    assert(t.len() == 4 && t[0] == 't' && t[1] == 'r' && t[2] == 'u' && t[3] == 'e');
    case_is_set_aside_letter_by_letter(word, t);
    assert(word.len() == 1 && word[0] == '1' ==> word =~= "1"@);
    if same_but_for_case(word, t) {
        assert(same_letter(word[0], t[0]));
        assert(same_letter(word[1], t[1]));
        assert(same_letter(word[2], t[2]));
        assert(same_letter(word[3], t[3]));
    }
}

// ─── laws of nodes ──────────────────────────────────────────────────────────
/// A node may build if and only if its flag does not forbid it and it does not serve the
/// local LLM: cloud workers, laptops, GPU servers and nodes without a role may.
pub proof fn only_the_flag_and_the_llm_role_forbid_builds(cap: NodeCapability)
    ensures
        cap.build_eligible() <==> !cap.no_build && (cap.role is None || cap.role->0 is CloudWorker
            || cap.role->0 is Laptop || cap.role->0 is GpuInfer),
{
}

/// A node is available if and only if it has cores and less than two of load for each.
pub proof fn availability_goes_by_load_per_core(cap: NodeCapability)
    ensures
        cap.available() <==> cap.cores >= 1 && cap.load1.below((2 * cap.cores) as nat),
{
}

/// A node serves inference if and only if it has a GPU and memory on it.
pub proof fn inference_takes_gpu_and_memory(cap: NodeCapability)
    ensures
        cap.gpu_capable() <==> cap.gpu && cap.vram_gb >= 1,
{
}

/// A record is stale if and only if more time has passed since than is allowed, and its
/// age is that time.
pub proof fn staleness_goes_by_the_time_passed(cap: NodeCapability, now_secs: u64, max_secs: u64)
    ensures
        cap.stale(now_secs, max_secs) <==> cap.ts + max_secs < now_secs,
        now_secs >= cap.ts ==> cap.ts + cap.age(now_secs) == now_secs,
        now_secs < cap.ts ==> cap.age(now_secs) == 0,
{
}

// ─── laws of jobs and routes ────────────────────────────────────────────────
/// The classes have their names, and build and test jobs are those that compile.
pub proof fn classes_are_named(class: JobClass)
    ensures
        class == JobClass::Build ==> class.suffix() == "build"@ && class.compiles(),
        class == JobClass::Infer ==> class.suffix() == "infer"@ && !class.compiles(),
        class == JobClass::Test ==> class.suffix() == "test"@ && class.compiles(),
        class == JobClass::Unknown ==> class.suffix() == "unknown"@ && !class.compiles(),
{
}

/// The subject of a job is the work prefix, its class and, behind a dot, its detail; the
/// route has, behind another dot, the node that the job is pinned to. What is empty or
/// missing takes no dot.
pub proof fn subjects_and_routes_in_full(job: Job)
    ensures
        job.detail is None || job.detail->0@.len() == 0 ==> job.subject_text() == "wm.work."@
            + job.class.suffix(),
        job.detail is Some && job.detail->0@.len() > 0 ==> job.subject_text() == "wm.work."@
            + job.class.suffix() + "."@ + job.detail->0@,
        job.pinned_node is None || job.pinned_node->0@.len() == 0 ==> job.route_text()
            == job.subject_text(),
        job.pinned_node is Some && job.pinned_node->0@.len() > 0 ==> job.route_text()
            == job.subject_text() + "."@ + job.pinned_node->0@,
{
}

/// A job is written as its six members, in this order.
pub proof fn a_job_is_written_member_by_member(job: Job)
    ensures
        job.fields() == seq![
            ("id"@, Json::Text(job.id@)),
            ("class"@, Json::Text(job.class.suffix())),
            (
                "detail"@,
                if job.detail is Some {
                    Json::Text(job.detail->0@)
                } else {
                    Json::Null
                },
            ),
            ("payload"@, json(job.payload)),
            ("submitted_at"@, Json::Number(decimal(job.submitted_at as nat))),
            (
                "pinned_node"@,
                if job.pinned_node is Some {
                    Json::Text(job.pinned_node->0@)
                } else {
                    Json::Null
                },
            ),
        ],
{
}

/// A decision says all that it holds.
pub proof fn a_placement_says_all_it_holds(d: PlacementDecision)
    ensures
        d is Route <==> d@ is Route,
        d is Route ==> d@->Route_0 == d->Route_0@,
        d is Unplaceable ==> d@->Unplaceable_0 == d->reason@,
{
}

/// A node can take a job if and only if the job is pinned to it or to none; it has cores
/// and less than two of load for each; it may build, for a build or test job; and it has
/// a GPU and memory on it, for an inference job.
pub proof fn who_can_take_a_job(job: Job, name: Seq<char>, cap: NodeCapability)
    ensures
        qualifies(job, name, cap) <==> {
            &&& job.pinned_node is None || job.pinned_node->0@ == name
            &&& cap.cores >= 1 && cap.load1.below((2 * cap.cores) as nat)
            &&& job.class is Build || job.class is Test ==> !cap.no_build && cap.role != Some(
                NodeRole::LocalLlm,
            )
            &&& job.class is Infer ==> cap.gpu && cap.vram_gb >= 1
        },
{
}

/// A job is routed, to its route, if and only if some node of the fleet can take it.
pub proof fn a_job_is_routed_where_a_node_can_take_it(
    job: Job,
    fleet: Map<Seq<char>, NodeCapability>,
)
    ensures
        placement(job, fleet) is Route <==> exists|name: Seq<char>| #[trigger]
            fleet.contains_key(name) && {
                &&& job.pinned_node is None || job.pinned_node->0@ == name
                &&& fleet[name].cores >= 1 && fleet[name].load1.below(
                    (2 * fleet[name].cores) as nat,
                )
                &&& job.class is Build || job.class is Test ==> !fleet[name].no_build
                    && fleet[name].role != Some(NodeRole::LocalLlm)
                &&& job.class is Infer ==> fleet[name].gpu && fleet[name].vram_gb >= 1
            },
        placement(job, fleet) is Route ==> placement(job, fleet)->Route_0 == job.route_text(),
{
    if placement(job, fleet) is Route {
        let n = choose|n: Seq<char>| #[trigger]
            fleet.contains_key(n) && qualifies(job, n, fleet[n]);
        who_can_take_a_job(job, n, fleet[n]);
    } else {
        assert forall|n: Seq<char>| #[trigger] fleet.contains_key(n) implies !qualifies(
            job,
            n,
            fleet[n],
        ) by {}
    }
}

/// A node without a ban on builds, whose role is not that of the local LLM, takes every
/// build and test job that is not pinned elsewhere, as long as it has less than two of
/// load for each of its cores; whatever else is in the fleet.
pub proof fn any_builder_takes_build_work(
    job: Job,
    fleet: Map<Seq<char>, NodeCapability>,
    name: Seq<char>,
)
    requires
        job.class is Build || job.class is Test,
        job.pinned_node is None || job.pinned_node->0@ == name,
        fleet.contains_key(name),
        !fleet[name].no_build,
        fleet[name].role is None || fleet[name].role->0 is CloudWorker || fleet[name].role->0
            is Laptop || fleet[name].role->0 is GpuInfer,
        fleet[name].cores >= 1,
        fleet[name].load1.below((2 * fleet[name].cores) as nat),
    ensures
        placement(job, fleet) == Placement::Route(job.route_text()),
{
    a_job_is_routed_where_a_node_can_take_it(job, fleet);
}

/// Another node in the fleet never takes a route away.
pub proof fn more_nodes_place_no_fewer_jobs(
    job: Job,
    fleet: Map<Seq<char>, NodeCapability>,
    name: Seq<char>,
    cap: NodeCapability,
)
    requires
        placement(job, fleet) is Route,
        !fleet.contains_key(name),
    ensures
        placement(job, fleet.insert(name, cap)) == placement(job, fleet),
{
    let n = choose|n: Seq<char>| #[trigger] fleet.contains_key(n) && qualifies(job, n, fleet[n]);
    let more = fleet.insert(name, cap);
    assert(more.contains_key(n) && qualifies(job, n, more[n]));
}

/// Why a job is not placed: no node is available to it, pinned or not; or, for inference
/// alone, none of those that are has a GPU.
pub proof fn why_a_job_is_not_placed(job: Job, fleet: Map<Seq<char>, NodeCapability>)
    requires
        placement(job, fleet) is Unplaceable,
    ensures
        ({
            let some = exists|name: Seq<char>| #[trigger]
                fleet.contains_key(name) && {
                    &&& job.pinned_node is None || job.pinned_node->0@ == name
                    &&& fleet[name].cores >= 1 && fleet[name].load1.below(
                        (2 * fleet[name].cores) as nat,
                    )
                    &&& job.class is Build || job.class is Test ==> !fleet[name].no_build
                        && fleet[name].role != Some(NodeRole::LocalLlm)
                };
            let reason = placement(job, fleet)->Unplaceable_0;
            &&& some ==> job.class is Infer && reason
                == "no GPU-capable node available for infer job"@
            &&& !some && job.pinned_node is None ==> reason == "no available nodes in fleet"@
            &&& !some && job.pinned_node is Some ==> reason == "pinned node '"@
                + job.pinned_node->0@ + "' is not available"@
        }),
{
    if has_candidate(job, fleet) {
        let n = choose|n: Seq<char>| #[trigger]
            fleet.contains_key(n) && candidate(job, n, fleet[n]);
        assert(fleet.contains_key(n));
        assert(!qualifies(job, n, fleet[n]));
    } else {
        assert forall|n: Seq<char>| #[trigger] fleet.contains_key(n) implies !candidate(
            job,
            n,
            fleet[n],
        ) by {}
    }
}

/// The better node for inference has the lower load, and for other work the lower load
/// per core.
pub proof fn the_less_loaded_node_is_better(class: JobClass, a: NodeCapability, b: NodeCapability)
    ensures
        class is Infer ==> better(class, a, b) == a.load1.lower(1, b.load1, 1),
        !(class is Infer) ==> better(class, a, b) == a.load1.lower(
            a.cores as nat,
            b.load1,
            b.cores as nat,
        ),
        a.load1.is_finite() && b.load1.is_finite() && class is Infer ==> (better(class, a, b)
            <==> a.load1.steps() < b.load1.steps()),
        a.load1.is_finite() && b.load1.is_finite() && !(class is Infer) ==> (better(class, a, b)
            <==> a.load1.steps() * b.cores < b.load1.steps() * a.cores),
{
}

// ─── laws of the sample ─────────────────────────────────────────────────────
/// The record bans builds if and only if the variable is set to `1` or, in letters of
/// either case, to `true`, whatever white space is around it.
pub proof fn builds_are_banned_by_one_or_true(readings: LocalReadings, queue_depth: u32)
    ensures
        readings.capacity(queue_depth).no_build <==> readings.no_build is Some && ({
            let word = trimmed(readings.no_build->0@);
            ||| word.len() == 1 && word[0] == '1'
            ||| word.len() == 4 && (word[0] == 't' || word[0] == 'T') && (word[1] == 'r' || word[1]
                == 'R') && (word[2] == 'u' || word[2] == 'U') && (word[3] == 'e' || word[3] == 'E')
        }),
{
    if readings.no_build is Some {
        lemma_yes(trimmed(readings.no_build->0@));
    }
}

/// The record has the role whose name the variable is set to, whatever white space is
/// around it, and none for any other text.
pub proof fn roles_are_read_by_their_names(readings: LocalReadings, queue_depth: u32)
    ensures
        readings.role is None ==> readings.capacity(queue_depth).role is None,
        readings.role is Some ==> {
            let word = trimmed(readings.role->0@);
            let role = readings.capacity(queue_depth).role;
            &&& word == "local_llm"@ <==> role == Some(NodeRole::LocalLlm)
            &&& word == "cloud_worker"@ <==> role == Some(NodeRole::CloudWorker)
            &&& word == "laptop"@ <==> role == Some(NodeRole::Laptop)
            &&& word == "gpu_infer"@ <==> role == Some(NodeRole::GpuInfer)
        },
{
    reveal_strlit("local_llm");
    reveal_strlit("cloud_worker");
    reveal_strlit("laptop");
    reveal_strlit("gpu_infer");
    assert("local_llm"@.len() == 9 && "cloud_worker"@.len() == 12);
    assert("laptop"@.len() == 6 && "gpu_infer"@.len() == 9);
    assert("local_llm"@[0] != "gpu_infer"@[0]);
}

/// The plain readings are taken as they are where they could be read: the cores unless
/// they are none or too many to be counted, the load, the time, and the video memory if
/// it is a number, which also says that there is a GPU.
pub proof fn readings_are_taken_as_they_are(readings: LocalReadings, queue_depth: u32)
    ensures
        ({
            let cap = readings.capacity(queue_depth);
            &&& cap.queue_depth == queue_depth
            &&& readings.parallelism is Some && 1 <= readings.parallelism->0 <= u32::MAX
                ==> cap.cores == readings.parallelism->0
            &&& !(readings.parallelism is Some && 1 <= readings.parallelism->0 <= u32::MAX)
                ==> cap.cores == 1
            &&& readings.load1 is Some ==> cap.load1 == readings.load1->0
            &&& readings.load1 is None ==> cap.load1.bits == 0
            &&& readings.unix_secs is Some ==> cap.ts == readings.unix_secs->0
            &&& readings.unix_secs is None ==> cap.ts == 0
            &&& readings.vram_gb is None ==> cap.vram_gb == 0
            &&& readings.vram_gb is Some ==> match number_of(
                readings.vram_gb->0@,
                0xffff_ffff,
            ) {
                Some(n) => cap.vram_gb == n,
                None => cap.vram_gb == 0,
            }
            &&& cap.gpu <==> cap.vram_gb >= 1
            &&& readings.meminfo is None ==> cap.ram_gb == 0
            &&& readings.meminfo is Some ==> match total_ram(lines_of(readings.meminfo->0@)) {
                Some(n) => cap.ram_gb == n,
                None => cap.ram_gb == 0,
            }
        }),
{
}

/// The RAM is what the first line that begins with `MemTotal:` says: the first word behind
/// that, in KiB, as whole GiB. Lines before it make no difference, and lines behind it
/// none either, even if it says no number.
pub proof fn ram_is_told_by_the_first_line_for_it(
    front: Seq<Seq<char>>,
    rest: Seq<char>,
    back: Seq<Seq<char>>,
)
    requires
        forall|i: int|
            0 <= i < front.len() ==> !"MemTotal:"@.is_prefix_of(#[trigger] front[i]),
    ensures
        total_ram(front) is None,
        ({
            let ram = total_ram(front + seq!["MemTotal:"@ + rest] + back);
            match first_word_of(rest) {
                Some(word) => match number_of(word, 0xffff_ffff_ffff_ffff) {
                    Some(kib) => {
                        &&& ram is Some
                        &&& kib / 1_048_576 <= 0xffff_ffff ==> ram->0 == kib / 1_048_576
                        &&& kib / 1_048_576 > 0xffff_ffff ==> ram->0 == 0xffff_ffff
                    },
                    None => ram is None,
                },
                None => ram is None,
            }
        }),
    decreases front.len(),
{
    let line = "MemTotal:"@ + rest;
    let all = front + seq![line] + back;
    if front.len() == 0 {
        assert(all[0] == line);
        assert("MemTotal:"@ =~= line.subrange(0, "MemTotal:"@.len() as int));
        assert(line.skip("MemTotal:"@.len() as int) =~= rest);
    } else {
        assert(all[0] == front[0]);
        let tail = front.drop_first();
        assert forall|i: int| 0 <= i < tail.len() implies !"MemTotal:"@.is_prefix_of(
            #[trigger] tail[i],
        ) by {
            assert(tail[i] == front[i + 1]);
        }
        ram_is_told_by_the_first_line_for_it(tail, rest, back);
        assert(all.drop_first() =~= tail + seq![line] + back);
    }
}

} // verus!
