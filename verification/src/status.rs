//! The live fleet dashboard: node health, the work queue, and the table that shows
//! them.
//!
//! # Exit codes
//!
//! - 0: all nodes of the report are `up`.
//! - 1: at least one node is `STALE` or `DOWN`.
//! - 2: the NATS hub is unreachable.

use crate::dispatch::{NodeCapability, NodeRole};
use crate::hub_watcher::capped;
use crate::load::LoadAverage;
use crate::text::{
    contains, decimal, flush_left, flush_right, in_order, is_in_order, lemma_contains_middle, lines,
    lines_of, order_is_total, order_is_transitive, pad_left, pad_right, same_text, starts_with,
    strip_prefix, texts, to_decimal, trim, trimmed,
};
use vstd::prelude::*;

verus! {

/// The exit code of a report whose nodes are all up.
pub const EXIT_HEALTHY: i32 = 0;

/// The exit code of a report with a node that is stale or down.
pub const EXIT_UNHEALTHY: i32 = 1;

/// The exit code when the hub is unreachable.
pub const EXIT_UNREACHABLE: i32 = 2;

/// How long a connection to the hub may take.
pub const CONNECT_TIMEOUT_SECS: u64 = 5;

/// What precedes a node's name in its key.
pub const NODE_KEY_PREFIX: &'static str = "node.";

/// What begins a comment in the list of expected nodes.
pub const COMMENT_MARK: &'static str = "#";

// ─── options ────────────────────────────────────────────────────────────────
/// Options of the dashboard.
#[derive(Debug, Clone)]
pub struct StatusOptions {
    /// NATS server URL, such as `nats://127.0.0.1:4222`.
    pub nats_url: String,
    /// Age in seconds beyond which a node is `STALE`.
    pub stale_after_secs: u64,
    /// Emit JSON instead of the table.
    pub json: bool,
    /// Path to the list of expected nodes, if there is one.
    pub fleet_nodes_conf: Option<String>,
}

impl Default for StatusOptions {
    fn default() -> (r: Self)
        ensures
            r.nats_url@ == "nats://127.0.0.1:4222"@,
            r.stale_after_secs == 30,
            !r.json,
            r.fleet_nodes_conf is None,
    {
        StatusOptions {
            nats_url: "nats://127.0.0.1:4222".to_string(),
            stale_after_secs: 30,
            json: false,
            fleet_nodes_conf: None,
        }
    }
}

// ─── the report ─────────────────────────────────────────────────────────────
/// Health of a node.
#[derive(Debug, Clone, Copy, PartialEq, Eq, Structural)]
pub enum NodeStatus {
    /// The heartbeat is recent.
    Up,
    /// The heartbeat is too old.
    Stale,
    /// An expected node that is not in the registry.
    Down,
}

impl NodeStatus {
    /// The word for this health.
    pub open spec fn word(self) -> Seq<char> {
        match self {
            NodeStatus::Up => "up"@,
            NodeStatus::Stale => "STALE"@,
            NodeStatus::Down => "DOWN"@,
        }
    }

    /// The word for this health.
    pub fn to_string(&self) -> (s: String)
        ensures
            s@ == self.word(),
    {
        match self {
            NodeStatus::Up => "up".to_string(),
            NodeStatus::Stale => "STALE".to_string(),
            NodeStatus::Down => "DOWN".to_string(),
        }
    }
}

/// One node in the report.
#[derive(Debug, Clone)]
pub struct NodeRow {
    /// Node name: its key without the `node.` prefix.
    pub name: String,
    /// Role, such as `cloud_worker`.
    pub role: String,
    /// Logical CPU count.
    pub cores: u32,
    /// Total RAM in GiB.
    pub ram_gb: u32,
    /// 1-minute load average.
    pub load1: LoadAverage,
    /// Whether a GPU is present.
    pub gpu: bool,
    /// Seconds since the last heartbeat; none for a node that is down.
    pub hb_age_secs: Option<u64>,
    /// Health.
    pub status: NodeStatus,
}

/// One node in the report, in mathematical terms.
pub struct Row {
    pub name: Seq<char>,
    pub role: Seq<char>,
    pub cores: u32,
    pub ram_gb: u32,
    pub load1: LoadAverage,
    pub gpu: bool,
    pub hb_age_secs: Option<u64>,
    pub status: NodeStatus,
}

impl NodeRow {
    pub open spec fn view(&self) -> Row {
        Row {
            name: self.name@,
            role: self.role@,
            cores: self.cores,
            ram_gb: self.ram_gb,
            load1: self.load1,
            gpu: self.gpu,
            hb_age_secs: self.hb_age_secs,
            status: self.status,
        }
    }
}

/// The nodes of a report, in mathematical terms.
pub open spec fn rows_in(v: Seq<NodeRow>) -> Seq<Row> {
    v.map_values(|r: NodeRow| r@)
}

/// Work-queue statistics.
#[derive(Debug, Clone, Copy)]
pub struct WorkQueueStats {
    /// Messages that wait to be claimed.
    pub pending: u64,
    /// Messages that are claimed and not yet acknowledged.
    pub in_flight: u64,
}

/// The whole report.
#[derive(Debug, Clone)]
pub struct StatusReport {
    /// The nodes.
    pub nodes: Vec<NodeRow>,
    /// The work queue.
    pub work_queue: WorkQueueStats,
}

impl StatusReport {
    /// The nodes, in mathematical terms.
    pub open spec fn rows(&self) -> Seq<Row> {
        rows_in(self.nodes@)
    }
}

// ─── rows ───────────────────────────────────────────────────────────────────
/// The word for a role.
pub open spec fn role_word(role: Option<NodeRole>) -> Seq<char> {
    match role {
        Some(NodeRole::LocalLlm) => "local_llm"@,
        Some(NodeRole::CloudWorker) => "cloud_worker"@,
        Some(NodeRole::Laptop) => "laptop"@,
        Some(NodeRole::GpuInfer) => "gpu_infer"@,
        None => "unknown"@,
    }
}

fn role_display(cap: &NodeCapability) -> (s: String)
    ensures
        s@ == role_word(cap.role),
{
    match cap.role {
        Some(NodeRole::LocalLlm) => "local_llm".to_string(),
        Some(NodeRole::CloudWorker) => "cloud_worker".to_string(),
        Some(NodeRole::Laptop) => "laptop".to_string(),
        Some(NodeRole::GpuInfer) => "gpu_infer".to_string(),
        None => "unknown".to_string(),
    }
}

/// The row of a node in the registry.
pub open spec fn node_row(
    name: Seq<char>,
    cap: NodeCapability,
    now_secs: u64,
    stale_after_secs: u64,
) -> Row {
    Row {
        name,
        role: role_word(cap.role),
        cores: cap.cores,
        ram_gb: cap.ram_gb,
        load1: cap.load1,
        gpu: cap.gpu,
        hb_age_secs: Some(cap.age(now_secs)),
        status: if cap.stale(now_secs, stale_after_secs) {
            NodeStatus::Stale
        } else {
            NodeStatus::Up
        },
    }
}

/// The row of a node that is not in the registry.
pub open spec fn down_row(name: Seq<char>) -> Row {
    Row {
        name,
        role: "unknown"@,
        cores: 0,
        ram_gb: 0,
        load1: (LoadAverage { bits: 0 }),
        gpu: false,
        hb_age_secs: None,
        status: NodeStatus::Down,
    }
}

/// The row of a node in the registry, at the time `now_secs`.
pub fn make_node_row(
    name: &str,
    cap: &NodeCapability,
    now_secs: u64,
    stale_after_secs: u64,
) -> (r: NodeRow)
    ensures
        r@ == node_row(name@, *cap, now_secs, stale_after_secs),
        r.name@ == name@,
        r.status is Stale <==> cap.ts + stale_after_secs < now_secs,
        r.status is Up <==> cap.ts + stale_after_secs >= now_secs,
{
    let hb_age_secs: u64 = now_secs.saturating_sub(cap.ts);
    let status = if cap.is_stale(now_secs, stale_after_secs) {
        NodeStatus::Stale
    } else {
        NodeStatus::Up
    };
    NodeRow {
        name: name.to_string(),
        role: role_display(cap),
        cores: cap.cores,
        ram_gb: cap.ram_gb,
        load1: cap.load1,
        gpu: cap.gpu,
        hb_age_secs: Some(hb_age_secs),
        status,
    }
}

/// The row of an expected node that is not in the registry.
pub fn make_down_row(name: &str) -> (r: NodeRow)
    ensures
        r@ == down_row(name@),
        r.name@ == name@,
        r.status is Down,
{
    NodeRow {
        name: name.to_string(),
        role: "unknown".to_string(),
        cores: 0,
        ram_gb: 0,
        load1: LoadAverage::from_bits(0),
        gpu: false,
        hb_age_secs: None,
        status: NodeStatus::Down,
    }
}

// ─── the table ──────────────────────────────────────────────────────────────
/// The table could not be written.
#[derive(Debug, Clone, Copy, PartialEq, Eq)]
pub struct RenderError;

/// The mark between the nodes and the footer.
pub const RULE_MARK: char = '─';

/// How long the line between the nodes and the footer is.
pub const RULE_WIDTH: usize = 70;

/// One line of the table: names and roles flush left, then numbers flush right,
/// and the health last.
pub open spec fn table_line(
    name: Seq<char>,
    role: Seq<char>,
    cores: Seq<char>,
    ram: Seq<char>,
    load: Seq<char>,
    gpu: Seq<char>,
    age: Seq<char>,
    status: Seq<char>,
) -> Seq<char> {
    flush_left(name, 16) + " "@ + flush_left(role, 12) + " "@ + flush_right(cores, 5) + " "@
        + flush_right(ram, 7) + " "@ + flush_right(load, 6) + " "@ + flush_right(gpu, 4) + " "@
        + flush_right(age, 8) + "  "@ + status + "\n"@
}

/// The first line of the table.
pub open spec fn table_head() -> Seq<char> {
    table_line("node"@, "role"@, "cores"@, "ram"@, "load"@, "gpu"@, "hb-age"@, "status"@)
}

/// The age of a heartbeat in the table.
pub open spec fn age_text(age: Option<u64>) -> Seq<char> {
    match age {
        Some(s) => decimal(s as nat) + "s"@,
        None => "—"@,
    }
}

/// The line of one node.
pub open spec fn row_line(r: Row) -> Seq<char> {
    table_line(
        r.name,
        r.role,
        decimal(r.cores as nat),
        decimal(r.ram_gb as nat) + "Gi"@,
        r.load1.one_decimal(),
        if r.gpu {
            "yes"@
        } else {
            "none"@
        },
        age_text(r.hb_age_secs),
        r.status.word(),
    )
}

/// The lines of the nodes, in order.
pub open spec fn row_lines(rows: Seq<Row>) -> Seq<char>
    decreases rows.len(),
{
    if rows.len() == 0 {
        Seq::empty()
    } else {
        row_lines(rows.drop_last()) + row_line(rows.last())
    }
}

/// The line between the nodes and the footer.
pub open spec fn rule() -> Seq<char> {
    Seq::new(RULE_WIDTH as nat, |i: int| RULE_MARK)
}

/// The last line of the table.
pub open spec fn table_foot(q: WorkQueueStats) -> Seq<char> {
    "work-queue: "@ + decimal(q.pending as nat) + " pending · "@ + decimal(q.in_flight as nat)
        + " in-flight\n"@
}

/// The table of a report.
pub open spec fn table(rows: Seq<Row>, q: WorkQueueStats) -> Seq<char> {
    table_head() + row_lines(rows) + rule() + "\n"@ + table_foot(q)
}

fn render_line(
    name: &str,
    role: &str,
    cores: &str,
    ram: &str,
    load: &str,
    gpu: &str,
    age: &str,
    status: &str,
) -> (s: String)
    ensures
        s@ == table_line(name@, role@, cores@, ram@, load@, gpu@, age@, status@),
{
    let mut s = pad_right(name, 16);
    s.append(" ");
    s.append(pad_right(role, 12).as_str());
    s.append(" ");
    s.append(pad_left(cores, 5).as_str());
    s.append(" ");
    s.append(pad_left(ram, 7).as_str());
    s.append(" ");
    s.append(pad_left(load, 6).as_str());
    s.append(" ");
    s.append(pad_left(gpu, 4).as_str());
    s.append(" ");
    s.append(pad_left(age, 8).as_str());
    s.append("  ");
    s.append(status);
    s.append("\n");
    s
}

fn render_age(age: Option<u64>) -> (s: String)
    ensures
        s@ == age_text(age),
{
    match age {
        Some(n) => {
            let mut s = to_decimal(n);
            s.append("s");
            s
        },
        None => "—".to_string(),
    }
}

fn render_row(row: &NodeRow) -> (s: String)
    ensures
        s@ == row_line(row@),
{
    let mut ram = to_decimal(row.ram_gb as u64);
    ram.append("Gi");
    render_line(
        row.name.as_str(),
        row.role.as_str(),
        to_decimal(row.cores as u64).as_str(),
        ram.as_str(),
        row.load1.to_one_decimal().as_str(),
        if row.gpu {
            "yes"
        } else {
            "none"
        },
        render_age(row.hb_age_secs).as_str(),
        row.status.to_string().as_str(),
    )
}

fn render_rule() -> (s: String)
    ensures
        s@ == rule(),
{
    let mut s = String::new();
    let mut i: usize = 0;
    while i < RULE_WIDTH
        invariant
            i <= RULE_WIDTH,
            s@ == Seq::new(i as nat, |j: int| RULE_MARK),
        decreases RULE_WIDTH - i,
    {
        s.push(RULE_MARK);
        i = i + 1;
        assert(s@ =~= Seq::new(i as nat, |j: int| RULE_MARK));
    }
    s
}

/// Renders a report as a table: a head, a line for each node in the order of the
/// report, a rule, and the work queue. Rendering never fails.
pub fn render_table(report: &StatusReport) -> (r: Result<String, RenderError>)
    ensures
        r is Ok,
        r->Ok_0@ == table(report.rows(), report.work_queue),
{
    let mut out = render_line("node", "role", "cores", "ram", "load", "gpu", "hb-age", "status");
    let mut i: usize = 0;
    while i < report.nodes.len()
        invariant
            i <= report.nodes.len(),
            out@ == table_head() + row_lines(report.rows().take(i as int)),
        decreases report.nodes.len() - i,
    {
        out.append(render_row(&report.nodes[i]).as_str());
        proof {
            let next = report.rows().take(i + 1);
            assert(next.drop_last() =~= report.rows().take(i as int));
            assert(next.last() == report.nodes[i as int]@);
            assert(out@ =~= table_head() + row_lines(next));
        }
        i = i + 1;
    }
    assert(report.rows().take(i as int) =~= report.rows());
    out.append(render_rule().as_str());
    out.append("\n");
    let mut foot = "work-queue: ".to_string();
    foot.append(to_decimal(report.work_queue.pending).as_str());
    foot.append(" pending · ");
    foot.append(to_decimal(report.work_queue.in_flight).as_str());
    foot.append(" in-flight\n");
    out.append(foot.as_str());
    Ok(out)
}

// ─── exit codes ─────────────────────────────────────────────────────────────
/// Whether all nodes are up.
pub open spec fn all_up(rows: Seq<Row>) -> bool {
    forall|i: int| 0 <= i < rows.len() ==> (#[trigger] rows[i]).status is Up
}

/// The exit code of a report with these nodes.
pub open spec fn exit_code(rows: Seq<Row>) -> i32 {
    if all_up(rows) {
        EXIT_HEALTHY
    } else {
        EXIT_UNHEALTHY
    }
}

/// The process exit code for a report.
pub fn exit_code_for_report(report: &StatusReport) -> (r: i32)
    ensures
        r == exit_code(report.rows()),
        r == 0 || r == 1,
        r == 0 <==> forall|i: int|
            0 <= i < report.nodes@.len() ==> (#[trigger] report.nodes@[i]).status is Up,
{
    let mut i: usize = 0;
    while i < report.nodes.len()
        invariant
            i <= report.nodes.len(),
            forall|j: int| 0 <= j < i ==> (#[trigger] report.rows()[j]).status is Up,
        decreases report.nodes.len() - i,
    {
        if report.nodes[i].status != NodeStatus::Up {
            assert(!(report.rows()[i as int].status is Up));
            return EXIT_UNHEALTHY;
        }
        i = i + 1;
    }
    assert forall|j: int| 0 <= j < report.nodes@.len() implies (
    #[trigger] report.nodes@[j]).status is Up by {
        assert(report.rows()[j].status is Up);
    }
    EXIT_HEALTHY
}

// ─── the work queue ─────────────────────────────────────────────────────────
/// The sum of the counts.
pub open spec fn sum(counts: Seq<u64>) -> int
    decreases counts.len(),
{
    if counts.len() == 0 {
        0
    } else {
        sum(counts.drop_last()) + counts.last()
    }
}

/// The state of the work queue, by the number of its messages and of those that are
/// claimed, as far as they could be read.
pub open spec fn queue_state(messages: Option<u64>, in_flight: Option<u64>) -> WorkQueueStats {
    match (messages, in_flight) {
        (Some(n), Some(k)) => WorkQueueStats {
            pending: if k <= n {
                (n - k) as u64
            } else {
                0
            },
            in_flight: k,
        },
        (Some(n), None) => WorkQueueStats { pending: n, in_flight: 0 },
        (None, _) => WorkQueueStats { pending: 0, in_flight: 0 },
    }
}

/// The state of the work queue, by the number of its messages and of those that are
/// claimed and not yet acknowledged. A message leaves the queue when it is acknowledged,
/// so that those that are claimed are among its messages, and the others wait to be
/// claimed. What could not be read counts as none; without the number of messages the
/// queue counts as empty.
pub fn work_queue_stats(messages: Option<u64>, in_flight: Option<u64>) -> (r: WorkQueueStats)
    ensures
        r.pending == (match (messages, in_flight) {
            (Some(n), Some(k)) => if k <= n {
                n - k
            } else {
                0
            },
            (Some(n), None) => n as int,
            (None, _) => 0,
        }),
        r.in_flight == (match (messages, in_flight) {
            (Some(_), Some(k)) => k,
            _ => 0,
        }),
        r == queue_state(messages, in_flight),
        messages is Some && (in_flight is Some ==> in_flight->0 <= messages->0) ==> r.pending
            + r.in_flight == messages->0,
{
    match messages {
        Some(n) => match in_flight {
            Some(k) => WorkQueueStats { pending: n.saturating_sub(k), in_flight: k },
            None => WorkQueueStats { pending: n, in_flight: 0 },
        },
        None => WorkQueueStats { pending: 0, in_flight: 0 },
    }
}

/// How many messages are claimed and not yet acknowledged, by the count of each
/// consumer.
pub fn total_in_flight(counts: &Vec<u64>) -> (r: u64)
    ensures
        r == capped(sum(counts@)),
{
    let mut total: u64 = 0;
    let mut i: usize = 0;
    assert(counts@.take(0) =~= seq![]);
    while i < counts.len()
        invariant
            i <= counts@.len(),
            total == capped(sum(counts@.take(i as int))),
        decreases counts@.len() - i,
    {
        proof {
            assert(counts@.take(i + 1).drop_last() =~= counts@.take(i as int));
        }
        total = total.saturating_add(counts[i]);
        i = i + 1;
    }
    assert(counts@.take(i as int) =~= counts@);
    total
}

// ─── assembling the report ──────────────────────────────────────────────────
/// The entries of the registry: each key with what it holds.
pub type Entries = Seq<(Seq<char>, NodeCapability)>;

/// The entries of the registry, in mathematical terms.
pub open spec fn entries_in(v: Seq<(String, NodeCapability)>) -> Entries {
    v.map_values(|e: (String, NodeCapability)| (e.0@, e.1))
}

/// The node that a key of the registry stands for: the key without its prefix.
pub open spec fn node_of(key: Seq<char>) -> Seq<char> {
    if NODE_KEY_PREFIX@.is_prefix_of(key) {
        key.skip(NODE_KEY_PREFIX@.len() as int)
    } else {
        key
    }
}

/// The rows of the nodes in the registry, in the order of the registry.
pub open spec fn registered(entries: Entries, now_secs: u64, stale_after_secs: u64) -> Seq<Row> {
    entries.map_values(
        |e: (Seq<char>, NodeCapability)|
            node_row(node_of(e.0), e.1, now_secs, stale_after_secs),
    )
}

/// The node that a line of the list of expected nodes names: none if it is blank or
/// a comment.
pub open spec fn expected(line: Seq<char>) -> Option<Seq<char>> {
    let name = trimmed(line);
    if name.len() == 0 || COMMENT_MARK@.is_prefix_of(name) {
        None
    } else {
        Some(name)
    }
}

/// Whether a row has this name.
pub open spec fn names(rows: Seq<Row>, name: Seq<char>) -> bool {
    exists|i: int| 0 <= i < rows.len() && (#[trigger] rows[i]).name == name
}

/// The rows after one line of the list of expected nodes was read: a node that is
/// expected and not there yet is down.
pub open spec fn with_line(rows: Seq<Row>, line: Seq<char>) -> Seq<Row> {
    match expected(line) {
        Some(name) => if names(rows, name) {
            rows
        } else {
            rows.push(down_row(name))
        },
        None => rows,
    }
}

/// The rows after the list of expected nodes was read.
pub open spec fn with_missing(rows: Seq<Row>, list: Seq<Seq<char>>) -> Seq<Row>
    decreases list.len(),
{
    if list.len() == 0 {
        rows
    } else {
        with_line(with_missing(rows, list.drop_last()), list.last())
    }
}

/// A row put before the first of the sorted rows that it may stand before.
pub open spec fn inserted(r: Row, rows: Seq<Row>) -> Seq<Row>
    decreases rows.len(),
{
    if rows.len() == 0 || in_order(r.name, rows[0].name) {
        seq![r] + rows
    } else {
        seq![rows[0]] + inserted(r, rows.drop_first())
    }
}

/// The rows, sorted by name.
pub open spec fn sorted(rows: Seq<Row>) -> Seq<Row>
    decreases rows.len(),
{
    if rows.len() == 0 {
        rows
    } else {
        inserted(rows[0], sorted(rows.drop_first()))
    }
}

/// The nodes of the report on these entries and, where there is one, this list of
/// expected nodes.
pub open spec fn reported(
    entries: Entries,
    list: Option<Seq<char>>,
    now_secs: u64,
    stale_after_secs: u64,
) -> Seq<Row> {
    let rows = registered(entries, now_secs, stale_after_secs);
    match list {
        Some(text) => sorted(with_missing(rows, lines_of(text))),
        None => sorted(rows),
    }
}

/// The node that a key of the registry stands for.
pub fn node_name(key: &str) -> (s: String)
    ensures
        s@ == node_of(key@),
{
    match strip_prefix(key, NODE_KEY_PREFIX) {
        Some(s) => s,
        None => key.to_string(),
    }
}

/// The rows of the nodes in the registry, in the order of the registry.
pub fn registered_rows(
    entries: &Vec<(String, NodeCapability)>,
    now_secs: u64,
    stale_after_secs: u64,
) -> (rows: Vec<NodeRow>)
    ensures
        rows_in(rows@) == registered(entries_in(entries@), now_secs, stale_after_secs),
{
    let mut rows: Vec<NodeRow> = Vec::new();
    let mut i: usize = 0;
    let ghost all = registered(entries_in(entries@), now_secs, stale_after_secs);
    while i < entries.len()
        invariant
            i <= entries.len(),
            all == registered(entries_in(entries@), now_secs, stale_after_secs),
            rows_in(rows@) == all.take(i as int),
        decreases entries.len() - i,
    {
        let name = node_name(entries[i].0.as_str());
        let row = make_node_row(name.as_str(), &entries[i].1, now_secs, stale_after_secs);
        proof {
            assert(row@ == all[i as int]);
            assert(rows_in(rows@.push(row)) =~= rows_in(rows@).push(row@));
            assert(all.take(i as int).push(row@) =~= all.take(i + 1));
        }
        rows.push(row);
        i = i + 1;
    }
    assert(all.take(i as int) =~= all);
    rows
}

fn has_row(rows: &Vec<NodeRow>, name: &str) -> (r: bool)
    ensures
        r == names(rows_in(rows@), name@),
{
    let mut i: usize = 0;
    while i < rows.len()
        invariant
            i <= rows.len(),
            forall|j: int| 0 <= j < i ==> (#[trigger] rows_in(rows@)[j]).name != name@,
        decreases rows.len() - i,
    {
        if same_text(rows[i].name.as_str(), name) {
            assert(rows_in(rows@)[i as int].name == name@);
            return true;
        }
        i = i + 1;
    }
    false
}

/// Adds a row for each node that the list expects and that has none yet: one node to
/// a line, where blank lines and lines that begin with `#` name none.
pub fn add_missing(rows: Vec<NodeRow>, list: &str) -> (r: Vec<NodeRow>)
    ensures
        rows_in(r@) == with_missing(rows_in(rows@), lines_of(list@)),
{
    let ghost start = rows_in(rows@);
    let mut rows = rows;
    let list_lines = lines(list);
    let ghost all = lines_of(list@);
    assert(all.take(0) =~= Seq::empty());
    let mut i: usize = 0;
    while i < list_lines.len()
        invariant
            i <= list_lines.len(),
            texts(list_lines@) == all,
            rows_in(rows@) == with_missing(start, all.take(i as int)),
        decreases list_lines.len() - i,
    {
        let name = trim(list_lines[i].as_str());
        let ghost before = rows_in(rows@);
        proof {
            assert(all[i as int] == list_lines[i as int]@);
            assert(all.take(i + 1).drop_last() =~= all.take(i as int));
            assert(all.take(i + 1).last() == all[i as int]);
        }
        if !name.as_str().is_empty() && !starts_with(name.as_str(), COMMENT_MARK) && !has_row(
            &rows,
            name.as_str(),
        ) {
            let row = make_down_row(name.as_str());
            assert(rows_in(rows@.push(row)) =~= rows_in(rows@).push(row@));
            rows.push(row);
        }
        assert(rows_in(rows@) == with_line(before, all[i as int]));
        i = i + 1;
    }
    assert(all.take(i as int) =~= all);
    rows
}

proof fn lemma_inserted_at(r: Row, rows: Seq<Row>, k: int)
    requires
        0 <= k <= rows.len(),
        forall|j: int| 0 <= j < k ==> !in_order(r.name, (#[trigger] rows[j]).name),
        k < rows.len() ==> in_order(r.name, rows[k].name),
    ensures
        inserted(r, rows) == rows.insert(k, r),
    decreases k,
{
    if k == 0 {
        assert(seq![r] + rows =~= rows.insert(0, r));
    } else {
        let rest = rows.drop_first();
        assert(rest[k - 1] == rows[k] || k == rows.len());
        assert forall|j: int| 0 <= j < k - 1 implies !in_order(r.name, (#[trigger] rest[j]).name) by {
            assert(rest[j] == rows[j + 1]);
        }
        lemma_inserted_at(r, rest, k - 1);
        assert(!in_order(r.name, rows[0].name));
        assert(seq![rows[0]] + rest.insert(k - 1, r) =~= rows.insert(k, r));
    }
}

/// Sorts rows by name. Rows of the same name keep their order.
pub fn sort_rows(rows: Vec<NodeRow>) -> (r: Vec<NodeRow>)
    ensures
        rows_in(r@) == sorted(rows_in(rows@)),
{
    let ghost all = rows_in(rows@);
    let mut rows = rows;
    let mut out: Vec<NodeRow> = Vec::new();
    assert(all.skip(rows@.len() as int) =~= Seq::empty());
    assert(rows_in(out@) =~= Seq::empty());
    while rows.len() > 0
        invariant
            rows@.len() <= all.len(),
            rows_in(rows@) == all.take(rows@.len() as int),
            rows_in(out@) == sorted(all.skip(rows@.len() as int)),
        decreases rows.len(),
    {
        let ghost n = rows@.len();
        let ghost last = rows_in(rows@)[n - 1];
        let ghost rest = all.skip(n as int);
        match rows.pop() {
            Some(row) => {
                proof {
                    assert(row@ == last);
                    assert(last == all[n - 1]);
                    assert(all.skip(n - 1).drop_first() =~= rest);
                    assert(rows_in(rows@) =~= all.take(n - 1));
                }
                let mut k: usize = 0;
                while k < out.len() && !is_in_order(row.name.as_str(), out[k].name.as_str())
                    invariant
                        k <= out.len(),
                        forall|j: int|
                            0 <= j < k ==> !in_order(row.name@, (#[trigger] rows_in(out@)[j]).name),
                    decreases out.len() - k,
                {
                    assert(rows_in(out@)[k as int].name == out[k as int].name@);
                    k = k + 1;
                }
                proof {
                    lemma_inserted_at(row@, rows_in(out@), k as int);
                    assert(rows_in(out@.insert(k as int, row)) =~= rows_in(out@).insert(
                        k as int,
                        row@,
                    ));
                }
                out.insert(k, row);
            },
            None => {},
        }
    }
    assert(all.skip(0) =~= all);
    out
}

/// Assembles the report from the entries of the registry, the list of expected nodes
/// if there is one, and the state of the work queue.
pub fn assemble_report(
    entries: &Vec<(String, NodeCapability)>,
    list: Option<&str>,
    now_secs: u64,
    stale_after_secs: u64,
    work_queue: WorkQueueStats,
) -> (r: StatusReport)
    ensures
        r.rows() == reported(
            entries_in(entries@),
            match list {
                Some(text) => Some(text@),
                None => None,
            },
            now_secs,
            stale_after_secs,
        ),
        r.work_queue == work_queue,
{
    let rows = registered_rows(entries, now_secs, stale_after_secs);
    let rows = match list {
        Some(text) => add_missing(rows, text),
        None => rows,
    };
    StatusReport { nodes: sort_rows(rows), work_queue }
}

// ─── laws ───────────────────────────────────────────────────────────────────
/// Whether rows stand in the order of their names.
pub open spec fn by_name(rows: Seq<Row>) -> bool {
    forall|i: int, j: int|
        0 <= i < j < rows.len() ==> in_order((#[trigger] rows[i]).name, (#[trigger] rows[j]).name)
}

/// The rows of one name, in their order.
pub open spec fn rows_named(rows: Seq<Row>, name: Seq<char>) -> Seq<Row>
    decreases rows.len(),
{
    if rows.len() == 0 {
        rows
    } else if rows[0].name == name {
        seq![rows[0]] + rows_named(rows.drop_first(), name)
    } else {
        rows_named(rows.drop_first(), name)
    }
}

proof fn lemma_inserted_multiset(r: Row, rows: Seq<Row>)
    ensures
        inserted(r, rows).to_multiset() == rows.to_multiset().insert(r),
        inserted(r, rows).len() == rows.len() + 1,
    decreases rows.len(),
{
    broadcast use vstd::seq_lib::group_to_multiset_ensures;

    if rows.len() == 0 || in_order(r.name, rows[0].name) {
        assert(seq![r] + rows =~= rows.insert(0, r));
    } else {
        let rest = rows.drop_first();
        lemma_inserted_multiset(r, rest);
        let sub = inserted(r, rest);
        assert(seq![rows[0]] + sub =~= sub.insert(0, rows[0]));
        assert(rows =~= rest.insert(0, rows[0]));
        assert(rest.to_multiset().insert(r).insert(rows[0]) =~= rest.to_multiset().insert(
            rows[0],
        ).insert(r));
    }
}

proof fn lemma_inserted_by_name(r: Row, rows: Seq<Row>)
    requires
        by_name(rows),
    ensures
        by_name(inserted(r, rows)),
    decreases rows.len(),
{
    if rows.len() == 0 {
        assert(seq![r] + rows =~= seq![r]);
    } else if in_order(r.name, rows[0].name) {
        let out = seq![r] + rows;
        assert forall|i: int, j: int| 0 <= i < j < out.len() implies in_order(
            (#[trigger] out[i]).name,
            (#[trigger] out[j]).name,
        ) by {
            assert(out[j] == rows[j - 1]);
            if i == 0 {
                if j > 1 {
                    order_is_transitive(r.name, rows[0].name, rows[j - 1].name);
                }
            } else {
                assert(out[i] == rows[i - 1]);
            }
        }
    } else {
        let rest = rows.drop_first();
        let sub = inserted(r, rest);
        assert forall|i: int, j: int| 0 <= i < j < rest.len() implies in_order(
            (#[trigger] rest[i]).name,
            (#[trigger] rest[j]).name,
        ) by {
            assert(rest[i] == rows[i + 1]);
            assert(rest[j] == rows[j + 1]);
        }
        lemma_inserted_by_name(r, rest);
        lemma_inserted_multiset(r, rest);
        let out = seq![rows[0]] + sub;
        order_is_total(r.name, rows[0].name);
        assert forall|j: int| 0 <= j < sub.len() implies in_order(
            rows[0].name,
            (#[trigger] sub[j]).name,
        ) by {
            lemma_member_of_inserted(r, rest, j);
            if sub[j] != r {
                let k = choose|k: int| 0 <= k < rest.len() && rest[k] == sub[j];
                assert(rest[k] == rows[k + 1]);
                assert(in_order(rows[0].name, rows[k + 1].name));
            }
        }
        assert forall|i: int, j: int| 0 <= i < j < out.len() implies in_order(
            (#[trigger] out[i]).name,
            (#[trigger] out[j]).name,
        ) by {
            assert(out[j] == sub[j - 1]);
            if i > 0 {
                assert(out[i] == sub[i - 1]);
            }
        }
    }
}

proof fn lemma_member_of_inserted(r: Row, rows: Seq<Row>, j: int)
    requires
        0 <= j < inserted(r, rows).len(),
    ensures
        inserted(r, rows)[j] == r || exists|k: int|
            0 <= k < rows.len() && rows[k] == inserted(r, rows)[j],
    decreases rows.len(),
{
    if rows.len() == 0 || in_order(r.name, rows[0].name) {
        if j > 0 {
            assert(inserted(r, rows)[j] == rows[j - 1]);
        }
    } else {
        let rest = rows.drop_first();
        if j == 0 {
            assert(inserted(r, rows)[0] == rows[0]);
        } else {
            lemma_member_of_inserted(r, rest, j - 1);
            assert(inserted(r, rows)[j] == inserted(r, rest)[j - 1]);
            if inserted(r, rest)[j - 1] != r {
                let k = choose|k: int| 0 <= k < rest.len() && rest[k] == inserted(r, rest)[j - 1];
                assert(rows[k + 1] == rest[k]);
            }
        }
    }
}

proof fn lemma_inserted_named(r: Row, rows: Seq<Row>, name: Seq<char>)
    ensures
        rows_named(inserted(r, rows), name) == if r.name == name {
            seq![r] + rows_named(rows, name)
        } else {
            rows_named(rows, name)
        },
    decreases rows.len(),
{
    let out = inserted(r, rows);
    if rows.len() == 0 || in_order(r.name, rows[0].name) {
        assert(out[0] == r);
        assert(out.drop_first() =~= rows);
    } else {
        let rest = rows.drop_first();
        lemma_inserted_named(r, rest, name);
        assert(out[0] == rows[0]);
        assert(out.drop_first() =~= inserted(r, rest));
        if rows[0].name == name && r.name == name {
            order_is_total(name, name);
        }
    }
}

/// The nodes of a sorted report stand in the order of their names.
pub proof fn sorting_orders_by_name(rows: Seq<Row>)
    ensures
        by_name(sorted(rows)),
    decreases rows.len(),
{
    if rows.len() > 0 {
        sorting_orders_by_name(rows.drop_first());
        lemma_inserted_by_name(rows[0], sorted(rows.drop_first()));
    }
}

/// Sorting neither loses nor adds a row.
pub proof fn sorting_keeps_the_rows(rows: Seq<Row>)
    ensures
        sorted(rows).to_multiset() == rows.to_multiset(),
        sorted(rows).len() == rows.len(),
    decreases rows.len(),
{
    broadcast use vstd::seq_lib::group_to_multiset_ensures;

    if rows.len() > 0 {
        let rest = rows.drop_first();
        sorting_keeps_the_rows(rest);
        lemma_inserted_multiset(rows[0], sorted(rest));
        assert(rows =~= rest.insert(0, rows[0]));
    }
}

/// Rows of the same name keep their order.
pub proof fn sorting_is_stable(rows: Seq<Row>, name: Seq<char>)
    ensures
        rows_named(sorted(rows), name) == rows_named(rows, name),
    decreases rows.len(),
{
    if rows.len() > 0 {
        sorting_is_stable(rows.drop_first(), name);
        lemma_inserted_named(rows[0], sorted(rows.drop_first()), name);
    }
}

/// A row is in the sorted rows if and only if it was among the rows before.
pub proof fn sorting_keeps_each_row(rows: Seq<Row>, r: Row)
    ensures
        sorted(rows).contains(r) <==> rows.contains(r),
{
    broadcast use vstd::seq_lib::group_to_multiset_ensures;

    sorting_keeps_the_rows(rows);
    assert(rows.contains(r) <==> rows.to_multiset().count(r) > 0);
    assert(sorted(rows).contains(r) <==> sorted(rows).to_multiset().count(r) > 0);
}

/// Reading the list of expected nodes adds rows behind those that are there, and each
/// of them is down.
pub proof fn missing_nodes_are_down(rows: Seq<Row>, list: Seq<Seq<char>>)
    ensures
        rows.is_prefix_of(with_missing(rows, list)),
        forall|i: int|
            rows.len() <= i < with_missing(rows, list).len() ==> (#[trigger] with_missing(
                rows,
                list,
            )[i]).status is Down,
    decreases list.len(),
{
    if list.len() > 0 {
        missing_nodes_are_down(rows, list.drop_last());
    }
}

/// Each node that the list expects has a row.
pub proof fn expected_nodes_have_rows(rows: Seq<Row>, list: Seq<Seq<char>>, i: int)
    requires
        0 <= i < list.len(),
        expected(list[i]) is Some,
    ensures
        names(with_missing(rows, list), expected(list[i])->0),
    decreases list.len(),
{
    let before = with_missing(rows, list.drop_last());
    let all = with_missing(rows, list);
    let name = expected(list[i])->0;
    if i == list.len() - 1 {
        if !names(before, name) {
            assert(all[before.len() as int].name == name);
        }
    } else {
        assert(list.drop_last()[i] == list[i]);
        expected_nodes_have_rows(rows, list.drop_last(), i);
        let k = choose|k: int| 0 <= k < before.len() && (#[trigger] before[k]).name == name;
        assert(all[k] == before[k]);
    }
}

/// Whether each node that the list expects has a row.
pub open spec fn complete(rows: Seq<Row>, list: Seq<Seq<char>>) -> bool {
    forall|i: int|
        0 <= i < list.len() && expected(#[trigger] list[i]) is Some ==> names(
            rows,
            expected(list[i])->0,
        )
}

proof fn lemma_complete_adds_nothing(rows: Seq<Row>, list: Seq<Seq<char>>)
    ensures
        complete(rows, list) <==> with_missing(rows, list) == rows,
    decreases list.len(),
{
    if list.len() > 0 {
        let init = list.drop_last();
        lemma_complete_adds_nothing(rows, init);
        missing_nodes_are_down(rows, init);
        let before = with_missing(rows, init);
        assert forall|i: int| 0 <= i < init.len() implies init[i] == #[trigger] list[i] by {}
        if complete(rows, list) {
            assert forall|i: int|
                0 <= i < init.len() && expected(#[trigger] init[i]) is Some implies names(
                rows,
                expected(init[i])->0,
            ) by {
                assert(init[i] == list[i]);
            }
            assert(list.last() == list[list.len() - 1]);
        }
        if with_missing(rows, list) == rows {
            assert(before.len() <= rows.len());
            assert(before =~= rows);
            assert forall|i: int|
                0 <= i < list.len() && expected(#[trigger] list[i]) is Some implies names(
                rows,
                expected(list[i])->0,
            ) by {
                if i < init.len() {
                    assert(init[i] == list[i]);
                }
            }
        }
    }
}

/// A report is healthy if and only if no node of the registry is stale and none of
/// the expected nodes is missing from it.
pub proof fn healthy_means_fresh_and_complete(
    entries: Entries,
    list: Option<Seq<char>>,
    now_secs: u64,
    stale_after_secs: u64,
)
    ensures
        exit_code(reported(entries, list, now_secs, stale_after_secs)) == EXIT_HEALTHY <==> {
            &&& forall|i: int|
                0 <= i < entries.len() ==> !(#[trigger] entries[i]).1.stale(
                    now_secs,
                    stale_after_secs,
                )
            &&& list is Some ==> complete(
                registered(entries, now_secs, stale_after_secs),
                lines_of(list->0),
            )
        },
{
    let rows = registered(entries, now_secs, stale_after_secs);
    let all = match list {
        Some(text) => with_missing(rows, lines_of(text)),
        None => rows,
    };
    lemma_sorting_keeps_health(all);
    assert(all_up(rows) <==> forall|i: int|
        0 <= i < entries.len() ==> !(#[trigger] entries[i]).1.stale(now_secs, stale_after_secs)) by {
        if all_up(rows) {
            assert forall|i: int| 0 <= i < entries.len() implies !(#[trigger] entries[i]).1.stale(
                now_secs,
                stale_after_secs,
            ) by {
                assert(rows[i].status is Up);
            }
        }
    }
    if list is Some {
        let lines = lines_of(list->0);
        missing_nodes_are_down(rows, lines);
        lemma_complete_adds_nothing(rows, lines);
        if all_up(all) {
            assert forall|i: int| 0 <= i < rows.len() implies (#[trigger] rows[i]).status is Up by {
                assert(rows[i] == all[i]);
            }
            if all.len() > rows.len() {
                assert(all[rows.len() as int].status is Down);
                assert(all[rows.len() as int].status is Up);
            }
            assert(all =~= rows);
        }
    }
}

proof fn lemma_sorting_keeps_health(rows: Seq<Row>)
    ensures
        all_up(sorted(rows)) <==> all_up(rows),
{
    let out = sorted(rows);
    if all_up(rows) {
        assert forall|i: int| 0 <= i < out.len() implies (#[trigger] out[i]).status is Up by {
            sorting_keeps_each_row(rows, out[i]);
            assert(out.contains(out[i]));
            let k = choose|k: int| 0 <= k < rows.len() && rows[k] == out[i];
            assert(rows[k].status is Up);
        }
    }
    if all_up(out) {
        assert forall|i: int| 0 <= i < rows.len() implies (#[trigger] rows[i]).status is Up by {
            sorting_keeps_each_row(rows, rows[i]);
            assert(rows.contains(rows[i]));
            let k = choose|k: int| 0 <= k < out.len() && out[k] == rows[i];
            assert(out[k].status is Up);
        }
    }
}

proof fn lemma_behind(p: Seq<char>, l: Seq<char>, b: Seq<char>, x: Seq<char>)
    ensures
        (p + l + b) + x == p + l + (b + x),
        p + l == p + l + seq![],
{
    assert((p + l + b) + x =~= p + l + (b + x));
    assert(p + l =~= p + l + seq![]);
}

#[verifier::spinoff_prover]
proof fn lemma_row_lines_split(rows: Seq<Row>, i: int) -> (back: Seq<char>)
    requires
        0 <= i < rows.len(),
    ensures
        row_lines(rows) == row_lines(rows.take(i)) + row_line(rows[i]) + back,
    decreases rows.len(),
{
    if i == rows.len() - 1 {
        assert(rows.take(i) =~= rows.drop_last());
        lemma_behind(row_lines(rows.take(i)), row_line(rows[i]), seq![], seq![]);
        seq![]
    } else {
        let init = rows.drop_last();
        let back = lemma_row_lines_split(init, i);
        assert(init.take(i) =~= rows.take(i));
        lemma_behind(row_lines(rows.take(i)), row_line(rows[i]), back, row_line(rows.last()));
        back + row_line(rows.last())
    }
}

proof fn lemma_regrouped(
    a: Seq<char>,
    p: Seq<char>,
    l: Seq<char>,
    b: Seq<char>,
    u: Seq<char>,
    n: Seq<char>,
    f: Seq<char>,
)
    ensures
        a + (p + l + b) + u + n + f == (a + p) + l + (b + u + n + f),
        a + p + u + n + f == (a + p + u + n) + f + seq![],
{
    assert(a + (p + l + b) + u + n + f =~= (a + p) + l + (b + u + n + f));
    assert(a + p + u + n + f =~= (a + p + u + n) + f + seq![]);
}

proof fn lemma_foot_regrouped(
    x: Seq<char>,
    a: Seq<char>,
    b: Seq<char>,
    c: Seq<char>,
    d: Seq<char>,
    e: Seq<char>,
)
    ensures
        x + (a + b + c + d + e) == x + a + b + c + d + e,
{
    assert(x + (a + b + c + d + e) =~= x + a + b + c + d + e);
}

/// The table shows every node of the report, and the state of the work queue.
#[verifier::spinoff_prover]
pub proof fn the_table_shows_everything(rows: Seq<Row>, q: WorkQueueStats, i: int)
    requires
        0 <= i < rows.len(),
    ensures
        contains(table(rows, q), row_line(rows[i])),
        contains(table(rows, q), table_foot(q)),
{
    let back = lemma_row_lines_split(rows, i);
    let front = table_head() + row_lines(rows.take(i));
    let rest = back + rule() + "\n"@ + table_foot(q);
    lemma_regrouped(
        table_head(),
        row_lines(rows.take(i)),
        row_line(rows[i]),
        back,
        rule(),
        "\n"@,
        table_foot(q),
    );
    assert(table(rows, q) == front + row_line(rows[i]) + rest);
    lemma_contains_middle(front, row_line(rows[i]), rest);
    let upper = table_head() + row_lines(rows) + rule() + "\n"@;
    lemma_regrouped(
        table_head(),
        row_lines(rows),
        seq![],
        seq![],
        rule(),
        "\n"@,
        table_foot(q),
    );
    assert(table(rows, q) == upper + table_foot(q) + seq![]);
    lemma_contains_middle(upper, table_foot(q), seq![]);
}

/// Each node of the registry is in the report, with its health.
pub proof fn registered_nodes_are_reported(
    entries: Entries,
    list: Option<Seq<char>>,
    now_secs: u64,
    stale_after_secs: u64,
    i: int,
)
    requires
        0 <= i < entries.len(),
    ensures
        reported(entries, list, now_secs, stale_after_secs).contains(
            node_row(node_of(entries[i].0), entries[i].1, now_secs, stale_after_secs),
        ),
{
    let rows = registered(entries, now_secs, stale_after_secs);
    let row = node_row(node_of(entries[i].0), entries[i].1, now_secs, stale_after_secs);
    assert(rows[i] == row);
    match list {
        Some(text) => {
            let all = with_missing(rows, lines_of(text));
            missing_nodes_are_down(rows, lines_of(text));
            assert(all[i] == row);
            sorting_keeps_each_row(all, row);
        },
        None => {
            sorting_keeps_each_row(rows, row);
        },
    }
}

/// A row says all that it holds.
pub proof fn a_row_says_all_it_holds(row: NodeRow)
    ensures
        row@.name == row.name@,
        row@.role == row.role@,
        row@.cores == row.cores,
        row@.ram_gb == row.ram_gb,
        row@.load1 == row.load1,
        row@.gpu == row.gpu,
        row@.hb_age_secs == row.hb_age_secs,
        row@.status == row.status,
{
}

/// The rows of a report are those of its nodes, one by one.
pub proof fn rows_are_taken_one_by_one(report: StatusReport)
    ensures
        report.rows().len() == report.nodes@.len(),
        forall|i: int|
            0 <= i < report.nodes@.len() ==> (#[trigger] report.rows()[i]) == report.nodes@[i]@,
{
}

/// The entries of the registry are taken one by one.
pub proof fn entries_are_taken_one_by_one(v: Seq<(String, NodeCapability)>)
    ensures
        entries_in(v).len() == v.len(),
        forall|i: int|
            0 <= i < v.len() ==> (#[trigger] entries_in(v)[i]).0 == v[i].0@ && entries_in(v)[i].1
                == v[i].1,
{
}

/// Each health has its word.
pub proof fn health_is_named(status: NodeStatus)
    ensures
        status is Up ==> status.word() == "up"@,
        status is Stale ==> status.word() == "STALE"@,
        status is Down ==> status.word() == "DOWN"@,
{
}

/// The row of a node in the registry has what its record says, and is stale if and only
/// if more time has passed since than is allowed.
pub proof fn a_registered_node_in_full(
    name: Seq<char>,
    cap: NodeCapability,
    now_secs: u64,
    stale_after_secs: u64,
)
    ensures
        ({
            let row = node_row(name, cap, now_secs, stale_after_secs);
            &&& row.name == name
            &&& cap.role is None ==> row.role == "unknown"@
            &&& cap.role == Some(NodeRole::LocalLlm) ==> row.role == "local_llm"@
            &&& cap.role == Some(NodeRole::CloudWorker) ==> row.role == "cloud_worker"@
            &&& cap.role == Some(NodeRole::Laptop) ==> row.role == "laptop"@
            &&& cap.role == Some(NodeRole::GpuInfer) ==> row.role == "gpu_infer"@
            &&& row.cores == cap.cores
            &&& row.ram_gb == cap.ram_gb
            &&& row.load1 == cap.load1
            &&& row.gpu == cap.gpu
            &&& row.hb_age_secs is Some
            &&& cap.ts <= now_secs ==> cap.ts + row.hb_age_secs->0 == now_secs
            &&& cap.ts > now_secs ==> row.hb_age_secs->0 == 0
            &&& row.status is Stale <==> cap.ts + stale_after_secs < now_secs
            &&& row.status is Up <==> cap.ts + stale_after_secs >= now_secs
        }),
{
}

/// The row of a node that is not in the registry says its name, that it is down, and
/// nothing else.
pub proof fn a_missing_node_in_full(name: Seq<char>)
    ensures
        ({
            let row = down_row(name);
            &&& row.name == name
            &&& row.role == "unknown"@
            &&& row.cores == 0
            &&& row.ram_gb == 0
            &&& row.load1.bits == 0
            &&& !row.gpu
            &&& row.hb_age_secs is None
            &&& row.status is Down
        }),
{
}

/// The key of a node is its name behind `node.`; a key without that is the name itself.
pub proof fn keys_stand_for_nodes(name: Seq<char>)
    ensures
        node_of("node."@ + name) == name,
        !"node."@.is_prefix_of(name) ==> node_of(name) == name,
{
    let key = "node."@ + name;
    assert("node."@ =~= key.subrange(0, "node."@.len() as int));
    assert(key.skip("node."@.len() as int) =~= name);
}

proof fn lemma_stands_for(key: Seq<char>, name: Seq<char>)
    ensures
        node_of(key) == name <==> key == "node."@ + name || (key == name
            && !"node."@.is_prefix_of(key)),
{
    keys_stand_for_nodes(name);
    if "node."@.is_prefix_of(key) {
        assert(key =~= "node."@ + key.skip("node."@.len() as int));
        if key == "node."@ + name {
            assert(key.skip("node."@.len() as int) =~= name);
        }
    } else if key == "node."@ + name {
        assert("node."@ =~= key.subrange(0, "node."@.len() as int));
    }
}

/// The rows of the registry are those of its entries, one by one.
pub proof fn each_entry_has_its_row(
    entries: Entries,
    now_secs: u64,
    stale_after_secs: u64,
    i: int,
    name: Seq<char>,
)
    requires
        0 <= i < entries.len(),
        entries[i].0 == "node."@ + name || (entries[i].0 == name && !"node."@.is_prefix_of(name)),
    ensures
        registered(entries, now_secs, stale_after_secs).len() == entries.len(),
        registered(entries, now_secs, stale_after_secs)[i] == node_row(
            name,
            entries[i].1,
            now_secs,
            stale_after_secs,
        ),
{
    lemma_stands_for(entries[i].0, name);
}

/// A line names a node if and only if something else than a comment is left of it when
/// the white space around it is taken off, and then it names just that.
pub proof fn lines_name_nodes(line: Seq<char>)
    ensures
        expected(line) is Some <==> trimmed(line).len() > 0 && trimmed(line)[0] != '#',
        expected(line) is Some ==> expected(line)->0 == trimmed(line),
{
    reveal_strlit("#");
    let name = trimmed(line);
    assert("#"@.len() == 1 && "#"@[0] == '#');
    if name.len() > 0 && name[0] == '#' {
        assert("#"@ =~= name.subrange(0, 1));
    }
    if name.len() > 0 && "#"@.is_prefix_of(name) {
        assert(name.subrange(0, 1)[0] == name[0]);
    }
}

/// The list is read line by line: a line adds the node that it names, if no row has that
/// name yet, as one that is down, behind the others; any other line adds nothing.
pub proof fn lists_are_read_line_by_line(rows: Seq<Row>, list: Seq<Seq<char>>, line: Seq<char>)
    ensures
        with_missing(rows, Seq::empty()) == rows,
        ({
            let before = with_missing(rows, list);
            let name = trimmed(line);
            let adds = name.len() > 0 && name[0] != '#' && forall|i: int|
                0 <= i < before.len() ==> (#[trigger] before[i]).name != name;
            &&& adds ==> with_missing(rows, list.push(line)) == before.push(down_row(name))
            &&& !adds ==> with_missing(rows, list.push(line)) == before
        }),
{
    assert(list.push(line).drop_last() =~= list);
    assert(list.push(line).last() == line);
    lines_name_nodes(line);
    let before = with_missing(rows, list);
    let name = trimmed(line);
    assert(names(before, name) <==> exists|i: int|
        0 <= i < before.len() && (#[trigger] before[i]).name == name);
}

proof fn lemma_added(rows: Seq<Row>, list: Seq<Seq<char>>)
    ensures
        ({
            let all = with_missing(rows, list);
            &&& rows.is_prefix_of(all)
            &&& forall|k: int|
                rows.len() <= k < all.len() ==> (#[trigger] all[k]) == down_row(all[k].name)
                    && exists|l: int|
                    0 <= l < list.len() && (#[trigger] trimmed(list[l])) == all[k].name
                        && all[k].name.len() > 0 && all[k].name[0] != '#'
            &&& forall|j: int, k: int|
                0 <= j < k < all.len() && rows.len() <= k ==> (#[trigger] all[j]).name != (
                #[trigger] all[k]).name
        }),
    decreases list.len(),
{
    let all = with_missing(rows, list);
    if list.len() > 0 {
        let init = list.drop_last();
        let line = list.last();
        let before = with_missing(rows, init);
        lemma_added(rows, init);
        assert(init.push(line) =~= list);
        lists_are_read_line_by_line(rows, init, line);
        assert forall|k: int| rows.len() <= k < all.len() implies (#[trigger] all[k]) == down_row(
            all[k].name,
        ) && exists|l: int|
            0 <= l < list.len() && (#[trigger] trimmed(list[l])) == all[k].name
                && all[k].name.len() > 0 && all[k].name[0] != '#' by {
            if k < before.len() {
                assert(all[k] == before[k]);
                let l = choose|l: int|
                    0 <= l < init.len() && (#[trigger] trimmed(init[l])) == before[k].name
                        && before[k].name.len() > 0 && before[k].name[0] != '#';
                assert(list[l] == init[l]);
                assert(trimmed(list[l]) == all[k].name);
            } else {
                assert(trimmed(list[list.len() - 1]) == all[k].name);
            }
        }
        assert forall|j: int, k: int|
            0 <= j < k < all.len() && rows.len() <= k implies (#[trigger] all[j]).name != (
        #[trigger] all[k]).name by {
            assert(all[j] == before[j]);
            if k < before.len() {
                assert(all[k] == before[k]);
            }
        }
    }
}

/// Every node that the list expects is in the report under just its name. If no key of
/// the registry stands for it, it is there once, down, and the report is unhealthy.
pub proof fn every_expected_node_is_reported(
    entries: Entries,
    text: Seq<char>,
    now_secs: u64,
    stale_after_secs: u64,
    l: int,
)
    requires
        0 <= l < lines_of(text).len(),
        trimmed(lines_of(text)[l]).len() > 0,
        trimmed(lines_of(text)[l])[0] != '#',
    ensures
        ({
            let name = trimmed(lines_of(text)[l]);
            let rows = reported(entries, Some(text), now_secs, stale_after_secs);
            &&& exists|k: int| 0 <= k < rows.len() && (#[trigger] rows[k]).name == name
            &&& (forall|i: int|
                0 <= i < entries.len() ==> (#[trigger] entries[i]).0 != "node."@ + name && (
                entries[i].0 != name || "node."@.is_prefix_of(name))) ==> {
                &&& exists|k: int|
                    0 <= k < rows.len() && (#[trigger] rows[k]).name == name
                        && rows[k].status is Down
                &&& forall|k: int|
                    0 <= k < rows.len() && (#[trigger] rows[k]).name == name ==> rows[k]
                        == down_row(name)
                &&& rows.to_multiset().count(down_row(name)) == 1
                &&& exit_code(rows) == 1
            }
        }),
{
    broadcast use vstd::seq_lib::group_to_multiset_ensures;

    let list = lines_of(text);
    let name = trimmed(list[l]);
    let known = registered(entries, now_secs, stale_after_secs);
    let all = with_missing(known, list);
    let rows = reported(entries, Some(text), now_secs, stale_after_secs);
    lines_name_nodes(list[l]);
    expected_nodes_have_rows(known, list, l);
    lemma_added(known, list);
    sorting_keeps_the_rows(all);
    let k = choose|k: int| 0 <= k < all.len() && (#[trigger] all[k]).name == name;
    sorting_keeps_each_row(all, all[k]);
    assert(all.contains(all[k]));
    let at = choose|at: int| 0 <= at < rows.len() && rows[at] == all[k];
    assert(rows[at].name == name);
    if forall|i: int|
        0 <= i < entries.len() ==> (#[trigger] entries[i]).0 != "node."@ + name && (entries[i].0
            != name || "node."@.is_prefix_of(name)) {
        assert forall|i: int| 0 <= i < known.len() implies (#[trigger] known[i]).name != name by {
            lemma_stands_for(entries[i].0, name);
            assert(known[i].name == node_of(entries[i].0));
        }
        if k < known.len() {
            assert(all[k] == known[k]);
        }
        assert(all[k] == down_row(name));
        assert(rows[at].status is Down);
        assert forall|j: int|
            0 <= j < rows.len() && (#[trigger] rows[j]).name == name implies rows[j] == down_row(
            name,
        ) by {
            sorting_keeps_each_row(all, rows[j]);
            assert(rows.contains(rows[j]));
            let m = choose|m: int| 0 <= m < all.len() && all[m] == rows[j];
            assert(all[m].name == name);
            if m < k {
                assert(all[m].name != all[k].name);
            } else if k < m {
                assert(all[k].name != all[m].name);
            }
        }
        lemma_once(all, k);
        assert(!all_up(rows));
    }
}

proof fn lemma_once(rows: Seq<Row>, k: int)
    requires
        0 <= k < rows.len(),
        forall|j: int| 0 <= j < rows.len() && j != k ==> (#[trigger] rows[j]) != rows[k],
    ensures
        rows.to_multiset().count(rows[k]) == 1,
{
    broadcast use vstd::seq_lib::group_to_multiset_ensures;

    let rest = rows.remove(k);
    assert(!rest.contains(rows[k]));
    assert(rest.to_multiset().count(rows[k]) == 0);
    assert(rest.insert(k, rows[k]) =~= rows);
}

/// Every row of the report has its reason: it is that of a node in the registry, or that
/// of a node which the list expects and no key of the registry stands for.
pub proof fn every_row_has_its_reason(
    entries: Entries,
    list: Option<Seq<char>>,
    now_secs: u64,
    stale_after_secs: u64,
    k: int,
)
    requires
        0 <= k < reported(entries, list, now_secs, stale_after_secs).len(),
    ensures
        ({
            let row = reported(entries, list, now_secs, stale_after_secs)[k];
            ||| exists|i: int|
                0 <= i < entries.len() && row == node_row(
                    row.name,
                    (#[trigger] entries[i]).1,
                    now_secs,
                    stale_after_secs,
                ) && (entries[i].0 == "node."@ + row.name || (entries[i].0 == row.name
                    && !"node."@.is_prefix_of(row.name)))
            ||| {
                &&& row == down_row(row.name)
                &&& list is Some && exists|l: int|
                    0 <= l < lines_of(list->0).len() && (#[trigger] trimmed(lines_of(list->0)[l]))
                        == row.name
                &&& row.name.len() > 0 && row.name[0] != '#'
                &&& forall|i: int|
                    0 <= i < entries.len() ==> (#[trigger] entries[i]).0 != "node."@ + row.name && (
                    entries[i].0 != row.name || "node."@.is_prefix_of(row.name))
            }
        }),
{
    let rows = reported(entries, list, now_secs, stale_after_secs);
    let known = registered(entries, now_secs, stale_after_secs);
    let all = match list {
        Some(text) => with_missing(known, lines_of(text)),
        None => known,
    };
    let row = rows[k];
    sorting_keeps_each_row(all, row);
    assert(rows.contains(row));
    let m = choose|m: int| 0 <= m < all.len() && all[m] == row;
    if list is Some {
        lemma_added(known, lines_of(list->0));
    }
    if m < known.len() {
        assert(all[m] == known[m]);
        lemma_stands_for(entries[m].0, row.name);
    } else {
        assert forall|i: int| 0 <= i < entries.len() implies (#[trigger] entries[i]).0 != "node."@
            + row.name && (entries[i].0 != row.name || "node."@.is_prefix_of(row.name)) by {
            lemma_stands_for(entries[i].0, row.name);
            assert(all[i] == known[i]);
            assert(all[i].name != all[m].name);
        }
    }
}

/// The number of rows: one for each entry of the registry, if no list is given.
pub proof fn without_a_list_only_the_registry_is_reported(
    entries: Entries,
    now_secs: u64,
    stale_after_secs: u64,
)
    ensures
        reported(entries, None, now_secs, stale_after_secs).len() == entries.len(),
{
    sorting_keeps_the_rows(registered(entries, now_secs, stale_after_secs));
}

/// Each entry of the registry has one row of its own: a row is there as often as entries
/// have it.
pub proof fn every_entry_counts_once(
    entries: Entries,
    list: Option<Seq<char>>,
    now_secs: u64,
    stale_after_secs: u64,
    row: Row,
)
    requires
        !(row.status is Down),
    ensures
        reported(entries, list, now_secs, stale_after_secs).to_multiset().count(row) == registered(
            entries,
            now_secs,
            stale_after_secs,
        ).to_multiset().count(row),
{
    let known = registered(entries, now_secs, stale_after_secs);
    match list {
        Some(text) => {
            let all = with_missing(known, lines_of(text));
            sorting_keeps_the_rows(all);
            missing_nodes_are_down(known, lines_of(text));
            lemma_prefix_counts(known, all, row);
        },
        None => {
            sorting_keeps_the_rows(known);
        },
    }
}

proof fn lemma_prefix_counts(rows: Seq<Row>, all: Seq<Row>, row: Row)
    requires
        rows.is_prefix_of(all),
        forall|i: int| rows.len() <= i < all.len() ==> (#[trigger] all[i]) != row,
    ensures
        all.to_multiset().count(row) == rows.to_multiset().count(row),
    decreases all.len(),
{
    broadcast use vstd::seq_lib::group_to_multiset_ensures;

    if all.len() == rows.len() {
        assert(all =~= rows);
    } else {
        let init = all.drop_last();
        assert(rows =~= init.subrange(0, rows.len() as int));
        lemma_prefix_counts(rows, init, row);
        assert(init.push(all.last()) =~= all);
        assert(all[all.len() - 1] != row);
    }
}

/// The exit code is zero if all nodes are up, and one if any is not.
pub proof fn the_exit_code_tells_of_any_trouble(rows: Seq<Row>)
    ensures
        (forall|i: int| 0 <= i < rows.len() ==> (#[trigger] rows[i]).status is Up) ==> exit_code(
            rows,
        ) == 0,
        (exists|i: int|
            0 <= i < rows.len() && ((#[trigger] rows[i]).status is Stale || rows[i].status is Down))
            ==> exit_code(rows) == 1,
{
}

/// A node has a line with its name and role flush left, its numbers flush right in
/// columns of fixed widths, and its health.
pub proof fn the_line_of_a_node_in_full(r: Row)
    ensures
        ({
            let gpu = if r.gpu {
                "yes"@
            } else {
                "none"@
            };
            let age = if r.hb_age_secs is Some {
                decimal(r.hb_age_secs->0 as nat) + "s"@
            } else {
                "—"@
            };
            row_line(r) == flush_left(r.name, 16) + " "@ + flush_left(r.role, 12) + " "@
                + flush_right(decimal(r.cores as nat), 5) + " "@ + flush_right(
                decimal(r.ram_gb as nat) + "Gi"@,
                7,
            ) + " "@ + flush_right(r.load1.one_decimal(), 6) + " "@ + flush_right(gpu, 4) + " "@
                + flush_right(age, 8) + "  "@ + r.status.word() + "\n"@
        }),
{
}

/// A table is its head, the lines of its nodes one behind the other, a rule, and the
/// state of the work queue.
pub proof fn a_table_in_full(rows: Seq<Row>, r: Row, q: WorkQueueStats)
    ensures
        row_lines(Seq::empty()) == Seq::<char>::empty(),
        row_lines(rows.push(r)) == row_lines(rows) + row_line(r),
        table(rows, q) == table_head() + row_lines(rows) + rule() + "\n"@ + "work-queue: "@
            + decimal(q.pending as nat) + " pending · "@ + decimal(q.in_flight as nat)
            + " in-flight\n"@,
        rule().len() == 70,
        forall|i: int| 0 <= i < 70 ==> (#[trigger] rule()[i]) == '─',
        table_head() == flush_left("node"@, 16) + " "@ + flush_left("role"@, 12) + " "@
            + flush_right("cores"@, 5) + " "@ + flush_right("ram"@, 7) + " "@ + flush_right(
            "load"@,
            6,
        ) + " "@ + flush_right("gpu"@, 4) + " "@ + flush_right("hb-age"@, 8) + "  "@ + "status"@
            + "\n"@,
{
    assert(rows.push(r).drop_last() =~= rows);
    lemma_foot_regrouped(
        table_head() + row_lines(rows) + rule() + "\n"@,
        "work-queue: "@,
        decimal(q.pending as nat),
        " pending · "@,
        decimal(q.in_flight as nat),
        " in-flight\n"@,
    );
}

/// Counts are added up, wherever the list of them is parted.
pub proof fn counts_add_up(a: Seq<u64>, b: Seq<u64>, n: u64)
    ensures
        sum(Seq::empty()) == 0,
        sum(seq![n]) == n,
        sum(a + b) == sum(a) + sum(b),
    decreases b.len(),
{
    let one = seq![n];
    assert(one.drop_last() =~= Seq::<u64>::empty());
    assert(sum(one.drop_last()) == 0);
    assert(one.last() == n);
    assert(sum(one) == n);
    if b.len() == 0 {
        assert(a + b =~= a);
        assert(sum(b) == 0);
    } else {
        let front = b.drop_last();
        counts_add_up(a, front, n);
        assert((a + b).drop_last() =~= a + front);
        assert((a + b).last() == b.last());
        assert(sum(a + b) == sum(a + front) + b.last());
        assert(sum(b) == sum(front) + b.last());
    }
}

/// The nodes of a report stand in the order of their names.
pub proof fn reports_are_ordered_by_name(
    entries: Entries,
    list: Option<Seq<char>>,
    now_secs: u64,
    stale_after_secs: u64,
    i: int,
    j: int,
)
    requires
        0 <= i < j < reported(entries, list, now_secs, stale_after_secs).len(),
    ensures
        ({
            let rows = reported(entries, list, now_secs, stale_after_secs);
            in_order(rows[i].name, rows[j].name)
        }),
{
    let known = registered(entries, now_secs, stale_after_secs);
    match list {
        Some(text) => sorting_orders_by_name(with_missing(known, lines_of(text))),
        None => sorting_orders_by_name(known),
    }
}

proof fn lemma_named_pushed(rows: Seq<Row>, r: Row, name: Seq<char>)
    ensures
        rows_named(rows.push(r), name) == (if r.name == name {
            rows_named(rows, name).push(r)
        } else {
            rows_named(rows, name)
        }),
    decreases rows.len(),
{
    let more = rows.push(r);
    if rows.len() == 0 {
        assert(more.drop_first() =~= rows);
        assert(rows_named(more.drop_first(), name) =~= rows);
        assert(seq![r] + rows =~= rows.push(r));
    } else {
        let rest = rows.drop_first();
        lemma_named_pushed(rest, r, name);
        assert(more.drop_first() =~= rest.push(r));
        assert(more[0] == rows[0]);
        assert((seq![rows[0]] + rows_named(rest, name)).push(r) =~= seq![rows[0]] + rows_named(
            rest,
            name,
        ).push(r));
    }
}

proof fn lemma_named_is_filtered(rows: Seq<Row>, name: Seq<char>)
    ensures
        rows_named(rows, name) == rows.filter(|r: Row| r.name == name),
    decreases rows.len(),
{
    reveal(Seq::filter);
    if rows.len() > 0 {
        let front = rows.drop_last();
        lemma_named_is_filtered(front, name);
        lemma_named_pushed(front, rows.last(), name);
        assert(front.push(rows.last()) =~= rows);
    }
}

/// Sorting leaves rows of one name in the order in which they were.
pub proof fn rows_of_one_name_keep_their_order(rows: Seq<Row>, name: Seq<char>)
    ensures
        ({
            let named = |r: Row| r.name == name;
            sorted(rows).filter(named) == rows.filter(named)
        }),
{
    sorting_is_stable(rows, name);
    lemma_named_is_filtered(rows, name);
    lemma_named_is_filtered(sorted(rows), name);
}

/// Every message of the queue either waits or is claimed; what was claimed beyond the
/// messages that are left does not count against them.
pub proof fn every_message_waits_or_is_claimed(n: u64, k: u64, in_flight: Option<u64>)
    ensures
        queue_state(Some(n), Some(k)).in_flight == k,
        k <= n ==> queue_state(Some(n), Some(k)).pending + k == n,
        k > n ==> queue_state(Some(n), Some(k)).pending == 0,
        queue_state(Some(n), None).pending == n && queue_state(Some(n), None).in_flight == 0,
        queue_state(None, in_flight).pending == 0 && queue_state(None, in_flight).in_flight == 0,
{
}

} // verus!
