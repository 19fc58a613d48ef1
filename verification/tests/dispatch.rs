use serde_json::Value;
use std::time::{SystemTime, UNIX_EPOCH};
use wm_busbridge::dispatch::{
    check_payload_size, parse_role, place_job, read_ram_gb_from_meminfo, sample_local_capacity,
    select_node, Fleet, Job, JobClass, LocalReadings, NodeCapability, NodeRole, PlacementDecision,
    MAX_JOB_PAYLOAD_BYTES,
};
use wm_busbridge::load::LoadAverage;

fn load(x: f64) -> LoadAverage {
    LoadAverage::from_bits(x.to_bits())
}

fn object(members: Vec<(&str, Value)>) -> Value {
    members.into_iter().map(|(key, value)| (key.to_string(), value)).collect()
}

fn readings() -> LocalReadings {
    LocalReadings {
        parallelism: None,
        meminfo: None,
        load1: None,
        vram_gb: None,
        unix_secs: SystemTime::now().duration_since(UNIX_EPOCH).ok().map(|d| d.as_secs()),
        no_build: None,
        role: None,
    }
}

fn make_node(cores: u32, load1: f64, vram_gb: u32, queue_depth: u32) -> NodeCapability {
    NodeCapability {
        cores,
        ram_gb: 16,
        gpu: vram_gb > 0,
        vram_gb,
        load1: load(load1),
        queue_depth,
        ts: 0,
        no_build: false,
        role: None,
    }
}

fn make_local_llm_node(cores: u32, load1: f64) -> NodeCapability {
    NodeCapability {
        cores,
        ram_gb: 32,
        gpu: false,
        vram_gb: 0,
        load1: load(load1),
        queue_depth: 0,
        ts: 0,
        no_build: true,
        role: Some(NodeRole::LocalLlm),
    }
}

fn make_job(class: JobClass) -> Job {
    Job {
        id: "test-job-1".to_string(),
        class,
        detail: None,
        payload: object(vec![("path", Value::from("/tmp/foo"))]),
        submitted_at: 0,
        pinned_node: None,
    }
}

#[test]
fn node_is_available_when_load_low() {
    let node = make_node(8, 2.0, 0, 0); // saturation = 0.25
    assert!(node.is_available());
}

#[test]
fn node_not_available_when_load_too_high() {
    let node = make_node(4, 10.0, 0, 0); // saturation = 2.5
    assert!(!node.is_available());
}

#[test]
fn node_has_gpu_requires_both_flags() {
    let gpu_node = make_node(8, 0.5, 24, 0);
    assert!(gpu_node.has_gpu());
    let cpu_node = make_node(8, 0.5, 0, 0);
    assert!(!cpu_node.has_gpu());
}

#[test]
fn stale_check_works() {
    let node = NodeCapability { ts: 100, ..make_node(4, 0.5, 0, 0) };
    // 200s elapsed, max_age = 60s → stale
    assert!(node.is_stale(300, 60));
    // 200s elapsed, max_age = 300s → fresh
    assert!(!node.is_stale(300, 300));
}

#[test]
fn job_class_subjects() {
    assert_eq!(JobClass::Build.subject_prefix(), "wm.work.build");
    assert_eq!(JobClass::Infer.subject_prefix(), "wm.work.infer");
    assert_eq!(JobClass::Test.subject_prefix(), "wm.work.test");
}

#[test]
fn job_subject_with_detail() {
    let job = Job {
        id: "x".to_string(),
        class: JobClass::Build,
        detail: Some("rust".to_string()),
        payload: Value::Null,
        submitted_at: 0,
        pinned_node: None,
    };
    assert_eq!(job.subject(), "wm.work.build.rust");
}

#[test]
fn job_subject_without_detail() {
    let job = make_job(JobClass::Test);
    assert_eq!(job.subject(), "wm.work.test");
}

#[test]
fn small_payload_accepted() {
    let bytes = b"small reference payload";
    assert!(check_payload_size(bytes).is_ok());
}

#[test]
fn oversized_payload_rejected() {
    let large = vec![0u8; MAX_JOB_PAYLOAD_BYTES + 1];
    let result = check_payload_size(&large);
    assert!(
        matches!(result, Err(ref e) if e.limit == MAX_JOB_PAYLOAD_BYTES && e.actual > MAX_JOB_PAYLOAD_BYTES),
        "large payload must be rejected with correct limit/actual fields"
    );
}

#[test]
fn payload_at_limit_accepted() {
    let at_limit = vec![0u8; MAX_JOB_PAYLOAD_BYTES];
    assert!(check_payload_size(&at_limit).is_ok());
}

#[test]
fn build_job_routed_to_lowest_saturation() {
    let mut nodes = Fleet::new();
    nodes.insert("heavy".to_string(), make_node(4, 6.0, 0, 0)); // sat 1.5
    nodes.insert("light".to_string(), make_node(8, 2.0, 0, 0)); // sat 0.25
    let job = make_job(JobClass::Build);
    let decision = place_job(&job, &nodes);
    // Should route (exact node not encoded in subject, just that it routes)
    assert!(
        matches!(decision, PlacementDecision::Route(_)),
        "build job must be routable when available nodes exist"
    );
}

#[test]
fn infer_job_requires_gpu() {
    let mut nodes = Fleet::new();
    nodes.insert("cpu-node".to_string(), make_node(16, 1.0, 0, 0));
    let job = make_job(JobClass::Infer);
    let decision = place_job(&job, &nodes);
    assert!(
        matches!(decision, PlacementDecision::Unplaceable { .. }),
        "infer job must be unplaceable when no GPU node exists"
    );
}

#[test]
fn infer_job_routed_to_gpu_node() {
    let mut nodes = Fleet::new();
    nodes.insert("cpu-node".to_string(), make_node(16, 1.0, 0, 0));
    nodes.insert("gpu-node".to_string(), make_node(8, 0.5, 24, 0));
    let job = make_job(JobClass::Infer);
    let decision = place_job(&job, &nodes);
    assert!(
        matches!(decision, PlacementDecision::Route(_)),
        "infer job must route to GPU node when one is available"
    );
}

#[test]
fn no_nodes_returns_unplaceable() {
    let nodes = Fleet::new();
    let job = make_job(JobClass::Build);
    let decision = place_job(&job, &nodes);
    assert!(matches!(decision, PlacementDecision::Unplaceable { .. }));
}

#[test]
fn overloaded_node_not_selected() {
    let mut nodes = Fleet::new();
    // load1 = 20 on 4 cores → saturation 5.0 > 2.0 → not available
    nodes.insert("overloaded".to_string(), make_node(4, 20.0, 0, 0));
    let job = make_job(JobClass::Build);
    let decision = place_job(&job, &nodes);
    assert!(matches!(decision, PlacementDecision::Unplaceable { .. }));
}

#[test]
fn pinned_node_only_considered() {
    let mut nodes = Fleet::new();
    nodes.insert("alpha".to_string(), make_node(8, 0.5, 0, 0));
    nodes.insert("beta".to_string(), make_node(8, 0.5, 0, 0));
    let mut job = make_job(JobClass::Build);
    job.pinned_node = Some("gamma".to_string()); // doesn't exist
    let decision = place_job(&job, &nodes);
    assert!(matches!(decision, PlacementDecision::Unplaceable { .. }));
}

/// A node with `no_build: true` is never selected for build jobs.
#[test]
fn no_build_node_never_selected_for_build() {
    let mut nodes = Fleet::new();
    nodes.insert("local-llm".to_string(), make_local_llm_node(16, 0.5));
    let decision = place_job(&make_job(JobClass::Build), &nodes);
    assert!(
        matches!(decision, PlacementDecision::Unplaceable { .. }),
        "no_build node must never be selected for build jobs even when available"
    );
}

/// A `role: LocalLlm` node is never selected for test jobs.
#[test]
fn local_llm_role_never_selected_for_test() {
    let mut nodes = Fleet::new();
    nodes.insert("local-llm".to_string(), make_local_llm_node(16, 0.5));
    let decision = place_job(&make_job(JobClass::Test), &nodes);
    assert!(
        matches!(decision, PlacementDecision::Unplaceable { .. }),
        "LocalLlm node must never be selected for test jobs"
    );
}

/// When both a local-llm node and a cloud worker are present, build jobs go
/// exclusively to the cloud worker — the local-llm node is bypassed.
#[test]
fn build_job_routes_to_cloud_not_local_llm() {
    let mut nodes = Fleet::new();
    // 5700U: would be the best CPU node by raw cores, but no_build=true
    nodes.insert("5700u-local-llm".to_string(), make_local_llm_node(16, 0.2));
    // Cloud worker: fewer cores, higher load, but build-eligible
    nodes.insert("cloud-worker".to_string(), make_node(8, 1.0, 0, 0));
    let decision = place_job(&make_job(JobClass::Build), &nodes);
    assert!(
        matches!(decision, PlacementDecision::Route(_)),
        "build job must route to cloud-worker when local-llm is the only other candidate"
    );
}

/// Fleet invariant: if ALL present nodes are no_build, build jobs are unplaceable
/// (no silent fallback to a local-llm node).
#[test]
fn all_no_build_nodes_means_unplaceable() {
    let mut nodes = Fleet::new();
    nodes.insert("llm-a".to_string(), make_local_llm_node(8, 0.1));
    nodes.insert("llm-b".to_string(), make_local_llm_node(16, 0.2));
    let decision = place_job(&make_job(JobClass::Build), &nodes);
    assert!(
        matches!(decision, PlacementDecision::Unplaceable { .. }),
        "all no_build fleet must return Unplaceable for build jobs"
    );
}

/// Infer jobs CAN be placed on a `no_build: true` node if it has a GPU.
/// (Inference is allowed on the local-llm node — that's its purpose.)
#[test]
fn no_build_does_not_block_infer_jobs() {
    let mut nodes = Fleet::new();
    let gpu_llm_node = NodeCapability {
        gpu: true,
        vram_gb: 24,
        no_build: true,
        role: Some(NodeRole::LocalLlm),
        ..make_local_llm_node(8, 0.5)
    };
    nodes.insert("gpu-local-llm".to_string(), gpu_llm_node);
    let decision = place_job(&make_job(JobClass::Infer), &nodes);
    assert!(
        matches!(decision, PlacementDecision::Route(_)),
        "no_build flag must not block infer jobs — inference is the node's purpose"
    );
}

/// `is_build_eligible` reflects `no_build` and `role` correctly.
#[test]
fn is_build_eligible_semantics() {
    let worker = make_node(8, 0.5, 0, 0);
    assert!(worker.is_build_eligible(), "default cloud worker must be build-eligible");

    let llm_node = make_local_llm_node(16, 0.1);
    assert!(!llm_node.is_build_eligible(), "local-llm node must not be build-eligible");

    // no_build alone is sufficient to block, even without a role
    let no_build_anon = NodeCapability { no_build: true, role: None, ..make_node(8, 0.5, 0, 0) };
    assert!(!no_build_anon.is_build_eligible(), "no_build=true must block regardless of role");

    // role:LocalLlm alone (no_build=false) is also sufficient to block
    let role_only = NodeCapability {
        no_build: false,
        role: Some(NodeRole::LocalLlm),
        ..make_node(8, 0.5, 0, 0)
    };
    assert!(!role_only.is_build_eligible(), "LocalLlm role must block build even if no_build=false");
}

#[test]
fn sample_local_capacity_returns_valid() {
    let cap = sample_local_capacity(0, &readings());
    assert!(cap.cores >= 1, "cores must be >= 1");
    assert!(cap.ts > 0, "ts must be a valid Unix timestamp");
}

fn reason(decision: PlacementDecision) -> String {
    match decision {
        PlacementDecision::Unplaceable { reason } => reason,
        PlacementDecision::Route(subject) => panic!("routed to {subject}"),
    }
}

#[test]
fn a_job_that_cannot_be_placed_is_told_why() {
    let mut nodes = Fleet::new();
    assert_eq!(reason(place_job(&make_job(JobClass::Infer), &nodes)), "no available nodes in fleet");
    nodes.insert("cpu".to_string(), make_node(8, 0.5, 0, 0));
    assert_eq!(
        reason(place_job(&make_job(JobClass::Infer), &nodes)),
        "no GPU-capable node available for infer job"
    );
    let mut job = make_job(JobClass::Test);
    job.pinned_node = Some("gamma".to_string());
    assert_eq!(reason(place_job(&job, &nodes)), "pinned node 'gamma' is not available");
}

#[test]
fn a_placed_job_goes_to_its_subject() {
    let mut nodes = Fleet::new();
    nodes.insert("a".to_string(), make_node(8, 0.5, 0, 0));
    let mut job = make_job(JobClass::Unknown);
    job.detail = Some(String::new());
    assert_eq!(place_job(&job, &nodes), PlacementDecision::Route("wm.work.unknown".to_string()));
    job.detail = Some("x.y".to_string());
    assert_eq!(place_job(&job, &nodes), PlacementDecision::Route("wm.work.unknown.x.y".to_string()));
}

#[test]
fn the_best_node_is_selected() {
    let mut nodes = Fleet::new();
    nodes.insert("many".to_string(), make_node(16, 4.0, 8, 0)); // 0.25 per core
    nodes.insert("few".to_string(), make_node(2, 1.0, 8, 0)); // 0.5 per core
    nodes.insert("idle-llm".to_string(), make_local_llm_node(64, 0.0));
    assert_eq!(select_node(&make_job(JobClass::Build), &nodes), Some("many".to_string()));
    assert_eq!(select_node(&make_job(JobClass::Infer), &nodes), Some("few".to_string()));
    assert_eq!(select_node(&make_job(JobClass::Unknown), &nodes), Some("idle-llm".to_string()));
    let mut job = make_job(JobClass::Build);
    job.pinned_node = Some("few".to_string());
    assert_eq!(select_node(&job, &nodes), Some("few".to_string()));
    job.pinned_node = Some("idle-llm".to_string());
    assert_eq!(select_node(&job, &nodes), None);
    // a later report replaces an earlier one
    nodes.insert("many".to_string(), make_node(16, 40.0, 8, 0));
    assert_eq!(select_node(&make_job(JobClass::Build), &nodes), Some("few".to_string()));
}

#[test]
fn availability_at_the_edges() {
    assert!(!make_node(0, 0.0, 0, 0).is_available());
    assert!(!make_node(4, 8.0, 0, 0).is_available());
    assert!(make_node(4, 7.999_999_999_999_999, 0, 0).is_available());
    assert!(make_node(1, -1.0, 0, 0).is_available());
    assert!(!make_node(1, f64::NAN, 0, 0).is_available());
    assert!(!make_node(1, f64::INFINITY, 0, 0).is_available());
    assert!(make_node(1, f64::NEG_INFINITY, 0, 0).is_available());
    let mut seed: u64 = 7;
    for _ in 0..20_000 {
        seed ^= seed << 13;
        seed ^= seed >> 7;
        seed ^= seed << 17;
        let cores = (seed >> 40) as u32 % 97;
        let near = 2.0 * f64::from(cores);
        for x in [f64::from_bits(seed), near, f64::from_bits(near.to_bits().wrapping_sub(1))] {
            let expected = cores != 0 && x / f64::from(cores) < 2.0;
            assert_eq!(make_node(cores, x, 0, 0).is_available(), expected, "{x} {cores}");
        }
    }
}

#[test]
fn gpu_flag_and_memory_are_both_needed() {
    let node = NodeCapability { gpu: false, ..make_node(8, 0.5, 24, 0) };
    assert!(!node.has_gpu());
    let node = NodeCapability { gpu: true, ..make_node(8, 0.5, 0, 0) };
    assert!(!node.has_gpu());
}

#[test]
fn staleness_at_the_edges() {
    let node = NodeCapability { ts: 100, ..make_node(4, 0.5, 0, 0) };
    assert!(!node.is_stale(160, 60));
    assert!(node.is_stale(161, 60));
    assert!(!node.is_stale(0, 0)); // a report from the future is fresh
}

#[test]
fn a_job_is_written_in_the_order_of_its_fields() {
    let mut job = make_job(JobClass::Build);
    job.submitted_at = 1_700_000_000;
    assert_eq!(
        String::from_utf8(job.to_bytes().unwrap()).unwrap(),
        "{\"id\":\"test-job-1\",\"class\":\"build\",\"detail\":null,\
         \"payload\":{\"path\":\"/tmp/foo\"},\"submitted_at\":1700000000,\"pinned_node\":null}"
    );
    job.id = "quo\"te\n".to_string();
    job.class = JobClass::Unknown;
    job.detail = Some("rust".to_string());
    job.payload = Value::Null;
    job.pinned_node = Some("forge".to_string());
    assert_eq!(
        String::from_utf8(job.to_bytes().unwrap()).unwrap(),
        "{\"id\":\"quo\\\"te\\n\",\"class\":\"unknown\",\"detail\":\"rust\",\
         \"payload\":null,\"submitted_at\":1700000000,\"pinned_node\":\"forge\"}"
    );
}

#[test]
fn the_size_error_names_both_sizes() {
    let large = vec![0u8; MAX_JOB_PAYLOAD_BYTES + 1];
    assert_eq!(
        check_payload_size(&large).unwrap_err().to_string(),
        "job payload 65537 bytes exceeds bus limit 65536 bytes — use shared storage for large artifacts"
    );
}

#[test]
fn ram_is_read_from_meminfo() {
    let text = "MemFree: 1 kB\nMemTotal:       32768000 kB\nMemTotal: 1048576 kB\n";
    assert_eq!(read_ram_gb_from_meminfo(text), Some(31));
    assert_eq!(read_ram_gb_from_meminfo("MemTotal: 1048575 kB"), Some(0));
    assert_eq!(read_ram_gb_from_meminfo("MemTotal: 18446744073709551615 kB"), Some(u32::MAX));
    assert_eq!(read_ram_gb_from_meminfo("MemTotal: 18446744073709551616 kB"), None);
    assert_eq!(read_ram_gb_from_meminfo("MemTotal:\nMemTotal: 1048576 kB"), None);
    assert_eq!(read_ram_gb_from_meminfo("MemTotal: lots\nMemTotal: 1048576 kB"), None);
    assert_eq!(read_ram_gb_from_meminfo(" MemTotal: 1048576 kB"), None);
    assert_eq!(read_ram_gb_from_meminfo(""), None);
}

#[test]
fn the_sample_follows_its_readings() {
    let full = LocalReadings {
        parallelism: Some(12),
        meminfo: Some("MemTotal: 16777216 kB\n".to_string()),
        load1: Some(load(0.75)),
        vram_gb: Some("24".to_string()),
        unix_secs: Some(1_700_000_000),
        no_build: Some(" TRUE ".to_string()),
        role: Some("local_llm\n".to_string()),
    };
    let cap = sample_local_capacity(3, &full);
    assert_eq!((cap.cores, cap.ram_gb, cap.gpu, cap.vram_gb), (12, 16, true, 24));
    assert_eq!((cap.queue_depth, cap.ts, cap.no_build), (3, 1_700_000_000, true));
    assert_eq!(f64::from_bits(cap.load1.bits), 0.75);
    assert_eq!(cap.role, Some(NodeRole::LocalLlm));

    let odd = LocalReadings {
        parallelism: Some(usize::MAX),
        vram_gb: Some("24 ".to_string()),
        no_build: Some("yes".to_string()),
        role: Some("hub".to_string()),
        unix_secs: None,
        ..readings()
    };
    let cap = sample_local_capacity(0, &odd);
    assert_eq!((cap.cores, cap.ram_gb, cap.gpu, cap.vram_gb), (1, 0, false, 0));
    assert_eq!((cap.ts, cap.no_build, cap.role), (0, false, None));
    assert!(sample_local_capacity(0, &LocalReadings { no_build: Some("1".to_string()), ..readings() }).no_build);
    assert_eq!(sample_local_capacity(0, &LocalReadings { parallelism: Some(0), ..readings() }).cores, 1);
}

#[test]
fn roles_are_read_by_name() {
    assert_eq!(parse_role("local_llm"), Some(NodeRole::LocalLlm));
    assert_eq!(parse_role("cloud_worker"), Some(NodeRole::CloudWorker));
    assert_eq!(parse_role("laptop"), Some(NodeRole::Laptop));
    assert_eq!(parse_role("gpu_infer"), Some(NodeRole::GpuInfer));
    assert_eq!(parse_role("Laptop"), None);
}

#[test]
fn the_route_of_a_pinned_job_names_its_node() {
    let mut nodes = Fleet::new();
    nodes.insert("alpha".to_string(), make_node(8, 0.5, 0, 0));
    nodes.insert(String::new(), make_node(8, 0.5, 0, 0));
    let mut job = make_job(JobClass::Build);
    job.pinned_node = Some("alpha".to_string());
    assert_eq!(place_job(&job, &nodes), PlacementDecision::Route("wm.work.build.alpha".to_string()));
    job.detail = Some("rust".to_string());
    assert_eq!(
        place_job(&job, &nodes),
        PlacementDecision::Route("wm.work.build.rust.alpha".to_string())
    );
    assert_eq!(job.subject(), "wm.work.build.rust");
    job.pinned_node = Some(String::new());
    assert_eq!(place_job(&job, &nodes), PlacementDecision::Route("wm.work.build.rust".to_string()));
}

#[test]
fn a_job_reads_back_as_it_was_written() {
    for class in [JobClass::Build, JobClass::Infer, JobClass::Test, JobClass::Unknown] {
        let mut job = make_job(class);
        job.detail = Some("ru\"st".to_string());
        job.submitted_at = u64::MAX;
        let read: Value = serde_json::from_slice(&job.to_bytes().unwrap()).unwrap();
        let expected = object(vec![
            ("id", Value::from("test-job-1")),
            ("class", Value::from(class.subject_suffix())),
            ("detail", Value::from("ru\"st")),
            ("payload", job.payload.clone()),
            ("submitted_at", Value::from(u64::MAX)),
            ("pinned_node", Value::Null),
        ]);
        assert_eq!(read, expected);
    }
    // as deep as can be read, and one deeper
    for (depth, readable) in [(126usize, true), (127, false)] {
        let mut job = make_job(JobClass::Build);
        job.payload = Value::Null;
        for _ in 0..depth {
            job.payload = Value::Array(vec![job.payload]);
        }
        let read = serde_json::from_slice::<Value>(&job.to_bytes().unwrap());
        assert_eq!(read.is_ok(), readable);
    }
}
