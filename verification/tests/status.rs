use wm_busbridge::dispatch::{NodeCapability, NodeRole};
use wm_busbridge::load::LoadAverage;
use wm_busbridge::status::{
    assemble_report, exit_code_for_report, make_down_row, make_node_row, render_table, NodeRow,
    NodeStatus, StatusOptions, StatusReport, total_in_flight, work_queue_stats,
    WorkQueueStats,
};

fn load(x: f64) -> LoadAverage {
    LoadAverage::from_bits(x.to_bits())
}

fn make_cap(ts: u64, load1: f64, cores: u32, role: Option<NodeRole>) -> NodeCapability {
    NodeCapability {
        cores,
        ram_gb: 16,
        gpu: false,
        vram_gb: 0,
        load1: load(load1),
        queue_depth: 0,
        ts,
        no_build: false,
        role,
    }
}

#[test]
fn table_includes_all_nodes() {
    let report = StatusReport {
        nodes: vec![
            NodeRow {
                name: "nomad".to_string(),
                role: "laptop".to_string(),
                cores: 8,
                ram_gb: 15,
                load1: load(0.4),
                gpu: false,
                hb_age_secs: Some(3),
                status: NodeStatus::Up,
            },
            NodeRow {
                name: "hub".to_string(),
                role: "cloud_worker".to_string(),
                cores: 4,
                ram_gb: 8,
                load1: load(0.1),
                gpu: false,
                hb_age_secs: Some(2),
                status: NodeStatus::Up,
            },
            NodeRow {
                name: "forge".to_string(),
                role: "cloud_worker".to_string(),
                cores: 16,
                ram_gb: 32,
                load1: load(7.2),
                gpu: false,
                hb_age_secs: Some(48),
                status: NodeStatus::Stale,
            },
        ],
        work_queue: WorkQueueStats { pending: 2, in_flight: 1 },
    };

    let table = render_table(&report).expect("render must succeed");
    assert!(table.contains("nomad"), "table must include nomad");
    assert!(table.contains("hub"), "table must include hub");
    assert!(table.contains("forge"), "table must include forge");
    assert!(table.contains("role"), "header must include role column");
    assert!(table.contains("cores"), "header must include cores column");
    assert!(table.contains("hb-age"), "header must include hb-age column");
    assert!(table.contains("2 pending"), "footer must show pending count");
    assert!(table.contains("1 in-flight"), "footer must show in-flight count");
}

#[test]
fn stale_node_detected_and_forces_exit_1() {
    let now = 1_000u64;
    let stale_after = 30u64;

    // ts = 900 → age 100s > 30s → STALE
    let stale_cap = make_cap(900, 0.5, 4, None);
    // ts = 990 → age 10s < 30s → up
    let fresh_cap = make_cap(990, 0.1, 4, None);

    let stale_row = make_node_row("forge", &stale_cap, now, stale_after);
    let fresh_row = make_node_row("hub", &fresh_cap, now, stale_after);

    assert_eq!(stale_row.status, NodeStatus::Stale, "forge must be STALE");
    assert_eq!(fresh_row.status, NodeStatus::Up, "hub must be up");

    let report = StatusReport {
        nodes: vec![stale_row, fresh_row],
        work_queue: WorkQueueStats { pending: 0, in_flight: 0 },
    };
    assert_eq!(exit_code_for_report(&report), 1, "any STALE node must give exit 1");
}

#[test]
fn all_up_nodes_give_exit_0() {
    let now = 1_000u64;
    let cap = make_cap(990, 0.1, 4, None); // age = 10s < 30s → up
    let row = make_node_row("alpha", &cap, now, 30);
    assert_eq!(row.status, NodeStatus::Up);
    let report = StatusReport {
        nodes: vec![row],
        work_queue: WorkQueueStats { pending: 0, in_flight: 0 },
    };
    assert_eq!(exit_code_for_report(&report), 0);
}

#[test]
fn down_node_forces_exit_1() {
    let report = StatusReport {
        nodes: vec![make_down_row("missing-node")],
        work_queue: WorkQueueStats { pending: 0, in_flight: 0 },
    };
    assert_eq!(exit_code_for_report(&report), 1, "DOWN node must give exit 1");
}

#[test]
fn render_table_returns_result_not_panics() {
    let report = StatusReport {
        nodes: vec![],
        work_queue: WorkQueueStats { pending: 0, in_flight: 0 },
    };
    let result = render_table(&report);
    assert!(result.is_ok(), "render_table must return Ok, not panic");
}

#[test]
fn node_row_role_display() {
    let cap = make_cap(0, 0.0, 1, Some(NodeRole::LocalLlm));
    let row = make_node_row("llm", &cap, 100, 30);
    assert_eq!(row.role, "local_llm");
}

#[test]
fn node_row_no_role_displays_unknown() {
    let cap = make_cap(0, 0.0, 1, None);
    let row = make_node_row("anon", &cap, 100, 30);
    assert_eq!(row.role, "unknown");
}

#[test]
fn node_row_hb_age_computed_correctly() {
    let cap = make_cap(950, 0.0, 1, None);
    let row = make_node_row("n", &cap, 1000, 30);
    assert_eq!(row.hb_age_secs, Some(50));
}

#[test]
fn the_table_in_full() {
    let report = StatusReport {
        nodes: vec![
            NodeRow {
                name: "forge".to_string(),
                role: "cloud_worker".to_string(),
                cores: 16,
                ram_gb: 32,
                load1: load(7.25),
                gpu: true,
                hb_age_secs: Some(48),
                status: NodeStatus::Stale,
            },
            make_down_row("a-node-with-a-very-long-name"),
        ],
        work_queue: WorkQueueStats { pending: 2, in_flight: 1 },
    };
    let rule = "─".repeat(70);
    let expected = format!(
        "node             role         cores     ram   load  gpu   hb-age  status\n\
         forge            cloud_worker    16    32Gi    7.2  yes      48s  STALE\n\
         a-node-with-a-very-long-name unknown          0     0Gi    0.0 none        —  DOWN\n\
         {rule}\nwork-queue: 2 pending · 1 in-flight\n"
    );
    assert_eq!(render_table(&report).unwrap(), expected);
}

#[test]
fn the_table_agrees_with_the_standard_format() {
    for (name, role, cores, ram_gb, load1, gpu, age) in [
        ("", "", 0u32, 0u32, 0.05f64, false, None),
        ("ñandú", "laptop", 8, 15, 0.4, false, Some(3u64)),
        ("sixteen-letters.", "twelve-chars", 99_999, 99_999, 9999.95, true, Some(9_999_999)),
        ("n", "r", u32::MAX, u32::MAX, -12345.678, true, Some(u64::MAX)),
        ("n", "r", 1, 1, f64::NAN, true, Some(0)),
    ] {
        let row = NodeRow {
            name: name.to_string(),
            role: role.to_string(),
            cores,
            ram_gb,
            load1: load(load1),
            gpu,
            hb_age_secs: age,
            status: NodeStatus::Up,
        };
        let ram = format!("{ram_gb}Gi");
        let gpu = if gpu { "yes" } else { "none" };
        let age = age.map_or_else(|| "—".to_string(), |s| format!("{s}s"));
        let expected = format!(
            "{:<16} {:<12} {:>5} {:>7} {:>6.1} {:>4} {:>8}  {}",
            name, role, cores, ram, load1, gpu, age, "up"
        );
        let report = StatusReport {
            nodes: vec![row],
            work_queue: WorkQueueStats { pending: 0, in_flight: 0 },
        };
        let table = render_table(&report).unwrap();
        assert_eq!(table.lines().nth(1), Some(expected.as_str()));
    }
}

#[test]
fn the_report_is_sorted_and_complete() {
    let fresh = make_cap(990, 0.5, 4, Some(NodeRole::CloudWorker));
    let old = make_cap(900, 0.5, 4, Some(NodeRole::GpuInfer));
    let entries = vec![
        ("node.nomad".to_string(), fresh),
        ("forge".to_string(), old),
        ("node.node.hub".to_string(), fresh),
    ];
    let list = "# expected\n\n  nomad \nzeta\r\nalpha\nzeta\n #comment\n";
    let report = assemble_report(&entries, Some(list), 1000, 30, work_queue_stats(Some(7), Some(2)));
    let rows: Vec<(&str, NodeStatus)> =
        report.nodes.iter().map(|r| (r.name.as_str(), r.status)).collect();
    assert_eq!(
        rows,
        vec![
            ("alpha", NodeStatus::Down),
            ("forge", NodeStatus::Stale),
            ("node.hub", NodeStatus::Up),
            ("nomad", NodeStatus::Up),
            ("zeta", NodeStatus::Down),
        ]
    );
    assert_eq!(report.nodes[1].role, "gpu_infer");
    assert_eq!((report.work_queue.pending, report.work_queue.in_flight), (5, 2));
    assert_eq!(exit_code_for_report(&report), 1);
}

#[test]
fn a_report_is_healthy_when_all_that_is_expected_is_fresh() {
    let fresh = make_cap(990, 0.5, 4, None);
    let entries = vec![("node.b".to_string(), fresh), ("node.a".to_string(), fresh)];
    let queue = work_queue_stats(None, None);
    let code = |list: Option<&str>| {
        exit_code_for_report(&assemble_report(&entries, list, 1000, 30, queue))
    };
    assert_eq!(code(None), 0);
    assert_eq!(code(Some("a\nb\n")), 0);
    assert_eq!(code(Some("a\nb\nc\n")), 1);
    let later = assemble_report(&entries, None, 1021, 30, queue);
    assert_eq!(exit_code_for_report(&later), 1);
    assert_eq!((queue.pending, queue.in_flight), (0, 0));
    let empty = assemble_report(&vec![], None, 1000, 30, queue);
    assert_eq!(exit_code_for_report(&empty), 0);
}

#[test]
fn rows_of_one_name_keep_their_order() {
    let entries: Vec<(String, NodeCapability)> = vec![
        ("node.b".to_string(), make_cap(1000, 0.5, 1, None)),
        ("a".to_string(), make_cap(1000, 0.5, 2, None)),
        ("b".to_string(), make_cap(1000, 0.5, 3, None)),
        ("node.a".to_string(), make_cap(1000, 0.5, 4, None)),
    ];
    let report = assemble_report(&entries, None, 1000, 30, work_queue_stats(None, None));
    let rows: Vec<(&str, u32)> = report.nodes.iter().map(|r| (r.name.as_str(), r.cores)).collect();
    assert_eq!(rows, vec![("a", 2), ("a", 4), ("b", 1), ("b", 3)]);
}

#[test]
fn sorting_agrees_with_the_standard_order() {
    let names = ["b", "B", "ä", "", "a.b", "a", "ab", "z", "Z", "\u{10000}", "\u{ffff}", "é", "e"];
    let entries: Vec<(String, NodeCapability)> =
        names.iter().map(|n| (n.to_string(), make_cap(0, 0.0, 1, None))).collect();
    let report = assemble_report(&entries, None, 0, 30, work_queue_stats(None, None));
    let got: Vec<String> = report.nodes.into_iter().map(|r| r.name).collect();
    let mut expected: Vec<String> = names.iter().map(|n| n.to_string()).collect();
    expected.sort();
    assert_eq!(got, expected);
}

#[test]
fn the_default_options() {
    let opts = StatusOptions::default();
    assert_eq!(opts.nats_url, "nats://127.0.0.1:4222");
    assert_eq!(opts.stale_after_secs, 30);
    assert!(!opts.json);
    assert_eq!(opts.fleet_nodes_conf, None);
}

#[test]
fn all_roles_and_states_have_words() {
    for (role, word) in [
        (Some(NodeRole::LocalLlm), "local_llm"),
        (Some(NodeRole::CloudWorker), "cloud_worker"),
        (Some(NodeRole::Laptop), "laptop"),
        (Some(NodeRole::GpuInfer), "gpu_infer"),
        (None, "unknown"),
    ] {
        assert_eq!(make_node_row("n", &make_cap(0, 0.0, 1, role), 0, 30).role, word);
    }
    assert_eq!(NodeStatus::Up.to_string(), "up");
    assert_eq!(NodeStatus::Stale.to_string(), "STALE");
    assert_eq!(NodeStatus::Down.to_string(), "DOWN");
}

#[test]
fn the_work_queue_is_as_far_as_it_could_be_read() {
    for (messages, in_flight, pending, claimed) in [
        (Some(3), Some(1), 2, 1),
        (Some(5), Some(5), 0, 5),
        (Some(5), Some(6), 0, 6),
        (Some(5), None, 5, 0),
        (None, Some(3), 0, 0),
        (None, None, 0, 0),
    ] {
        let q = work_queue_stats(messages, in_flight);
        assert_eq!((q.pending, q.in_flight), (pending, claimed));
    }
    assert_eq!(total_in_flight(&vec![]), 0);
    assert_eq!(total_in_flight(&vec![1, 2, 4]), 7);
    assert_eq!(total_in_flight(&vec![u64::MAX, 1, 5]), u64::MAX);
}
