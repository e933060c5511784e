use resctl_bench::jobspec::JobSpec;
use resctl_bench::orchestrate::{
    Args, agent_base_args, cleanup_command_args, coarse_retention, flatten_job_sets,
    merge_job_sets, needs_cleanup, plan_run, resolve_scratch_device, DFL_REP_1MIN_RETENTION,
    DFL_REP_RETENTION,
};
use resctl_bench::store::{BenchDesc, KindRegistry};
use resctl_bench::text::u64_to_string;

fn spec(kind: &str) -> JobSpec {
    JobSpec { kind: kind.to_string(), id: None, props: vec![vec![]] }
}

#[test]
fn decimal_rendering() {
    assert_eq!(u64_to_string(0), "0");
    assert_eq!(u64_to_string(7), "7");
    assert_eq!(u64_to_string(120), "120");
    assert_eq!(u64_to_string(864000), "864000");
}

#[test]
fn coarse_retention_respects_both_floors() {
    assert_eq!(coarse_retention(100), DFL_REP_1MIN_RETENTION);
    assert_eq!(coarse_retention(DFL_REP_1MIN_RETENTION), DFL_REP_1MIN_RETENTION);
    assert_eq!(coarse_retention(2_000_000), 2_000_000);
    for ret in [0, 1, DFL_REP_RETENTION, DFL_REP_1MIN_RETENTION + 5] {
        let coarse = coarse_retention(ret);
        assert!(coarse >= ret);
        assert!(coarse >= DFL_REP_1MIN_RETENTION);
    }
}

#[test]
fn base_args_with_and_without_device() {
    let args = agent_base_args(&"/var/lib/resctl-demo".to_string(), 120, &None);
    assert_eq!(
        args,
        vec![
            "--dir",
            "/var/lib/resctl-demo",
            "--bench-file",
            "resctl-bench-bench.json",
            "--force",
            "--force-running",
            "--systemd-timeout",
            "120",
        ]
    );
    let args = agent_base_args(&"/d".to_string(), 60, &Some("nvme0n1".to_string()));
    assert_eq!(args[args.len() - 2], "--dev");
    assert_eq!(args[args.len() - 1], "nvme0n1");
}

#[test]
fn cleanup_args_carry_retentions_and_reset() {
    let mut cfg = Args::default();
    cfg.dir = "/tmp/bench".to_string();
    cfg.rep_retention = 100;
    cfg.clear_reports = true;
    let args = cleanup_command_args(&cfg);
    assert_eq!(
        args,
        vec![
            "--dir",
            "/tmp/bench",
            "--bench-file",
            "resctl-bench-bench.json",
            "--force",
            "--force-running",
            "--systemd-timeout",
            "120",
            "--linux-tar",
            "__SKIP__",
            "--bypass",
            "--prepare",
            "--rep-retention",
            "100",
            "--rep-1min-retention",
            "864000",
            "--reset",
        ]
    );
    cfg.clear_reports = false;
    let args = cleanup_command_args(&cfg);
    assert!(!args.contains(&"--reset".to_string()));
}

#[test]
fn merge_and_flatten_by_position() {
    let a = vec![(0u64, vec![spec("fio")]), (3u64, vec![spec("stor")])];
    let b = vec![(1u64, vec![spec("mid1"), spec("mid2")])];
    let merged = merge_job_sets(a, b);
    let flat = flatten_job_sets(merged);
    let kinds: Vec<&str> = flat.iter().map(|s| s.kind.as_str()).collect();
    assert_eq!(kinds, vec!["fio", "mid1", "mid2", "stor"]);
}

#[test]
fn cleanup_is_owed_only_with_pending_jobs() {
    assert!(needs_cleanup(1, false));
    assert!(!needs_cleanup(0, false));
    assert!(!needs_cleanup(3, true));
}

#[test]
fn scratch_device_override_wins() {
    let over = Some("sda".to_string());
    assert_eq!(resolve_scratch_device(&over, Some("nvme0n1".to_string())), Some("sda".to_string()));
    assert_eq!(resolve_scratch_device(&None, Some("nvme0n1".to_string())), Some("nvme0n1".to_string()));
    assert_eq!(resolve_scratch_device(&None, None), None);
}

#[test]
fn plan_run_links_jobs_and_plans_cleanup() {
    let mut reg = KindRegistry::new();
    reg.register(
        "fio".to_string(),
        BenchDesc { takes_format_props: true, takes_format_propsets: true },
    );
    let mut cfg = Args::default();
    cfg.job_specs = vec![spec("fio"), spec("fio")];
    let plan = plan_run(&cfg, &reg).unwrap();
    assert_eq!(plan.pending.len(), 2);
    assert!(plan.cleanup.is_some());

    cfg.keep_reports = true;
    let plan = plan_run(&cfg, &reg).unwrap();
    assert!(plan.cleanup.is_none());

    cfg.keep_reports = false;
    cfg.job_specs = vec![spec("fio"), spec("mystery")];
    let e = plan_run(&cfg, &reg).unwrap_err();
    assert_eq!(e.index, 1);
    assert_eq!(e.kind, "mystery");
}

#[test]
fn default_config_values() {
    let cfg = Args::default();
    assert_eq!(cfg.dir, "/var/lib/resctl-demo");
    assert_eq!(cfg.rep_retention, 24 * 3600);
    assert!(cfg.dev.is_none());
    assert!(cfg.job_specs.is_empty());
    assert!(!cfg.keep_reports && !cfg.clear_reports && !cfg.incremental);
}
