//! The run orchestrator's decisions: resolved configuration, the argument
//! plans handed to the external resource-control agent, merging job
//! sources by command-line position, and the pending-run plan.
//!
//! Launching the agent subprocess and waiting for it are I/O and live
//! outside the library; it receives these argument vectors and job lists
//! as plain values.

use vstd::prelude::*;
use crate::jobspec::JobSpec;
use crate::store::{JobCtx, JobCtxs, KindRegistry, UnknownKind};
use crate::text::{spec_decimal, strs_model, u64_to_string};

verus! {

/// Default retention of the fine-grained (one-second) reports, seconds.
pub const DFL_REP_RETENTION: u64 = 24 * 3600;

/// Compiled-in default retention of the coarse (one-minute) reports,
/// seconds; the coarse retention handed to cleanup never drops below it.
pub const DFL_REP_1MIN_RETENTION: u64 = 10 * 24 * 3600;

/// Default systemd start timeout handed to the agent, seconds.
pub const DFL_SYSTEMD_TIMEOUT: u64 = 120;

/// Name of the alternate calibration file inside the working directory,
/// kept apart so benchmark runs do not clobber interactive results.
pub const RB_BENCH_FILENAME: &'static str = "resctl-bench-bench.json";

/// Default top-level working directory of the agent.
pub const DFL_DIR: &'static str = "/var/lib/resctl-demo";

/// Resolved top-level configuration of one invocation.
#[derive(Clone, Debug, PartialEq, Eq)]
pub struct Args {
    pub dir: String,
    pub dev: Option<String>,
    pub linux_tar: Option<String>,
    pub result: Option<String>,
    pub rep_retention: u64,
    pub systemd_timeout: u64,
    pub iocost_from_sys: bool,
    pub job_specs: Vec<JobSpec>,
    pub incremental: bool,
    pub keep_reports: bool,
    pub clear_reports: bool,
    pub verbosity: u32,
}

impl Default for Args {
    fn default() -> (r: Self)
        ensures
            r.dir@ == DFL_DIR@,
            r.dev is None,
            r.linux_tar is None,
            r.result is None,
            r.rep_retention == DFL_REP_RETENTION,
            r.systemd_timeout == DFL_SYSTEMD_TIMEOUT,
            !r.iocost_from_sys,
            r.job_specs@.len() == 0,
            !r.incremental,
            !r.keep_reports,
            !r.clear_reports,
            r.verbosity == 0,
    {
        Args {
            dir: DFL_DIR.to_owned(),
            dev: Option::None,
            linux_tar: Option::None,
            result: Option::None,
            rep_retention: DFL_REP_RETENTION,
            systemd_timeout: DFL_SYSTEMD_TIMEOUT,
            iocost_from_sys: false,
            job_specs: Vec::new(),
            incremental: false,
            keep_reports: false,
            clear_reports: false,
            verbosity: 0,
        }
    }
}

pub open spec fn opt_str_model(o: Option<String>) -> Option<Seq<char>> {
    match o {
        Option::Some(s) => Option::Some(s@),
        Option::None => Option::None,
    }
}

/// The flags every agent invocation carries: working directory, the
/// alternate calibration file, forced (re)start, the systemd start
/// timeout, and the device override when one is configured.
pub open spec fn spec_base_args(dir: Seq<char>, timeout: u64, dev: Option<Seq<char>>) -> Seq<
    Seq<char>,
> {
    let base = seq![
        "--dir"@,
        dir,
        "--bench-file"@,
        RB_BENCH_FILENAME@,
        "--force"@,
        "--force-running"@,
        "--systemd-timeout"@,
        spec_decimal(timeout as nat),
    ];
    match dev {
        Option::Some(d) => base + seq!["--dev"@, d],
        Option::None => base,
    }
}

/// Build the base agent argument vector.
pub fn agent_base_args(dir: &String, timeout: u64, dev: &Option<String>) -> (r: Vec<String>)
    ensures
        strs_model(r@) == spec_base_args(dir@, timeout, opt_str_model(*dev)),
{
    let mut r: Vec<String> = Vec::new();
    r.push("--dir".to_owned());
    r.push(dir.clone());
    r.push("--bench-file".to_owned());
    r.push(RB_BENCH_FILENAME.to_owned());
    r.push("--force".to_owned());
    r.push("--force-running".to_owned());
    r.push("--systemd-timeout".to_owned());
    r.push(u64_to_string(timeout));
    match dev {
        Option::Some(d) => {
            r.push("--dev".to_owned());
            r.push(d.clone());
            assert(strs_model(r@) =~= spec_base_args(dir@, timeout, opt_str_model(*dev)));
        },
        Option::None => {
            assert(strs_model(r@) =~= spec_base_args(dir@, timeout, opt_str_model(*dev)));
        },
    }
    r
}

/// The coarse report retention handed to cleanup: the configured value,
/// but never below the compiled-in default.
pub open spec fn spec_coarse_retention(rep_retention: u64) -> u64 {
    if rep_retention > DFL_REP_1MIN_RETENTION {
        rep_retention
    } else {
        DFL_REP_1MIN_RETENTION
    }
}

/// Whatever retention the user configured, the coarse retention passed to
/// cleanup is at least the configured value and at least the compiled-in
/// default.
pub proof fn lemma_coarse_retention_bounds(rep_retention: u64)
    ensures
        spec_coarse_retention(rep_retention) >= rep_retention,
        spec_coarse_retention(rep_retention) >= DFL_REP_1MIN_RETENTION,
{
}

pub fn coarse_retention(rep_retention: u64) -> (r: u64)
    ensures
        r == spec_coarse_retention(rep_retention),
        r >= rep_retention,
        r >= DFL_REP_1MIN_RETENTION,
{
    if rep_retention > DFL_REP_1MIN_RETENTION {
        rep_retention
    } else {
        DFL_REP_1MIN_RETENTION
    }
}

/// The argument vector of the housekeeping (cleanup-only) agent pass:
/// the base flags, the sentinel that skips the large-asset download,
/// bypass plus prepare-only mode, both report retentions, and the reset
/// flag when the user asked to clear reports.
pub open spec fn spec_cleanup_args(
    dir: Seq<char>,
    timeout: u64,
    dev: Option<Seq<char>>,
    rep_retention: u64,
    clear_reports: bool,
) -> Seq<Seq<char>> {
    let a = spec_base_args(dir, timeout, dev) + seq![
        "--linux-tar"@,
        "__SKIP__"@,
        "--bypass"@,
        "--prepare"@,
        "--rep-retention"@,
        spec_decimal(rep_retention as nat),
        "--rep-1min-retention"@,
        spec_decimal(spec_coarse_retention(rep_retention) as nat),
    ];
    if clear_reports {
        a + seq!["--reset"@]
    } else {
        a
    }
}

/// Build the argument vector for the housekeeping pass.
pub fn cleanup_command_args(cfg: &Args) -> (r: Vec<String>)
    ensures
        strs_model(r@) == spec_cleanup_args(
            cfg.dir@,
            cfg.systemd_timeout,
            opt_str_model(cfg.dev),
            cfg.rep_retention,
            cfg.clear_reports,
        ),
{
    let mut r = agent_base_args(&cfg.dir, cfg.systemd_timeout, &cfg.dev);
    r.push("--linux-tar".to_owned());
    r.push("__SKIP__".to_owned());
    r.push("--bypass".to_owned());
    r.push("--prepare".to_owned());
    r.push("--rep-retention".to_owned());
    r.push(u64_to_string(cfg.rep_retention));
    r.push("--rep-1min-retention".to_owned());
    r.push(u64_to_string(coarse_retention(cfg.rep_retention)));
    if cfg.clear_reports {
        r.push("--reset".to_owned());
    }
    assert(strs_model(r@) =~= spec_cleanup_args(
        cfg.dir@,
        cfg.systemd_timeout,
        opt_str_model(cfg.dev),
        cfg.rep_retention,
        cfg.clear_reports,
    ));
    r
}

/// Housekeeping runs exactly when at least one job is pending and the
/// user did not ask to keep the report files.
pub fn needs_cleanup(nr_pending: usize, keep_reports: bool) -> (r: bool)
    ensures
        r == (nr_pending > 0 && !keep_reports),
{
    nr_pending > 0 && !keep_reports
}

/// The scratch device: an explicit override wins; otherwise the device
/// detected for the nearest existing ancestor of the scratch path is
/// used; with neither the device cannot be resolved.
pub fn resolve_scratch_device(dev_override: &Option<String>, detected: Option<String>) -> (r:
    Option<String>)
    ensures
        match *dev_override {
            Option::Some(d) => r == Option::Some(d),
            Option::None => r == detected,
        },
{
    match dev_override {
        Option::Some(d) => Option::Some(d.clone()),
        Option::None => detected,
    }
}

/// One source of job specifications with its command-line position.
pub type JobSet = (u64, Vec<JobSpec>);

/// Merge of two position-ordered job sources into one, ordered by
/// position; a tie keeps the first source's entry first.
pub open spec fn spec_merge_sets(a: Seq<JobSet>, b: Seq<JobSet>) -> Seq<JobSet>
    decreases a.len() + b.len(),
{
    if a.len() == 0 {
        b
    } else if b.len() == 0 {
        a
    } else if a[0].0 <= b[0].0 {
        seq![a[0]] + spec_merge_sets(a.drop_first(), b)
    } else {
        seq![b[0]] + spec_merge_sets(a, b.drop_first())
    }
}

/// Merge job sets from two sources (inline specs and job files), each
/// already ordered by command-line position, into one ordered list.
pub fn merge_job_sets(a: Vec<JobSet>, b: Vec<JobSet>) -> (r: Vec<JobSet>)
    ensures
        r@ == spec_merge_sets(a@, b@),
    decreases a@.len() + b@.len(),
{
    if a.len() == 0 {
        b
    } else if b.len() == 0 {
        a
    } else {
        let a0: u64 = a[0].0;
        let b0: u64 = b[0].0;
        if a0 <= b0 {
            let mut a = a;
            let x = a.remove(0);
            let ghost arest = a@;
            let mut r = merge_job_sets(a, b);
            r.insert(0, x);
            assert(r@ =~= seq![x] + spec_merge_sets(arest, b@));
            r
        } else {
            let mut b = b;
            let x = b.remove(0);
            let ghost brest = b@;
            let mut r = merge_job_sets(a, b);
            r.insert(0, x);
            assert(r@ =~= seq![x] + spec_merge_sets(a@, brest));
            r
        }
    }
}

/// The specifications of the merged job sets, flattened in order.
pub open spec fn spec_flatten_sets(s: Seq<JobSet>) -> Seq<JobSpec>
    decreases s.len(),
{
    if s.len() == 0 {
        Seq::empty()
    } else {
        s[0].1@ + spec_flatten_sets(s.drop_first())
    }
}

/// Flatten merged job sets into the ordered job list of the invocation.
pub fn flatten_job_sets(sets: Vec<JobSet>) -> (r: Vec<JobSpec>)
    ensures
        r@ == spec_flatten_sets(sets@),
    decreases sets@.len(),
{
    let mut sets = sets;
    if sets.len() == 0 {
        Vec::new()
    } else {
        let first = sets.remove(0);
        let ghost rest = sets@;
        let mut r = first.1;
        let mut tail = flatten_job_sets(sets);
        r.append(&mut tail);
        assert(r@ =~= first.1@ + spec_flatten_sets(rest));
        r
    }
}

/// The decisions taken before any job runs: the contexts to run, in
/// original specification order, and the housekeeping argument vector
/// when a housekeeping pass is owed.
#[derive(Debug)]
pub struct RunPlan {
    pub pending: Vec<JobCtx>,
    pub cleanup: Option<Vec<String>>,
}

/// Link every configured specification against the registry and decide
/// whether the housekeeping pass runs.
///
/// Fails with the first unknown benchmark kind; on success the pending
/// contexts mirror the configured specifications in order and the cleanup
/// plan is present exactly when a job is pending and reports are not kept.
pub fn plan_run(cfg: &Args, registry: &KindRegistry) -> (r: Result<RunPlan, UnknownKind>)
    ensures
        r is Ok ==> {
            let plan = r.unwrap();
            &&& plan.pending@.len() == cfg.job_specs@.len()
            &&& forall|i: int|
                0 <= i < plan.pending@.len() ==> (#[trigger] plan.pending@[i])@.job_spec
                    == cfg.job_specs@[i]@ && plan.pending@[i]@.result is None
            &&& forall|i: int|
                0 <= i < plan.pending@.len() ==> registry.spec_lookup(
                    (#[trigger] plan.pending@[i])@.job_spec.kind,
                ) == Option::Some(plan.pending@[i]@.desc)
            &&& plan.cleanup is Some <==> (cfg.job_specs@.len() > 0 && !cfg.keep_reports)
            &&& match plan.cleanup {
                Option::Some(args) => strs_model(args@) == spec_cleanup_args(
                    cfg.dir@,
                    cfg.systemd_timeout,
                    opt_str_model(cfg.dev),
                    cfg.rep_retention,
                    cfg.clear_reports,
                ),
                Option::None => true,
            }
        },
        r is Ok <==> (forall|i: int|
            0 <= i < cfg.job_specs@.len() ==> registry.spec_lookup(
                (#[trigger] cfg.job_specs@[i]).kind@,
            ) is Some),
        r is Err ==> {
            let k = r->Err_0;
            &&& 0 <= k.index < cfg.job_specs@.len()
            &&& registry.spec_lookup(cfg.job_specs@[k.index as int].kind@) is None
            &&& k.kind@ == cfg.job_specs@[k.index as int].kind@
            &&& forall|i: int|
                0 <= i < k.index ==> registry.spec_lookup(
                    (#[trigger] cfg.job_specs@[i]).kind@,
                ) is Some
        },
{
    let pending = JobCtxs::link_all(&cfg.job_specs, registry)?;
    let cleanup = if needs_cleanup(pending.len(), cfg.keep_reports) {
        Option::Some(cleanup_command_args(cfg))
    } else {
        Option::None
    };
    Result::Ok(RunPlan { pending, cleanup })
}

} // verus!
