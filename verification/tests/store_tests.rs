use resctl_bench::jobspec::JobSpec;
use resctl_bench::store::{BenchDesc, JobCtx, JobCtxs, KindRegistry};

fn spec(kind: &str, id: Option<&str>) -> JobSpec {
    JobSpec { kind: kind.to_string(), id: id.map(|s| s.to_string()), props: vec![vec![]] }
}

fn desc() -> BenchDesc {
    BenchDesc { takes_format_props: true, takes_format_propsets: true }
}

fn ctx(kind: &str, id: Option<&str>) -> JobCtx {
    JobCtx { job_spec: spec(kind, id), desc: desc(), result: None }
}

#[test]
fn registry_lookup_first_registration_wins() {
    let mut reg = KindRegistry::new();
    reg.register(
        "fio".to_string(),
        BenchDesc { takes_format_props: false, takes_format_propsets: false },
    );
    reg.register("fio".to_string(), desc());
    reg.register("stor".to_string(), desc());
    let d = reg.lookup(&"fio".to_string()).unwrap();
    assert!(!d.takes_format_props);
    assert!(reg.lookup(&"nope".to_string()).is_none());
}

#[test]
fn link_all_builds_contexts_in_order() {
    let mut reg = KindRegistry::new();
    reg.register("fio".to_string(), desc());
    reg.register("stor".to_string(), desc());
    let specs = vec![spec("fio", Some("a")), spec("stor", None)];
    let ctxs = JobCtxs::link_all(&specs, &reg).unwrap();
    assert_eq!(ctxs.len(), 2);
    assert_eq!(ctxs[0].job_spec.kind, "fio");
    assert_eq!(ctxs[1].job_spec.kind, "stor");
    assert!(ctxs[0].result.is_none());
}

#[test]
fn link_all_reports_first_unknown_kind() {
    let mut reg = KindRegistry::new();
    reg.register("fio".to_string(), desc());
    let specs = vec![spec("fio", None), spec("mystery", None), spec("other", None)];
    let e = JobCtxs::link_all(&specs, &reg).unwrap_err();
    assert_eq!(e.index, 1);
    assert_eq!(e.kind, "mystery");
}

#[test]
fn pop_matching_removes_exactly_first_match() {
    let mut store = JobCtxs::new();
    store.vec.push(ctx("fio", Some("one")));
    store.vec.push(ctx("fio", Some("two")));
    store.vec.push(ctx("stor", None));

    // a query without an id matches the first context of the kind
    let got = store.pop_matching(&spec("fio", None)).unwrap();
    assert_eq!(got.job_spec.id, Some("one".to_string()));
    assert_eq!(store.vec.len(), 2);
    assert_eq!(store.vec[0].job_spec.id, Some("two".to_string()));
    assert_eq!(store.vec[1].job_spec.kind, "stor");

    // an id query matches only the same id
    let got = store.pop_matching(&spec("fio", Some("two"))).unwrap();
    assert_eq!(got.job_spec.id, Some("two".to_string()));
    assert_eq!(store.vec.len(), 1);
}

#[test]
fn pop_matching_without_match_leaves_store_unchanged() {
    let mut store = JobCtxs::new();
    store.vec.push(ctx("fio", Some("one")));
    assert!(store.pop_matching(&spec("stor", None)).is_none());
    assert!(store.pop_matching(&spec("fio", Some("other"))).is_none());
    assert_eq!(store.vec.len(), 1);
    assert_eq!(store.vec[0].job_spec.id, Some("one".to_string()));
}

#[test]
fn format_ids_lists_kind_and_id_pairs() {
    let mut store = JobCtxs::new();
    store.vec.push(ctx("fio", Some("one")));
    store.vec.push(ctx("stor", None));
    store.vec.push(ctx("fio", Some("two")));
    assert_eq!(store.format_ids(), "fio:one, stor, fio:two");
    let empty = JobCtxs::new();
    assert_eq!(empty.format_ids(), "");
}

#[test]
fn record_result_stores_payload() {
    let mut c = ctx("fio", None);
    c.record_result("{\"score\":1}".to_string());
    assert_eq!(c.result, Some("{\"score\":1}".to_string()));
}
