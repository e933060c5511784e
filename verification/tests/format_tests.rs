use resctl_bench::format::{select_to_format, FormatFail};
use resctl_bench::jobspec::{JobSpec, Prop};
use resctl_bench::store::{BenchDesc, JobCtx, JobCtxs};

fn prop(k: &str, v: &str) -> Prop {
    Prop { key: k.to_string(), val: v.to_string() }
}

fn spec(kind: &str, id: Option<&str>, props: Vec<Vec<Prop>>) -> JobSpec {
    JobSpec { kind: kind.to_string(), id: id.map(|s| s.to_string()), props }
}

fn ctx(kind: &str, id: Option<&str>, desc: BenchDesc) -> JobCtx {
    JobCtx { job_spec: spec(kind, id, vec![vec![]]), desc, result: Some("payload".to_string()) }
}

fn permissive() -> BenchDesc {
    BenchDesc { takes_format_props: true, takes_format_propsets: true }
}

#[test]
fn zero_specs_render_every_context_once_in_order() {
    let mut store = JobCtxs::new();
    store.vec.push(ctx("fio", Some("a"), permissive()));
    store.vec.push(ctx("stor", None, permissive()));
    store.vec.push(ctx("fio", Some("b"), permissive()));
    let sel = select_to_format(store, vec![]).unwrap();
    assert_eq!(sel.len(), 3);
    assert_eq!(sel[0].0.job_spec.id, Some("a".to_string()));
    assert_eq!(sel[1].0.job_spec.kind, "stor");
    assert_eq!(sel[2].0.job_spec.id, Some("b".to_string()));
    for (_, groups) in &sel {
        // one empty property group: each context is rendered exactly once
        assert_eq!(groups, &vec![Vec::<Prop>::new()]);
    }
}

#[test]
fn requested_specs_pop_matching_contexts() {
    let mut store = JobCtxs::new();
    store.vec.push(ctx("fio", Some("a"), permissive()));
    store.vec.push(ctx("fio", Some("b"), permissive()));
    let req = vec![spec("fio", Some("b"), vec![vec![prop("x", "1")], vec![prop("y", "2")]])];
    let sel = select_to_format(store, req).unwrap();
    assert_eq!(sel.len(), 1);
    assert_eq!(sel[0].0.job_spec.id, Some("b".to_string()));
    assert_eq!(sel[0].1, vec![vec![prop("x", "1")], vec![prop("y", "2")]]);
}

#[test]
fn missing_match_is_an_error_with_its_position() {
    let mut store = JobCtxs::new();
    store.vec.push(ctx("fio", None, permissive()));
    let req = vec![spec("fio", None, vec![vec![]]), spec("stor", None, vec![vec![]])];
    let e = select_to_format(store, req).unwrap_err();
    assert_eq!(e.index, 1);
    assert_eq!(e.fail, FormatFail::NoMatch);
}

#[test]
fn format_properties_refused_where_kind_disallows_them() {
    let mut store = JobCtxs::new();
    let strict = BenchDesc { takes_format_props: false, takes_format_propsets: false };
    store.vec.push(ctx("stor", None, strict));
    let req = vec![spec("stor", None, vec![vec![prop("x", "1")]])];
    let e = select_to_format(store, req).unwrap_err();
    assert_eq!(e.index, 0);
    assert_eq!(e.fail, FormatFail::UnsupportedProps);
}

#[test]
fn multiple_groups_refused_where_kind_disallows_them() {
    let mut store = JobCtxs::new();
    let one_way = BenchDesc { takes_format_props: true, takes_format_propsets: false };
    store.vec.push(ctx("stor", None, one_way));
    let req = vec![spec("stor", None, vec![vec![], vec![prop("x", "1")]])];
    let e = select_to_format(store, req).unwrap_err();
    assert_eq!(e.index, 0);
    assert_eq!(e.fail, FormatFail::UnsupportedPropsets);
}
