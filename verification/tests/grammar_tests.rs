use resctl_bench::grammar::{parse, parse_all, render};
use resctl_bench::jobspec::{JobSpec, Prop};

fn prop(k: &str, v: &str) -> Prop {
    Prop { key: k.to_string(), val: v.to_string() }
}

#[test]
fn parse_simple_properties() {
    let s = parse("fio:rw=randwrite:bs=4k").unwrap();
    assert_eq!(s.kind, "fio");
    assert!(s.id.is_none());
    assert_eq!(s.props, vec![vec![prop("rw", "randwrite"), prop("bs", "4k")]]);
}

#[test]
fn parse_id_and_group_separators() {
    let s = parse("fio:id=foo::a=1::b=2").unwrap();
    assert_eq!(s.kind, "fio");
    assert_eq!(s.id, Some("foo".to_string()));
    assert_eq!(s.props, vec![vec![], vec![prop("a", "1")], vec![prop("b", "2")]]);
}

#[test]
fn parse_drops_trailing_empty_group() {
    let s = parse("fio:a=1::").unwrap();
    assert_eq!(s.props, vec![vec![prop("a", "1")]]);
}

#[test]
fn parse_kind_only() {
    let s = parse("fio").unwrap();
    assert_eq!(s.kind, "fio");
    assert!(s.id.is_none());
    assert_eq!(s.props, vec![vec![]]);
}

#[test]
fn parse_empty_kind_is_error() {
    let e = parse("").unwrap_err();
    assert_eq!(e.text, "");
    let e = parse(":a=1").unwrap_err();
    assert_eq!(e.text, ":a=1");
}

#[test]
fn parse_missing_value_is_empty() {
    let s = parse("fio:flag").unwrap();
    assert_eq!(s.props, vec![vec![prop("flag", "")]]);
}

#[test]
fn parse_value_keeps_later_equals() {
    let s = parse("fio:a=b=c").unwrap();
    assert_eq!(s.props, vec![vec![prop("a", "b=c")]]);
}

#[test]
fn parse_duplicate_key_overwrites_in_place() {
    let s = parse("fio:a=1:b=2:a=3").unwrap();
    assert_eq!(s.props, vec![vec![prop("a", "3"), prop("b", "2")]]);
}

#[test]
fn parse_id_only_then_separator_keeps_empty_leading_group() {
    let s = parse("fio:id=x::a=1").unwrap();
    assert_eq!(s.id, Some("x".to_string()));
    assert_eq!(s.props, vec![vec![], vec![prop("a", "1")]]);
}

#[test]
fn render_canonical_forms() {
    let s = JobSpec { kind: "fio".to_string(), id: None, props: vec![vec![]] };
    assert_eq!(render(&s), "fio");
    let s = JobSpec {
        kind: "fio".to_string(),
        id: Some("foo".to_string()),
        props: vec![vec![], vec![prop("a", "1")], vec![prop("b", "2")]],
    };
    assert_eq!(render(&s), "fio:id=foo::a=1::b=2");
}

#[test]
fn render_then_parse_round_trip() {
    let s = JobSpec {
        kind: "iocost-qos".to_string(),
        id: Some("x".to_string()),
        props: vec![vec![prop("rw", "randread"), prop("n", "")], vec![prop("p", "=v")]],
    };
    let back = parse(&render(&s)).unwrap();
    assert_eq!(back, s);
}

#[test]
fn parse_then_render_round_trip() {
    let text = "fio:id=foo::a=1::b=2";
    let s = parse(text).unwrap();
    assert_eq!(render(&s), text);
}

#[test]
fn parse_all_collects_every_error() {
    let texts = vec![
        "fio:a=1".to_string(),
        "".to_string(),
        "stor".to_string(),
        ":bad".to_string(),
    ];
    let (_, errors) = parse_all(&texts);
    assert_eq!(errors.len(), 2);
    assert_eq!(errors[0].text, "");
    assert_eq!(errors[1].text, ":bad");

    let good = vec!["fio:a=1".to_string(), "stor".to_string()];
    let (specs, errors) = parse_all(&good);
    assert!(errors.is_empty());
    assert_eq!(specs.len(), 2);
    assert_eq!(specs[0].kind, "fio");
    assert_eq!(specs[1].kind, "stor");
}
