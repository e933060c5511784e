//! The job-specification grammar.
//!
//! A specification is written `kind(':' token)*`.  The first token is the
//! benchmark kind and must be non-empty.  Every later token is either
//! empty — a property-group separator — or `key[=value]`.  The reserved
//! key `id` sets the specification's id and never lands in a group.  A
//! separator opens a new group unless one was just opened after the
//! leading group; a trailing empty group is dropped.
//!
//! `parse` and `render` are verified against the specification-level
//! grammar below, and rendering then parsing reproduces the model.

use vstd::prelude::*;
use crate::jobspec::{
    group_insert, group_model, id_key, no_colon, no_eq, props_model, group_set, JobSpec, JobSpecModel,
    Prop, PropModel,
};
use crate::text::strs_model;

verus! {

/// Split on `':'`: always at least one token, possibly empty ones.
pub open spec fn spec_split(s: Seq<char>) -> Seq<Seq<char>>
    decreases s.len(),
{
    if s.len() == 0 {
        seq![Seq::<char>::empty()]
    } else if s[0] == ':' {
        seq![Seq::<char>::empty()] + spec_split(s.drop_first())
    } else {
        let rest = spec_split(s.drop_first());
        rest.update(0, seq![s[0]] + rest[0])
    }
}

proof fn lemma_split_len(s: Seq<char>)
    ensures
        spec_split(s).len() >= 1,
    decreases s.len(),
{
    if s.len() > 0 {
        lemma_split_len(s.drop_first());
    }
}

/// Join tokens with `':'`.
pub open spec fn spec_join(ts: Seq<Seq<char>>) -> Seq<char>
    decreases ts.len(),
{
    if ts.len() == 0 {
        Seq::empty()
    } else if ts.len() == 1 {
        ts[0]
    } else {
        ts[0] + seq![':'] + spec_join(ts.drop_first())
    }
}

/// The key of a `key[=value]` token: everything before the first `'='`.
pub open spec fn key_of(t: Seq<char>) -> Seq<char>
    decreases t.len(),
{
    if t.len() == 0 {
        Seq::empty()
    } else if t[0] == '=' {
        Seq::empty()
    } else {
        seq![t[0]] + key_of(t.drop_first())
    }
}

/// The value of a `key[=value]` token: everything after the first `'='`,
/// empty when the token has none.
pub open spec fn val_of(t: Seq<char>) -> Seq<char>
    decreases t.len(),
{
    if t.len() == 0 {
        Seq::empty()
    } else if t[0] == '=' {
        t.drop_first()
    } else {
        val_of(t.drop_first())
    }
}

/// Splitting after a colon-free prefix keeps the prefix in the first
/// token and leaves the rest of the split alone.
proof fn lemma_split_prepend(t: Seq<char>, s: Seq<char>)
    requires
        no_colon(t),
    ensures
        spec_split(t + s).len() == spec_split(s).len(),
        spec_split(t + s)[0] == t + spec_split(s)[0],
        forall|i: int| 1 <= i < spec_split(s).len() ==> spec_split(t + s)[i] == spec_split(s)[i],
    decreases t.len(),
{
    lemma_split_len(s);
    if t.len() == 0 {
        assert(t + s =~= s);
        assert(t + spec_split(s)[0] =~= spec_split(s)[0]);
    } else {
        assert(t[0] != ':');
        assert((t + s).drop_first() =~= t.drop_first() + s);
        lemma_split_prepend(t.drop_first(), s);
        assert(no_colon(t.drop_first()));
        let rest = spec_split((t + s).drop_first());
        assert(spec_split(t + s) == rest.update(0, seq![(t + s)[0]] + rest[0]));
        assert(seq![t[0]] + (t.drop_first() + spec_split(s)[0]) =~= t + spec_split(s)[0]);
    }
}

/// Splitting a string that starts with a colon yields a leading empty
/// token.
proof fn lemma_split_colon(s: Seq<char>)
    ensures
        spec_split(seq![':'] + s) == seq![Seq::<char>::empty()] + spec_split(s),
{
    assert((seq![':'] + s)[0] == ':');
    assert((seq![':'] + s).drop_first() =~= s);
}

/// Splitting the join of colon-free tokens gives the tokens back.
proof fn lemma_split_join(ts: Seq<Seq<char>>)
    requires
        ts.len() >= 1,
        forall|i: int| 0 <= i < ts.len() ==> no_colon(#[trigger] ts[i]),
    ensures
        spec_split(spec_join(ts)) == ts,
    decreases ts.len(),
{
    if ts.len() == 1 {
        assert(ts[0] + Seq::<char>::empty() =~= ts[0]);
        lemma_split_prepend(ts[0], Seq::<char>::empty());
        assert(spec_split(Seq::<char>::empty()) == seq![Seq::<char>::empty()]);
        assert(spec_split(ts[0]) =~= seq![ts[0]]);
        assert(spec_split(spec_join(ts)) =~= ts);
    } else {
        let tail = ts.drop_first();
        assert(forall|i: int| 0 <= i < tail.len() ==> tail[i] == #[trigger] ts[i + 1]);
        lemma_split_join(tail);
        lemma_split_colon(spec_join(tail));
        let s2 = seq![':'] + spec_join(tail);
        assert(spec_join(ts) == ts[0] + seq![':'] + spec_join(tail));
        assert(spec_join(ts) =~= ts[0] + s2);
        lemma_split_prepend(ts[0], s2);
        let inner = spec_split(s2);
        assert(inner == seq![Seq::<char>::empty()] + tail);
        let out = spec_split(spec_join(ts));
        assert(out == spec_split(ts[0] + s2));
        assert(out.len() == inner.len() == ts.len());
        assert(inner[0] =~= Seq::<char>::empty());
        assert(out[0] == ts[0] + inner[0]);
        assert(ts[0] + inner[0] =~= ts[0]);
        assert forall|i: int| 1 <= i < ts.len() implies out[i] == ts[i] by {
            assert(spec_split(ts[0] + s2)[i] == spec_split(s2)[i]);
            assert(inner[i] == tail[i - 1]);
        }
        assert(out =~= ts);
    }
}

/// For a key free of `'='`, the key/value decomposition of
/// `key '=' value` is exact.
proof fn lemma_kv_token(k: Seq<char>, v: Seq<char>)
    requires
        forall|i: int| 0 <= i < k.len() ==> k[i] != '=',
    ensures
        key_of(k + seq!['='] + v) == k,
        val_of(k + seq!['='] + v) == v,
    decreases k.len(),
{
    let t = k + seq!['='] + v;
    if k.len() == 0 {
        assert(t[0] == '=');
        assert(key_of(t) =~= k);
        assert(t.drop_first() =~= v);
    } else {
        assert(t[0] == k[0]);
        assert(t[0] != '=');
        assert(t.drop_first() =~= k.drop_first() + seq!['='] + v);
        lemma_kv_token(k.drop_first(), v);
        assert(seq![k[0]] + k.drop_first() =~= k);
        assert(key_of(t) =~= k);
    }
}

/// Split a specification string into its colon-separated tokens.
fn tokenize(s: &str) -> (r: Vec<String>)
    ensures
        strs_model(r@) == spec_split(s@),
        r@.len() >= 1,
    decreases s@.len(),
{
    let n = s.unicode_len();
    if n == 0 {
        let mut r: Vec<String> = Vec::new();
        r.push(String::new());
        assert(strs_model(r@) =~~= spec_split(s@));
        r
    } else {
        let c = s.get_char(0);
        let rest = s.substring_char(1, n);
        assert(rest@ =~= s@.drop_first());
        let mut r = tokenize(rest);
        proof {
            lemma_split_len(rest@);
        }
        if c == ':' {
            r.insert(0, String::new());
            assert(strs_model(r@) =~~= spec_split(s@));
            r
        } else {
            let first = s.substring_char(0, 1);
            let mut t = first.to_owned();
            let old_head = &r[0];
            t.append(old_head.as_str());
            assert(t@ =~= seq![s@[0]] + strs_model(r@)[0]);
            r.set(0, t);
            assert(strs_model(r@) =~~= spec_split(s@));
            r
        }
    }
}

/// State of the token-processing pass: the id seen so far and the
/// property groups built so far (always at least one).
pub ghost struct ParseState {
    pub id: Option<Seq<char>>,
    pub groups: Seq<Seq<PropModel>>,
}

/// Before any token: no id, one empty property group.
pub open spec fn init_state() -> ParseState {
    ParseState { id: Option::None, groups: seq![Seq::<PropModel>::empty()] }
}

/// One token.  An empty token opens a new group unless a group other
/// than the leading one was just opened and is still empty.  An `id`
/// token sets the id.  Anything else lands in the current (last) group.
pub open spec fn proc_tok(st: ParseState, tok: Seq<char>) -> ParseState {
    if tok.len() == 0 {
        if st.groups.len() == 1 || st.groups.last().len() > 0 {
            ParseState { id: st.id, groups: st.groups.push(Seq::empty()) }
        } else {
            st
        }
    } else {
        let k = key_of(tok);
        let v = val_of(tok);
        if k == id_key() {
            ParseState { id: Option::Some(v), groups: st.groups }
        } else {
            ParseState {
                id: st.id,
                groups: st.groups.update(
                    st.groups.len() - 1,
                    group_insert(st.groups.last(), k, v),
                ),
            }
        }
    }
}

pub open spec fn proc_toks(st: ParseState, toks: Seq<Seq<char>>) -> ParseState
    decreases toks.len(),
{
    if toks.len() == 0 {
        st
    } else {
        proc_toks(proc_tok(st, toks[0]), toks.drop_first())
    }
}

/// Processing a concatenation processes the parts in order.
proof fn lemma_proc_toks_concat(st: ParseState, a: Seq<Seq<char>>, b: Seq<Seq<char>>)
    ensures
        proc_toks(st, a + b) == proc_toks(proc_toks(st, a), b),
    decreases a.len(),
{
    if a.len() == 0 {
        assert(a + b =~= b);
    } else {
        assert((a + b)[0] == a[0]);
        assert((a + b).drop_first() =~= a.drop_first() + b);
        lemma_proc_toks_concat(proc_tok(st, a[0]), a.drop_first(), b);
    }
}

/// The final model: drop a trailing empty group left behind a non-empty
/// one.
pub open spec fn finalize(kind: Seq<char>, st: ParseState) -> JobSpecModel {
    JobSpecModel {
        kind: kind,
        id: st.id,
        props: if st.groups.len() > 1 && st.groups.last().len() == 0 {
            st.groups.drop_last()
        } else {
            st.groups
        },
    }
}

/// The whole grammar: the result of parsing, or nothing when the kind
/// token is empty.
pub open spec fn spec_parse(s: Seq<char>) -> Option<JobSpecModel> {
    let toks = spec_split(s);
    if toks[0].len() == 0 {
        Option::None
    } else {
        Option::Some(finalize(toks[0], proc_toks(init_state(), toks.drop_first())))
    }
}

/// A specification string could not be parsed.
#[derive(Clone, Debug, PartialEq, Eq)]
pub struct ParseError {
    /// The offending text, for diagnostics.
    pub text: String,
}

/// Model of the mutable parsing state held by `parse`.
pub open spec fn state_model(id: Option<String>, groups: Seq<Vec<Prop>>) -> ParseState {
    ParseState {
        id: match id {
            Option::Some(s) => Option::Some(s@),
            Option::None => Option::None,
        },
        groups: props_model(groups),
    }
}

/// Parse one job-specification string.
///
/// Succeeds exactly when the kind token is non-empty, and then returns
/// the specification the grammar assigns to the string.
pub fn parse(input: &str) -> (r: Result<JobSpec, ParseError>)
    ensures
        r is Ok <==> spec_parse(input@) is Some,
        r is Ok ==> r.unwrap()@ == spec_parse(input@).unwrap(),
        r is Ok ==> r.unwrap().props@.len() >= 1,
        r is Ok ==> crate::jobspec::spec_wf(r.unwrap()@),
        r is Err ==> r->Err_0.text@ == input@,
{
    proof {
        lemma_split_len(input@);
        lemma_parse_wf(input@);
    }
    let toks = tokenize(input);
    let ghost tokens = spec_split(input@);
    assert(toks@[0]@ == tokens[0]);
    if toks[0].as_str().is_empty() {
        return Result::Err(ParseError { text: input.to_owned() });
    }
    let kind = toks[0].clone();
    let mut id: Option<String> = Option::None;
    let mut groups: Vec<Vec<Prop>> = Vec::new();
    groups.push(Vec::new());
    proof {
        assert(props_model(groups@) =~~= seq![Seq::<PropModel>::empty()]);
        assert(state_model(id, groups@) == init_state());
    }
    let n = toks.len();
    let mut i: usize = 1;
    while i < n
        invariant
            n == toks@.len(),
            1 <= i <= n,
            tokens == spec_split(input@),
            strs_model(toks@) == tokens,
            groups@.len() >= 1,
            state_model(id, groups@) == proc_toks(init_state(), tokens.subrange(1, i as int)),
        decreases n - i,
    {
        let ghost st_before = state_model(id, groups@);
        let ghost tok_m = tokens[i as int];
        assert(toks@[i as int]@ == tok_m);
        let tok = &toks[i];
        if tok.as_str().is_empty() {
            let glen = groups.len();
            let last_len = groups[glen - 1].len();
            proof {
                assert(st_before.groups.len() == glen);
                assert(st_before.groups.last() == group_model(groups@[glen - 1]@));
                assert(st_before.groups.last().len() == last_len);
            }
            if glen == 1 || last_len > 0 {
                let eg: Vec<Prop> = Vec::new();
                proof {
                    assert(group_model(eg@) =~= Seq::<PropModel>::empty());
                }
                groups.push(eg);
                proof {
                    assert(props_model(groups@) =~~= st_before.groups.push(
                        Seq::<PropModel>::empty(),
                    ));
                    assert(state_model(id, groups@) == proc_tok(st_before, tok_m));
                }
            } else {
                proof {
                    assert(state_model(id, groups@) == proc_tok(st_before, tok_m));
                }
            }
        } else {
            let (k, v) = split_kv(tok.as_str());
            let id_lit = "id".to_owned();
            proof {
                reveal_strlit("id");
                assert("id"@ =~= id_key());
            }
            if k == id_lit {
                id = Option::Some(v);
                assert(state_model(id, groups@) == proc_tok(st_before, tok_m));
            } else {
                let mut last = match groups.pop() {
                    Option::Some(g) => g,
                    Option::None => Vec::new(),
                };
                group_set(&mut last, k, v);
                groups.push(last);
                proof {
                    assert(props_model(groups@) =~~= st_before.groups.update(
                        st_before.groups.len() - 1,
                        group_insert(st_before.groups.last(), key_of(tok_m), val_of(tok_m)),
                    ));
                    assert(state_model(id, groups@) == proc_tok(st_before, tok_m));
                }
            }
        }
        proof {
            let pre = tokens.subrange(1, i as int);
            assert(tokens.subrange(1, i + 1) =~= pre + seq![tok_m]);
            lemma_proc_toks_concat(init_state(), pre, seq![tok_m]);
            let inner = seq![tok_m].drop_first();
            assert(inner.len() == 0);
            assert(proc_toks(proc_tok(st_before, tok_m), inner) == proc_tok(st_before, tok_m));
            assert(proc_toks(st_before, seq![tok_m]) == proc_toks(
                proc_tok(st_before, tok_m),
                inner,
            ));
        }
        i = i + 1;
    }
    assert(tokens.subrange(1, n as int) =~= tokens.drop_first());
    let ghost st = proc_toks(init_state(), tokens.drop_first());
    if groups.len() > 1 && groups[groups.len() - 1].len() == 0 {
        groups.pop();
        proof {
            assert(props_model(groups@) =~= st.groups.drop_last());
        }
    }
    let r = JobSpec { kind, id, props: groups };
    assert(r@ == finalize(tokens[0], st));
    Result::Ok(r)
}

proof fn lemma_split_no_colon(s: Seq<char>)
    ensures
        forall|i: int|
            0 <= i < spec_split(s).len() ==> no_colon(#[trigger] spec_split(s)[i]),
    decreases s.len(),
{
    if s.len() == 0 {
    } else if s[0] == ':' {
        lemma_split_no_colon(s.drop_first());
        lemma_split_len(s.drop_first());
        let r = spec_split(s);
        let rest = spec_split(s.drop_first());
        assert(r == seq![Seq::<char>::empty()] + rest);
        assert forall|i: int| 0 <= i < r.len() implies no_colon(#[trigger] r[i]) by {
            if i > 0 {
                assert(r[i] == rest[i - 1]);
            }
        }
    } else {
        lemma_split_no_colon(s.drop_first());
        lemma_split_len(s.drop_first());
        let r = spec_split(s);
        let rest = spec_split(s.drop_first());
        assert(r == rest.update(0, seq![s[0]] + rest[0]));
        assert forall|i: int| 0 <= i < r.len() implies no_colon(#[trigger] r[i]) by {
            if i == 0 {
                let t = seq![s[0]] + rest[0];
                assert forall|j: int| 0 <= j < t.len() implies t[j] != ':' by {
                    if j > 0 {
                        assert(t[j] == rest[0][j - 1]);
                    }
                }
            } else {
                assert(r[i] == rest[i]);
            }
        }
    }
}

proof fn lemma_key_val_props(t: Seq<char>)
    ensures
        no_eq(key_of(t)),
        no_colon(t) ==> no_colon(key_of(t)),
        no_colon(t) ==> no_colon(val_of(t)),
    decreases t.len(),
{
    if t.len() == 0 {
    } else if t[0] == '=' {
        if no_colon(t) {
            assert forall|j: int| 0 <= j < val_of(t).len() implies val_of(t)[j] != ':' by {
                assert(val_of(t)[j] == t[j + 1]);
            }
        }
    } else {
        assert(forall|j: int|
            0 <= j < t.drop_first().len() ==> #[trigger] t.drop_first()[j] == t[j + 1]);
        lemma_key_val_props(t.drop_first());
        let k = key_of(t);
        assert(k == seq![t[0]] + key_of(t.drop_first()));
        assert forall|j: int| 0 <= j < k.len() implies k[j] != '=' by {
            if j > 0 {
                assert(k[j] == key_of(t.drop_first())[j - 1]);
            }
        }
        if no_colon(t) {
            assert(no_colon(t.drop_first()));
            assert forall|j: int| 0 <= j < k.len() implies k[j] != ':' by {
                if j > 0 {
                    assert(k[j] == key_of(t.drop_first())[j - 1]);
                }
            }
        }
    }
}

proof fn lemma_group_insert_wf(g: Seq<PropModel>, k: Seq<char>, v: Seq<char>)
    requires
        crate::jobspec::group_wf(g),
        crate::jobspec::key_wf(k),
        no_colon(v),
    ensures
        crate::jobspec::group_wf(group_insert(g, k, v)),
    decreases g.len(),
{
    let r = group_insert(g, k, v);
    if g.len() == 0 {
    } else if g[0].key == k {
        assert(forall|t: int| 0 <= t < r.len() ==> (#[trigger] r[t]).key == g[t].key);
    } else {
        assert(forall|j: int|
            0 <= j < g.drop_first().len() ==> #[trigger] g.drop_first()[j] == g[j + 1]);
        assert(crate::jobspec::group_wf(g.drop_first()));
        lemma_group_insert_wf(g.drop_first(), k, v);
        let tail = group_insert(g.drop_first(), k, v);
        if !crate::jobspec::group_has_key(g.drop_first(), k) {
            crate::jobspec::lemma_group_insert_fresh(g.drop_first(), k, v);
            assert forall|a: int, b: int| 0 <= a < b < r.len() implies r[a].key
                != r[b].key by {
                if a == 0 {
                    assert(r[b] == tail[b - 1]);
                    if b < r.len() - 1 {
                        assert(tail[b - 1] == g.drop_first()[b - 1]);
                    } else {
                        assert(tail[b - 1].key == k);
                    }
                } else {
                    assert(r[a] == tail[a - 1] && r[b] == tail[b - 1]);
                }
            }
        } else {
            let j = choose|j: int|
                0 <= j < g.drop_first().len() && g.drop_first()[j].key == k;
            let jf = choose|jf: int|
                0 <= jf < g.drop_first().len() && g.drop_first()[jf].key == k
                    && (forall|t: int|
                    0 <= t < jf ==> g.drop_first()[t].key != k);
            assert(exists|jf: int|
                0 <= jf < g.drop_first().len() && g.drop_first()[jf].key == k && (forall|
                    t: int,
                |
                    0 <= t < jf ==> g.drop_first()[t].key != k)) by {
                // the match with the smallest index is first
                assert(g.drop_first()[j].key == k);
                assert forall|t: int| 0 <= t < j implies g.drop_first()[t].key != k by {
                    if g.drop_first()[t].key == k {
                        assert(g[t + 1].key == g[j + 1].key);
                    }
                }
            }
            crate::jobspec::lemma_group_insert_present(g.drop_first(), k, v, jf);
            assert forall|a: int, b: int| 0 <= a < b < r.len() implies r[a].key
                != r[b].key by {
                if a == 0 {
                    assert(r[b] == tail[b - 1]);
                    if b - 1 == jf {
                        assert(tail[b - 1].key == k);
                    } else {
                        assert(tail[b - 1] == g.drop_first()[b - 1]);
                    }
                } else {
                    assert(r[a] == tail[a - 1] && r[b] == tail[b - 1]);
                }
            }
        }
        assert forall|t: int| 0 <= t < r.len() implies crate::jobspec::key_wf(
            #[trigger] r[t].key,
        ) && no_colon(r[t].val) by {
            if t > 0 {
                assert(r[t] == tail[t - 1]);
            }
        }
    }
}

/// Structural soundness of the token-processing state: at least one
/// group, every group between the leading and the current one non-empty,
/// every group well-formed, the id free of the token separator.
pub open spec fn state_wf(st: ParseState) -> bool {
    &&& st.groups.len() >= 1
    &&& forall|i: int| 1 <= i < st.groups.len() - 1 ==> (#[trigger] st.groups[i]).len() > 0
    &&& forall|i: int|
        0 <= i < st.groups.len() ==> crate::jobspec::group_wf(#[trigger] st.groups[i])
    &&& match st.id {
        Option::Some(x) => no_colon(x),
        Option::None => true,
    }
}

proof fn lemma_proc_tok_wf(st: ParseState, tok: Seq<char>)
    requires
        state_wf(st),
        no_colon(tok),
    ensures
        state_wf(proc_tok(st, tok)),
{
    let r = proc_tok(st, tok);
    if tok.len() == 0 {
        if st.groups.len() == 1 || st.groups.last().len() > 0 {
            assert forall|i: int| 1 <= i < r.groups.len() - 1 implies (#[trigger] r.groups[i]).len()
                > 0 by {
                assert(r.groups[i] == st.groups[i]);
            }
        }
    } else {
        lemma_key_val_props(tok);
        let k = key_of(tok);
        let v = val_of(tok);
        if k != id_key() {
            assert(crate::jobspec::key_wf(k));
            lemma_group_insert_wf(st.groups.last(), k, v);
        }
    }
}

proof fn lemma_proc_toks_wf(st: ParseState, toks: Seq<Seq<char>>)
    requires
        state_wf(st),
        forall|i: int| 0 <= i < toks.len() ==> no_colon(#[trigger] toks[i]),
    ensures
        state_wf(proc_toks(st, toks)),
    decreases toks.len(),
{
    if toks.len() > 0 {
        lemma_proc_tok_wf(st, toks[0]);
        assert(forall|i: int|
            0 <= i < toks.drop_first().len() ==> #[trigger] toks.drop_first()[i] == toks[i
                + 1]);
        lemma_proc_toks_wf(proc_tok(st, toks[0]), toks.drop_first());
    }
}

/// Whatever string parses, the result is a well-formed specification:
/// only the leading property group may be empty, keys are unique within
/// a group and never the reserved `id`, and no field carries a token
/// separator.  Together with the round-trip law this makes
/// parse-render-parse stable.
pub proof fn lemma_parse_wf(s: Seq<char>)
    ensures
        spec_parse(s) matches Option::Some(m) ==> crate::jobspec::spec_wf(m),
{
    lemma_split_len(s);
    lemma_split_no_colon(s);
    let toks = spec_split(s);
    if toks[0].len() > 0 {
        assert(state_wf(init_state()));
        assert(forall|i: int|
            0 <= i < toks.drop_first().len() ==> #[trigger] toks.drop_first()[i] == toks[i
                + 1]);
        lemma_proc_toks_wf(init_state(), toks.drop_first());
        let st = proc_toks(init_state(), toks.drop_first());
        let m = finalize(toks[0], st);
        if st.groups.len() > 1 && st.groups.last().len() == 0 {
            assert forall|i: int| 1 <= i < m.props.len() implies (#[trigger] m.props[i]).len()
                > 0 by {
                assert(m.props[i] == st.groups[i]);
            }
            assert forall|i: int| 0 <= i < m.props.len() implies crate::jobspec::group_wf(
                #[trigger] m.props[i],
            ) by {
                assert(m.props[i] == st.groups[i]);
            }
        } else {
            assert forall|i: int| 1 <= i < m.props.len() implies (#[trigger] m.props[i]).len()
                > 0 by {
                if i == m.props.len() - 1 {
                    assert(st.groups.last().len() > 0);
                }
            }
        }
        assert(crate::jobspec::spec_wf(m));
    }
}

/// What parsing a whole batch yields: the parses of the inputs that
/// parse, and the texts of the inputs that do not, each list in input
/// order.
pub open spec fn spec_parse_batch(texts: Seq<Seq<char>>) -> (Seq<JobSpecModel>, Seq<Seq<char>>)
    decreases texts.len(),
{
    if texts.len() == 0 {
        (Seq::empty(), Seq::empty())
    } else {
        let (oks, errs) = spec_parse_batch(texts.drop_last());
        match spec_parse(texts.last()) {
            Option::Some(m) => (oks.push(m), errs),
            Option::None => (oks, errs.push(texts.last())),
        }
    }
}

/// Parse a whole batch of specification strings, attempting every one
/// and collecting every failure, so that all input errors surface in a
/// single pass before the caller aborts.
///
/// The successes are exactly the parses of the well-formed inputs and
/// the errors carry exactly the texts of the malformed ones, each in
/// input order.
pub fn parse_all(texts: &Vec<String>) -> (r: (Vec<JobSpec>, Vec<ParseError>))
    ensures
        ({
            let (oks, errs) = spec_parse_batch(strs_model(texts@));
            &&& r.0@.len() == oks.len()
            &&& forall|i: int| 0 <= i < oks.len() ==> (#[trigger] r.0@[i])@ == oks[i]
            &&& r.1@.len() == errs.len()
            &&& forall|i: int| 0 <= i < errs.len() ==> (#[trigger] r.1@[i]).text@ == errs[i]
        }),
        r.1@.len() == 0 <==> (forall|i: int|
            0 <= i < texts@.len() ==> spec_parse((#[trigger] texts@[i])@) is Some),
        r.1@.len() == 0 ==> r.0@.len() == texts@.len() && (forall|i: int|
            0 <= i < texts@.len() ==> (#[trigger] r.0@[i])@ == spec_parse(texts@[i]@).unwrap()),
{
    let n = texts.len();
    let mut specs: Vec<JobSpec> = Vec::new();
    let mut errors: Vec<ParseError> = Vec::new();
    let mut i: usize = 0;
    while i < n
        invariant
            n == texts@.len(),
            0 <= i <= n,
            ({
                let (oks, errs) = spec_parse_batch(strs_model(texts@).take(i as int));
                &&& specs@.len() == oks.len()
                &&& forall|t: int| 0 <= t < oks.len() ==> (#[trigger] specs@[t])@ == oks[t]
                &&& errors@.len() == errs.len()
                &&& forall|t: int| 0 <= t < errs.len() ==> (#[trigger] errors@[t]).text@ == errs[t]
            }),
            errors@.len() == 0 <==> (forall|t: int|
                0 <= t < i ==> spec_parse((#[trigger] texts@[t])@) is Some),
            errors@.len() == 0 ==> specs@.len() == i && (forall|t: int|
                0 <= t < i ==> (#[trigger] specs@[t])@ == spec_parse(texts@[t]@).unwrap()),
        decreases n - i,
    {
        proof {
            let pre = strs_model(texts@).take(i as int);
            let cur = strs_model(texts@).take(i + 1);
            assert(cur.drop_last() =~= pre);
            assert(cur.last() == texts@[i as int]@);
        }
        match parse(texts[i].as_str()) {
            Result::Ok(s) => specs.push(s),
            Result::Err(e) => {
                assert(e.text@ == texts@[i as int]@);
                errors.push(e);
            },
        }
        i = i + 1;
    }
    proof {
        assert(strs_model(texts@).take(n as int) =~= strs_model(texts@));
    }
    (specs, errors)
}

/// The token a property renders to.
pub open spec fn kv_token(p: PropModel) -> Seq<char> {
    p.key + seq!['='] + p.val
}

/// The tokens of one property group, in storage order.
pub open spec fn group_tokens(g: Seq<PropModel>) -> Seq<Seq<char>> {
    g.map_values(|p: PropModel| kv_token(p))
}

/// The tokens of every group after the leading one, each preceded by an
/// empty separator token.
pub open spec fn tail_groups_tokens(gs: Seq<Seq<PropModel>>) -> Seq<Seq<char>>
    decreases gs.len(),
{
    if gs.len() == 0 {
        Seq::empty()
    } else {
        seq![Seq::<char>::empty()] + group_tokens(gs[0]) + tail_groups_tokens(gs.drop_first())
    }
}

pub open spec fn id_tokens(id: Option<Seq<char>>) -> Seq<Seq<char>> {
    match id {
        Option::Some(x) => seq![seq!['i', 'd', '='] + x],
        Option::None => Seq::empty(),
    }
}

/// The canonical token sequence of a specification: the kind, the id
/// token when an id is present, then the property groups separated by
/// empty tokens.
pub open spec fn token_seq(m: JobSpecModel) -> Seq<Seq<char>> {
    seq![m.kind] + id_tokens(m.id) + (if m.props.len() == 0 {
        Seq::<Seq<char>>::empty()
    } else {
        group_tokens(m.props[0]) + tail_groups_tokens(m.props.drop_first())
    })
}

/// The canonical rendering of a specification.
pub open spec fn spec_render(m: JobSpecModel) -> Seq<char> {
    spec_join(token_seq(m))
}

fn render_group_tokens(toks: &mut Vec<String>, g: &Vec<Prop>)
    ensures
        strs_model(final(toks)@) == strs_model(old(toks)@) + group_tokens(group_model(g@)),
{
    let ghost base = strs_model(old(toks)@);
    let n = g.len();
    let mut i: usize = 0;
    while i < n
        invariant
            n == g@.len(),
            0 <= i <= n,
            strs_model(toks@) == base + group_tokens(group_model(g@).subrange(0, i as int)),
        decreases n - i,
    {
        let mut t = g[i].key.clone();
        proof {
            reveal_strlit("=");
            assert("="@ =~= seq!['=']);
        }
        t.append("=");
        t.append(g[i].val.as_str());
        assert(t@ =~= kv_token(g@[i as int]@));
        let ghost tm = t@;
        let ghost prev = toks@;
        toks.push(t);
        proof {
            assert(toks@ == prev.push(t));
            assert(strs_model(toks@) =~~= strs_model(prev).push(tm));
            assert(group_tokens(group_model(g@).subrange(0, i + 1)) =~~= group_tokens(
                group_model(g@).subrange(0, i as int),
            ).push(kv_token(g@[i as int]@)));
            assert(strs_model(toks@) =~~= base + group_tokens(
                group_model(g@).subrange(0, i + 1),
            ));
        }
        i = i + 1;
    }
    proof {
        assert(group_model(g@).subrange(0, n as int) =~= group_model(g@));
    }
}

fn render_tail_groups(toks: &mut Vec<String>, props: &Vec<Vec<Prop>>, from: usize)
    requires
        1 <= from <= props@.len(),
    ensures
        strs_model(final(toks)@) == strs_model(old(toks)@) + tail_groups_tokens(
            props_model(props@).skip(from as int),
        ),
    decreases props@.len() - from,
{
    let ghost base = strs_model(old(toks)@);
    let ghost gs = props_model(props@).skip(from as int);
    if from == props.len() {
        proof {
            assert(gs =~= Seq::<Seq<PropModel>>::empty());
            assert(base + tail_groups_tokens(gs) =~~= base);
        }
    } else {
        toks.push(String::new());
        render_group_tokens(toks, &props[from]);
        render_tail_groups(toks, props, from + 1);
        proof {
            assert(gs[0] == group_model(props@[from as int]@));
            assert(gs.drop_first() =~= props_model(props@).skip(from + 1));
            assert(tail_groups_tokens(gs) == seq![Seq::<char>::empty()] + group_tokens(gs[0])
                + tail_groups_tokens(gs.drop_first()));
            assert(strs_model(toks@) =~~= base + tail_groups_tokens(gs));
        }
    }
}

fn render_tokens(m: &JobSpec) -> (r: Vec<String>)
    ensures
        strs_model(r@) == token_seq(m@),
        r@.len() >= 1,
{
    let mut toks: Vec<String> = Vec::new();
    toks.push(m.kind.clone());
    match &m.id {
        Option::Some(idv) => {
            let mut t = "id=".to_owned();
            proof {
                reveal_strlit("id=");
                assert("id="@ =~= seq!['i', 'd', '=']);
            }
            t.append(idv.as_str());
            toks.push(t);
        },
        Option::None => {},
    }
    let ghost head = seq![m@.kind] + id_tokens(m@.id);
    assert(strs_model(toks@) =~~= head);
    if m.props.len() > 0 {
        render_group_tokens(&mut toks, &m.props[0]);
        render_tail_groups(&mut toks, &m.props, 1);
        proof {
            assert(props_model(m.props@)[0] == group_model(m.props@[0]@));
            assert(props_model(m.props@).skip(1) =~= props_model(m.props@).drop_first());
            assert(strs_model(toks@) =~~= token_seq(m@));
        }
    } else {
        assert(strs_model(toks@) =~~= token_seq(m@));
    }
    toks
}

fn join_from(toks: &Vec<String>, i: usize) -> (r: String)
    requires
        i < toks@.len(),
    ensures
        r@ == spec_join(strs_model(toks@).skip(i as int)),
    decreases toks@.len() - i,
{
    let ghost ts = strs_model(toks@).skip(i as int);
    if i == toks.len() - 1 {
        let r = toks[i].clone();
        assert(ts.len() == 1);
        assert(r@ == ts[0]);
        r
    } else {
        let mut s = toks[i].clone();
        proof {
            reveal_strlit(":");
            assert(":"@ =~= seq![':']);
        }
        s.append(":");
        let rest = join_from(toks, i + 1);
        s.append(rest.as_str());
        proof {
            assert(ts.drop_first() =~= strs_model(toks@).skip(i + 1));
            assert(ts.len() >= 2);
            assert(spec_join(ts) == ts[0] + seq![':'] + spec_join(ts.drop_first()));
            assert(s@ =~= spec_join(ts));
        }
        s
    }
}

/// The canonical rendering of a specification: the kind, an `id=` token
/// when an id is present, and the property groups separated by `::`,
/// all joined with `':'`.
pub fn render(spec_src: &JobSpec) -> (r: String)
    ensures
        r@ == spec_render(spec_src@),
{
    let toks = render_tokens(spec_src);
    let r = join_from(&toks, 0);
    assert(strs_model(toks@).skip(0) =~= strs_model(toks@));
    r
}

proof fn lemma_kv_token_no_colon(p: PropModel)
    requires
        no_colon(p.key),
        no_colon(p.val),
    ensures
        no_colon(kv_token(p)),
{
    let t = kv_token(p);
    assert forall|j: int| 0 <= j < t.len() implies t[j] != ':' by {
        if j < p.key.len() {
            assert(t[j] == p.key[j]);
        } else if j == p.key.len() {
            assert(t[j] == '=');
        } else {
            assert(t[j] == p.val[j - p.key.len() - 1]);
        }
    }
}

proof fn lemma_group_tokens_no_colon(g: Seq<PropModel>)
    requires
        crate::jobspec::group_wf(g),
    ensures
        forall|i: int|
            0 <= i < group_tokens(g).len() ==> no_colon(#[trigger] group_tokens(g)[i]),
{
    assert forall|i: int|
        0 <= i < group_tokens(g).len() implies no_colon(#[trigger] group_tokens(g)[i]) by {
        assert(group_tokens(g)[i] == kv_token(g[i]));
        lemma_kv_token_no_colon(g[i]);
    }
}

proof fn lemma_tail_groups_no_colon(gs: Seq<Seq<PropModel>>)
    requires
        forall|i: int| 0 <= i < gs.len() ==> crate::jobspec::group_wf(#[trigger] gs[i]),
    ensures
        forall|i: int|
            0 <= i < tail_groups_tokens(gs).len() ==> no_colon(
                #[trigger] tail_groups_tokens(gs)[i],
            ),
    decreases gs.len(),
{
    if gs.len() > 0 {
        lemma_group_tokens_no_colon(gs[0]);
        assert(forall|i: int|
            0 <= i < gs.drop_first().len() ==> #[trigger] gs.drop_first()[i] == gs[i + 1]);
        lemma_tail_groups_no_colon(gs.drop_first());
        let ts = tail_groups_tokens(gs);
        assert forall|i: int| 0 <= i < ts.len() implies no_colon(#[trigger] ts[i]) by {
            let gt = group_tokens(gs[0]);
            let rest = tail_groups_tokens(gs.drop_first());
            if i == 0 {
                assert(ts[0] =~= Seq::<char>::empty());
            } else if i <= gt.len() {
                assert(ts[i] == gt[i - 1]);
            } else {
                assert(ts[i] == rest[i - 1 - gt.len()]);
            }
        }
    }
}

/// Filling one group: processing its `key=value` tokens extends the
/// current last group with exactly its properties.
proof fn lemma_fill_group(
    id0: Option<Seq<char>>,
    gbase: Seq<Seq<PropModel>>,
    h: Seq<PropModel>,
    g: Seq<PropModel>,
)
    requires
        crate::jobspec::group_wf(h + g),
    ensures
        proc_toks(
            ParseState { id: id0, groups: gbase.push(h) },
            group_tokens(g),
        ) == (ParseState { id: id0, groups: gbase.push(h + g) }),
    decreases g.len(),
{
    let st = ParseState { id: id0, groups: gbase.push(h) };
    if g.len() == 0 {
        assert(h + g =~= h);
        assert(group_tokens(g).len() == 0);
    } else {
        let p = g[0];
        let tok = kv_token(p);
        assert((h + g)[h.len() as int] == p);
        assert(crate::jobspec::key_wf(p.key));
        assert(no_colon((h + g)[h.len() as int].val));
        lemma_kv_token(p.key, p.val);
        assert(tok.len() > 0);
        assert(key_of(tok) == p.key && val_of(tok) == p.val);
        assert(p.key != id_key());
        assert(!crate::jobspec::group_has_key(h, p.key)) by {
            if crate::jobspec::group_has_key(h, p.key) {
                let j = choose|j: int| 0 <= j < h.len() && h[j].key == p.key;
                assert((h + g)[j] == h[j]);
                assert((h + g)[j].key == (h + g)[h.len() as int].key);
            }
        }
        crate::jobspec::lemma_group_insert_fresh(h, p.key, p.val);
        let st1 = proc_tok(st, tok);
        assert(st.groups.last() == h);
        assert(st1.groups =~~= gbase.push(h.push(p)));
        assert(st1.id == id0);
        assert(h.push(p) + g.drop_first() =~= h + g);
        assert(crate::jobspec::group_wf(h.push(p) + g.drop_first()));
        lemma_fill_group(id0, gbase, h.push(p), g.drop_first());
        assert(group_tokens(g)[0] == tok);
        assert(group_tokens(g).drop_first() =~~= group_tokens(g.drop_first()));
        assert(proc_toks(st, group_tokens(g)) == proc_toks(st1, group_tokens(g.drop_first())));
        assert(gbase.push(h.push(p) + g.drop_first()) == gbase.push(h + g));
    }
}

/// Each later group: its separator opens a fresh group, which its tokens
/// then fill.
proof fn lemma_tail_groups_proc(
    id0: Option<Seq<char>>,
    gacc: Seq<Seq<PropModel>>,
    gs: Seq<Seq<PropModel>>,
)
    requires
        gacc.len() >= 1,
        gacc.len() == 1 || gacc.last().len() > 0,
        forall|i: int|
            0 <= i < gs.len() ==> (#[trigger] gs[i]).len() > 0 && crate::jobspec::group_wf(
                gs[i],
            ),
    ensures
        proc_toks(ParseState { id: id0, groups: gacc }, tail_groups_tokens(gs))
            == (ParseState { id: id0, groups: gacc + gs }),
    decreases gs.len(),
{
    let st = ParseState { id: id0, groups: gacc };
    if gs.len() == 0 {
        assert(gacc + gs =~= gacc);
        assert(tail_groups_tokens(gs).len() == 0);
    } else {
        let sep = Seq::<char>::empty();
        let gt = group_tokens(gs[0]);
        let rest = tail_groups_tokens(gs.drop_first());
        assert(tail_groups_tokens(gs) =~~= seq![sep] + (gt + rest));
        lemma_proc_toks_concat(st, seq![sep], gt + rest);
        let st1 = proc_tok(st, sep);
        assert(proc_toks(st, seq![sep]) == st1) by {
            let inner = seq![sep].drop_first();
            assert(inner.len() == 0);
            assert(proc_toks(st1, inner) == st1);
        }
        assert(st1.groups == gacc.push(Seq::<PropModel>::empty()));
        lemma_proc_toks_concat(st1, gt, rest);
        assert(Seq::<PropModel>::empty() + gs[0] =~= gs[0]);
        assert(crate::jobspec::group_wf(Seq::<PropModel>::empty() + gs[0]));
        lemma_fill_group(id0, gacc, Seq::<PropModel>::empty(), gs[0]);
        let st2 = proc_toks(st1, gt);
        assert(st2 == (ParseState { id: id0, groups: gacc.push(gs[0]) }));
        let gacc2 = gacc.push(gs[0]);
        assert(gacc2.last().len() > 0);
        assert(forall|i: int|
            0 <= i < gs.drop_first().len() ==> #[trigger] gs.drop_first()[i] == gs[i + 1]);
        lemma_tail_groups_proc(id0, gacc2, gs.drop_first());
        assert(gacc2 + gs.drop_first() =~= gacc + gs);
    }
}

/// Round trip: parsing the canonical rendering of any well-formed job
/// specification reproduces the specification exactly — kind, id, and
/// the property groups with their contents and order.
pub proof fn lemma_parse_render_roundtrip(m: JobSpecModel)
    requires
        crate::jobspec::spec_wf(m),
    ensures
        spec_parse(spec_render(m)) == Option::Some(m),
{
    let ts = token_seq(m);
    let idt = id_tokens(m.id);
    let gt0 = group_tokens(m.props[0]);
    let tailt = tail_groups_tokens(m.props.drop_first());
    assert(forall|i: int|
        0 <= i < m.props.drop_first().len() ==> #[trigger] m.props.drop_first()[i] == m.props[i
            + 1]);
    // every token is colon-free
    lemma_group_tokens_no_colon(m.props[0]);
    lemma_tail_groups_no_colon(m.props.drop_first());
    assert forall|i: int| 0 <= i < ts.len() implies no_colon(#[trigger] ts[i]) by {
        if i == 0 {
            assert(ts[0] == m.kind);
        } else if i < 1 + idt.len() {
            let x = m.id.unwrap();
            assert(ts[i] == seq!['i', 'd', '='] + x);
            let t = seq!['i', 'd', '='] + x;
            assert forall|j: int| 0 <= j < t.len() implies t[j] != ':' by {
                if j >= 3 {
                    assert(t[j] == x[j - 3]);
                }
            }
        } else if i < 1 + idt.len() + gt0.len() {
            assert(ts[i] == gt0[i - 1 - idt.len()]);
        } else {
            assert(ts[i] == tailt[i - 1 - idt.len() - gt0.len()]);
        }
    }
    assert(ts.len() >= 1);
    lemma_split_join(ts);
    assert(spec_split(spec_render(m)) == ts);
    assert(ts[0] == m.kind);
    assert(ts[0].len() > 0);
    // process the tokens after the kind
    let body = ts.drop_first();
    assert(body =~~= idt + (gt0 + tailt));
    lemma_proc_toks_concat(init_state(), idt, gt0 + tailt);
    let st1 = proc_toks(init_state(), idt);
    assert(st1 == (ParseState { id: m.id, groups: seq![Seq::<PropModel>::empty()] })) by {
        match m.id {
            Option::Some(x) => {
                let tok = seq!['i', 'd', '='] + x;
                assert(idt =~= seq![tok]);
                assert(no_eq(id_key())) by {
                    assert(id_key()[0] == 'i' && id_key()[1] == 'd');
                }
                assert(id_key() + seq!['='] + x =~= tok);
                lemma_kv_token(id_key(), x);
                assert(tok.len() > 0);
                let s1 = proc_tok(init_state(), tok);
                assert(s1 == (ParseState { id: m.id, groups: seq![Seq::<PropModel>::empty()] }));
                let inner = seq![tok].drop_first();
                assert(inner.len() == 0);
                assert(proc_toks(s1, inner) == s1);
            },
            Option::None => {
                assert(idt.len() == 0);
            },
        }
    }
    lemma_proc_toks_concat(st1, gt0, tailt);
    assert(Seq::<Seq<PropModel>>::empty().push(Seq::<PropModel>::empty()) =~= seq![
        Seq::<PropModel>::empty(),
    ]);
    assert(Seq::<PropModel>::empty() + m.props[0] =~= m.props[0]);
    assert(crate::jobspec::group_wf(Seq::<PropModel>::empty() + m.props[0]));
    lemma_fill_group(m.id, Seq::<Seq<PropModel>>::empty(), Seq::<PropModel>::empty(), m.props[0]);
    let st2 = proc_toks(st1, gt0);
    assert(st2 == (ParseState {
        id: m.id,
        groups: Seq::<Seq<PropModel>>::empty().push(m.props[0]),
    }));
    let gacc = Seq::<Seq<PropModel>>::empty().push(m.props[0]);
    lemma_tail_groups_proc(m.id, gacc, m.props.drop_first());
    let st3 = proc_toks(st2, tailt);
    assert(gacc + m.props.drop_first() =~= m.props);
    assert(st3 == (ParseState { id: m.id, groups: m.props }));
    assert(proc_toks(init_state(), body) == st3);
    // a trailing group is only dropped when it is empty behind another,
    // which well-formedness rules out
    if m.props.len() > 1 {
        assert(m.props.last().len() > 0);
    }
    assert(finalize(ts[0], st3) == m);
}

/// Split one token into key and value.
fn split_kv(t: &str) -> (r: (String, String))
    ensures
        r.0@ == key_of(t@),
        r.1@ == val_of(t@),
    decreases t@.len(),
{
    let n = t.unicode_len();
    if n == 0 {
        (String::new(), String::new())
    } else {
        let c = t.get_char(0);
        if c == '=' {
            let rest = t.substring_char(1, n);
            assert(rest@ =~= t@.drop_first());
            (String::new(), rest.to_owned())
        } else {
            let rest = t.substring_char(1, n);
            assert(rest@ =~= t@.drop_first());
            let (k, v) = split_kv(rest);
            let first = t.substring_char(0, 1);
            let mut kk = first.to_owned();
            kk.append(k.as_str());
            assert(kk@ =~= seq![t@[0]] + key_of(t@.drop_first()));
            (kk, v)
        }
    }
}

} // verus!
