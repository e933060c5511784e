//! The format/summary driver's selection logic: which stored contexts are
//! rendered, with which property groups, and when a format request is
//! refused.  The per-kind rendering itself is outside the library.

use vstd::prelude::*;
use crate::jobspec::{group_model, props_model, JobSpec, Prop, PropModel};
use crate::store::{first_match, JobCtx, JobCtxs};

verus! {

/// Why a format request was refused.
#[derive(Clone, Copy, Debug, PartialEq, Eq, Structural)]
pub enum FormatFail {
    /// No stored context matches the requested specification.
    NoMatch,
    /// The kind does not accept extra properties at format time.
    UnsupportedProps,
    /// The kind does not accept several property groups at format time.
    UnsupportedPropsets,
}

#[derive(Clone, Copy, Debug, PartialEq, Eq, Structural)]
pub struct FormatError {
    /// Position of the offending specification in the request list.
    pub index: usize,
    pub fail: FormatFail,
}

/// Every specification of a well-formed request owns at least one
/// property group.
pub open spec fn specs_have_groups(specs: Seq<JobSpec>) -> bool {
    forall|i: int| 0 <= i < specs.len() ==> (#[trigger] specs[i]).props@.len() >= 1
}

/// Selection for an explicit request list: pop the first stored context
/// matching each specification in turn, refusing properties or several
/// groups where the kind's descriptor disallows them.  The error carries
/// the position of the specification that failed.
pub open spec fn spec_select_from(store: Seq<JobCtx>, specs: Seq<JobSpec>) -> Result<
    Seq<(JobCtx, Vec<Vec<Prop>>)>,
    (int, FormatFail),
>
    decreases specs.len(),
{
    if specs.len() == 0 {
        Result::Ok(Seq::empty())
    } else {
        let q = specs[0];
        let f = first_match(store, q);
        if f >= store.len() {
            Result::Err((0int, FormatFail::NoMatch))
        } else {
            let c = store[f];
            if !c.desc.takes_format_props && q.props@[0]@.len() > 0 {
                Result::Err((0int, FormatFail::UnsupportedProps))
            } else if !c.desc.takes_format_propsets && q.props@.len() > 1 {
                Result::Err((0int, FormatFail::UnsupportedPropsets))
            } else {
                match spec_select_from(store.remove(f), specs.drop_first()) {
                    Result::Ok(rest) => Result::Ok(seq![(c, q.props)] + rest),
                    Result::Err((i, k)) => Result::Err((i + 1, k)),
                }
            }
        }
    }
}

/// A failed selection points at a position inside the request list.
proof fn lemma_select_err_index(store: Seq<JobCtx>, specs: Seq<JobSpec>)
    ensures
        spec_select_from(store, specs) matches Result::Err((i, _)) ==> 0 <= i < specs.len(),
    decreases specs.len(),
{
    if specs.len() > 0 {
        let q = specs[0];
        let f = first_match(store, q);
        if f < store.len() {
            lemma_select_err_index(store.remove(f), specs.drop_first());
        }
    }
}

fn select_rest(store: &mut JobCtxs, specs: Vec<JobSpec>) -> (r: Result<
    Vec<(JobCtx, Vec<Vec<Prop>>)>,
    FormatError,
>)
    requires
        specs_have_groups(specs@),
    ensures
        match spec_select_from(old(store).vec@, specs@) {
            Result::Ok(sel) => r is Ok && r.unwrap()@ == sel,
            Result::Err((i, k)) => r matches Result::Err(e) && e.index as int == i && e.fail == k,
        },
    decreases specs@.len(),
{
    let mut specs = specs;
    if specs.len() == 0 {
        let r: Vec<(JobCtx, Vec<Vec<Prop>>)> = Vec::new();
        assert(r@ =~= Seq::<(JobCtx, Vec<Vec<Prop>>)>::empty());
        return Result::Ok(r);
    }
    let ghost specs0 = specs@;
    let q = specs.remove(0);
    assert(specs@ =~= specs0.drop_first());
    match store.pop_matching(&q) {
        Option::None => Result::Err(FormatError { index: 0, fail: FormatFail::NoMatch }),
        Option::Some(c) => {
            if !c.desc.takes_format_props && q.props[0].len() > 0 {
                return Result::Err(
                    FormatError { index: 0, fail: FormatFail::UnsupportedProps },
                );
            }
            if !c.desc.takes_format_propsets && q.props.len() > 1 {
                return Result::Err(
                    FormatError { index: 0, fail: FormatFail::UnsupportedPropsets },
                );
            }
            proof {
                lemma_select_err_index(store.vec@, specs@);
            }
            match select_rest(store, specs) {
                Result::Ok(rest) => {
                    let mut rest = rest;
                    rest.insert(0, (c, q.props));
                    assert(rest@ =~= match spec_select_from(old(store).vec@, specs0) {
                        Result::Ok(sel) => sel,
                        Result::Err(_) => rest@,
                    });
                    Result::Ok(rest)
                },
                Result::Err(e) => Result::Err(
                    FormatError { index: e.index + 1, fail: e.fail },
                ),
            }
        },
    }
}

/// Decide what gets rendered: with no requested specifications every
/// stored context is selected exactly once, in original order, each with
/// one empty property group; otherwise each requested specification pops
/// its first matching context, checked against the kind's format
/// capabilities.
pub fn select_to_format(store: JobCtxs, specs: Vec<JobSpec>) -> (r: Result<
    Vec<(JobCtx, Vec<Vec<Prop>>)>,
    FormatError,
>)
    requires
        specs_have_groups(specs@),
    ensures
        specs@.len() == 0 ==> r is Ok && {
            let sel = r.unwrap();
            &&& sel@.len() == store.vec@.len()
            &&& forall|i: int| 0 <= i < sel@.len() ==> (#[trigger] sel@[i]).0 == store.vec@[i]
            &&& forall|i: int|
                0 <= i < sel@.len() ==> props_model((#[trigger] sel@[i]).1@) == seq![
                    Seq::<PropModel>::empty(),
                ]
        },
        specs@.len() > 0 ==> match spec_select_from(store.vec@, specs@) {
            Result::Ok(sel) => r is Ok && r.unwrap()@ == sel,
            Result::Err((i, k)) => r matches Result::Err(e) && e.index as int == i && e.fail == k,
        },
{
    let mut store = store;
    if specs.len() == 0 {
        let ghost orig = store.vec@;
        let n = store.vec.len();
        let mut out: Vec<(JobCtx, Vec<Vec<Prop>>)> = Vec::new();
        let mut i: usize = 0;
        while i < n
            invariant
                n == orig.len(),
                0 <= i <= n,
                store.vec@ == orig.skip(i as int),
                out@.len() == i,
                forall|t: int| 0 <= t < i ==> (#[trigger] out@[t]).0 == orig[t],
                forall|t: int|
                    0 <= t < i ==> props_model((#[trigger] out@[t]).1@) == seq![
                        Seq::<PropModel>::empty(),
                    ],
            decreases n - i,
        {
            let c = store.vec.remove(0);
            assert(store.vec@ =~= orig.skip(i + 1));
            let mut groups: Vec<Vec<Prop>> = Vec::new();
            let empty_group: Vec<Prop> = Vec::new();
            assert(empty_group@ =~= Seq::<Prop>::empty());
            groups.push(empty_group);
            assert(group_model(Seq::<Prop>::empty()) =~= Seq::<PropModel>::empty());
            assert(props_model(groups@) =~~= seq![Seq::<PropModel>::empty()]);
            out.push((c, groups));
            i = i + 1;
        }
        Result::Ok(out)
    } else {
        select_rest(&mut store, specs)
    }
}

} // verus!
