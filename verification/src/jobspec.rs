//! The job-specification data model.
//!
//! A job specification names a benchmark kind, an optional id that tells
//! several jobs of the same kind apart, and an ordered, non-empty sequence
//! of property groups.  Each group maps property keys to values; keys are
//! unique within a group.  A group keeps its properties in the order they
//! were written: key uniqueness, not key ordering, is the invariant, and
//! the canonical rendering reproduces the written order exactly.  The key
//! `id` is reserved by the grammar and never stored inside a group.

use vstd::prelude::*;

verus! {

/// One `key=value` property inside a property group.
#[derive(Debug, PartialEq, Eq)]
pub struct Prop {
    pub key: String,
    pub val: String,
}

impl Clone for Prop {
    fn clone(&self) -> (r: Self)
        ensures
            r == *self,
    {
        Prop { key: self.key.clone(), val: self.val.clone() }
    }
}

/// Mathematical model of a property: key and value as character sequences.
pub ghost struct PropModel {
    pub key: Seq<char>,
    pub val: Seq<char>,
}

impl View for Prop {
    type V = PropModel;

    open spec fn view(&self) -> PropModel {
        PropModel { key: self.key@, val: self.val@ }
    }
}

/// Model of one property group: the properties in storage order.
pub open spec fn group_model(g: Seq<Prop>) -> Seq<PropModel> {
    g.map_values(|p: Prop| p@)
}

/// Model of the ordered sequence of property groups.
pub open spec fn props_model(ps: Seq<Vec<Prop>>) -> Seq<Seq<PropModel>> {
    ps.map_values(|g: Vec<Prop>| group_model(g@))
}

/// A parsed job specification.
#[derive(Debug, PartialEq, Eq)]
pub struct JobSpec {
    pub kind: String,
    pub id: Option<String>,
    pub props: Vec<Vec<Prop>>,
}

fn clone_group(g: &Vec<Prop>) -> (r: Vec<Prop>)
    ensures
        r@ == g@,
{
    let n = g.len();
    let mut r: Vec<Prop> = Vec::new();
    let mut i: usize = 0;
    while i < n
        invariant
            n == g@.len(),
            0 <= i <= n,
            r@ == g@.subrange(0, i as int),
        decreases n - i,
    {
        r.push(g[i].clone());
        assert(r@ =~= g@.subrange(0, i + 1));
        i = i + 1;
    }
    assert(r@ =~= g@);
    r
}

impl Clone for JobSpec {
    /// Cloning keeps the model: kind, id and property groups.
    fn clone(&self) -> (r: Self)
        ensures
            r@ == self@,
    {
        let np = self.props.len();
        let mut props: Vec<Vec<Prop>> = Vec::new();
        let mut i: usize = 0;
        while i < np
            invariant
                np == self.props@.len(),
                0 <= i <= np,
                props@.len() == i,
                forall|t: int| 0 <= t < i ==> (#[trigger] props@[t])@ == self.props@[t]@,
            decreases np - i,
        {
            props.push(clone_group(&self.props[i]));
            i = i + 1;
        }
        assert(props_model(props@) =~= props_model(self.props@));
        let id = match &self.id {
            Option::Some(s) => Option::Some(s.clone()),
            Option::None => Option::None,
        };
        JobSpec { kind: self.kind.clone(), id, props }
    }
}

/// Mathematical model of a job specification.
pub ghost struct JobSpecModel {
    pub kind: Seq<char>,
    pub id: Option<Seq<char>>,
    pub props: Seq<Seq<PropModel>>,
}

impl View for JobSpec {
    type V = JobSpecModel;

    open spec fn view(&self) -> JobSpecModel {
        JobSpecModel {
            kind: self.kind@,
            id: match self.id {
                Option::Some(s) => Option::Some(s@),
                Option::None => Option::None,
            },
            props: props_model(self.props@),
        }
    }
}

/// The reserved key that sets a specification's id.
pub open spec fn id_key() -> Seq<char> {
    seq!['i', 'd']
}

pub open spec fn no_colon(s: Seq<char>) -> bool {
    forall|i: int| 0 <= i < s.len() ==> s[i] != ':'
}

pub open spec fn no_eq(s: Seq<char>) -> bool {
    forall|i: int| 0 <= i < s.len() ==> s[i] != '='
}

/// A key the grammar can carry inside a group: free of the separator
/// characters and distinct from the reserved `id` key.
pub open spec fn key_wf(k: Seq<char>) -> bool {
    no_colon(k) && no_eq(k) && k != id_key()
}

/// Well-formed property group: every key well formed and unique, every
/// value free of the token separator.
pub open spec fn group_wf(g: Seq<PropModel>) -> bool {
    &&& forall|i: int| 0 <= i < g.len() ==> key_wf(#[trigger] g[i].key)
    &&& forall|i: int| 0 <= i < g.len() ==> no_colon(#[trigger] g[i].val)
    &&& forall|i: int, j: int| 0 <= i < j < g.len() ==> g[i].key != g[j].key
}

/// Well-formed job specification: exactly what the parser can produce.
/// The kind is a non-empty token, the id (when present) is a token, there
/// is at least one property group, and only the leading group may be empty.
pub open spec fn spec_wf(m: JobSpecModel) -> bool {
    &&& m.kind.len() > 0
    &&& no_colon(m.kind)
    &&& match m.id {
        Option::Some(s) => no_colon(s),
        Option::None => true,
    }
    &&& m.props.len() >= 1
    &&& forall|i: int| 1 <= i < m.props.len() ==> (#[trigger] m.props[i]).len() > 0
    &&& forall|i: int| 0 <= i < m.props.len() ==> group_wf(#[trigger] m.props[i])
}

/// Inserting a key into a group: replace the value of the first matching
/// key in place, or append a fresh key at the end.
pub open spec fn group_insert(g: Seq<PropModel>, k: Seq<char>, v: Seq<char>) -> Seq<PropModel>
    decreases g.len(),
{
    if g.len() == 0 {
        seq![PropModel { key: k, val: v }]
    } else if g[0].key == k {
        g.update(0, PropModel { key: k, val: v })
    } else {
        seq![g[0]] + group_insert(g.drop_first(), k, v)
    }
}

/// Whether some property of the group carries the key.
pub open spec fn group_has_key(g: Seq<PropModel>, k: Seq<char>) -> bool {
    exists|i: int| 0 <= i < g.len() && g[i].key == k
}

/// Inserting a fresh key appends it.
pub proof fn lemma_group_insert_fresh(g: Seq<PropModel>, k: Seq<char>, v: Seq<char>)
    requires
        !group_has_key(g, k),
    ensures
        group_insert(g, k, v) == g.push(PropModel { key: k, val: v }),
    decreases g.len(),
{
    if g.len() == 0 {
        assert(group_insert(g, k, v) =~= g.push(PropModel { key: k, val: v }));
    } else {
        assert(g[0].key != k);
        assert(!group_has_key(g.drop_first(), k)) by {
            if group_has_key(g.drop_first(), k) {
                let i = choose|i: int| 0 <= i < g.drop_first().len() && g.drop_first()[i].key == k;
                assert(g[i + 1].key == k);
            }
        }
        lemma_group_insert_fresh(g.drop_first(), k, v);
        assert(group_insert(g, k, v) =~= g.push(PropModel { key: k, val: v }));
    }
}

/// Inserting a key already present rewrites its first occurrence in place.
pub proof fn lemma_group_insert_present(g: Seq<PropModel>, k: Seq<char>, v: Seq<char>, j: int)
    requires
        0 <= j < g.len(),
        g[j].key == k,
        forall|i: int| 0 <= i < j ==> g[i].key != k,
    ensures
        group_insert(g, k, v) == g.update(j, PropModel { key: k, val: v }),
    decreases g.len(),
{
    if j == 0 {
    } else {
        assert(g.drop_first()[j - 1].key == k);
        lemma_group_insert_present(g.drop_first(), k, v, j - 1);
        assert(group_insert(g, k, v) =~= g.update(j, PropModel { key: k, val: v }));
    }
}

/// Set `key` to `val` in the group, replacing the first occurrence of the
/// key or appending a fresh property.
pub fn group_set(g: &mut Vec<Prop>, key: String, val: String)
    ensures
        group_model(final(g)@) == group_insert(group_model(old(g)@), key@, val@),
{
    let ghost gm = group_model(old(g)@);
    let n: usize = g.len();
    let mut i: usize = 0;
    while i < n
        invariant
            n == g.len(),
            0 <= i <= n,
            g@ == old(g)@,
            gm == group_model(g@),
            forall|t: int| 0 <= t < i ==> gm[t].key != key@,
        decreases n - i,
    {
        assert(gm[i as int] == g@[i as int]@);
        if g[i].key == key {
            g.set(i, Prop { key, val });
            proof {
                lemma_group_insert_present(gm, key@, val@, i as int);
                assert(group_model(g@) =~= gm.update(i as int, PropModel { key: key@, val: val@ }));
            }
            return;
        }
        i = i + 1;
    }
    g.push(Prop { key, val });
    proof {
        assert(!group_has_key(gm, key@));
        lemma_group_insert_fresh(gm, key@, val@);
        assert(group_model(g@) =~= gm.push(PropModel { key: key@, val: val@ }));
    }
}

} // verus!
