//! The job store: benchmark-kind registry, job contexts and the ordered
//! collection that persists results across invocations.

use vstd::prelude::*;
use crate::jobspec::JobSpec;

verus! {

/// Capability flags of a benchmark kind, consulted at format time.
#[derive(Clone, Copy, Debug, PartialEq, Eq, Structural)]
pub struct BenchDesc {
    /// The kind accepts extra properties when formatting.
    pub takes_format_props: bool,
    /// The kind accepts several property groups when formatting.
    pub takes_format_propsets: bool,
}

/// Registry of the benchmark kinds known to this invocation, populated
/// once at startup.
pub struct KindRegistry {
    pub kinds: Vec<(String, BenchDesc)>,
}

/// First-match lookup in a kind list.
pub open spec fn spec_lookup_in(s: Seq<(String, BenchDesc)>, kind: Seq<char>) -> Option<BenchDesc>
    decreases s.len(),
{
    if s.len() == 0 {
        Option::None
    } else if s[0].0@ == kind {
        Option::Some(s[0].1)
    } else {
        spec_lookup_in(s.drop_first(), kind)
    }
}

proof fn lemma_lookup_in_at(s: Seq<(String, BenchDesc)>, kind: Seq<char>, j: int)
    requires
        0 <= j < s.len(),
        s[j].0@ == kind,
        forall|t: int| 0 <= t < j ==> (#[trigger] s[t]).0@ != kind,
    ensures
        spec_lookup_in(s, kind) == Option::Some(s[j].1),
    decreases s.len(),
{
    if j > 0 {
        assert(s.drop_first()[j - 1] == s[j]);
        assert(forall|t: int|
            0 <= t < j - 1 ==> (#[trigger] s.drop_first()[t]).0@ == s[t + 1].0@);
        lemma_lookup_in_at(s.drop_first(), kind, j - 1);
    }
}

proof fn lemma_lookup_in_none(s: Seq<(String, BenchDesc)>, kind: Seq<char>)
    requires
        forall|t: int| 0 <= t < s.len() ==> (#[trigger] s[t]).0@ != kind,
    ensures
        spec_lookup_in(s, kind) is None,
    decreases s.len(),
{
    if s.len() > 0 {
        assert(forall|t: int|
            0 <= t < s.drop_first().len() ==> (#[trigger] s.drop_first()[t]).0@ == s[t
                + 1].0@);
        lemma_lookup_in_none(s.drop_first(), kind);
    }
}

impl KindRegistry {
    pub open spec fn spec_lookup(&self, kind: Seq<char>) -> Option<BenchDesc> {
        spec_lookup_in(self.kinds@, kind)
    }

    pub fn new() -> (r: Self)
        ensures
            r.kinds@.len() == 0,
    {
        KindRegistry { kinds: Vec::new() }
    }

    /// Register a benchmark kind; an earlier registration of the same
    /// name keeps precedence.
    pub fn register(&mut self, kind: String, desc: BenchDesc)
        ensures
            final(self).kinds@ == old(self).kinds@.push((kind, desc)),
    {
        self.kinds.push((kind, desc));
    }

    /// Look the kind up, returning the descriptor registered first under
    /// that name.
    pub fn lookup(&self, kind: &String) -> (r: Option<BenchDesc>)
        ensures
            r == self.spec_lookup(kind@),
    {
        let n = self.kinds.len();
        let mut i: usize = 0;
        while i < n
            invariant
                n == self.kinds@.len(),
                0 <= i <= n,
                forall|t: int| 0 <= t < i ==> (#[trigger] self.kinds@[t]).0@ != kind@,
            decreases n - i,
        {
            if self.kinds[i].0 == *kind {
                proof {
                    lemma_lookup_in_at(self.kinds@, kind@, i as int);
                }
                return Option::Some(self.kinds[i].1);
            }
            i = i + 1;
        }
        proof {
            lemma_lookup_in_none(self.kinds@, kind@);
        }
        Option::None
    }
}

/// The benchmark kind of a specification was not registered.
#[derive(Clone, Debug, PartialEq, Eq)]
pub struct UnknownKind {
    /// Position of the offending specification in the submitted list
    /// (zero when a single specification was linked).
    pub index: usize,
    pub kind: String,
}

/// A job specification linked to its kind descriptor, carrying the
/// opaque result payload once the job has run.
#[derive(Clone, Debug, PartialEq, Eq)]
pub struct JobCtx {
    pub job_spec: JobSpec,
    pub desc: BenchDesc,
    /// Opaque per-kind result payload; the store never inspects it.
    pub result: Option<String>,
}

/// Model of a job context.
pub ghost struct JobCtxModel {
    pub job_spec: crate::jobspec::JobSpecModel,
    pub desc: BenchDesc,
    pub result: Option<Seq<char>>,
}

impl View for JobCtx {
    type V = JobCtxModel;

    open spec fn view(&self) -> JobCtxModel {
        JobCtxModel {
            job_spec: self.job_spec@,
            desc: self.desc,
            result: match self.result {
                Option::Some(s) => Option::Some(s@),
                Option::None => Option::None,
            },
        }
    }
}

impl JobCtx {
    /// Link one specification against the registry.
    pub fn link(spec_src: JobSpec, registry: &KindRegistry) -> (r: Result<JobCtx, UnknownKind>)
        ensures
            r is Ok <==> registry.spec_lookup(spec_src.kind@) is Some,
            r is Ok ==> r.unwrap()@ == (JobCtxModel {
                job_spec: spec_src@,
                desc: registry.spec_lookup(spec_src.kind@).unwrap(),
                result: Option::None,
            }),
            r is Err ==> r->Err_0.kind@ == spec_src.kind@ && r->Err_0.index == 0,
    {
        match registry.lookup(&spec_src.kind) {
            Option::Some(desc) => Result::Ok(
                JobCtx { job_spec: spec_src, desc, result: Option::None },
            ),
            Option::None => Result::Err(UnknownKind { index: 0, kind: spec_src.kind }),
        }
    }

    /// Record the result payload reported by the agent for this job.
    pub fn record_result(&mut self, payload: String)
        ensures
            final(self).job_spec == old(self).job_spec,
            final(self).desc == old(self).desc,
            final(self).result == Option::Some(payload),
    {
        self.result = Option::Some(payload);
    }
}

/// Whether a stored context answers a query specification: the kinds are
/// equal and, when the query carries an id, the stored context carries
/// the same id.  A query without an id matches any context of the kind.
pub open spec fn ctx_matches(c: JobCtx, q: JobSpec) -> bool {
    &&& c.job_spec.kind@ == q.kind@
    &&& match q.id {
        Option::Some(qid) => match c.job_spec.id {
            Option::Some(cid) => cid@ == qid@,
            Option::None => false,
        },
        Option::None => true,
    }
}

/// Index of the first context matching the query, or the length when
/// none matches.
pub open spec fn first_match(s: Seq<JobCtx>, q: JobSpec) -> int
    decreases s.len(),
{
    if s.len() == 0 {
        0
    } else if ctx_matches(s[0], q) {
        0
    } else {
        1 + first_match(s.drop_first(), q)
    }
}

proof fn lemma_first_match(s: Seq<JobCtx>, q: JobSpec)
    ensures
        0 <= first_match(s, q) <= s.len(),
        first_match(s, q) < s.len() ==> ctx_matches(s[first_match(s, q)], q),
        forall|t: int| 0 <= t < first_match(s, q) ==> !ctx_matches(#[trigger] s[t], q),
    decreases s.len(),
{
    if s.len() > 0 && !ctx_matches(s[0], q) {
        lemma_first_match(s.drop_first(), q);
        assert(forall|t: int| 1 <= t < s.len() ==> #[trigger] s[t] == s.drop_first()[t - 1]);
    }
}

/// One entry of the diagnostic listing: `kind` or `kind:id`.
pub open spec fn spec_id_entry(c: JobCtx) -> Seq<char> {
    c.job_spec.kind@ + match c.job_spec.id {
        Option::Some(s) => seq![':'] + s@,
        Option::None => Seq::<char>::empty(),
    }
}

/// The diagnostic listing of stored (kind, id) pairs, in order,
/// separated by `", "`.
pub open spec fn spec_format_ids(s: Seq<JobCtx>) -> Seq<char>
    decreases s.len(),
{
    if s.len() == 0 {
        Seq::empty()
    } else if s.len() == 1 {
        spec_id_entry(s[0])
    } else {
        spec_id_entry(s[0]) + seq![',', ' '] + spec_format_ids(s.drop_first())
    }
}

fn ids_from(v: &Vec<JobCtx>, i: usize) -> (r: String)
    requires
        i <= v@.len(),
    ensures
        r@ == spec_format_ids(v@.skip(i as int)),
    decreases v@.len() - i,
{
    if i == v.len() {
        let r = String::new();
        assert(v@.skip(i as int) =~= Seq::<JobCtx>::empty());
        r
    } else {
        let c = &v[i];
        let mut s = c.job_spec.kind.clone();
        match &c.job_spec.id {
            Option::Some(idv) => {
                proof {
                    reveal_strlit(":");
                    assert(":"@ =~= seq![':']);
                }
                s.append(":");
                s.append(idv.as_str());
            },
            Option::None => {},
        }
        assert(s@ =~= spec_id_entry(v@[i as int]));
        let ghost part = v@.skip(i as int);
        assert(part[0] == v@[i as int]);
        if i + 1 == v.len() {
            assert(part.len() == 1);
            s
        } else {
            proof {
                reveal_strlit(", ");
                assert(", "@ =~= seq![',', ' ']);
            }
            s.append(", ");
            let rest = ids_from(v, i + 1);
            s.append(rest.as_str());
            proof {
                assert(part.drop_first() =~= v@.skip(i + 1));
                assert(part.len() >= 2);
                assert(s@ =~= spec_format_ids(part));
            }
            s
        }
    }
}

/// The ordered collection of job contexts; order is insertion order,
/// which is the original specification order.
#[derive(Clone, Debug, PartialEq, Eq)]
pub struct JobCtxs {
    pub vec: Vec<JobCtx>,
}

impl JobCtxs {
    pub fn new() -> (r: Self)
        ensures
            r.vec@.len() == 0,
    {
        JobCtxs { vec: Vec::new() }
    }

    /// Link every specification in order, failing with the first whose
    /// kind is unregistered.
    pub fn link_all(specs: &Vec<JobSpec>, registry: &KindRegistry) -> (r: Result<
        Vec<JobCtx>,
        UnknownKind,
    >)
        ensures
            r is Ok <==> (forall|i: int|
                0 <= i < specs@.len() ==> registry.spec_lookup(
                    (#[trigger] specs@[i]).kind@,
                ) is Some),
            r is Ok ==> {
                let ctxs = r.unwrap();
                &&& ctxs@.len() == specs@.len()
                &&& forall|i: int|
                    0 <= i < specs@.len() ==> (#[trigger] ctxs@[i])@ == (JobCtxModel {
                        job_spec: specs@[i]@,
                        desc: registry.spec_lookup(specs@[i].kind@).unwrap(),
                        result: Option::None,
                    })
            },
            r is Err ==> {
                let e = r->Err_0;
                &&& 0 <= e.index < specs@.len()
                &&& registry.spec_lookup(specs@[e.index as int].kind@) is None
                &&& e.kind@ == specs@[e.index as int].kind@
                &&& forall|i: int|
                    0 <= i < e.index ==> registry.spec_lookup(
                        (#[trigger] specs@[i]).kind@,
                    ) is Some
            },
    {
        let n = specs.len();
        let mut ctxs: Vec<JobCtx> = Vec::new();
        let mut i: usize = 0;
        while i < n
            invariant
                n == specs@.len(),
                0 <= i <= n,
                ctxs@.len() == i,
                forall|t: int|
                    0 <= t < i ==> registry.spec_lookup((#[trigger] specs@[t]).kind@) is Some,
                forall|t: int|
                    0 <= t < i ==> (#[trigger] ctxs@[t])@ == (JobCtxModel {
                        job_spec: specs@[t]@,
                        desc: registry.spec_lookup(specs@[t].kind@).unwrap(),
                        result: Option::None,
                    }),
            decreases n - i,
        {
            match registry.lookup(&specs[i].kind) {
                Option::Some(desc) => {
                    ctxs.push(
                        JobCtx { job_spec: specs[i].clone(), desc, result: Option::None },
                    );
                },
                Option::None => {
                    return Result::Err(UnknownKind { index: i, kind: specs[i].kind.clone() });
                },
            }
            i = i + 1;
        }
        Result::Ok(ctxs)
    }

    /// Human-readable ordered listing of the stored (kind, id) pairs,
    /// for diagnostics.
    pub fn format_ids(&self) -> (r: String)
        ensures
            r@ == spec_format_ids(self.vec@),
    {
        let r = ids_from(&self.vec, 0);
        assert(self.vec@.skip(0) =~= self.vec@);
        r
    }

    /// Remove and return the first stored context matching the query, or
    /// return nothing and leave the store untouched.
    pub fn pop_matching(&mut self, q: &JobSpec) -> (r: Option<JobCtx>)
        ensures
            ({
                let s = old(self).vec@;
                let f = first_match(s, *q);
                if f < s.len() {
                    r == Option::Some(s[f]) && final(self).vec@ == s.remove(f)
                } else {
                    r is None && final(self).vec@ == s
                }
            }),
    {
        proof {
            lemma_first_match(self.vec@, *q);
        }
        let n = self.vec.len();
        let mut i: usize = 0;
        while i < n
            invariant
                n == self.vec@.len(),
                0 <= i <= n,
                self.vec@ == old(self).vec@,
                forall|t: int| 0 <= t < i ==> !ctx_matches(#[trigger] self.vec@[t], *q),
            decreases n - i,
        {
            let c = &self.vec[i];
            let kind_eq = c.job_spec.kind == q.kind;
            let id_ok = match &q.id {
                Option::Some(qid) => match &c.job_spec.id {
                    Option::Some(cid) => *cid == *qid,
                    Option::None => false,
                },
                Option::None => true,
            };
            if kind_eq && id_ok {
                assert(ctx_matches(self.vec@[i as int], *q));
                proof {
                    lemma_first_match(self.vec@, *q);
                }
                let c = self.vec.remove(i);
                return Option::Some(c);
            }
            i = i + 1;
        }
        proof {
            lemma_first_match(self.vec@, *q);
        }
        Option::None
    }
}

} // verus!
