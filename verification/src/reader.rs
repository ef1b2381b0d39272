//! Reader monad: read-only access to a shared environment, and agent
//! pipelines whose steps all read the same configuration.

use vstd::prelude::*;
use core::marker::PhantomData;
use crate::AgentResult;
use crate::state::present;
use crate::string_map::StringMap;
use crate::text::{concat2, concat3, concat4};

verus! {

/// Reader monad: a computation that reads from an environment.
///
/// `new`, `pure` and `map` each store a computation; a value rebuilt from its
/// label alone has none, and running it is not allowed.
#[derive(Debug)]
pub struct Reader<E, A, F> {
    /// The computation: given an environment, produce a value.
    pub run_reader: Option<F>,
    /// Serializable description.
    pub label: String,
    /// Records the environment and value types; holds no data.
    pub marker: PhantomData<(E, A)>,
}

impl<E, A, F: Clone> Clone for Reader<E, A, F> {
    /// A copy with the same label and a clone of the stored function.
    fn clone(&self) -> (r: Self)
        ensures
            r.label == self.label,
            r.run_reader is Some <==> self.run_reader is Some,
            r.run_reader matches Some(g) ==> (self.run_reader matches Some(f) && cloned(f, g)),
    {
        let run_reader = match &self.run_reader {
            Some(f) => Some(f.clone()),
            None => None,
        };
        Reader { run_reader, label: self.label.clone(), marker: PhantomData }
    }
}

/// The stored function of a reader accepts every environment.
pub open spec fn reader_fn_total<E, A, F: FnOnce(&E) -> A>(r: Reader<E, A, F>) -> bool {
    r.run_reader matches Some(f) && forall|e: &E| #[trigger] f.requires((e,))
}

impl<E, A, F: FnOnce(&E) -> A> Reader<E, A, F> {
    /// Create a reader from a function.
    pub fn new(label: &str, f: F) -> (r: Self)
        ensures
            r.run_reader == Some(f),
            r.label@ == label@,
    {
        Reader { run_reader: Some(f), label: label.to_string(), marker: PhantomData }
    }

    /// Execute the reader with an environment.
    pub fn run(self, env: &E) -> (r: A)
        requires
            self.run_reader matches Some(f) && f.requires((env,)),
        ensures
            self.run_reader matches Some(f) && f.ensures((env,), r),
    {
        let f = self.run_reader.unwrap();
        f(env)
    }
}

/// Built-in readers; their function is a closure written here, so the third
/// type parameter of this impl only serves to name `Reader::pure`.
impl<E: Clone, A: Clone> Reader<E, A, ()> {
    /// Pure: produce a value ignoring the environment.
    pub fn pure(label: &str, value: A) -> (r: Reader<E, A, impl FnOnce(&E) -> A>)
        ensures
            r.label@ == label@,
            reader_fn_total(r),
            r.run_reader matches Some(g)
                && (forall|e: &E, out: A| #[trigger] g.ensures((e,), out) ==> out == value),
    {
        Reader {
            run_reader: Some(move |e: &E| -> (out: A)
                ensures
                    out == value,
            { value }),
            label: label.to_string(),
            marker: PhantomData,
        }
    }
}

impl<E: Clone, A: Clone, F: FnOnce(&E) -> A> Reader<E, A, F> {
    /// Map over the result: running the mapped reader runs this one and
    /// applies `f` to its result. A reader without a stored function maps to
    /// one without a stored function.
    pub fn map<B, G: FnOnce(A) -> B>(self, f: G) -> (r: Reader<E, B, impl FnOnce(&E) -> B>)
        requires
            self.run_reader is Some ==> {
                &&& reader_fn_total(self)
                &&& forall|a: A| #[trigger] f.requires((a,))
            },
        ensures
            r.label@ == self.label@ + " >> map"@,
            self.run_reader is None ==> r.run_reader is None,
            self.run_reader is Some ==> reader_fn_total(r),
            r.run_reader matches Some(g) ==> (self.run_reader matches Some(m)
                && (forall|e: &E, out: B| #[trigger] g.ensures((e,), out)
                    ==> exists|a: A| #[trigger] m.ensures((e,), a) && f.ensures((a,), out))),
    {
        let label = concat2(self.label.as_str(), " >> map");
        let stored = self.run_reader.is_some();
        let mo = self.run_reader;
        let g = move |e: &E| -> (out: B)
            requires
                mo matches Some(m) && forall|x: &E| #[trigger] m.requires((x,)),
                forall|a: A| #[trigger] f.requires((a,)),
            ensures
                mo matches Some(m) && exists|a: A| #[trigger] m.ensures((e,), a) && f.ensures((a,), out),
        {
            let m = mo.unwrap();
            let a = m(e);
            f(a)
        };
        let run_reader = if stored { Some(g) } else { None };
        Reader { run_reader, label, marker: PhantomData }
    }
}

// --- The reader monad laws ---

/// Spec-level pure: a reader that ignores the environment.
pub open spec fn reader_pure_spec<E, A>(a: A) -> spec_fn(E) -> A {
    |e: E| a
}

/// Spec-level bind: run `m`, then the reader `f` gives on its value, on the same environment.
pub open spec fn reader_bind_spec<E, A, B>(m: spec_fn(E) -> A, f: spec_fn(A) -> spec_fn(E) -> B) -> spec_fn(E) -> B {
    |e: E| f(m(e))(e)
}

/// Spec-level map: apply `f` to the result of `m`.
pub open spec fn reader_map_spec<E, A, B>(m: spec_fn(E) -> A, f: spec_fn(A) -> B) -> spec_fn(E) -> B {
    |e: E| f(m(e))
}

/// Left identity: `pure(a).bind(f) == f(a)`.
pub proof fn lemma_reader_left_identity<E, A, B>(a: A, f: spec_fn(A) -> spec_fn(E) -> B)
    ensures
        reader_bind_spec(reader_pure_spec::<E, A>(a), f) == f(a),
{
    assert(reader_bind_spec(reader_pure_spec::<E, A>(a), f) =~= f(a));
}

/// Right identity: `m.bind(pure) == m`.
pub proof fn lemma_reader_right_identity<E, A>(m: spec_fn(E) -> A)
    ensures
        reader_bind_spec(m, |a: A| reader_pure_spec::<E, A>(a)) == m,
{
    assert(reader_bind_spec(m, |a: A| reader_pure_spec::<E, A>(a)) =~= m);
}

/// Associativity: `m.bind(f).bind(g) == m.bind(|x| f(x).bind(g))`.
pub proof fn lemma_reader_associativity<E, A, B, C>(
    m: spec_fn(E) -> A,
    f: spec_fn(A) -> spec_fn(E) -> B,
    g: spec_fn(B) -> spec_fn(E) -> C,
)
    ensures
        reader_bind_spec(reader_bind_spec(m, f), g) == reader_bind_spec(m, |a: A| reader_bind_spec(f(a), g)),
{
    assert(reader_bind_spec(reader_bind_spec(m, f), g) =~= reader_bind_spec(m, |a: A| reader_bind_spec(f(a), g)));
}

/// `map` is bind followed by pure: `m.map(f) == m.bind(|a| pure(f(a)))`.
pub proof fn lemma_reader_map_is_bind_pure<E, A, B>(m: spec_fn(E) -> A, f: spec_fn(A) -> B)
    ensures
        reader_map_spec(m, f) == reader_bind_spec(m, |a: A| reader_pure_spec::<E, B>(f(a))),
{
    assert(reader_map_spec(m, f) =~= reader_bind_spec(m, |a: A| reader_pure_spec::<E, B>(f(a))));
}

/// The executable `map` agrees with the spec-level one: when `m` computes `mm`
/// and `f` computes `ff`, every result of the mapped reader on `e` is
/// `reader_map_spec(mm, ff)(e)`.
pub proof fn lemma_reader_map_computes<E, A, B, F: FnOnce(&E) -> A, G: FnOnce(A) -> B>(
    m: F,
    f: G,
    mm: spec_fn(E) -> A,
    ff: spec_fn(A) -> B,
    e: &E,
    out: B,
)
    requires
        forall|x: &E, y: A| #[trigger] m.ensures((x,), y) ==> y == mm(*x),
        forall|x: A, y: B| #[trigger] f.ensures((x,), y) ==> y == ff(x),
        exists|a: A| #[trigger] m.ensures((e,), a) && f.ensures((a,), out),
    ensures
        out == reader_map_spec(mm, ff)(*e),
{
    let a = choose|a: A| #[trigger] m.ensures((e,), a) && f.ensures((a,), out);
    assert(m.ensures((e,), a));
    assert(f.ensures((a,), out));
}

// --- AgentReader ---

/// An agent step with read-only access to a configuration environment.
#[derive(Debug, Clone)]
pub struct AgentReader<F> {
    pub name: String,
    pub process: Option<F>,
}

impl<F: Fn(&StringMap) -> AgentResult<String>> AgentReader<F> {
    /// Create a new reader agent step.
    pub fn new(name: &str, process: F) -> (r: Self)
        ensures
            r.name@ == name@,
            r.process == Some(process),
    {
        AgentReader { name: name.to_string(), process: Some(process) }
    }
}

/// The step's process, if any, accepts every configuration.
pub open spec fn reader_total<F: Fn(&StringMap) -> AgentResult<String>>(step: AgentReader<F>) -> bool {
    step.process matches Some(f) ==> forall|c: &StringMap| #[trigger] f.requires((c,))
}

/// A step may succeed with `out` on `config`; a step without a process gives no output.
pub open spec fn reader_step<F: Fn(&StringMap) -> AgentResult<String>>(
    step: AgentReader<F>,
    config: StringMap,
    out: Option<String>,
) -> bool {
    match step.process {
        None => out is None,
        Some(f) => out matches Some(o) && f.ensures((&config,), Ok::<String, String>(o)),
    }
}

/// `outs` records what each step gave in a successful run on `config`.
pub open spec fn reader_trace<F: Fn(&StringMap) -> AgentResult<String>>(
    steps: Seq<AgentReader<F>>,
    config: StringMap,
    outs: Seq<Option<String>>,
) -> bool {
    &&& outs.len() == steps.len()
    &&& forall|i: int| #![trigger steps[i]] 0 <= i < steps.len() ==> reader_step(steps[i], config, outs[i])
}

/// Every step may succeed on `config`, producing `outputs` in order.
pub open spec fn reader_runs<F: Fn(&StringMap) -> AgentResult<String>>(
    steps: Seq<AgentReader<F>>,
    config: StringMap,
    outputs: Seq<String>,
) -> bool {
    exists|outs: Seq<Option<String>>| #[trigger] reader_trace(steps, config, outs) && present(outs) == outputs
}

/// The first `k` steps may succeed on `config`, after which step `k` fails with `e`.
pub open spec fn reader_fails<F: Fn(&StringMap) -> AgentResult<String>>(
    steps: Seq<AgentReader<F>>,
    config: StringMap,
    k: int,
    e: String,
) -> bool {
    &&& 0 <= k < steps.len()
    &&& steps[k].process matches Some(f)
    &&& f.ensures((&config,), Err::<String, String>(e))
    &&& exists|outs: Seq<Option<String>>| #[trigger] reader_trace(steps.take(k), config, outs)
}

/// The error reported when step `name` fails with `e`.
pub open spec fn reader_failure_message(name: Seq<char>, e: Seq<char>) -> Seq<char> {
    "Reader pipeline failed at step '"@ + name + "': "@ + e
}

/// Run a reader pipeline, providing the same config to every step.
pub fn run_reader_pipeline<F: Fn(&StringMap) -> AgentResult<String>>(
    steps: &[AgentReader<F>],
    config: &StringMap,
) -> (r: AgentResult<Vec<String>>)
    requires
        forall|i: int| 0 <= i < steps@.len() ==> #[trigger] reader_total(steps@[i]),
    ensures
        match r {
            Ok(outputs) => reader_runs(steps@, *config, outputs@),
            Err(msg) => exists|k: int, e: String|
                #[trigger] reader_fails(steps@, *config, k, e)
                    && msg@ == reader_failure_message(steps@[k].name@, e@),
        },
{
    let mut outputs: Vec<String> = Vec::new();
    let ghost mut outs: Seq<Option<String>> = seq![];
    let mut i: usize = 0;
    while i < steps.len()
        invariant
            forall|j: int| 0 <= j < steps@.len() ==> #[trigger] reader_total(steps@[j]),
            i <= steps@.len(),
            reader_trace(steps@.take(i as int), *config, outs),
            present(outs) == outputs@,
        decreases steps@.len() - i,
    {
        let step = &steps[i];
        assert(reader_total(steps@[i as int]));
        let ghost next: Option<String>;
        if let Some(f) = &step.process {
            match f(config) {
                Ok(o) => {
                    proof {
                        next = Some(o);
                    }
                    outputs.push(o);
                },
                Err(e) => {
                    let msg = concat4("Reader pipeline failed at step '", step.name.as_str(), "': ", e.as_str());
                    assert(reader_fails(steps@, *config, i as int, e));
                    return Err(msg);
                },
            }
        } else {
            proof {
                next = None;
            }
        }
        proof {
            let s2 = steps@.take(i + 1);
            let o2 = outs.push(next);
            assert forall|k: int| #![trigger s2[k]] 0 <= k < s2.len() implies reader_step(s2[k], *config, o2[k]) by {
                if k < i {
                    assert(s2[k] == steps@.take(i as int)[k]);
                }
            }
            assert(o2.drop_last() =~= outs);
            outs = o2;
        }
        i = i + 1;
    }
    assert(steps@.take(steps@.len() as int) =~= steps@);
    Ok(outputs)
}

/// The error reported when `key` is missing from the configuration.
pub open spec fn missing_config_message(key: Seq<char>) -> Seq<char> {
    "config key '"@ + key + "' not found"@
}

/// Read a required config key.
pub fn config_get(config: &StringMap, key: &str) -> (r: AgentResult<String>)
    ensures
        match r {
            Ok(v) => config@.contains_key(key@) && v@ == config@[key@],
            Err(e) => !config@.contains_key(key@) && e@ == missing_config_message(key@),
        },
{
    match config.get(key) {
        Some(v) => Ok(v.clone()),
        None => Err(concat3("config key '", key, "' not found")),
    }
}

/// Read an optional config key with a default.
pub fn config_get_or(config: &StringMap, key: &str, default: &str) -> (r: String)
    ensures
        r@ == if config@.contains_key(key@) { config@[key@] } else { default@ },
{
    match config.get(key) {
        Some(v) => v.clone(),
        None => default.to_string(),
    }
}

/// Check if a config key exists.
pub fn config_has(config: &StringMap, key: &str) -> (r: bool)
    ensures
        r == config@.contains_key(key@),
{
    config.contains_key(key)
}

} // verus!
