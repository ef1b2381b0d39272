//! Maybe monad: optional values with a short-circuiting `bind`, and agent
//! pipelines whose steps may produce no result.

use vstd::prelude::*;
use crate::AgentResult;
use crate::text::{join_chars, concat3, lemma_join_contains};

verus! {

/// Maybe monad representing an optional value.
#[derive(Debug, Clone, PartialEq, Eq)]
pub enum Maybe<T> {
    Just(T),
    Nothing,
}

impl<T> Maybe<T> {
    /// Spec-level bind with a mathematical function in place of a closure.
    pub open spec fn bind_spec<U>(self, f: spec_fn(T) -> Maybe<U>) -> Maybe<U> {
        match self {
            Maybe::Just(v) => f(v),
            Maybe::Nothing => Maybe::Nothing,
        }
    }

    /// Spec-level map with a mathematical function in place of a closure.
    pub open spec fn map_spec<U>(self, f: spec_fn(T) -> U) -> Maybe<U> {
        match self {
            Maybe::Just(v) => Maybe::Just(f(v)),
            Maybe::Nothing => Maybe::Nothing,
        }
    }

    /// Wrap a value in `Just`.
    pub fn pure(value: T) -> (r: Self)
        ensures
            r == Maybe::Just(value),
    {
        Maybe::Just(value)
    }

    /// Create a `Nothing`.
    pub fn none() -> (r: Self)
        ensures
            r == Maybe::<T>::Nothing,
    {
        Maybe::Nothing
    }

    /// Bind (flatMap): apply `f` to the value if `Just`, otherwise propagate `Nothing`.
    pub fn bind<U, F>(self, f: F) -> (r: Maybe<U>) where F: FnOnce(T) -> Maybe<U>
        requires
            self matches Maybe::Just(v) ==> f.requires((v,)),
        ensures
            match self {
                Maybe::Just(v) => f.ensures((v,), r),
                Maybe::Nothing => r == Maybe::<U>::Nothing,
            },
    {
        match self {
            Maybe::Just(v) => f(v),
            Maybe::Nothing => Maybe::Nothing,
        }
    }

    /// Map a function over the value if `Just`.
    pub fn map<U, F>(self, f: F) -> (r: Maybe<U>) where F: FnOnce(T) -> U
        requires
            self matches Maybe::Just(v) ==> f.requires((v,)),
        ensures
            match self {
                Maybe::Just(v) => r matches Maybe::Just(w) && f.ensures((v,), w),
                Maybe::Nothing => r == Maybe::<U>::Nothing,
            },
    {
        match self {
            Maybe::Just(v) => Maybe::Just(f(v)),
            Maybe::Nothing => Maybe::Nothing,
        }
    }

    /// Extract the value or a default.
    pub fn unwrap_or(self, default: T) -> (r: T)
        ensures
            r == (match self {
                Maybe::Just(v) => v,
                Maybe::Nothing => default,
            }),
    {
        match self {
            Maybe::Just(v) => v,
            Maybe::Nothing => default,
        }
    }

    /// Check if this is `Just`.
    pub fn is_some(&self) -> (r: bool)
        ensures
            r == (*self is Just),
    {
        match self {
            Maybe::Just(_) => true,
            Maybe::Nothing => false,
        }
    }

    /// Check if this is `Nothing`.
    pub fn is_none(&self) -> (r: bool)
        ensures
            r == (*self is Nothing),
    {
        match self {
            Maybe::Just(_) => false,
            Maybe::Nothing => true,
        }
    }
}

/// Left identity: `pure(a).bind(f) == f(a)`.
pub proof fn lemma_maybe_left_identity<A, B>(a: A, f: spec_fn(A) -> Maybe<B>)
    ensures
        Maybe::Just(a).bind_spec(f) == f(a),
{
}

/// Right identity: `m.bind(pure) == m`.
pub proof fn lemma_maybe_right_identity<A>(m: Maybe<A>)
    ensures
        m.bind_spec(|x: A| Maybe::Just(x)) == m,
{
}

/// Associativity: `m.bind(f).bind(g) == m.bind(|x| f(x).bind(g))`.
pub proof fn lemma_maybe_associativity<A, B, C>(
    m: Maybe<A>,
    f: spec_fn(A) -> Maybe<B>,
    g: spec_fn(B) -> Maybe<C>,
)
    ensures
        m.bind_spec(f).bind_spec(g) == m.bind_spec(|x: A| f(x).bind_spec(g)),
{
}

/// `map` is bind followed by pure: `m.map(f) == m.bind(|x| pure(f(x)))`;
/// `Just(v)` maps to `Just(f(v))` and `Nothing` stays `Nothing`.
pub proof fn lemma_maybe_map_is_bind_pure<A, B>(m: Maybe<A>, f: spec_fn(A) -> B)
    ensures
        m.map_spec(f) == m.bind_spec(|x: A| Maybe::Just(f(x))),
{
}

/// A closure `f` computes the mathematical function `g`: every result it can
/// return on `x` is `g(x)`.
pub open spec fn computes<A, B, F: FnOnce(A) -> B>(f: F, g: spec_fn(A) -> B) -> bool {
    forall|x: A, y: B| #[trigger] f.ensures((x,), y) ==> y == g(x)
}

/// The executable `bind` agrees with `bind_spec`: binding a closure that
/// computes `g` gives `m.bind_spec(g)`.
pub proof fn lemma_maybe_bind_computes<A, B, F: FnOnce(A) -> Maybe<B>>(
    m: Maybe<A>,
    f: F,
    g: spec_fn(A) -> Maybe<B>,
    r: Maybe<B>,
)
    requires
        computes(f, g),
        match m {
            Maybe::Just(v) => f.ensures((v,), r),
            Maybe::Nothing => r == Maybe::<B>::Nothing,
        },
    ensures
        r == m.bind_spec(g),
{
}

/// The executable `map` agrees with `map_spec`: mapping a closure that
/// computes `g` gives `m.map_spec(g)`, which is `m.bind_spec(|x| Just(g(x)))`.
pub proof fn lemma_maybe_map_computes<A, B, F: FnOnce(A) -> B>(
    m: Maybe<A>,
    f: F,
    g: spec_fn(A) -> B,
    r: Maybe<B>,
)
    requires
        computes(f, g),
        match m {
            Maybe::Just(v) => r matches Maybe::Just(w) && f.ensures((v,), w),
            Maybe::Nothing => r == Maybe::<B>::Nothing,
        },
    ensures
        r == m.map_spec(g),
        r == m.bind_spec(|x: A| Maybe::Just(g(x))),
{
}

// --- AgentMaybe ---

/// An agent processing step that may produce no result.
///
/// Each step takes a string and optionally produces a transformed string.
/// If any step returns `Nothing`, the pipeline short-circuits.
#[derive(Debug, Clone)]
pub struct AgentMaybe<F> {
    pub name: String,
    pub process: Option<F>,
}

impl<F: Fn(&str) -> Maybe<String>> AgentMaybe<F> {
    /// Create a new agent step.
    pub fn new(name: &str, process: F) -> (r: Self)
        ensures
            r.name@ == name@,
            r.process == Some(process),
    {
        AgentMaybe { name: name.to_string(), process: Some(process) }
    }
}

/// The process of the passthrough step: the same text, as a value. It can be
/// coerced to a `fn` pointer to share a pipeline with other steps.
pub fn passthrough_process(s: &str) -> (y: Maybe<String>)
    ensures
        y matches Maybe::Just(t) && t@ == s@,
{
    Maybe::Just(s.to_string())
}

/// The process of the blocker step: never a value. It can be coerced to a
/// `fn` pointer to share a pipeline with other steps.
pub fn blocker_process(s: &str) -> (y: Maybe<String>)
    ensures
        y == Maybe::<String>::Nothing,
{
    Maybe::Nothing
}

/// Built-in steps; their process is a function written here, so the type
/// parameter of this impl only serves to name them as `AgentMaybe::passthrough`.
impl AgentMaybe<()> {
    /// A step that always passes the value through.
    pub fn passthrough(name: &str) -> (r: AgentMaybe<impl Fn(&str) -> Maybe<String>>)
        ensures
            r.name@ == name@,
            r.process matches Some(f) && (forall|x: &str| #[trigger] f.requires((x,)))
                && (forall|x: &str, y: Maybe<String>| #[trigger] f.ensures((x,), y)
                    ==> (y matches Maybe::Just(s) && s@ == x@)),
    {
        AgentMaybe {
            name: name.to_string(),
            process: Some(passthrough_process),
        }
    }

    /// A step that always returns `Nothing`.
    pub fn blocker(name: &str) -> (r: AgentMaybe<impl Fn(&str) -> Maybe<String>>)
        ensures
            r.name@ == name@,
            r.process matches Some(f) && (forall|x: &str| #[trigger] f.requires((x,)))
                && (forall|x: &str, y: Maybe<String>| #[trigger] f.ensures((x,), y)
                    ==> y == Maybe::<String>::Nothing),
    {
        AgentMaybe {
            name: name.to_string(),
            process: Some(blocker_process),
        }
    }
}

/// Every call the step may make is allowed: its process, if any, accepts all inputs.
pub open spec fn maybe_step_total<F: Fn(&str) -> Maybe<String>>(step: AgentMaybe<F>) -> bool {
    step.process matches Some(f) ==> forall|x: &str| #[trigger] f.requires((x,))
}

/// One step of a maybe pipeline may turn `cur` into `next`: a step without a
/// process leaves the value alone, `Nothing` stays `Nothing`, and `Just(s)`
/// becomes a result of the process on the text of `s`.
pub open spec fn maybe_step<F: Fn(&str) -> Maybe<String>>(
    step: AgentMaybe<F>,
    cur: Maybe<String>,
    next: Maybe<String>,
) -> bool {
    match step.process {
        None => next == cur,
        Some(f) => match cur {
            Maybe::Nothing => next == Maybe::<String>::Nothing,
            Maybe::Just(s) => exists|x: &str| x@ == s@ && #[trigger] f.ensures((x,), next),
        },
    }
}

/// `trace` lists the values a run of the steps from `Just(input)` passes
/// through: the start, then the value after each step.
pub open spec fn maybe_trace<F: Fn(&str) -> Maybe<String>>(
    steps: Seq<AgentMaybe<F>>,
    input: Seq<char>,
    trace: Seq<Maybe<String>>,
) -> bool {
    &&& trace.len() == steps.len() + 1
    &&& trace[0] matches Maybe::Just(s) && s@ == input
    &&& forall|i: int|
        #![trigger steps[i]]
        0 <= i < steps.len() ==> maybe_step(steps[i], trace[i], trace[i + 1])
}

/// The steps, run in order from `Just(input)`, may end in `out`.
pub open spec fn maybe_runs<F: Fn(&str) -> Maybe<String>>(
    steps: Seq<AgentMaybe<F>>,
    input: Seq<char>,
    out: Maybe<String>,
) -> bool {
    exists|trace: Seq<Maybe<String>>| #[trigger] maybe_trace(steps, input, trace) && trace.last() == out
}

/// Run a sequence of `AgentMaybe` steps over an input string.
///
/// Short-circuits on the first `Nothing`.
pub fn run_maybe_pipeline<F: Fn(&str) -> Maybe<String>>(steps: &[AgentMaybe<F>], input: &str) -> (r: Maybe<String>)
    requires
        forall|i: int| 0 <= i < steps@.len() ==> #[trigger] maybe_step_total(steps@[i]),
    ensures
        maybe_runs(steps@, input@, r),
{
    let mut current = Maybe::Just(input.to_string());
    let ghost mut trace: Seq<Maybe<String>> = seq![current];
    let mut i: usize = 0;
    while i < steps.len()
        invariant
            i <= steps@.len(),
            forall|j: int| 0 <= j < steps@.len() ==> #[trigger] maybe_step_total(steps@[j]),
            maybe_trace(steps@.take(i as int), input@, trace),
            trace.last() == current,
        decreases steps@.len() - i,
    {
        let ghost prev = current;
        let step = &steps[i];
        assert(maybe_step_total(steps@[i as int]));
        if let Some(f) = &step.process {
            current = current.bind(|s: String| -> (y: Maybe<String>)
                requires
                    forall|x: &str| #[trigger] f.requires((x,)),
                ensures
                    exists|x: &str| x@ == s@ && #[trigger] f.ensures((x,), y),
            {
                let x = s.as_str();
                f(x)
            });
        }
        assert(maybe_step(steps@[i as int], prev, current));
        proof {
            let t2 = trace.push(current);
            let s2 = steps@.take(i + 1);
            assert forall|k: int| #![trigger s2[k]] 0 <= k < s2.len() implies maybe_step(s2[k], t2[k], t2[k + 1]) by {
                if k < i {
                    assert(s2[k] == steps@.take(i as int)[k]);
                }
            }
            trace = t2;
        }
        i = i + 1;
    }
    assert(steps@.take(steps@.len() as int) =~= steps@);
    current
}

/// The names of the steps, in order.
pub open spec fn maybe_step_names<F>(steps: Seq<AgentMaybe<F>>) -> Seq<Seq<char>> {
    steps.map_values(|s: AgentMaybe<F>| s.name@)
}

/// The error that `run_maybe_to_result` reports when the pipeline short-circuits.
pub open spec fn short_circuit_message<F>(steps: Seq<AgentMaybe<F>>) -> Seq<char> {
    "Maybe pipeline short-circuited at step '"@ + join_chars(maybe_step_names(steps), " -> "@) + "'"@
}

/// Run a maybe pipeline and collect a result, short-circuiting on `Nothing`.
pub fn run_maybe_to_result<F: Fn(&str) -> Maybe<String>>(steps: &[AgentMaybe<F>], input: &str) -> (r: AgentResult<String>)
    requires
        forall|i: int| 0 <= i < steps@.len() ==> #[trigger] maybe_step_total(steps@[i]),
    ensures
        match r {
            Ok(v) => maybe_runs(steps@, input@, Maybe::Just(v)),
            Err(e) => maybe_runs(steps@, input@, Maybe::<String>::Nothing)
                && e@ == short_circuit_message(steps@),
        },
{
    match run_maybe_pipeline(steps, input) {
        Maybe::Just(v) => Ok(v),
        Maybe::Nothing => {
            let mut names = String::new();
            let mut i: usize = 0;
            while i < steps.len()
                invariant
                    i <= steps@.len(),
                    names@ == join_chars(maybe_step_names(steps@.take(i as int)), " -> "@),
                decreases steps@.len() - i,
            {
                let ghost before = maybe_step_names(steps@.take(i as int));
                if i > 0 {
                    names.append(" -> ");
                }
                names.append(steps[i].name.as_str());
                assert(maybe_step_names(steps@.take(i + 1)).drop_last() =~= before);
                assert(maybe_step_names(steps@.take(i + 1)).last() == steps@[i as int].name@);
                i = i + 1;
            }
            assert(steps@.take(steps@.len() as int) =~= steps@);
            Err(concat3("Maybe pipeline short-circuited at step '", names.as_str(), "'"))
        },
    }
}

/// A pipeline with no steps passes its input through.
pub proof fn lemma_maybe_runs_empty<F: Fn(&str) -> Maybe<String>>(input: Seq<char>, out: Maybe<String>)
    requires
        maybe_runs(Seq::<AgentMaybe<F>>::empty(), input, out),
    ensures
        out matches Maybe::Just(s) && s@ == input,
{
    let trace = choose|trace: Seq<Maybe<String>>|
        #[trigger] maybe_trace(Seq::<AgentMaybe<F>>::empty(), input, trace) && trace.last() == out;
}

/// Once a value in a trace is `Nothing`, every later value is `Nothing`.
proof fn lemma_maybe_trace_stays_nothing<F: Fn(&str) -> Maybe<String>>(
    steps: Seq<AgentMaybe<F>>,
    input: Seq<char>,
    trace: Seq<Maybe<String>>,
    k: int,
    j: int,
)
    requires
        maybe_trace(steps, input, trace),
        0 <= k <= j <= steps.len(),
        trace[k] == Maybe::<String>::Nothing,
    ensures
        trace[j] == Maybe::<String>::Nothing,
    decreases j - k,
{
    if k < j {
        assert(maybe_step(steps[k], trace[k], trace[k + 1]));
        lemma_maybe_trace_stays_nothing(steps, input, trace, k + 1, j);
    }
}

/// Short-circuiting: a pipeline that contains a step which never produces a
/// value (such as a blocker) ends in `Nothing`, whatever the other steps do.
pub proof fn lemma_maybe_pipeline_short_circuits<F: Fn(&str) -> Maybe<String>>(
    steps: Seq<AgentMaybe<F>>,
    input: Seq<char>,
    out: Maybe<String>,
    k: int,
)
    requires
        0 <= k < steps.len(),
        steps[k].process matches Some(f) && forall|x: &str, y: Maybe<String>|
            #[trigger] f.ensures((x,), y) ==> y == Maybe::<String>::Nothing,
        maybe_runs(steps, input, out),
    ensures
        out == Maybe::<String>::Nothing,
{
    let trace = choose|trace: Seq<Maybe<String>>|
        #[trigger] maybe_trace(steps, input, trace) && trace.last() == out;
    assert(maybe_step(steps[k], trace[k], trace[k + 1]));
    lemma_maybe_trace_stays_nothing(steps, input, trace, k + 1, steps.len() as int);
}

/// The text carried by a maybe-string.
pub open spec fn maybe_text(m: Maybe<String>) -> Maybe<Seq<char>> {
    match m {
        Maybe::Just(s) => Maybe::Just(s@),
        Maybe::Nothing => Maybe::Nothing,
    }
}

/// Each process gives results with the same text on inputs with the same text.
pub open spec fn maybe_steps_functional<F: Fn(&str) -> Maybe<String>>(steps: Seq<AgentMaybe<F>>) -> bool {
    forall|i: int|
        0 <= i < steps.len() ==> ((#[trigger] steps[i]).process matches Some(f) ==> forall|x1: &str, x2: &str, y1: Maybe<String>, y2: Maybe<String>|
            #![trigger f.ensures((x1,), y1), f.ensures((x2,), y2)]
            x1@ == x2@ && f.ensures((x1,), y1) && f.ensures((x2,), y2) ==> maybe_text(y1) == maybe_text(y2))
}

proof fn lemma_maybe_traces_agree<F: Fn(&str) -> Maybe<String>>(
    steps: Seq<AgentMaybe<F>>,
    input: Seq<char>,
    t1: Seq<Maybe<String>>,
    t2: Seq<Maybe<String>>,
    k: int,
)
    requires
        maybe_steps_functional(steps),
        maybe_trace(steps, input, t1),
        maybe_trace(steps, input, t2),
        0 <= k <= steps.len(),
    ensures
        maybe_text(t1[k]) == maybe_text(t2[k]),
    decreases k,
{
    if k > 0 {
        lemma_maybe_traces_agree(steps, input, t1, t2, k - 1);
        assert(maybe_step(steps[k - 1], t1[k - 1], t1[k]));
        assert(maybe_step(steps[k - 1], t2[k - 1], t2[k]));
        if let Some(f) = steps[k - 1].process {
            if let Maybe::Just(s1) = t1[k - 1] {
                let s2 = t2[k - 1]->Just_0;
                let x1 = choose|x: &str| x@ == s1@ && #[trigger] f.ensures((x,), t1[k]);
                let x2 = choose|x: &str| x@ == s2@ && #[trigger] f.ensures((x,), t2[k]);
                assert(f.ensures((x1,), t1[k]) && f.ensures((x2,), t2[k]));
            }
        }
    }
}

/// A pipeline whose processes are functions of the text has one result text
/// per input: every run gives the same text, or `Nothing` every time.
pub proof fn lemma_maybe_runs_deterministic<F: Fn(&str) -> Maybe<String>>(
    steps: Seq<AgentMaybe<F>>,
    input: Seq<char>,
    out1: Maybe<String>,
    out2: Maybe<String>,
)
    requires
        maybe_steps_functional(steps),
        maybe_runs(steps, input, out1),
        maybe_runs(steps, input, out2),
    ensures
        maybe_text(out1) == maybe_text(out2),
{
    let t1 = choose|t: Seq<Maybe<String>>| #[trigger] maybe_trace(steps, input, t) && t.last() == out1;
    let t2 = choose|t: Seq<Maybe<String>>| #[trigger] maybe_trace(steps, input, t) && t.last() == out2;
    lemma_maybe_traces_agree(steps, input, t1, t2, steps.len() as int);
}

/// `run_maybe_to_result` agrees with `run_maybe_pipeline`: for steps that are
/// functions of the text, with `pipeline` a result of the pipeline and `result`
/// a result of the conversion on the same steps and input, `result` is `Ok`
/// with the pipeline's text exactly when the pipeline gives `Just`, and `Err`
/// with the short-circuit message exactly when it gives `Nothing`.
pub proof fn lemma_maybe_to_result_agrees<F: Fn(&str) -> Maybe<String>>(
    steps: Seq<AgentMaybe<F>>,
    input: Seq<char>,
    pipeline: Maybe<String>,
    result: AgentResult<String>,
)
    requires
        maybe_steps_functional(steps),
        maybe_runs(steps, input, pipeline),
        match result {
            Ok(v) => maybe_runs(steps, input, Maybe::Just(v)),
            Err(e) => maybe_runs(steps, input, Maybe::<String>::Nothing) && e@ == short_circuit_message(steps),
        },
    ensures
        result is Ok <==> pipeline is Just,
        result matches Ok(v) ==> (pipeline matches Maybe::Just(w) && w@ == v@),
        result matches Err(e) ==> (pipeline == Maybe::<String>::Nothing && e@ == short_circuit_message(steps)),
{
    match result {
        Ok(v) => lemma_maybe_runs_deterministic(steps, input, pipeline, Maybe::Just(v)),
        Err(e) => lemma_maybe_runs_deterministic(steps, input, pipeline, Maybe::<String>::Nothing),
    }
}

/// The steps before position `k` run along the start of a trace.
proof fn lemma_maybe_trace_prefix<F: Fn(&str) -> Maybe<String>>(
    steps: Seq<AgentMaybe<F>>,
    input: Seq<char>,
    trace: Seq<Maybe<String>>,
    k: int,
)
    requires
        maybe_trace(steps, input, trace),
        0 <= k <= steps.len(),
    ensures
        maybe_trace(steps.take(k), input, trace.take(k + 1)),
        maybe_runs(steps.take(k), input, trace[k]),
{
    let s2 = steps.take(k);
    let t2 = trace.take(k + 1);
    assert forall|i: int| #![trigger s2[i]] 0 <= i < s2.len() implies maybe_step(s2[i], t2[i], t2[i + 1]) by {
        assert(s2[i] == steps[i]);
    }
    assert(maybe_trace(s2, input, t2));
}

/// In a trace that ends in `Nothing`, some step at or before `j` turned a value into `Nothing`.
proof fn lemma_maybe_find_blocker<F: Fn(&str) -> Maybe<String>>(
    steps: Seq<AgentMaybe<F>>,
    input: Seq<char>,
    trace: Seq<Maybe<String>>,
    j: int,
) -> (k: int)
    requires
        maybe_trace(steps, input, trace),
        0 <= j <= steps.len(),
        trace[j] == Maybe::<String>::Nothing,
    ensures
        0 <= k < j,
        trace[k] is Just,
        trace[k + 1] == Maybe::<String>::Nothing,
    decreases j,
{
    assert(j > 0);
    assert(maybe_step(steps[j - 1], trace[j - 1], trace[j]));
    if trace[j - 1] is Just {
        j - 1
    } else {
        lemma_maybe_find_blocker(steps, input, trace, j - 1)
    }
}

/// When a maybe pipeline short-circuits, some step with a process was handed
/// a value, the steps before it produced that value, and the process returned
/// `Nothing` on its text; the error of `run_maybe_to_result` names that step.
pub proof fn lemma_maybe_short_circuit_names_blocker<F: Fn(&str) -> Maybe<String>>(
    steps: Seq<AgentMaybe<F>>,
    input: Seq<char>,
)
    requires
        maybe_runs(steps, input, Maybe::<String>::Nothing),
    ensures
        exists|k: int, s: String|
            #![trigger maybe_runs(steps.take(k), input, Maybe::Just(s))]
            0 <= k < steps.len()
                && maybe_runs(steps.take(k), input, Maybe::Just(s))
                && (steps[k].process matches Some(f) && exists|x: &str| x@ == s@ && #[trigger] f.ensures((x,), Maybe::<String>::Nothing))
                && exists|p: int| 0 <= p && p + steps[k].name@.len() <= short_circuit_message(steps).len()
                    && #[trigger] short_circuit_message(steps).subrange(p, p + steps[k].name@.len()) == steps[k].name@,
{
    let trace = choose|t: Seq<Maybe<String>>| #[trigger] maybe_trace(steps, input, t) && t.last() == Maybe::<String>::Nothing;
    let k = lemma_maybe_find_blocker(steps, input, trace, steps.len() as int);
    let s = trace[k]->Just_0;
    lemma_maybe_trace_prefix(steps, input, trace, k);
    assert(maybe_step(steps[k], trace[k], trace[k + 1]));
    let names = maybe_step_names(steps);
    let sep = " -> "@;
    lemma_join_contains(names, sep, k);
    let j = join_chars(names, sep);
    let p = choose|p: int| 0 <= p && p + names[k].len() <= j.len() && #[trigger] j.subrange(p, p + names[k].len()) == names[k];
    let pre = "Maybe pipeline short-circuited at step '"@;
    let msg = short_circuit_message(steps);
    assert(msg.subrange(pre.len() + p, pre.len() + p + names[k].len()) =~= j.subrange(p, p + names[k].len()));
    assert(names[k] == steps[k].name@);
    assert(maybe_runs(steps.take(k), input, Maybe::Just(s)));
}

} // verus!
