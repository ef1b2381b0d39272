//! Stacked monads: `MaybeWriter` (Maybe + Writer), stateful steps that can
//! fail (State + Maybe), and a general `Pipeline` that threads a shared state,
//! a read-only configuration and the current data through its steps.

use vstd::prelude::*;
use crate::AgentResult;
use crate::maybe::Maybe;
use crate::state::{derefs, present, run_stateful, stateful_fails, stateful_runs, stateful_total};
use crate::string_map::StringMap;
use crate::text::concat4;

verus! {

// --- MaybeWriter: logging that can fail ---

/// MaybeWriter monad: a computation that may fail (Maybe) and logs decisions (Writer).
///
/// If the computation succeeds, you get a value and a log; if it fails at
/// any step, you get `Nothing` and partial logs are lost.
#[derive(Debug, Clone, PartialEq, Eq)]
pub struct MaybeWriter<T> {
    pub inner: Maybe<(T, Vec<String>)>,
}

/// Spec-level bind on optional (value, log) pairs.
pub open spec fn maybe_writer_bind<T, U>(
    m: Option<(T, Seq<String>)>,
    f: spec_fn(T) -> Option<(U, Seq<String>)>,
) -> Option<(U, Seq<String>)> {
    match m {
        None => None,
        Some((v, log)) => match f(v) {
            None => None,
            Some((w, next_log)) => Some((w, log + next_log)),
        },
    }
}

impl<T> MaybeWriter<T> {
    /// The optional value and log.
    pub open spec fn model(self) -> Option<(T, Seq<String>)> {
        match self.inner {
            Maybe::Just((v, log)) => Some((v, log@)),
            Maybe::Nothing => None,
        }
    }

    /// Create a successful computation with a value and empty log.
    pub fn pure(value: T) -> (r: Self)
        ensures
            r.model() == Some((value, Seq::<String>::empty())),
    {
        MaybeWriter { inner: Maybe::Just((value, Vec::new())) }
    }

    /// Create a successful computation with a log entry.
    pub fn writer(value: T, msg: &str) -> (r: Self)
        ensures
            r.model() matches Some((v, log)) && v == value && log.len() == 1 && log[0]@ == msg@,
    {
        let mut log: Vec<String> = Vec::new();
        log.push(msg.to_string());
        MaybeWriter { inner: Maybe::Just((value, log)) }
    }

    /// Create a failed computation.
    pub fn none() -> (r: Self)
        ensures
            r.model() == None::<(T, Seq<String>)>,
    {
        MaybeWriter { inner: Maybe::Nothing }
    }

    /// Bind: chain MaybeWriter computations. Short-circuits on failure.
    pub fn bind<U, F>(self, f: F) -> (r: MaybeWriter<U>) where F: FnOnce(T) -> MaybeWriter<U>
        requires
            self.model() matches Some((v, _)) ==> f.requires((v,)),
        ensures
            match self.model() {
                None => r.model() == None::<(U, Seq<String>)>,
                Some((v, log)) => exists|next: MaybeWriter<U>|
                    #[trigger] f.ensures((v,), next) && r.model() == match next.model() {
                        None => None,
                        Some((w, next_log)) => Some((w, log + next_log)),
                    },
            },
    {
        match self.inner {
            Maybe::Just((value, log)) => {
                let ghost v = value;
                let next = f(value);
                let ghost next_g = next;
                let mut log = log;
                match next.inner {
                    Maybe::Just((next_val, next_log)) => {
                        let mut next_log = next_log;
                        log.append(&mut next_log);
                        let r = MaybeWriter { inner: Maybe::Just((next_val, log)) };
                        assert(f.ensures((v,), next_g));
                        r
                    },
                    Maybe::Nothing => {
                        assert(f.ensures((v,), next_g));
                        MaybeWriter::none()
                    },
                }
            },
            Maybe::Nothing => MaybeWriter::none(),
        }
    }

    /// Extract the result. Returns `None` if the computation failed.
    pub fn run(self) -> (r: Option<(T, Vec<String>)>)
        ensures
            match self.inner {
                Maybe::Just(p) => r == Some(p),
                Maybe::Nothing => r == None::<(T, Vec<String>)>,
            },
    {
        match self.inner {
            Maybe::Just((v, log)) => Some((v, log)),
            Maybe::Nothing => None,
        }
    }

    /// Check if this computation succeeded.
    pub fn is_some(&self) -> (r: bool)
        ensures
            r == (self.inner is Just),
    {
        self.inner.is_some()
    }

    /// Check if this computation failed.
    pub fn is_none(&self) -> (r: bool)
        ensures
            r == (self.inner is Nothing),
    {
        self.inner.is_none()
    }
}

/// Left identity: `pure(a).bind(f) == f(a)`.
pub proof fn lemma_maybe_writer_left_identity<A, B>(a: A, f: spec_fn(A) -> Option<(B, Seq<String>)>)
    ensures
        maybe_writer_bind(Some((a, Seq::<String>::empty())), f) == f(a),
{
    if let Some((w, l)) = f(a) {
        assert(Seq::<String>::empty() + l =~= l);
    }
}

/// Right identity: `m.bind(pure) == m`.
pub proof fn lemma_maybe_writer_right_identity<A>(m: Option<(A, Seq<String>)>)
    ensures
        maybe_writer_bind(m, |x: A| Some((x, Seq::<String>::empty()))) == m,
{
    if let Some((v, l)) = m {
        assert(l + Seq::<String>::empty() =~= l);
    }
}

/// Associativity: `m.bind(f).bind(g) == m.bind(|x| f(x).bind(g))`.
pub proof fn lemma_maybe_writer_associativity<A, B, C>(
    m: Option<(A, Seq<String>)>,
    f: spec_fn(A) -> Option<(B, Seq<String>)>,
    g: spec_fn(B) -> Option<(C, Seq<String>)>,
)
    ensures
        maybe_writer_bind(maybe_writer_bind(m, f), g)
            == maybe_writer_bind(m, |x: A| maybe_writer_bind(f(x), g)),
{
    if let Some((v, l1)) = m {
        if let Some((w, l2)) = f(v) {
            if let Some((z, l3)) = g(w) {
                assert(l1 + l2 + l3 =~= l1 + (l2 + l3));
            }
        }
    }
}

/// Short-circuiting: once the computation has failed, no later step runs or logs.
pub proof fn lemma_maybe_writer_failure_absorbs<A, B>(f: spec_fn(A) -> Option<(B, Seq<String>)>)
    ensures
        maybe_writer_bind(None::<(A, Seq<String>)>, f) == None::<(B, Seq<String>)>,
{
}

// --- StateMaybe: stateful computations that can fail ---

/// A stateful computation step that can fail.
#[derive(Debug, Clone)]
pub struct StateMaybeStep<F> {
    pub name: String,
    pub process: Option<F>,
}

impl<F: Fn(StringMap) -> (AgentResult<String>, StringMap)> StateMaybeStep<F> {
    /// Create a new StateMaybe step.
    pub fn new(name: &str, process: F) -> (r: Self)
        ensures
            r.name@ == name@,
            r.process == Some(process),
    {
        StateMaybeStep { name: name.to_string(), process: Some(process) }
    }
}

/// The processes of the steps, in order.
pub open spec fn state_maybe_processes<F>(steps: Seq<StateMaybeStep<F>>) -> Seq<Option<F>> {
    steps.map_values(|s: StateMaybeStep<F>| s.process)
}

/// The error reported when step `name` fails with `e`.
pub open spec fn state_maybe_failure_message(name: Seq<char>, e: Seq<char>) -> Seq<char> {
    "StateMaybe pipeline failed at '"@ + name + "': "@ + e
}

/// References to the processes of the steps, in order.
fn state_maybe_process_refs<F>(steps: &[StateMaybeStep<F>]) -> (r: Vec<&Option<F>>)
    ensures
        r@.len() == steps@.len(),
        derefs(r@) == state_maybe_processes(steps@),
{
    let mut r: Vec<&Option<F>> = Vec::new();
    let mut i: usize = 0;
    while i < steps.len()
        invariant
            i <= steps@.len(),
            r@.len() == i,
            derefs(r@) == state_maybe_processes(steps@).take(i as int),
        decreases steps@.len() - i,
    {
        let ghost before = r@;
        r.push(&steps[i].process);
        assert(forall|j: int| 0 <= j < i ==> derefs(r@)[j] == #[trigger] derefs(before)[j]);
        assert(derefs(r@) =~= state_maybe_processes(steps@).take(i + 1));
        i = i + 1;
    }
    assert(state_maybe_processes(steps@).take(steps@.len() as int) =~= state_maybe_processes(steps@));
    r
}

/// Run a stateful pipeline where any step can fail.
///
/// Returns `Ok((outputs, final_state))` on success, or `Err` with the
/// step name and error message on failure.
pub fn run_state_maybe_pipeline<F: Fn(StringMap) -> (AgentResult<String>, StringMap)>(
    steps: &[StateMaybeStep<F>],
    initial_state: StringMap,
) -> (r: AgentResult<(Vec<String>, StringMap)>)
    requires
        forall|i: int| 0 <= i < steps@.len() ==> #[trigger] stateful_total(steps@[i].process),
    ensures
        match r {
            Ok((outputs, fin)) => stateful_runs(state_maybe_processes(steps@), initial_state, outputs@, fin),
            Err(msg) => exists|k: int, e: String|
                #[trigger] stateful_fails(state_maybe_processes(steps@), initial_state, k, e)
                    && msg@ == state_maybe_failure_message(steps@[k].name@, e@),
        },
{
    let procs = state_maybe_process_refs(steps);
    assert forall|i: int| 0 <= i < procs@.len() implies #[trigger] stateful_total(*procs@[i]) by {
        assert(derefs(procs@)[i] == state_maybe_processes(steps@)[i]);
    }
    match run_stateful(&procs, initial_state) {
        Ok(done) => Ok(done),
        Err((k, e)) => {
            let msg = concat4("StateMaybe pipeline failed at '", steps[k].name.as_str(), "': ", e.as_str());
            assert(stateful_fails(state_maybe_processes(steps@), initial_state, k as int, e));
            Err(msg)
        },
    }
}

// --- Pipeline: general monadic agent pipeline ---

/// What kind of monadic behaviour a pipeline step has.
#[derive(Debug, Clone, Copy, PartialEq, Eq)]
pub enum MonadType {
    /// Identity: always succeeds, no logging.
    Identity,
    /// Maybe: can short-circuit.
    Maybe,
    /// Writer: logs decisions.
    Writer,
    /// State: reads and writes shared state.
    State,
    /// Reader: read-only config access.
    Reader,
}

/// The label written in the execution log for a step of this kind.
pub open spec fn monad_label_text(t: MonadType) -> Seq<char> {
    match t {
        MonadType::Identity => "Identity"@,
        MonadType::Maybe => "Maybe"@,
        MonadType::Writer => "Writer"@,
        MonadType::State => "State"@,
        MonadType::Reader => "Reader"@,
    }
}

/// A pipeline step that can do anything: transform data, read config, modify state.
///
/// Its function receives the current state, the configuration and the current
/// data, and hands back its result together with the new state.
#[derive(Debug, Clone)]
pub struct PipelineStep<F> {
    pub name: String,
    pub monad_type: MonadType,
    pub execute: Option<F>,
}

impl<F: Fn(StringMap, &StringMap, &str) -> (AgentResult<String>, StringMap)> PipelineStep<F> {
    /// Create a new pipeline step.
    pub fn new(name: &str, monad_type: MonadType, execute: F) -> (r: Self)
        ensures
            r.name@ == name@,
            r.monad_type == monad_type,
            r.execute == Some(execute),
    {
        PipelineStep { name: name.to_string(), monad_type, execute: Some(execute) }
    }
}

impl<F> PipelineStep<F> {
    fn monad_label(&self) -> (r: &'static str)
        ensures
            r@ == monad_label_text(self.monad_type),
            seq!['['] + r@ + seq![']', ' '] == bracketed_variant(self.monad_type),
    {
        proof {
            reveal_strlit("Identity");
            reveal_strlit("Maybe");
            reveal_strlit("Writer");
            reveal_strlit("State");
            reveal_strlit("Reader");
        }
        match self.monad_type {
            MonadType::Identity => "Identity",
            MonadType::Maybe => "Maybe",
            MonadType::Writer => "Writer",
            MonadType::State => "State",
            MonadType::Reader => "Reader",
        }
    }
}

/// A composed agent pipeline.
#[derive(Debug, Clone)]
pub struct Pipeline<F> {
    pub steps: Vec<PipelineStep<F>>,
}

/// The result of running a composed pipeline.
#[derive(Debug, Clone)]
pub struct PipelineResult {
    /// The output of the last step.
    pub final_output: String,
    /// Outputs from all steps, in order.
    pub all_outputs: Vec<String>,
    /// The final state after all State steps.
    pub final_state: StringMap,
    /// Execution log from all steps.
    pub logs: Vec<String>,
}

impl<F> Default for Pipeline<F> {
    fn default() -> (r: Self)
        ensures
            r.steps@.len() == 0,
    {
        Pipeline::new()
    }
}

impl<F> Pipeline<F> {
    /// Create an empty pipeline.
    pub fn new() -> (r: Self)
        ensures
            r.steps@.len() == 0,
    {
        Pipeline { steps: Vec::new() }
    }

    /// Add a step to the pipeline.
    pub fn add_step(self, step: PipelineStep<F>) -> (r: Self)
        ensures
            r.steps@ == self.steps@.push(step),
    {
        let mut pipeline = self;
        pipeline.steps.push(step);
        pipeline
    }
}

/// The step's function, if any, accepts every state, configuration and data.
pub open spec fn pipeline_step_total<F: Fn(StringMap, &StringMap, &str) -> (AgentResult<String>, StringMap)>(
    step: PipelineStep<F>,
) -> bool {
    step.execute matches Some(f) ==> forall|s: StringMap, c: &StringMap, x: &str| #[trigger] f.requires((s, c, x))
}

/// One step, given the state `pre` and the data `input`, may succeed with
/// `out` and the state `post`; a step without a function changes nothing and
/// gives no output.
pub open spec fn pipeline_step<F: Fn(StringMap, &StringMap, &str) -> (AgentResult<String>, StringMap)>(
    step: PipelineStep<F>,
    config: StringMap,
    pre: StringMap,
    input: Seq<char>,
    out: Option<String>,
    post: StringMap,
) -> bool {
    match step.execute {
        None => out is None && post == pre,
        Some(f) => out matches Some(o) && exists|x: &str|
            x@ == input && #[trigger] f.ensures((pre, &config, x), (Ok::<String, String>(o), post)),
    }
}

/// The data handed to the step after one that gave `out` on `input`.
pub open spec fn next_input(input: Seq<char>, out: Option<String>) -> Seq<char> {
    match out {
        Some(o) => o@,
        None => input,
    }
}

/// `states`, `inputs` and `outs` record a successful run of the steps: the
/// state and the data before each step and at the end, and what each step gave.
pub open spec fn pipeline_trace<F: Fn(StringMap, &StringMap, &str) -> (AgentResult<String>, StringMap)>(
    steps: Seq<PipelineStep<F>>,
    config: StringMap,
    init_state: StringMap,
    init_input: Seq<char>,
    states: Seq<StringMap>,
    inputs: Seq<Seq<char>>,
    outs: Seq<Option<String>>,
) -> bool {
    &&& states.len() == steps.len() + 1
    &&& inputs.len() == steps.len() + 1
    &&& outs.len() == steps.len()
    &&& states[0] == init_state
    &&& inputs[0] == init_input
    &&& forall|i: int|
        #![trigger steps[i]]
        0 <= i < steps.len() ==> pipeline_step(steps[i], config, states[i], inputs[i], outs[i], states[i + 1])
            && inputs[i + 1] == next_input(inputs[i], outs[i])
}

/// The log line for a step that produced `result`.
pub open spec fn log_line<F>(step: PipelineStep<F>, result: Seq<char>) -> Seq<char> {
    "["@ + monad_label_text(step.monad_type) + "] "@ + step.name@ + " -> "@ + result
}

/// The log lines of the steps that produced an output, in order.
pub open spec fn pipeline_logs<F>(steps: Seq<PipelineStep<F>>, outs: Seq<Option<String>>) -> Seq<Seq<char>>
    decreases outs.len(),
{
    if outs.len() == 0 || steps.len() == 0 {
        Seq::empty()
    } else {
        match outs.last() {
            Some(o) => pipeline_logs(steps.drop_last(), outs.drop_last()).push(log_line(steps.last(), o@)),
            None => pipeline_logs(steps.drop_last(), outs.drop_last()),
        }
    }
}

/// The steps may all succeed from the state `st0` and the data `in0`, ending
/// in the state `st1` with the data `in1`, having produced `outputs` and
/// written `logs`.
pub open spec fn pipeline_reaches<F: Fn(StringMap, &StringMap, &str) -> (AgentResult<String>, StringMap)>(
    steps: Seq<PipelineStep<F>>,
    config: StringMap,
    st0: StringMap,
    in0: Seq<char>,
    st1: StringMap,
    in1: Seq<char>,
    outputs: Seq<String>,
    logs: Seq<Seq<char>>,
) -> bool {
    exists|states: Seq<StringMap>, inputs: Seq<Seq<char>>, outs: Seq<Option<String>>|
        #[trigger] pipeline_trace(steps, config, st0, in0, states, inputs, outs)
            && states.last() == st1
            && inputs.last() == in1
            && present(outs) == outputs
            && pipeline_logs(steps, outs) == logs
}

/// The text of each log line.
pub open spec fn log_texts(logs: Seq<String>) -> Seq<Seq<char>> {
    logs.map_values(|l: String| l@)
}

/// The steps may all succeed from `init_state` and `init_input`, giving `result`.
pub open spec fn pipeline_runs<F: Fn(StringMap, &StringMap, &str) -> (AgentResult<String>, StringMap)>(
    steps: Seq<PipelineStep<F>>,
    config: StringMap,
    init_state: StringMap,
    init_input: Seq<char>,
    result: PipelineResult,
) -> bool {
    pipeline_reaches(
        steps,
        config,
        init_state,
        init_input,
        result.final_state,
        result.final_output@,
        result.all_outputs@,
        log_texts(result.logs@),
    )
}

/// The first `k` steps may succeed, after which step `k` fails with the error `e`.
pub open spec fn pipeline_fails<F: Fn(StringMap, &StringMap, &str) -> (AgentResult<String>, StringMap)>(
    steps: Seq<PipelineStep<F>>,
    config: StringMap,
    init_state: StringMap,
    init_input: Seq<char>,
    k: int,
    e: String,
) -> bool {
    &&& 0 <= k < steps.len()
    &&& steps[k].execute matches Some(f)
    &&& exists|states: Seq<StringMap>, inputs: Seq<Seq<char>>, outs: Seq<Option<String>>, x: &str, post: StringMap|
        #![trigger pipeline_trace(steps.take(k), config, init_state, init_input, states, inputs, outs), f.ensures((states.last(), &config, x), (Err::<String, String>(e), post))]
        pipeline_trace(steps.take(k), config, init_state, init_input, states, inputs, outs)
            && x@ == inputs.last()
            && f.ensures((states.last(), &config, x), (Err::<String, String>(e), post))
}

/// The error reported when step `name` fails with `e`.
pub open spec fn pipeline_failure_message(name: Seq<char>, e: Seq<char>) -> Seq<char> {
    "Pipeline failed at step '"@ + name + "': "@ + e
}

/// The log line `[label] name -> result`.
fn make_log_line(label: &str, name: &str, result: &str) -> (r: String)
    ensures
        r@ == "["@ + label@ + "] "@ + name@ + " -> "@ + result@,
{
    let mut s = String::from_str("[");
    s.append(label);
    s.append("] ");
    s.append(name);
    s.append(" -> ");
    s.append(result);
    s
}

impl<F: Fn(StringMap, &StringMap, &str) -> (AgentResult<String>, StringMap)> Pipeline<F> {
    /// Every step's function accepts every state, configuration and data.
    pub open spec fn total(&self) -> bool {
        forall|i: int| 0 <= i < self.steps@.len() ==> #[trigger] pipeline_step_total(self.steps@[i])
    }

    /// Run the pipeline with shared state, read-only config, and initial input.
    ///
    /// Each step receives the current state, the config and the current data.
    /// Steps that fail return an error, which short-circuits the pipeline.
    /// All outputs are collected, with a log line for each.
    pub fn run_pipeline(
        &self,
        initial_input: &str,
        initial_state: StringMap,
        config: StringMap,
    ) -> (r: AgentResult<PipelineResult>)
        requires
            self.total(),
        ensures
            match r {
                Ok(result) => pipeline_runs(self.steps@, config, initial_state, initial_input@, result),
                Err(msg) => exists|k: int, e: String|
                    #[trigger] pipeline_fails(self.steps@, config, initial_state, initial_input@, k, e)
                        && msg@ == pipeline_failure_message(self.steps@[k].name@, e@),
            },
    {
        let ghost steps = self.steps@;
        let mut state = initial_state;
        let mut current_input = initial_input.to_string();
        let mut outputs: Vec<String> = Vec::new();
        let mut logs: Vec<String> = Vec::new();
        let ghost mut states: Seq<StringMap> = seq![state];
        let ghost mut inputs: Seq<Seq<char>> = seq![current_input@];
        let ghost mut outs: Seq<Option<String>> = seq![];
        let mut i: usize = 0;
        while i < self.steps.len()
            invariant
                steps == self.steps@,
                self.total(),
                i <= steps.len(),
                pipeline_trace(steps.take(i as int), config, initial_state, initial_input@, states, inputs, outs),
                states.last() == state,
                inputs.last() == current_input@,
                present(outs) == outputs@,
                log_texts(logs@) == pipeline_logs(steps.take(i as int), outs),
            decreases steps.len() - i,
        {
            let step = &self.steps[i];
            assert(pipeline_step_total(steps[i as int]));
            let ghost pre_state = state;
            let ghost pre_input = current_input@;
            let ghost out: Option<String>;
            if let Some(f) = &step.execute {
                let x = current_input.as_str();
                let (res, next_state) = f(state, &config, x);
                match res {
                    Err(e) => {
                        let msg = concat4("Pipeline failed at step '", step.name.as_str(), "': ", e.as_str());
                        assert(f.ensures((states.last(), &config, x), (Err::<String, String>(e), next_state)));
                        assert(pipeline_fails(steps, config, initial_state, initial_input@, i as int, e));
                        return Err(msg);
                    },
                    Ok(result) => {
                        assert(f.ensures((pre_state, &config, x), (Ok::<String, String>(result), next_state)));
                        let line = make_log_line(step.monad_label(), step.name.as_str(), result.as_str());
                        logs.push(line);
                        current_input = result.clone();
                        proof {
                            out = Some(result);
                        }
                        outputs.push(result);
                        state = next_state;
                    },
                }
            } else {
                proof {
                    out = None;
                }
            }
            proof {
                let s2 = steps.take(i + 1);
                let st2 = states.push(state);
                let in2 = inputs.push(current_input@);
                let o2 = outs.push(out);
                assert(s2.drop_last() =~= steps.take(i as int));
                assert(s2.last() == steps[i as int]);
                assert(pipeline_step(s2.last(), config, pre_state, pre_input, out, state));
                assert forall|k: int| #![trigger s2[k]] 0 <= k < s2.len() implies
                    pipeline_step(s2[k], config, st2[k], in2[k], o2[k], st2[k + 1])
                        && in2[k + 1] == next_input(in2[k], o2[k]) by {
                    if k < i {
                        assert(s2[k] == steps.take(i as int)[k]);
                    }
                }
                assert(o2.drop_last() =~= outs);
                assert(log_texts(logs@) =~= pipeline_logs(s2, o2));
                states = st2;
                inputs = in2;
                outs = o2;
            }
            i = i + 1;
        }
        assert(steps.take(steps.len() as int) =~= steps);
        Ok(PipelineResult { final_output: current_input, all_outputs: outputs, final_state: state, logs })
    }
}

/// One log line per output: the logs of a run are exactly as many as its outputs.
pub proof fn lemma_pipeline_logs_match_outputs<F>(steps: Seq<PipelineStep<F>>, outs: Seq<Option<String>>)
    requires
        steps.len() == outs.len(),
    ensures
        pipeline_logs(steps, outs).len() == present(outs).len(),
    decreases outs.len(),
{
    if outs.len() > 0 {
        lemma_pipeline_logs_match_outputs(steps.drop_last(), outs.drop_last());
    }
}

/// The outputs of two runs one after the other are the outputs of each, in order.
proof fn lemma_present_concat(o1: Seq<Option<String>>, o2: Seq<Option<String>>)
    ensures
        present(o1 + o2) == present(o1) + present(o2),
    decreases o2.len(),
{
    if o2.len() == 0 {
        assert(o1 + o2 =~= o1);
        assert(present(o1) + present(o2) =~= present(o1));
    } else {
        lemma_present_concat(o1, o2.drop_last());
        assert((o1 + o2).drop_last() =~= o1 + o2.drop_last());
        assert((o1 + o2).last() == o2.last());
        match o2.last() {
            Some(o) => {
                assert(present(o1) + present(o2.drop_last()).push(o) =~= (present(o1) + present(o2.drop_last())).push(o));
            },
            None => {},
        }
    }
}

/// The log lines of two runs one after the other are the lines of each, in order.
proof fn lemma_logs_concat<F>(
    s1: Seq<PipelineStep<F>>,
    o1: Seq<Option<String>>,
    s2: Seq<PipelineStep<F>>,
    o2: Seq<Option<String>>,
)
    requires
        s1.len() == o1.len(),
        s2.len() == o2.len(),
    ensures
        pipeline_logs(s1 + s2, o1 + o2) == pipeline_logs(s1, o1) + pipeline_logs(s2, o2),
    decreases o2.len(),
{
    if o2.len() == 0 {
        assert(o1 + o2 =~= o1);
        assert(s1 + s2 =~= s1);
        assert(pipeline_logs(s1, o1) + pipeline_logs(s2, o2) =~= pipeline_logs(s1, o1));
    } else {
        lemma_logs_concat(s1, o1, s2.drop_last(), o2.drop_last());
        assert((o1 + o2).drop_last() =~= o1 + o2.drop_last());
        assert((s1 + s2).drop_last() =~= s1 + s2.drop_last());
        assert((o1 + o2).last() == o2.last());
        assert((s1 + s2).last() == s2.last());
        match o2.last() {
            Some(o) => {
                let line = log_line(s2.last(), o@);
                assert(pipeline_logs(s1, o1) + pipeline_logs(s2.drop_last(), o2.drop_last()).push(line)
                    =~= (pipeline_logs(s1, o1) + pipeline_logs(s2.drop_last(), o2.drop_last())).push(line));
            },
            None => {},
        }
    }
}

/// Kleisli composition: running the concatenation of two step lists is running
/// the first and then the second from where the first ended, with the outputs
/// and the log lines of the two runs joined in order.
pub proof fn lemma_pipeline_compose<F: Fn(StringMap, &StringMap, &str) -> (AgentResult<String>, StringMap)>(
    first: Seq<PipelineStep<F>>,
    second: Seq<PipelineStep<F>>,
    config: StringMap,
    st0: StringMap,
    in0: Seq<char>,
    st2: StringMap,
    in2: Seq<char>,
    outputs: Seq<String>,
    logs: Seq<Seq<char>>,
)
    ensures
        pipeline_reaches(first + second, config, st0, in0, st2, in2, outputs, logs) <==> exists|
            st1: StringMap,
            in1: Seq<char>,
            o1: Seq<String>,
            l1: Seq<Seq<char>>,
            o2: Seq<String>,
            l2: Seq<Seq<char>>,
        |
            #![trigger pipeline_reaches(first, config, st0, in0, st1, in1, o1, l1), pipeline_reaches(second, config, st1, in1, st2, in2, o2, l2)]
            pipeline_reaches(first, config, st0, in0, st1, in1, o1, l1)
                && pipeline_reaches(second, config, st1, in1, st2, in2, o2, l2)
                && outputs == o1 + o2
                && logs == l1 + l2,
{
    let all = first + second;
    let n = first.len() as int;
    if pipeline_reaches(all, config, st0, in0, st2, in2, outputs, logs) {
        let (states, inputs, outs) = choose|states: Seq<StringMap>, inputs: Seq<Seq<char>>, outs: Seq<Option<String>>|
            #[trigger] pipeline_trace(all, config, st0, in0, states, inputs, outs)
                && states.last() == st2 && inputs.last() == in2
                && present(outs) == outputs && pipeline_logs(all, outs) == logs;
        let sa = states.take(n + 1);
        let ia = inputs.take(n + 1);
        let oa = outs.take(n);
        let sb = states.skip(n);
        let ib = inputs.skip(n);
        let ob = outs.skip(n);
        assert forall|k: int| #![trigger first[k]] 0 <= k < first.len() implies
            pipeline_step(first[k], config, sa[k], ia[k], oa[k], sa[k + 1]) && ia[k + 1] == next_input(ia[k], oa[k]) by {
            assert(all[k] == first[k]);
        }
        assert(pipeline_trace(first, config, st0, in0, sa, ia, oa));
        assert forall|k: int| #![trigger second[k]] 0 <= k < second.len() implies
            pipeline_step(second[k], config, sb[k], ib[k], ob[k], sb[k + 1]) && ib[k + 1] == next_input(ib[k], ob[k]) by {
            assert(all[n + k] == second[k]);
        }
        assert(pipeline_trace(second, config, states[n], inputs[n], sb, ib, ob));
        assert(outs =~= oa + ob);
        assert(all =~= first + second);
        lemma_present_concat(oa, ob);
        lemma_logs_concat(first, oa, second, ob);
        assert(pipeline_reaches(first, config, st0, in0, states[n], inputs[n], present(oa), pipeline_logs(first, oa)));
        assert(pipeline_reaches(second, config, states[n], inputs[n], st2, in2, present(ob), pipeline_logs(second, ob)));
    }
    if exists|st1: StringMap, in1: Seq<char>, o1: Seq<String>, l1: Seq<Seq<char>>, o2: Seq<String>, l2: Seq<Seq<char>>|
        #![trigger pipeline_reaches(first, config, st0, in0, st1, in1, o1, l1), pipeline_reaches(second, config, st1, in1, st2, in2, o2, l2)]
        pipeline_reaches(first, config, st0, in0, st1, in1, o1, l1)
            && pipeline_reaches(second, config, st1, in1, st2, in2, o2, l2)
            && outputs == o1 + o2 && logs == l1 + l2 {
        let (st1, in1, o1, l1, o2, l2) = choose|st1: StringMap, in1: Seq<char>, o1: Seq<String>, l1: Seq<Seq<char>>, o2: Seq<String>, l2: Seq<Seq<char>>|
            #![trigger pipeline_reaches(first, config, st0, in0, st1, in1, o1, l1), pipeline_reaches(second, config, st1, in1, st2, in2, o2, l2)]
            pipeline_reaches(first, config, st0, in0, st1, in1, o1, l1)
                && pipeline_reaches(second, config, st1, in1, st2, in2, o2, l2)
                && outputs == o1 + o2 && logs == l1 + l2;
        let (sa, ia, oa) = choose|states: Seq<StringMap>, inputs: Seq<Seq<char>>, outs: Seq<Option<String>>|
            #[trigger] pipeline_trace(first, config, st0, in0, states, inputs, outs)
                && states.last() == st1 && inputs.last() == in1
                && present(outs) == o1 && pipeline_logs(first, outs) == l1;
        let (sb, ib, ob) = choose|states: Seq<StringMap>, inputs: Seq<Seq<char>>, outs: Seq<Option<String>>|
            #[trigger] pipeline_trace(second, config, st1, in1, states, inputs, outs)
                && states.last() == st2 && inputs.last() == in2
                && present(outs) == o2 && pipeline_logs(second, outs) == l2;
        let states = sa + sb.skip(1);
        let inputs = ia + ib.skip(1);
        let outs = oa + ob;
        assert forall|k: int| #![trigger all[k]] 0 <= k < all.len() implies
            pipeline_step(all[k], config, states[k], inputs[k], outs[k], states[k + 1])
                && inputs[k + 1] == next_input(inputs[k], outs[k]) by {
            if k < n {
                assert(all[k] == first[k]);
            } else {
                assert(all[k] == second[k - n]);
                assert(pipeline_step(second[k - n], config, sb[k - n], ib[k - n], ob[k - n], sb[k - n + 1]));
            }
        }
        assert(pipeline_trace(all, config, st0, in0, states, inputs, outs));
        lemma_present_concat(oa, ob);
        lemma_logs_concat(first, oa, second, ob);
    }
}

/// `[`, the name of the variant, then `] `, spelled out character by character.
pub open spec fn bracketed_variant(t: MonadType) -> Seq<char> {
    match t {
        MonadType::Identity => seq!['[', 'I', 'd', 'e', 'n', 't', 'i', 't', 'y', ']', ' '],
        MonadType::Maybe => seq!['[', 'M', 'a', 'y', 'b', 'e', ']', ' '],
        MonadType::Writer => seq!['[', 'W', 'r', 'i', 't', 'e', 'r', ']', ' '],
        MonadType::State => seq!['[', 'S', 't', 'a', 't', 'e', ']', ' '],
        MonadType::Reader => seq!['[', 'R', 'e', 'a', 'd', 'e', 'r', ']', ' '],
    }
}

/// A log line is `[Variant] name -> result`, with the name of the step's
/// `MonadType` variant.
pub proof fn lemma_log_line_spelled<F>(step: PipelineStep<F>, result: Seq<char>)
    ensures
        log_line(step, result) == bracketed_variant(step.monad_type) + step.name@
            + seq![' ', '-', '>', ' '] + result,
{
    reveal_strlit("[");
    reveal_strlit("] ");
    reveal_strlit(" -> ");
    reveal_strlit("Identity");
    reveal_strlit("Maybe");
    reveal_strlit("Writer");
    reveal_strlit("State");
    reveal_strlit("Reader");
    let b = bracketed_variant(step.monad_type);
    assert("["@ + monad_label_text(step.monad_type) + "] "@ =~= b);
    assert(" -> "@ =~= seq![' ', '-', '>', ' ']);
    assert(log_line(step, result) =~= b + step.name@ + seq![' ', '-', '>', ' '] + result);
}

/// The `j`-th log line belongs to the step that gave the `j`-th output.
proof fn lemma_pipeline_logs_lines<F>(steps: Seq<PipelineStep<F>>, outs: Seq<Option<String>>, j: int)
    requires
        steps.len() == outs.len(),
        0 <= j < present(outs).len(),
    ensures
        pipeline_logs(steps, outs).len() == present(outs).len(),
        exists|k: int|
            0 <= k < steps.len() && outs[k] is Some
                && #[trigger] pipeline_logs(steps, outs)[j] == log_line(steps[k], present(outs)[j]@),
    decreases outs.len(),
{
    lemma_pipeline_logs_match_outputs(steps, outs);
    let sd = steps.drop_last();
    let od = outs.drop_last();
    lemma_pipeline_logs_match_outputs(sd, od);
    let n = outs.len() - 1;
    match outs.last() {
        Some(o) => {
            if j == present(od).len() {
                assert(pipeline_logs(steps, outs)[j] == log_line(steps[n], present(outs)[j]@));
            } else {
                lemma_pipeline_logs_lines(sd, od, j);
                let k = choose|k: int|
                    0 <= k < sd.len() && od[k] is Some
                        && #[trigger] pipeline_logs(sd, od)[j] == log_line(sd[k], present(od)[j]@);
                assert(pipeline_logs(steps, outs)[j] == log_line(steps[k], present(outs)[j]@));
            }
        },
        None => {
            lemma_pipeline_logs_lines(sd, od, j);
            let k = choose|k: int|
                0 <= k < sd.len() && od[k] is Some
                    && #[trigger] pipeline_logs(sd, od)[j] == log_line(sd[k], present(od)[j]@);
            assert(pipeline_logs(steps, outs)[j] == log_line(steps[k], present(outs)[j]@));
        },
    }
}

/// In a successful run there is one log line per output, and the `j`-th line
/// reads `[Variant] name -> output` for the step that gave the `j`-th output:
/// a State step's line begins with `[State] `, an Identity step's with
/// `[Identity] `, and so on for each kind.
pub proof fn lemma_run_log_lines<F: Fn(StringMap, &StringMap, &str) -> (AgentResult<String>, StringMap)>(
    steps: Seq<PipelineStep<F>>,
    config: StringMap,
    init_state: StringMap,
    init_input: Seq<char>,
    result: PipelineResult,
    j: int,
)
    requires
        pipeline_runs(steps, config, init_state, init_input, result),
        0 <= j < result.all_outputs@.len(),
    ensures
        result.logs@.len() == result.all_outputs@.len(),
        exists|k: int|
            0 <= k < steps.len() && steps[k].execute is Some
                && #[trigger] result.logs@[j]@ == bracketed_variant(steps[k].monad_type) + steps[k].name@
                    + seq![' ', '-', '>', ' '] + result.all_outputs@[j]@,
{
    let (states, inputs, outs) = choose|states: Seq<StringMap>, inputs: Seq<Seq<char>>, outs: Seq<Option<String>>|
        #[trigger] pipeline_trace(steps, config, init_state, init_input, states, inputs, outs)
            && states.last() == result.final_state
            && inputs.last() == result.final_output@
            && present(outs) == result.all_outputs@
            && pipeline_logs(steps, outs) == log_texts(result.logs@);
    lemma_pipeline_logs_lines(steps, outs, j);
    let k = choose|k: int|
        0 <= k < steps.len() && outs[k] is Some
            && #[trigger] pipeline_logs(steps, outs)[j] == log_line(steps[k], present(outs)[j]@);
    assert(pipeline_step(steps[k], config, states[k], inputs[k], outs[k], states[k + 1]));
    lemma_log_line_spelled(steps[k], present(outs)[j]@);
    assert(log_texts(result.logs@)[j] == result.logs@[j]@);
}

} // verus!
