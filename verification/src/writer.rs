//! Writer monad: computations that produce a value and accumulate a log, and
//! agent pipelines whose steps log what they did.

use vstd::prelude::*;
use crate::AgentResult;

verus! {

/// Writer monad: a value paired with an accumulated log.
#[derive(Debug, Clone, PartialEq, Eq)]
pub struct Writer<T> {
    pub value: T,
    pub log: Vec<String>,
}

/// Spec-level bind on (value, log) pairs: run `f` on the value and append its log.
pub open spec fn writer_bind<T, U>(m: (T, Seq<String>), f: spec_fn(T) -> (U, Seq<String>)) -> (U, Seq<String>) {
    let n = f(m.0);
    (n.0, m.1 + n.1)
}

impl<T> Writer<T> {
    /// The value and the log as a pair.
    pub open spec fn model(self) -> (T, Seq<String>) {
        (self.value, self.log@)
    }

    /// Create a writer with a value and empty log.
    pub fn pure(value: T) -> (r: Self)
        ensures
            r.value == value,
            r.log@ == Seq::<String>::empty(),
    {
        Writer { value, log: Vec::new() }
    }

    /// Create a writer with a value and a single log entry.
    pub fn with_log(value: T, msg: &str) -> (r: Self)
        ensures
            r.value == value,
            r.log@.len() == 1,
            r.log@[0]@ == msg@,
    {
        let mut log: Vec<String> = Vec::new();
        log.push(msg.to_string());
        Writer { value, log }
    }

    /// Bind: run a computation, concatenating logs.
    pub fn bind<U, F>(self, f: F) -> (r: Writer<U>) where F: FnOnce(T) -> Writer<U>
        requires
            f.requires((self.value,)),
        ensures
            exists|next: Writer<U>|
                #[trigger] f.ensures((self.value,), next) && r.value == next.value
                    && r.log@ == self.log@ + next.log@,
    {
        let Writer { value, log } = self;
        let next = f(value);
        let ghost next_g = next;
        let Writer { value: next_value, log: mut next_log } = next;
        let mut combined = log;
        combined.append(&mut next_log);
        let r = Writer { value: next_value, log: combined };
        assert(f.ensures((value,), next_g));
        r
    }

    /// Map over the value, leaving the log unchanged.
    pub fn map<U, F>(self, f: F) -> (r: Writer<U>) where F: FnOnce(T) -> U
        requires
            f.requires((self.value,)),
        ensures
            f.ensures((self.value,), r.value),
            r.log == self.log,
    {
        Writer { value: f(self.value), log: self.log }
    }

    /// Extract the value and log.
    pub fn run(self) -> (r: (T, Vec<String>))
        ensures
            r.0 == self.value,
            r.1 == self.log,
    {
        (self.value, self.log)
    }

    /// Get a reference to the log.
    pub fn read_log(&self) -> (r: &[String])
        ensures
            r@ == self.log@,
    {
        self.log.as_slice()
    }
}

// --- The monad laws ---

/// Left identity: `pure(a).bind(f) == f(a)`.
pub proof fn lemma_writer_left_identity<A, B>(a: A, f: spec_fn(A) -> (B, Seq<String>))
    ensures
        writer_bind((a, Seq::<String>::empty()), f) == f(a),
{
    assert(Seq::<String>::empty() + f(a).1 =~= f(a).1);
}

/// Right identity: `m.bind(pure) == m`.
pub proof fn lemma_writer_right_identity<A>(m: (A, Seq<String>))
    ensures
        writer_bind(m, |x: A| (x, Seq::<String>::empty())) == m,
{
    assert(m.1 + Seq::<String>::empty() =~= m.1);
}

/// Associativity: `m.bind(f).bind(g) == m.bind(|x| f(x).bind(g))`.
pub proof fn lemma_writer_associativity<A, B, C>(
    m: (A, Seq<String>),
    f: spec_fn(A) -> (B, Seq<String>),
    g: spec_fn(B) -> (C, Seq<String>),
)
    ensures
        writer_bind(writer_bind(m, f), g) == writer_bind(m, |x: A| writer_bind(f(x), g)),
{
    let n = f(m.0);
    let k = g(n.0);
    assert(m.1 + n.1 + k.1 =~= m.1 + (n.1 + k.1));
}

/// The executable `bind` agrees with `writer_bind`: binding a closure whose
/// results have the (value, log) pairs given by `g` gives `writer_bind(m, g)`.
pub proof fn lemma_writer_bind_computes<A, B, F: FnOnce(A) -> Writer<B>>(
    m: Writer<A>,
    f: F,
    g: spec_fn(A) -> (B, Seq<String>),
    r: Writer<B>,
)
    requires
        forall|x: A, y: Writer<B>| #[trigger] f.ensures((x,), y) ==> y.model() == g(x),
        exists|next: Writer<B>|
            #[trigger] f.ensures((m.value,), next) && r.value == next.value && r.log@ == m.log@ + next.log@,
    ensures
        r.model() == writer_bind(m.model(), g),
{
    let next = choose|next: Writer<B>|
        #[trigger] f.ensures((m.value,), next) && r.value == next.value && r.log@ == m.log@ + next.log@;
    assert(next.model() == g(m.value));
}

/// All the logs of the writers, concatenated in order.
pub open spec fn concat_logs<T>(ws: Seq<Writer<T>>) -> Seq<String>
    decreases ws.len(),
{
    if ws.len() == 0 {
        Seq::empty()
    } else {
        concat_logs(ws.drop_last()) + ws.last().log@
    }
}

/// The logs of the writers, one sequence per writer, in order.
pub open spec fn logs_of<T>(ws: Seq<Writer<T>>) -> Seq<Seq<String>> {
    ws.map_values(|w: Writer<T>| w.log@)
}

/// The combined log is every writer's log, in order, one after the other:
/// the flattening of the writers' logs.
pub proof fn lemma_concat_logs_is_flatten<T>(ws: Seq<Writer<T>>)
    ensures
        concat_logs(ws) == logs_of(ws).flatten(),
    decreases ws.len(),
{
    if ws.len() == 0 {
        assert(logs_of(ws) =~= Seq::<Seq<String>>::empty());
        assert(logs_of(ws).flatten() =~= Seq::<String>::empty());
    } else {
        lemma_concat_logs_is_flatten(ws.drop_last());
        assert(logs_of(ws) =~= logs_of(ws.drop_last()).push(ws.last().log@));
        logs_of(ws.drop_last()).lemma_flatten_push(ws.last().log@);
    }
}

/// Appending one writer appends its log: `log(ws ++ [w]) == log(ws) ++ w.log`.
pub proof fn lemma_concat_logs_push<T>(ws: Seq<Writer<T>>, w: Writer<T>)
    ensures
        concat_logs(ws.push(w)) == concat_logs(ws) + w.log@,
{
    lemma_concat_logs_is_flatten(ws);
    lemma_concat_logs_is_flatten(ws.push(w));
    assert(logs_of(ws.push(w)) =~= logs_of(ws).push(w.log@));
    logs_of(ws).lemma_flatten_push(w.log@);
}

/// Combining two lists of writers: the log of the whole is the log of the
/// first list followed by the log of the second.
pub proof fn lemma_concat_logs_append<T>(ws1: Seq<Writer<T>>, ws2: Seq<Writer<T>>)
    ensures
        concat_logs(ws1 + ws2) == concat_logs(ws1) + concat_logs(ws2),
    decreases ws2.len(),
{
    if ws2.len() == 0 {
        assert(ws1 + ws2 =~= ws1);
        assert(concat_logs(ws1) + concat_logs(ws2) =~= concat_logs(ws1));
    } else {
        lemma_concat_logs_append(ws1, ws2.drop_last());
        assert(ws1 + ws2 =~= (ws1 + ws2.drop_last()).push(ws2.last()));
        assert(ws2 =~= ws2.drop_last().push(ws2.last()));
        lemma_concat_logs_push(ws1 + ws2.drop_last(), ws2.last());
        lemma_concat_logs_push(ws2.drop_last(), ws2.last());
        assert(concat_logs(ws1) + (concat_logs(ws2.drop_last()) + ws2.last().log@)
            =~= concat_logs(ws1) + concat_logs(ws2.drop_last()) + ws2.last().log@);
    }
}

/// A single writer's combined log is its own log, and no writers give an empty log.
pub proof fn lemma_concat_logs_single<T>(w: Writer<T>)
    ensures
        concat_logs(seq![w]) == w.log@,
        concat_logs(Seq::<Writer<T>>::empty()) == Seq::<String>::empty(),
{
    lemma_concat_logs_push(Seq::<Writer<T>>::empty(), w);
    assert(Seq::<Writer<T>>::empty().push(w) =~= seq![w]);
    assert(Seq::<String>::empty() + w.log@ =~= w.log@);
}

/// The combined log is as long as all the writers' logs together.
pub proof fn lemma_concat_logs_len<T>(ws: Seq<Writer<T>>, w: Writer<T>)
    ensures
        concat_logs(ws.push(w)).len() == concat_logs(ws).len() + w.log@.len(),
        concat_logs(ws).len() >= 0,
{
    lemma_concat_logs_push(ws, w);
}

/// Combine writers, running them sequentially and merging logs.
pub fn sequence<T>(writers: Vec<Writer<T>>) -> (r: Writer<Vec<T>>)
    ensures
        r.value@ == writers@.map_values(|w: Writer<T>| w.value),
        r.log@ == concat_logs(writers@),
        r.log@ == logs_of(writers@).flatten(),
{
    proof {
        lemma_concat_logs_is_flatten(writers@);
    }
    let ghost ws = writers@;
    let mut values: Vec<T> = Vec::new();
    let mut all_logs: Vec<String> = Vec::new();
    let mut rest = writers;
    let mut i: usize = 0;
    let n = rest.len();
    while i < n
        invariant
            n == ws.len(),
            i <= n,
            rest@ == ws.skip(i as int),
            values@ == ws.take(i as int).map_values(|w: Writer<T>| w.value),
            all_logs@ == concat_logs(ws.take(i as int)),
        decreases n - i,
    {
        let w = rest.remove(0);
        assert(w == ws[i as int]);
        let Writer { value, log } = w;
        let mut log = log;
        values.push(value);
        all_logs.append(&mut log);
        proof {
            assert(ws.take(i + 1).drop_last() =~= ws.take(i as int));
            assert(values@ =~= ws.take(i + 1).map_values(|w: Writer<T>| w.value));
            assert(rest@ =~= ws.skip(i + 1));
        }
        i = i + 1;
    }
    assert(ws.take(n as int) =~= ws);
    Writer { value: values, log: all_logs }
}

// --- AgentWriter ---

/// An agent processing step that logs its decisions.
///
/// Takes a string input, produces a transformed string, and logs what it did.
#[derive(Debug, Clone)]
pub struct AgentWriter<F> {
    pub name: String,
    pub process: Option<F>,
}

impl<F: Fn(&str) -> Writer<String>> AgentWriter<F> {
    /// Create a new agent writer step.
    pub fn new(name: &str, process: F) -> (r: Self)
        ensures
            r.name@ == name@,
            r.process == Some(process),
    {
        AgentWriter { name: name.to_string(), process: Some(process) }
    }
}

/// Built-in steps; their process is a function written here, so the type
/// parameter of this impl only serves to name them as `AgentWriter::passthrough`.
/// The process of the passthrough step: keeps the text and logs
/// "passed through". It can be coerced to a `fn` pointer to share a pipeline
/// with other steps.
pub fn passthrough_process(s: &str) -> (y: Writer<String>)
    ensures
        y.value@ == s@,
        y.log@.len() == 1,
        y.log@[0]@ == "passed through"@,
{
    Writer::with_log(s.to_string(), "passed through")
}

impl AgentWriter<()> {
    /// A step that passes through input and logs it.
    pub fn passthrough(name: &str) -> (r: AgentWriter<impl Fn(&str) -> Writer<String>>)
        ensures
            r.name@ == name@,
            r.process matches Some(f) && (forall|x: &str| #[trigger] f.requires((x,)))
                && (forall|x: &str, y: Writer<String>| #[trigger] f.ensures((x,), y)
                    ==> y.value@ == x@ && y.log@.len() == 1 && y.log@[0]@ == "passed through"@),
    {
        AgentWriter {
            name: name.to_string(),
            process: Some(passthrough_process),
        }
    }
}

/// The step's process, if any, accepts every input.
pub open spec fn writer_step_total<F: Fn(&str) -> Writer<String>>(step: AgentWriter<F>) -> bool {
    step.process matches Some(f) ==> forall|x: &str| #[trigger] f.requires((x,))
}

/// One step may turn `cur` into `next`: a step without a process leaves it
/// alone; otherwise the process runs on the text of the value, its value
/// becomes the new value and its log is appended.
pub open spec fn writer_step<F: Fn(&str) -> Writer<String>>(
    step: AgentWriter<F>,
    cur: Writer<String>,
    next: Writer<String>,
) -> bool {
    match step.process {
        None => next.value == cur.value && next.log@ == cur.log@,
        Some(f) => exists|x: &str, w: Writer<String>|
            #[trigger] f.ensures((x,), w) && x@ == cur.value@ && next.value == w.value
                && next.log@ == cur.log@ + w.log@,
    }
}

/// `trace` lists the writers a run of the steps from `input` passes through.
pub open spec fn writer_trace<F: Fn(&str) -> Writer<String>>(
    steps: Seq<AgentWriter<F>>,
    input: Seq<char>,
    trace: Seq<Writer<String>>,
) -> bool {
    &&& trace.len() == steps.len() + 1
    &&& trace[0].value@ == input
    &&& trace[0].log@.len() == 0
    &&& forall|i: int| #![trigger steps[i]] 0 <= i < steps.len() ==> writer_step(steps[i], trace[i], trace[i + 1])
}

/// The steps, run in order from `input` with an empty log, may end in `out`.
pub open spec fn writer_runs<F: Fn(&str) -> Writer<String>>(
    steps: Seq<AgentWriter<F>>,
    input: Seq<char>,
    out: Writer<String>,
) -> bool {
    exists|trace: Seq<Writer<String>>| #[trigger] writer_trace(steps, input, trace) && trace.last() == out
}

/// Run a writer pipeline, accumulating logs from all steps.
pub fn run_writer_pipeline<F: Fn(&str) -> Writer<String>>(steps: &[AgentWriter<F>], input: &str) -> (r: AgentResult<Writer<String>>)
    requires
        forall|i: int| 0 <= i < steps@.len() ==> #[trigger] writer_step_total(steps@[i]),
    ensures
        r matches Ok(out) && writer_runs(steps@, input@, out),
{
    let mut current = Writer::pure(input.to_string());
    let ghost mut trace: Seq<Writer<String>> = seq![current];
    let mut i: usize = 0;
    while i < steps.len()
        invariant
            forall|j: int| 0 <= j < steps@.len() ==> #[trigger] writer_step_total(steps@[j]),
            i <= steps@.len(),
            writer_trace(steps@.take(i as int), input@, trace),
            trace.last() == current,
        decreases steps@.len() - i,
    {
        let ghost prev = current;
        let step = &steps[i];
        assert(writer_step_total(steps@[i as int]));
        if let Some(f) = &step.process {
            let g = |s: String| -> (y: Writer<String>)
                requires
                    forall|x: &str| #[trigger] f.requires((x,)),
                ensures
                    exists|x: &str| x@ == s@ && #[trigger] f.ensures((x,), y),
            {
                let x = s.as_str();
                f(x)
            };
            let ghost gg = g;
            current = current.bind(g);
            proof {
                let next = choose|next: Writer<String>|
                    #[trigger] gg.ensures((prev.value,), next) && current.value == next.value
                        && current.log@ == prev.log@ + next.log@;
                let x = choose|x: &str| x@ == prev.value@ && #[trigger] f.ensures((x,), next);
                assert(f.ensures((x,), next) && x@ == prev.value@ && current.value == next.value
                    && current.log@ == prev.log@ + next.log@);
            }
        }
        assert(writer_step(steps@[i as int], prev, current));
        proof {
            let t2 = trace.push(current);
            let s2 = steps@.take(i + 1);
            assert forall|k: int| #![trigger s2[k]] 0 <= k < s2.len() implies writer_step(s2[k], t2[k], t2[k + 1]) by {
                if k < i {
                    assert(s2[k] == steps@.take(i as int)[k]);
                }
            }
            trace = t2;
        }
        i = i + 1;
    }
    assert(steps@.take(steps@.len() as int) =~= steps@);
    Ok(current)
}

} // verus!
