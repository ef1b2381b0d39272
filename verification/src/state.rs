//! State monad: computations that thread state through a chain, and agent
//! pipelines whose steps read and rewrite a shared state.

use vstd::prelude::*;
use core::marker::PhantomData;
use crate::AgentResult;
use crate::string_map::StringMap;
use crate::text::{concat3, concat4};

verus! {

/// State monad: a computation that takes state and produces a value and a new state.
///
/// `new`, `pure` and `bind` each store a computation; a value rebuilt from its
/// label alone has none, and running it is not allowed.
#[derive(Debug)]
pub struct State<S, A, F> {
    /// The computation: given state, produce (value, new_state).
    pub run_state: Option<F>,
    /// Serializable representation of the state transition description.
    pub label: String,
    /// Records the state and value types; holds no data.
    pub marker: PhantomData<(S, A)>,
}

impl<S, A, F: Clone> Clone for State<S, A, F> {
    /// A copy with the same label and a clone of the stored function.
    fn clone(&self) -> (r: Self)
        ensures
            r.label == self.label,
            r.run_state is Some <==> self.run_state is Some,
            r.run_state matches Some(g) ==> (self.run_state matches Some(f) && cloned(f, g)),
    {
        let run_state = match &self.run_state {
            Some(f) => Some(f.clone()),
            None => None,
        };
        State { run_state, label: self.label.clone(), marker: PhantomData }
    }
}

/// The stored function of a state computation accepts every state.
pub open spec fn state_total<S, A, F: FnOnce(S) -> (A, S)>(m: State<S, A, F>) -> bool {
    m.run_state matches Some(f) && forall|s: S| #[trigger] f.requires((s,))
}

/// Running `m` from `s` may give `(a, s1)`, and `f(a)` may give a computation
/// that, run from `s1`, may give `out`: one possible result of `m.bind(f)` on `s`.
pub open spec fn state_bind_result<S, A, B, F, G, H>(m: F, f: G, s: S, out: (B, S)) -> bool where
    F: FnOnce(S) -> (A, S),
    G: FnOnce(A) -> State<S, B, H>,
    H: FnOnce(S) -> (B, S),
 {
    exists|a: A, s1: S, n: State<S, B, H>|
        #![trigger m.ensures((s,), (a, s1)), f.ensures((a,), n)]
        m.ensures((s,), (a, s1)) && f.ensures((a,), n) && (n.run_state matches Some(h) && h.ensures((s1,), out))
}

/// Built-in computations; their function is a closure written here, so the
/// third type parameter of this impl only serves to name `State::pure`.
impl<S: Clone, A: Clone> State<S, A, ()> {
    /// Pure: produce a value without modifying state.
    pub fn pure(label: &str, value: A) -> (r: State<S, A, impl FnOnce(S) -> (A, S)>)
        ensures
            r.label@ == label@,
            state_total(r),
            r.run_state matches Some(g)
                && (forall|s: S, out: (A, S)| #[trigger] g.ensures((s,), out) ==> out == (value, s)),
    {
        State {
            run_state: Some(move |s: S| -> (out: (A, S))
                ensures
                    out == (value, s),
            { (value, s) }),
            label: label.to_string(),
            marker: PhantomData,
        }
    }
}

impl<S: Clone, A: Clone, F: FnOnce(S) -> (A, S)> State<S, A, F> {
    /// Create a state computation from a function.
    pub fn new(label: &str, f: F) -> (r: Self)
        ensures
            r.run_state == Some(f),
            r.label@ == label@,
    {
        State { run_state: Some(f), label: label.to_string(), marker: PhantomData }
    }

    /// Bind: chain state computations sequentially. Running the result runs
    /// this computation, hands its value to `f`, and runs the computation `f`
    /// gives on the state this one left. A computation without a stored
    /// function binds to one without a stored function.
    pub fn bind<B: Clone, H, G>(self, f: G) -> (r: State<S, B, impl FnOnce(S) -> (B, S)>) where
        G: FnOnce(A) -> State<S, B, H>,
        H: FnOnce(S) -> (B, S),

        requires
            self.run_state is Some ==> {
                &&& state_total(self)
                &&& forall|a: A| #[trigger] f.requires((a,))
                &&& forall|a: A, n: State<S, B, H>| #[trigger] f.ensures((a,), n) ==> state_total(n)
            },
        ensures
            r.label@ == self.label@ + " >> bind"@,
            self.run_state is None ==> r.run_state is None,
            self.run_state is Some ==> state_total(r),
            r.run_state matches Some(g) ==> (self.run_state matches Some(m)
                && (forall|s: S, out: (B, S)| #[trigger] g.ensures((s,), out) ==> state_bind_result(m, f, s, out))),
    {
        let label = crate::text::concat2(self.label.as_str(), " >> bind");
        let stored = self.run_state.is_some();
        let mo = self.run_state;
        let g = move |s: S| -> (out: (B, S))
            requires
                mo matches Some(m) && forall|x: S| #[trigger] m.requires((x,)),
                forall|a: A| #[trigger] f.requires((a,)),
                forall|a: A, n: State<S, B, H>| #[trigger] f.ensures((a,), n) ==> state_total(n),
            ensures
                mo matches Some(m) && state_bind_result(m, f, s, out),
        {
            let m = mo.unwrap();
            let (a, s1) = m(s);
            let n = f(a);
            let ghost ng = n;
            let out = n.run(s1);
            assert(f.ensures((a,), ng));
            out
        };
        let run_state = if stored { Some(g) } else { None };
        State { run_state, label, marker: PhantomData }
    }

    /// Execute the state computation with initial state.
    pub fn run(self, state: S) -> (r: (A, S))
        requires
            self.run_state matches Some(f) && f.requires((state,)),
        ensures
            self.run_state matches Some(f) && f.ensures((state,), r),
    {
        let f = self.run_state.unwrap();
        f(state)
    }
}

// --- The state monad laws ---

/// Spec-level state computations: functions from a state to a value and a new state.
pub open spec fn state_pure_spec<S, A>(a: A) -> spec_fn(S) -> (A, S) {
    |s: S| (a, s)
}

/// Spec-level bind: run `m`, then the computation `f` gives on its value, on the new state.
pub open spec fn state_bind_spec<S, A, B>(m: spec_fn(S) -> (A, S), f: spec_fn(A) -> spec_fn(S) -> (B, S)) -> spec_fn(S) -> (B, S) {
    |s: S| f(m(s).0)(m(s).1)
}

/// Left identity: `pure(a).bind(f) == f(a)`.
pub proof fn lemma_state_left_identity<S, A, B>(a: A, f: spec_fn(A) -> spec_fn(S) -> (B, S))
    ensures
        state_bind_spec(state_pure_spec::<S, A>(a), f) == f(a),
{
    assert(state_bind_spec(state_pure_spec::<S, A>(a), f) =~= f(a));
}

/// Right identity: `m.bind(pure) == m`.
pub proof fn lemma_state_right_identity<S, A>(m: spec_fn(S) -> (A, S))
    ensures
        state_bind_spec(m, |a: A| state_pure_spec::<S, A>(a)) == m,
{
    assert(state_bind_spec(m, |a: A| state_pure_spec::<S, A>(a)) =~= m);
}

/// Associativity: `m.bind(f).bind(g) == m.bind(|x| f(x).bind(g))`.
pub proof fn lemma_state_associativity<S, A, B, C>(
    m: spec_fn(S) -> (A, S),
    f: spec_fn(A) -> spec_fn(S) -> (B, S),
    g: spec_fn(B) -> spec_fn(S) -> (C, S),
)
    ensures
        state_bind_spec(state_bind_spec(m, f), g) == state_bind_spec(m, |a: A| state_bind_spec(f(a), g)),
{
    assert(state_bind_spec(state_bind_spec(m, f), g) =~= state_bind_spec(m, |a: A| state_bind_spec(f(a), g)));
}

/// The executable `pure` and `bind` agree with the spec-level ones: when `m`
/// computes `mm` and each computation `f` gives computes `ff` of its argument,
/// every result of the bound computation on `s` is `state_bind_spec(mm, ff)(s)`.
pub proof fn lemma_state_bind_computes<S, A, B, F, G, H>(
    m: F,
    f: G,
    mm: spec_fn(S) -> (A, S),
    ff: spec_fn(A) -> spec_fn(S) -> (B, S),
    s: S,
    out: (B, S),
) where
    F: FnOnce(S) -> (A, S),
    G: FnOnce(A) -> State<S, B, H>,
    H: FnOnce(S) -> (B, S),

    requires
        forall|x: S, y: (A, S)| #[trigger] m.ensures((x,), y) ==> y == mm(x),
        forall|a: A, n: State<S, B, H>| #[trigger] f.ensures((a,), n) ==> (n.run_state matches Some(h)
            && forall|x: S, y: (B, S)| #[trigger] h.ensures((x,), y) ==> y == ff(a)(x)),
        state_bind_result(m, f, s, out),
    ensures
        out == state_bind_spec(mm, ff)(s),
{
    let (a, s1, n) = choose|a: A, s1: S, n: State<S, B, H>|
        #![trigger m.ensures((s,), (a, s1)), f.ensures((a,), n)]
        m.ensures((s,), (a, s1)) && f.ensures((a,), n) && (n.run_state matches Some(h) && h.ensures((s1,), out));
    assert(m.ensures((s,), (a, s1)));
    assert(f.ensures((a,), n));
}

// --- Stateful steps ---

/// A stateful step function accepts every state.
pub open spec fn stateful_total<F: Fn(StringMap) -> (AgentResult<String>, StringMap)>(p: Option<F>) -> bool {
    p matches Some(f) ==> forall|s: StringMap| #[trigger] f.requires((s,))
}

/// A step with process `p` may take the state `pre` to `post` and succeed with
/// `out`; a step without a process leaves the state alone and gives no output.
pub open spec fn stateful_step<F: Fn(StringMap) -> (AgentResult<String>, StringMap)>(
    p: Option<F>,
    pre: StringMap,
    out: Option<String>,
    post: StringMap,
) -> bool {
    match p {
        None => out is None && post == pre,
        Some(f) => out matches Some(o) && f.ensures((pre,), (Ok::<String, String>(o), post)),
    }
}

/// `states` and `outs` record a successful run of the processes from `init`:
/// the state before each step and at the end, and what each step gave.
pub open spec fn stateful_trace<F: Fn(StringMap) -> (AgentResult<String>, StringMap)>(
    procs: Seq<Option<F>>,
    init: StringMap,
    states: Seq<StringMap>,
    outs: Seq<Option<String>>,
) -> bool {
    &&& states.len() == procs.len() + 1
    &&& outs.len() == procs.len()
    &&& states[0] == init
    &&& forall|i: int|
        #![trigger procs[i]]
        0 <= i < procs.len() ==> stateful_step(procs[i], states[i], outs[i], states[i + 1])
}

/// The outputs that were produced, in order, skipping steps without a process.
pub open spec fn present(outs: Seq<Option<String>>) -> Seq<String>
    decreases outs.len(),
{
    if outs.len() == 0 {
        Seq::empty()
    } else {
        match outs.last() {
            Some(o) => present(outs.drop_last()).push(o),
            None => present(outs.drop_last()),
        }
    }
}

/// The processes, run in order from `init`, may all succeed, producing
/// `outputs` and ending in the state `fin`.
pub open spec fn stateful_runs<F: Fn(StringMap) -> (AgentResult<String>, StringMap)>(
    procs: Seq<Option<F>>,
    init: StringMap,
    outputs: Seq<String>,
    fin: StringMap,
) -> bool {
    exists|states: Seq<StringMap>, outs: Seq<Option<String>>|
        #[trigger] stateful_trace(procs, init, states, outs) && states.last() == fin
            && present(outs) == outputs
}

/// The first `k` processes may succeed from `init`, after which process `k`
/// fails with the error `e`.
pub open spec fn stateful_fails<F: Fn(StringMap) -> (AgentResult<String>, StringMap)>(
    procs: Seq<Option<F>>,
    init: StringMap,
    k: int,
    e: String,
) -> bool {
    &&& 0 <= k < procs.len()
    &&& procs[k] matches Some(f)
    &&& exists|states: Seq<StringMap>, outs: Seq<Option<String>>, post: StringMap|
        #![trigger stateful_trace(procs.take(k), init, states, outs), f.ensures((states.last(),), (Err::<String, String>(e), post))]
        stateful_trace(procs.take(k), init, states, outs)
            && f.ensures((states.last(),), (Err::<String, String>(e), post))
}

/// The processes behind a sequence of references.
pub open spec fn derefs<F>(procs: Seq<&Option<F>>) -> Seq<Option<F>> {
    procs.map_values(|p: &Option<F>| *p)
}

/// A successful run extended by one more successful step.
proof fn lemma_stateful_trace_push<F: Fn(StringMap) -> (AgentResult<String>, StringMap)>(
    procs: Seq<Option<F>>,
    init: StringMap,
    states: Seq<StringMap>,
    outs: Seq<Option<String>>,
    p: Option<F>,
    out: Option<String>,
    post: StringMap,
)
    requires
        stateful_trace(procs, init, states, outs),
        stateful_step(p, states.last(), out, post),
    ensures
        stateful_trace(procs.push(p), init, states.push(post), outs.push(out)),
        present(outs.push(out)) == match out {
            Some(o) => present(outs).push(o),
            None => present(outs),
        },
{
    let p2 = procs.push(p);
    let s2 = states.push(post);
    let o2 = outs.push(out);
    assert forall|k: int| #![trigger p2[k]] 0 <= k < p2.len() implies stateful_step(p2[k], s2[k], o2[k], s2[k + 1]) by {
        if k < procs.len() {
            assert(p2[k] == procs[k]);
        }
    }
    assert(o2.drop_last() =~= outs);
}

/// Run the stateful processes in order from `init`; on the first error, give
/// back the position of the failing step and its error.
pub(crate) fn run_stateful<F: Fn(StringMap) -> (AgentResult<String>, StringMap)>(
    procs: &Vec<&Option<F>>,
    init: StringMap,
) -> (r: Result<(Vec<String>, StringMap), (usize, String)>)
    requires
        forall|i: int| 0 <= i < procs@.len() ==> #[trigger] stateful_total(*procs@[i]),
    ensures
        match r {
            Ok((outs, fin)) => stateful_runs(derefs(procs@), init, outs@, fin),
            Err((k, e)) => stateful_fails(derefs(procs@), init, k as int, e),
        },
{
    let ghost ps = derefs(procs@);
    let mut state = init;
    let mut outputs: Vec<String> = Vec::new();
    let ghost mut states: Seq<StringMap> = seq![state];
    let ghost mut outs: Seq<Option<String>> = seq![];
    let mut i: usize = 0;
    while i < procs.len()
        invariant
            ps == derefs(procs@),
            forall|j: int| 0 <= j < procs@.len() ==> #[trigger] stateful_total(*procs@[j]),
            i <= procs@.len(),
            stateful_trace(ps.take(i as int), init, states, outs),
            states.last() == state,
            present(outs) == outputs@,
        decreases procs@.len() - i,
    {
        assert(stateful_total(*procs@[i as int]));
        assert(ps[i as int] == *procs@[i as int]);
        assert(ps.take(i + 1) =~= ps.take(i as int).push(ps[i as int]));
        match procs[i] {
            Some(f) => {
                let ghost pre = state;
                let (res, next) = f(state);
                match res {
                    Ok(o) => {
                        proof {
                            lemma_stateful_trace_push(ps.take(i as int), init, states, outs, ps[i as int], Some(o), next);
                            states = states.push(next);
                            outs = outs.push(Some(o));
                        }
                        outputs.push(o);
                        state = next;
                    },
                    Err(e) => {
                        assert(f.ensures((states.last(),), (Err::<String, String>(e), next)));
                        return Err((i, e));
                    },
                }
            },
            None => {
                proof {
                    lemma_stateful_trace_push(ps.take(i as int), init, states, outs, ps[i as int], None, state);
                    states = states.push(state);
                    outs = outs.push(None);
                }
            },
        }
        i = i + 1;
    }
    assert(ps.take(procs@.len() as int) =~= ps);
    Ok((outputs, state))
}

/// The processes of the steps, in order.
pub open spec fn state_processes<F>(steps: Seq<AgentState<F>>) -> Seq<Option<F>> {
    steps.map_values(|s: AgentState<F>| s.process)
}

/// The error reported when step `name` fails with `e`.
pub open spec fn state_failure_message(name: Seq<char>, e: Seq<char>) -> Seq<char> {
    "State pipeline failed at step '"@ + name + "': "@ + e
}

/// References to the processes of the steps, in order.
fn process_refs<F>(steps: &[AgentState<F>]) -> (r: Vec<&Option<F>>)
    ensures
        r@.len() == steps@.len(),
        derefs(r@) == state_processes(steps@),
{
    let mut r: Vec<&Option<F>> = Vec::new();
    let mut i: usize = 0;
    while i < steps.len()
        invariant
            i <= steps@.len(),
            r@.len() == i,
            derefs(r@) == state_processes(steps@).take(i as int),
        decreases steps@.len() - i,
    {
        let ghost before = r@;
        r.push(&steps[i].process);
        assert(forall|j: int| 0 <= j < i ==> derefs(r@)[j] == #[trigger] derefs(before)[j]);
        assert(derefs(r@) =~= state_processes(steps@).take(i + 1));
        i = i + 1;
    }
    assert(state_processes(steps@).take(steps@.len() as int) =~= state_processes(steps@));
    r
}

// --- AgentState ---

/// A stateful agent step that reads the shared state and hands back a new one.
#[derive(Debug, Clone)]
pub struct AgentState<F> {
    pub name: String,
    pub process: Option<F>,
}

impl<F: Fn(StringMap) -> (AgentResult<String>, StringMap)> AgentState<F> {
    /// Create a new stateful agent step.
    pub fn new(name: &str, process: F) -> (r: Self)
        ensures
            r.name@ == name@,
            r.process == Some(process),
    {
        AgentState { name: name.to_string(), process: Some(process) }
    }
}

/// Run a sequence of stateful agent steps, threading state through each.
pub fn run_state_pipeline<F: Fn(StringMap) -> (AgentResult<String>, StringMap)>(
    steps: &[AgentState<F>],
    initial_state: StringMap,
) -> (r: AgentResult<(Vec<String>, StringMap)>)
    requires
        forall|i: int| 0 <= i < steps@.len() ==> #[trigger] stateful_total(steps@[i].process),
    ensures
        match r {
            Ok((outputs, fin)) => stateful_runs(state_processes(steps@), initial_state, outputs@, fin),
            Err(msg) => exists|k: int, e: String|
                #[trigger] stateful_fails(state_processes(steps@), initial_state, k, e)
                    && msg@ == state_failure_message(steps@[k].name@, e@),
        },
{
    let procs = process_refs(steps);
    assert forall|i: int| 0 <= i < procs@.len() implies #[trigger] stateful_total(*procs@[i]) by {
        assert(derefs(procs@)[i] == state_processes(steps@)[i]);
    }
    match run_stateful(&procs, initial_state) {
        Ok(done) => Ok(done),
        Err((k, e)) => {
            let msg = concat4("State pipeline failed at step '", steps[k].name.as_str(), "': ", e.as_str());
            assert(stateful_fails(state_processes(steps@), initial_state, k as int, e));
            Err(msg)
        },
    }
}

/// The error reported when `key` is missing from the state.
pub open spec fn missing_key_message(key: Seq<char>) -> Seq<char> {
    "key '"@ + key + "' not found in state"@
}

/// Read a key from state, returning an error if missing.
pub fn state_get(state: &StringMap, key: &str) -> (r: AgentResult<String>)
    ensures
        match r {
            Ok(v) => state@.contains_key(key@) && v@ == state@[key@],
            Err(e) => !state@.contains_key(key@) && e@ == missing_key_message(key@),
        },
{
    match state.get(key) {
        Some(v) => Ok(v.clone()),
        None => Err(concat3("key '", key, "' not found in state")),
    }
}

/// Write a key-value pair into state.
pub fn state_put(state: &mut StringMap, key: &str, value: &str)
    ensures
        final(state)@ == old(state)@.insert(key@, value@),
{
    state.insert(key.to_string(), value.to_string());
}

/// Modify a state value if it exists.
pub fn state_modify<F: Fn(&str) -> String>(state: &mut StringMap, key: &str, f: F) -> (r: AgentResult<()>)
    requires
        forall|x: &str| #[trigger] f.requires((x,)),
    ensures
        match r {
            Ok(()) => old(state)@.contains_key(key@) && exists|x: &str, v: String|
                #[trigger] f.ensures((x,), v) && x@ == old(state)@[key@]
                    && final(state)@ == old(state)@.insert(key@, v@),
            Err(e) => !old(state)@.contains_key(key@) && final(state)@ == old(state)@
                && e@ == missing_key_message(key@),
        },
{
    match state.get(key) {
        Some(v) => {
            let x = v.as_str();
            let new_v = f(x);
            let ghost xg = x;
            let ghost vg = new_v;
            state.insert(key.to_string(), new_v);
            assert(f.ensures((xg,), vg));
            Ok(())
        },
        None => Err(concat3("key '", key, "' not found in state")),
    }
}

/// Reading a key right after writing it gives back the written value; other
/// keys read as before.
pub proof fn lemma_state_get_after_put(
    state: Map<Seq<char>, Seq<char>>,
    key: Seq<char>,
    value: Seq<char>,
    other: Seq<char>,
)
    ensures
        state.insert(key, value).contains_key(key),
        state.insert(key, value)[key] == value,
        other != key ==> (state.insert(key, value).contains_key(other) == state.contains_key(other)),
        other != key && state.contains_key(other) ==> state.insert(key, value)[other] == state[other],
{
}

} // verus!
