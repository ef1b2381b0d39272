//! Identity monad: the simplest monad, `pure(x) = x`, `bind(x, f) = f(x)`,
//! and an agent pipeline of steps that always produce exactly one output.

use vstd::prelude::*;
use vstd::std_specs::cmp::PartialEqSpec;
use crate::AgentResult;

verus! {

/// Identity monad wrapper.
///
/// Wraps a value with no additional structure. Every operation is transparent.
#[derive(Debug, Clone, PartialEq, Eq)]
pub struct Identity<T> {
    pub value: T,
}

impl<T> Identity<T> {
    /// Spec-level bind with a mathematical function in place of a closure.
    pub open spec fn bind_spec<U>(self, f: spec_fn(T) -> Identity<U>) -> Identity<U> {
        f(self.value)
    }

    /// Create a new Identity monad wrapping `value`.
    pub fn pure(value: T) -> (r: Self)
        ensures
            r == (Identity { value }),
    {
        Identity { value }
    }

    /// Bind (flatMap): apply `f` to the contained value.
    pub fn bind<U, F>(self, f: F) -> (r: Identity<U>) where F: FnOnce(T) -> Identity<U>
        requires
            f.requires((self.value,)),
        ensures
            f.ensures((self.value,), r),
    {
        f(self.value)
    }

    /// Map a function over the contained value.
    pub fn map<U, F>(self, f: F) -> (r: Identity<U>) where F: FnOnce(T) -> U
        requires
            f.requires((self.value,)),
        ensures
            f.ensures((self.value,), r.value),
    {
        Identity::pure(f(self.value))
    }

    /// Extract the contained value.
    pub fn run(self) -> (r: T)
        ensures
            r == self.value,
    {
        self.value
    }
}

// --- The monad laws ---

/// Left identity: `pure(a).bind(f) == f(a)`.
pub proof fn lemma_identity_left_identity<A, B>(a: A, f: spec_fn(A) -> Identity<B>)
    ensures
        (Identity { value: a }).bind_spec(f) == f(a),
{
}

/// Right identity: `m.bind(pure) == m`.
pub proof fn lemma_identity_right_identity<A>(m: Identity<A>)
    ensures
        m.bind_spec(|x: A| Identity { value: x }) == m,
{
}

/// Associativity: `m.bind(f).bind(g) == m.bind(|x| f(x).bind(g))`.
pub proof fn lemma_identity_associativity<A, B, C>(
    m: Identity<A>,
    f: spec_fn(A) -> Identity<B>,
    g: spec_fn(B) -> Identity<C>,
)
    ensures
        m.bind_spec(f).bind_spec(g) == m.bind_spec(|x: A| f(x).bind_spec(g)),
{
}

/// `f` accepts every argument.
pub open spec fn accepts_all<A, B, F: Fn(A) -> B>(f: F) -> bool {
    forall|x: A| #[trigger] f.requires((x,))
}

/// `f` returns one value per argument: two results on the same argument are equal.
pub open spec fn is_functional<A, B, F: Fn(A) -> B>(f: F) -> bool {
    forall|x: A, y1: B, y2: B|
        #![trigger f.ensures((x,), y1), f.ensures((x,), y2)]
        f.ensures((x,), y1) && f.ensures((x,), y2) ==> y1 == y2
}

/// Cloning a value of `A` gives back an equal value.
pub open spec fn clone_is_faithful<A: Clone>() -> bool {
    forall|x: A, y: A| #[trigger] cloned(x, y) ==> x == y
}

/// `==` on `B` follows its specification and holds of a value and itself.
pub open spec fn eq_is_reflexive<B: PartialEq>() -> bool {
    &&& B::obeys_eq_spec()
    &&& forall|x: B| #[trigger] x.eq_spec(&x)
}

/// Verify left identity: `pure(a).bind(f) == f(a)`.
///
/// The two sides are computed by calling `f` on a clone of `a` and on `a`; the
/// result is the comparison of the two values with `==`. It is `true` whenever
/// cloning is faithful, `f` is a function and `==` is reflexive.
pub fn left_identity<A, B, F>(a: A, f: F) -> (r: bool) where
    A: Clone + PartialEq,
    B: PartialEq,
    F: Fn(A) -> Identity<B>,

    requires
        accepts_all(f),
    ensures
        exists|a2: A, lhs: Identity<B>, rhs: Identity<B>|
            #![trigger f.ensures((a2,), lhs), f.ensures((a,), rhs)]
            cloned(a, a2) && f.ensures((a2,), lhs) && f.ensures((a,), rhs)
                && (B::obeys_eq_spec() ==> r == lhs.value.eq_spec(&rhs.value)),
        clone_is_faithful::<A>() && is_functional(f) && eq_is_reflexive::<B>() ==> r,
{
    let a2 = a.clone();
    let lhs = Identity::pure(a2).bind(|x: A| -> (y: Identity<B>)
        requires
            f.requires((x,)),
        ensures
            f.ensures((x,), y),
    {
        f(x)
    }).run();
    let rhs = f(a).run();
    let r = lhs == rhs;
    proof {
        assert(cloned(a, a2));
    }
    r
}

/// Verify right identity: `m.bind(pure) == m`.
///
/// The left side binds `pure` to a clone of `m`; the result is the comparison
/// of the two values with `==`. It is `true` whenever cloning is faithful and
/// `==` is reflexive.
pub fn right_identity<A>(m: Identity<A>) -> (r: bool) where A: Clone + PartialEq
    ensures
        exists|a2: A|
            #[trigger] cloned(m.value, a2) && (A::obeys_eq_spec() ==> r == a2.eq_spec(&m.value)),
        clone_is_faithful::<A>() && eq_is_reflexive::<A>() ==> r,
{
    let a2 = m.value.clone();
    let lhs = Identity::pure(a2).bind(|x: A| -> (y: Identity<A>)
        ensures
            y == (Identity { value: x }),
    {
        Identity::pure(x)
    }).run();
    let r = lhs == m.run();
    proof {
        assert(cloned(m.value, a2));
    }
    r
}

/// Verify associativity: `m.bind(f).bind(g) == m.bind(|x| f(x).bind(g))`.
///
/// The left side chains `f` and `g` on a clone of `m`, the right side binds the
/// composed function on `m`; the result is the comparison of the two values
/// with `==`. It is `true` whenever cloning is faithful, `f` and `g` are
/// functions and `==` is reflexive.
pub fn associativity<A, B, C, F, G>(m: Identity<A>, f: F, g: G) -> (r: bool) where
    A: Clone + PartialEq,
    C: PartialEq,
    F: Fn(A) -> Identity<B>,
    G: Fn(B) -> Identity<C>,

    requires
        accepts_all(f),
        accepts_all(g),
    ensures
        exists|a2: A, b1: Identity<B>, c1: Identity<C>, b2: Identity<B>, c2: Identity<C>|
            #![trigger f.ensures((a2,), b1), g.ensures((b1.value,), c1), f.ensures((m.value,), b2), g.ensures((b2.value,), c2)]
            cloned(m.value, a2) && f.ensures((a2,), b1) && g.ensures((b1.value,), c1)
                && f.ensures((m.value,), b2) && g.ensures((b2.value,), c2)
                && (C::obeys_eq_spec() ==> r == c1.value.eq_spec(&c2.value)),
        clone_is_faithful::<A>() && is_functional(f) && is_functional(g) && eq_is_reflexive::<C>() ==> r,
{
    let a2 = m.value.clone();
    let ghost m_value = m.value;
    let b1 = Identity::pure(a2).bind(|x: A| -> (y: Identity<B>)
        requires
            f.requires((x,)),
        ensures
            f.ensures((x,), y),
    {
        f(x)
    });
    let ghost b1_value = b1.value;
    let c1 = b1.bind(|x: B| -> (y: Identity<C>)
        requires
            g.requires((x,)),
        ensures
            g.ensures((x,), y),
    {
        g(x)
    });
    let c2 = m.bind(|x: A| -> (y: Identity<C>)
        requires
            f.requires((x,)),
            forall|b: B| g.requires((b,)),
        ensures
            exists|b: Identity<B>| #[trigger] f.ensures((x,), b) && g.ensures((b.value,), y),
    {
        let b = f(x);
        b.bind(|v: B| -> (y: Identity<C>)
            requires
                g.requires((v,)),
            ensures
                g.ensures((v,), y),
        {
            g(v)
        })
    });
    let ghost c2v = c2;
    let ghost c1v = c1;
    let r = c1.run() == c2.run();
    proof {
        let b2 = choose|b: Identity<B>| #[trigger] f.ensures((m_value,), b) && g.ensures((b.value,), c2v);
        assert(f.ensures((a2,), b1) && g.ensures((b1_value,), c1v));
        assert(f.ensures((m_value,), b2) && g.ensures((b2.value,), c2v));
    }
    r
}

// --- AgentPipeline ---

/// A named step in an agent pipeline.
#[derive(Debug, Clone)]
pub struct PipelineStep<F> {
    pub name: String,
    pub transform: Option<F>,
}

impl<F: Fn(Vec<String>) -> Vec<String>> PipelineStep<F> {
    /// Create a new pipeline step with a name and transform function.
    pub fn new(name: &str, transform: F) -> (r: Self)
        ensures
            r.name@ == name@,
            r.transform == Some(transform),
    {
        PipelineStep { name: name.to_string(), transform: Some(transform) }
    }
}

/// Built-in steps; their transform is a function written here, so the type
/// parameter of this impl only serves to name them as `PipelineStep::noop`.
/// The transform of the no-op step: hands its input back unchanged. It can be
/// coerced to a `fn` pointer to share a pipeline with other steps.
pub fn noop_transform(x: Vec<String>) -> (y: Vec<String>)
    ensures
        y == x,
{
    x
}

impl PipelineStep<()> {
    /// A no-op step that passes input through unchanged.
    pub fn noop(name: &str) -> (r: PipelineStep<impl Fn(Vec<String>) -> Vec<String>>)
        ensures
            r.name@ == name@,
            r.transform matches Some(f) && accepts_all(f)
                && (forall|x: Vec<String>, y: Vec<String>| #[trigger] f.ensures((x,), y) ==> y == x),
    {
        PipelineStep {
            name: name.to_string(),
            transform: Some(noop_transform),
        }
    }
}

/// An agent pipeline that chains `Vec<String> -> Vec<String>` functions.
///
/// Each step transforms a list of strings. The identity monad ensures
/// every step produces exactly one output: no short-circuiting, no logging.
#[derive(Debug, Clone)]
pub struct AgentPipeline<F> {
    /// Named steps in the pipeline.
    pub steps: Vec<PipelineStep<F>>,
}

/// The step's transform, if any, accepts every input.
pub open spec fn step_total<F: Fn(Vec<String>) -> Vec<String>>(step: PipelineStep<F>) -> bool {
    step.transform matches Some(f) ==> accepts_all(f)
}

/// One step may turn `cur` into `next`: a step without a transform passes
/// the data through, otherwise `next` is a result of the transform on `cur`.
pub open spec fn transforms<F: Fn(Vec<String>) -> Vec<String>>(
    step: PipelineStep<F>,
    cur: Vec<String>,
    next: Vec<String>,
) -> bool {
    match step.transform {
        None => next == cur,
        Some(f) => f.ensures((cur,), next),
    }
}

/// `trace` lists the data a run of the steps from `input` passes through:
/// the input, then the data after each step.
pub open spec fn pipeline_trace<F: Fn(Vec<String>) -> Vec<String>>(
    steps: Seq<PipelineStep<F>>,
    input: Vec<String>,
    trace: Seq<Vec<String>>,
) -> bool {
    &&& trace.len() == steps.len() + 1
    &&& trace[0] == input
    &&& forall|i: int|
        #![trigger steps[i]]
        0 <= i < steps.len() ==> transforms(steps[i], trace[i], trace[i + 1])
}

/// The steps, run in order from `input`, may end in `out`.
pub open spec fn pipeline_runs<F: Fn(Vec<String>) -> Vec<String>>(
    steps: Seq<PipelineStep<F>>,
    input: Vec<String>,
    out: Vec<String>,
) -> bool {
    exists|trace: Seq<Vec<String>>| #[trigger] pipeline_trace(steps, input, trace) && trace.last() == out
}

/// A trace of `steps` extended by the data after one more step.
proof fn lemma_pipeline_trace_push<F: Fn(Vec<String>) -> Vec<String>>(
    steps: Seq<PipelineStep<F>>,
    input: Vec<String>,
    trace: Seq<Vec<String>>,
    step: PipelineStep<F>,
    next: Vec<String>,
)
    requires
        pipeline_trace(steps, input, trace),
        transforms(step, trace.last(), next),
    ensures
        pipeline_trace(steps.push(step), input, trace.push(next)),
{
    let s2 = steps.push(step);
    let t2 = trace.push(next);
    assert forall|k: int| #![trigger s2[k]] 0 <= k < s2.len() implies transforms(s2[k], t2[k], t2[k + 1]) by {
        if k < steps.len() {
            assert(s2[k] == steps[k]);
        }
    }
}

impl<F> Default for AgentPipeline<F> {
    fn default() -> (r: Self)
        ensures
            r.steps@.len() == 0,
    {
        AgentPipeline::new()
    }
}

impl<F> AgentPipeline<F> {
    /// Create an empty pipeline.
    pub fn new() -> (r: Self)
        ensures
            r.steps@.len() == 0,
    {
        AgentPipeline { steps: Vec::new() }
    }

    /// Add a step to the pipeline.
    pub fn chain(self, step: PipelineStep<F>) -> (r: Self)
        ensures
            r.steps@ == self.steps@.push(step),
    {
        let mut pipeline = self;
        pipeline.steps.push(step);
        pipeline
    }
}

impl<F: Fn(Vec<String>) -> Vec<String>> AgentPipeline<F> {
    /// Every transform of the pipeline accepts every input.
    pub open spec fn total(&self) -> bool {
        forall|i: int| 0 <= i < self.steps@.len() ==> #[trigger] step_total(self.steps@[i])
    }

    /// Run the pipeline: feed input through every step in order.
    pub fn run(&self, input: Vec<String>) -> (r: AgentResult<Vec<String>>)
        requires
            self.total(),
        ensures
            r matches Ok(out) && pipeline_runs(self.steps@, input, out),
    {
        let ghost steps = self.steps@;
        let mut current = input;
        let ghost mut trace: Seq<Vec<String>> = seq![current];
        let mut i: usize = 0;
        while i < self.steps.len()
            invariant
                steps == self.steps@,
                self.total(),
                i <= steps.len(),
                pipeline_trace(steps.take(i as int), input, trace),
                trace.last() == current,
            decreases steps.len() - i,
        {
            let ghost prev = current;
            let step = &self.steps[i];
            assert(step_total(steps[i as int]));
            if let Some(f) = &step.transform {
                current = f(current);
            }
            proof {
                assert(steps.take(i + 1) =~= steps.take(i as int).push(steps[i as int]));
                lemma_pipeline_trace_push(steps.take(i as int), input, trace, steps[i as int], current);
                trace = trace.push(current);
            }
            i = i + 1;
        }
        assert(steps.take(steps.len() as int) =~= steps);
        Ok(current)
    }

    /// Run using Identity monad composition explicitly.
    pub fn run_monadic(&self, input: Vec<String>) -> (r: AgentResult<Vec<String>>)
        requires
            self.total(),
        ensures
            r matches Ok(out) && pipeline_runs(self.steps@, input, out),
    {
        let ghost steps = self.steps@;
        let mut acc = Identity::pure(input);
        let ghost mut trace: Seq<Vec<String>> = seq![acc.value];
        let mut i: usize = 0;
        while i < self.steps.len()
            invariant
                steps == self.steps@,
                self.total(),
                i <= steps.len(),
                pipeline_trace(steps.take(i as int), input, trace),
                trace.last() == acc.value,
            decreases steps.len() - i,
        {
            let ghost prev = acc.value;
            let step = &self.steps[i];
            assert(step_total(steps[i as int]));
            acc = acc.bind(|data: Vec<String>| -> (y: Identity<Vec<String>>)
                requires
                    step_total(*step),
                ensures
                    transforms(*step, data, y.value),
            {
                if let Some(f) = &step.transform {
                    Identity::pure(f(data))
                } else {
                    Identity::pure(data)
                }
            });
            proof {
                assert(steps.take(i + 1) =~= steps.take(i as int).push(steps[i as int]));
                lemma_pipeline_trace_push(steps.take(i as int), input, trace, steps[i as int], acc.value);
                trace = trace.push(acc.value);
            }
            i = i + 1;
        }
        assert(steps.take(steps.len() as int) =~= steps);
        Ok(acc.run())
    }
}

/// A pipeline with no steps returns its input, and nothing else.
pub proof fn lemma_pipeline_runs_empty<F: Fn(Vec<String>) -> Vec<String>>(input: Vec<String>, out: Vec<String>)
    ensures
        pipeline_runs(Seq::<PipelineStep<F>>::empty(), input, out) <==> out == input,
{
    let steps = Seq::<PipelineStep<F>>::empty();
    if out == input {
        assert(pipeline_trace(steps, input, seq![input]));
    }
}

/// Each transform of the steps returns one value per input.
pub open spec fn steps_functional<F: Fn(Vec<String>) -> Vec<String>>(steps: Seq<PipelineStep<F>>) -> bool {
    forall|i: int|
        0 <= i < steps.len() ==> ((#[trigger] steps[i]).transform matches Some(f) ==> is_functional(f))
}

proof fn lemma_pipeline_traces_agree<F: Fn(Vec<String>) -> Vec<String>>(
    steps: Seq<PipelineStep<F>>,
    input: Vec<String>,
    t1: Seq<Vec<String>>,
    t2: Seq<Vec<String>>,
    k: int,
)
    requires
        steps_functional(steps),
        pipeline_trace(steps, input, t1),
        pipeline_trace(steps, input, t2),
        0 <= k <= steps.len(),
    ensures
        t1[k] == t2[k],
    decreases k,
{
    if k > 0 {
        lemma_pipeline_traces_agree(steps, input, t1, t2, k - 1);
        assert(transforms(steps[k - 1], t1[k - 1], t1[k]));
        assert(transforms(steps[k - 1], t2[k - 1], t2[k]));
    }
}

/// A pipeline whose transforms are functions has one result per input, so
/// `run` and `run_monadic` return the same data.
pub proof fn lemma_pipeline_deterministic<F: Fn(Vec<String>) -> Vec<String>>(
    steps: Seq<PipelineStep<F>>,
    input: Vec<String>,
    out1: Vec<String>,
    out2: Vec<String>,
)
    requires
        steps_functional(steps),
        pipeline_runs(steps, input, out1),
        pipeline_runs(steps, input, out2),
    ensures
        out1 == out2,
{
    let t1 = choose|t: Seq<Vec<String>>| #[trigger] pipeline_trace(steps, input, t) && t.last() == out1;
    let t2 = choose|t: Seq<Vec<String>>| #[trigger] pipeline_trace(steps, input, t) && t.last() == out2;
    lemma_pipeline_traces_agree(steps, input, t1, t2, steps.len() as int);
}

/// Kleisli composition: running `first` then `second` is running their
/// concatenation, so chaining steps composes pipelines associatively.
pub proof fn lemma_pipeline_compose<F: Fn(Vec<String>) -> Vec<String>>(
    first: Seq<PipelineStep<F>>,
    second: Seq<PipelineStep<F>>,
    input: Vec<String>,
    out: Vec<String>,
)
    ensures
        pipeline_runs(first + second, input, out) <==> exists|mid: Vec<String>|
            #[trigger] pipeline_runs(first, input, mid) && pipeline_runs(second, mid, out),
{
    let all = first + second;
    let n = first.len() as int;
    if pipeline_runs(all, input, out) {
        let t = choose|t: Seq<Vec<String>>| #[trigger] pipeline_trace(all, input, t) && t.last() == out;
        let mid = t[n];
        let t1 = t.take(n + 1);
        let t2 = t.skip(n);
        assert forall|k: int| #![trigger first[k]] 0 <= k < first.len() implies transforms(first[k], t1[k], t1[k + 1]) by {
            assert(all[k] == first[k]);
        }
        assert(pipeline_trace(first, input, t1));
        assert forall|k: int| #![trigger second[k]] 0 <= k < second.len() implies transforms(second[k], t2[k], t2[k + 1]) by {
            assert(all[n + k] == second[k]);
        }
        assert(pipeline_trace(second, mid, t2));
        assert(pipeline_runs(first, input, mid));
        assert(pipeline_runs(second, mid, out));
    }
    if exists|mid: Vec<String>| #[trigger] pipeline_runs(first, input, mid) && pipeline_runs(second, mid, out) {
        let mid = choose|mid: Vec<String>| #[trigger] pipeline_runs(first, input, mid) && pipeline_runs(second, mid, out);
        let t1 = choose|t: Seq<Vec<String>>| #[trigger] pipeline_trace(first, input, t) && t.last() == mid;
        let t2 = choose|t: Seq<Vec<String>>| #[trigger] pipeline_trace(second, mid, t) && t.last() == out;
        let t = t1 + t2.skip(1);
        assert forall|k: int| #![trigger all[k]] 0 <= k < all.len() implies transforms(all[k], t[k], t[k + 1]) by {
            if k < n {
                assert(all[k] == first[k]);
            } else {
                assert(all[k] == second[k - n]);
                assert(transforms(second[k - n], t2[k - n], t2[k - n + 1]));
            }
        }
        assert(pipeline_trace(all, input, t));
    }
}

} // verus!
