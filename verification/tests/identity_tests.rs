use std::cell::Cell;

use monad_composition::identity::{
    associativity, left_identity, noop_transform, right_identity, AgentPipeline, Identity,
    PipelineStep,
};

type Transform = fn(Vec<String>) -> Vec<String>;

#[test]
fn test_pure_and_run() {
    let m = Identity::pure(42);
    assert_eq!(m.run(), 42);
}

#[test]
fn test_bind() {
    let m = Identity::pure(10);
    let result = m.bind(|x| Identity::pure(x + 5));
    assert_eq!(result.run(), 15);
}

#[test]
fn test_map() {
    let m = Identity::pure("hello");
    let result = m.map(|s| s.to_uppercase());
    assert_eq!(result.run(), "HELLO");
}

#[test]
fn test_left_identity_law() {
    let f = |x: i32| Identity::pure(x * 2);
    assert!(left_identity(5, f));
}

#[test]
fn test_right_identity_law() {
    let m = Identity::pure(99);
    assert!(right_identity(m));
}

#[test]
fn test_associativity_law() {
    let m = Identity::pure(3);
    let f = |x: i32| Identity::pure(x + 1);
    let g = |x: i32| Identity::pure(x * 10);
    assert!(associativity(m, f, g));
}

#[test]
fn identity_test_pipeline_basic() {
    let pipe = AgentPipeline::<Transform>::new()
        .chain(PipelineStep::new(
            "uppercase",
            (|v: Vec<String>| v.into_iter().map(|s| s.to_uppercase()).collect()) as Transform,
        ))
        .chain(PipelineStep::new(
            "sort",
            (|mut v: Vec<String>| {
                v.sort();
                v
            }) as Transform,
        ));
    let result = pipe
        .run(vec!["cherry".into(), "apple".into(), "banana".into()])
        .unwrap();
    assert_eq!(result, vec!["APPLE", "BANANA", "CHERRY"]);
}

#[test]
fn test_pipeline_monadic() {
    let pipe = AgentPipeline::new().chain(PipelineStep::new("add_prefix", |v: Vec<String>| {
        v.into_iter().map(|s| format!("item:{}", s)).collect::<Vec<String>>()
    }));
    let result = pipe.run_monadic(vec!["a".into(), "b".into()]).unwrap();
    assert_eq!(result, vec!["item:a", "item:b"]);
}

#[test]
fn identity_test_pipeline_empty() {
    let pipe = AgentPipeline::<Transform>::new();
    let result = pipe.run(vec!["x".into()]).unwrap();
    assert_eq!(result, vec!["x"]);
}

#[test]
fn test_identity_chain_multiple_binds() {
    let result = Identity::pure(1)
        .bind(|x| Identity::pure(x + 1))
        .bind(|x| Identity::pure(x * 3))
        .bind(|x| Identity::pure(x - 2));
    assert_eq!(result.run(), 4);
}

// --- further cases ---

#[test]
fn test_left_identity_law_detects_nondeterminism() {
    let calls = Cell::new(0);
    let f = |x: i32| {
        calls.set(calls.get() + 1);
        Identity::pure(x + calls.get())
    };
    assert!(!left_identity(5, f));
}

#[test]
fn test_noop_step_passes_through() {
    let pipe = AgentPipeline::new().chain(PipelineStep::noop("noop"));
    let input: Vec<String> = vec!["b".into(), "a".into()];
    assert_eq!(pipe.run(input.clone()).unwrap(), input);
    assert_eq!(pipe.run_monadic(input.clone()).unwrap(), input);
    assert_eq!(pipe.steps[0].name, "noop");
}

#[test]
fn test_run_and_run_monadic_agree() {
    let pipe = AgentPipeline::<Transform>::new()
        .chain(PipelineStep::new(
            "dup",
            (|v: Vec<String>| v.iter().chain(v.iter()).cloned().collect()) as Transform,
        ))
        .chain(PipelineStep::new(
            "drop_first",
            (|v: Vec<String>| v.into_iter().skip(1).collect()) as Transform,
        ));
    let input: Vec<String> = vec!["p".into(), "q".into()];
    let a = pipe.run(input.clone()).unwrap();
    let b = pipe.run_monadic(input).unwrap();
    assert_eq!(a, vec!["q", "p", "q"]);
    assert_eq!(a, b);
}

#[test]
fn test_pipeline_composition_is_chaining() {
    let upper = (|v: Vec<String>| v.into_iter().map(|s| s.to_uppercase()).collect()) as Transform;
    let rev = (|mut v: Vec<String>| {
        v.reverse();
        v
    }) as Transform;
    let first = AgentPipeline::<Transform>::new().chain(PipelineStep::new("upper", upper));
    let second = AgentPipeline::<Transform>::new().chain(PipelineStep::new("rev", rev));
    let both = AgentPipeline::<Transform>::new()
        .chain(PipelineStep::new("upper", upper))
        .chain(PipelineStep::new("rev", rev));
    let input: Vec<String> = vec!["a".into(), "b".into()];
    let mid = first.run(input.clone()).unwrap();
    assert_eq!(second.run(mid).unwrap(), both.run(input).unwrap());
}

#[test]
fn test_default_agent_pipeline_is_empty() {
    let pipe: AgentPipeline<Transform> = Default::default();
    assert!(pipe.steps.is_empty());
}

#[test]
fn test_noop_transform_mixes_with_user_steps() {
    let pipe = AgentPipeline::<Transform>::new()
        .chain(PipelineStep::new("noop", noop_transform as Transform))
        .chain(PipelineStep::new(
            "sort",
            (|mut v: Vec<String>| {
                v.sort();
                v
            }) as Transform,
        ));
    assert_eq!(pipe.run(vec!["b".into(), "a".into()]).unwrap(), vec!["a", "b"]);
}
