use monad_composition::composition::{
    run_state_maybe_pipeline, MaybeWriter, MonadType, Pipeline, PipelineStep, StateMaybeStep,
};
use monad_composition::string_map::StringMap;
use monad_composition::AgentResult;

type StateStep = fn(StringMap) -> (AgentResult<String>, StringMap);
type Exec = fn(StringMap, &StringMap, &str) -> (AgentResult<String>, StringMap);

// --- MaybeWriter tests ---

#[test]
fn test_maybe_writer_pure() {
    let mw = MaybeWriter::pure(42);
    let (val, log) = mw.run().unwrap();
    assert_eq!(val, 42);
    assert!(log.is_empty());
}

#[test]
fn test_maybe_writer_with_log() {
    let mw = MaybeWriter::writer(10, "created");
    let (val, log) = mw.run().unwrap();
    assert_eq!(val, 10);
    assert_eq!(log, vec!["created"]);
}

#[test]
fn test_maybe_writer_none() {
    let mw: MaybeWriter<i32> = MaybeWriter::none();
    assert!(mw.run().is_none());
}

#[test]
fn test_maybe_writer_bind_success() {
    let result = MaybeWriter::writer(1, "step1")
        .bind(|x| MaybeWriter::writer(x + 1, "step2"))
        .bind(|x| MaybeWriter::writer(x * 10, "step3"));
    let (val, log) = result.run().unwrap();
    assert_eq!(val, 20);
    assert_eq!(log, vec!["step1", "step2", "step3"]);
}

#[test]
fn test_maybe_writer_bind_short_circuit() {
    let result = MaybeWriter::writer(1, "step1")
        .bind(|_: i32| MaybeWriter::none())
        .bind(|x: i32| MaybeWriter::writer(x, "never"));
    assert!(result.is_none());
}

#[test]
fn test_maybe_writer_is_some_none() {
    assert!(MaybeWriter::pure(1).is_some());
    assert!(MaybeWriter::<i32>::none().is_none());
}

// --- StateMaybe tests ---

#[test]
fn test_state_maybe_pipeline_success() {
    let steps = vec![
        StateMaybeStep::new(
            "set",
            (|mut state: StringMap| {
                state.insert("key".to_string(), "value".to_string());
                (Ok("set".to_string()), state)
            }) as StateStep,
        ),
        StateMaybeStep::new(
            "get",
            (|state: StringMap| {
                let result = state.get("key").cloned().ok_or("not found".to_string());
                (result, state)
            }) as StateStep,
        ),
    ];
    let (outputs, final_state) = run_state_maybe_pipeline(&steps, StringMap::new()).unwrap();
    assert_eq!(outputs, vec!["set", "value"]);
    assert_eq!(final_state.get("key").unwrap(), "value");
}

#[test]
fn test_state_maybe_pipeline_failure() {
    let steps = vec![StateMaybeStep::new("fail", |state: StringMap| {
        (Err("intentional failure".to_string()), state)
    })];
    let result = run_state_maybe_pipeline(&steps, StringMap::new());
    assert!(result.is_err());
}

// --- Pipeline tests ---

#[test]
fn composition_test_pipeline_basic() {
    let pipe = Pipeline::new().add_step(PipelineStep::new(
        "identity_uppercase",
        MonadType::Identity,
        |state: StringMap, _config: &StringMap, input: &str| (Ok(input.to_uppercase()), state),
    ));
    let result = pipe
        .run_pipeline("hello", StringMap::new(), StringMap::new())
        .unwrap();
    assert_eq!(result.final_output, "HELLO");
    assert_eq!(result.all_outputs, vec!["HELLO"]);
}

#[test]
fn test_pipeline_multi_step() {
    let pipe = Pipeline::<Exec>::new()
        .add_step(PipelineStep::new(
            "state_init",
            MonadType::State,
            (|mut state: StringMap, _config: &StringMap, _input: &str| {
                state.insert("count".to_string(), "1".to_string());
                (Ok("initialized".to_string()), state)
            }) as Exec,
        ))
        .add_step(PipelineStep::new(
            "reader_check",
            MonadType::Reader,
            (|state: StringMap, config: &StringMap, _input: &str| {
                let mode = config
                    .get("mode")
                    .cloned()
                    .unwrap_or_else(|| "default".to_string());
                (Ok(format!("mode={}", mode)), state)
            }) as Exec,
        ))
        .add_step(PipelineStep::new(
            "maybe_validate",
            MonadType::Maybe,
            (|state: StringMap, _config: &StringMap, input: &str| {
                if input.contains("mode=") {
                    (Ok(format!("validated:{}", input)), state)
                } else {
                    (Err("validation failed".to_string()), state)
                }
            }) as Exec,
        ));
    let mut config = StringMap::new();
    config.insert("mode".to_string(), "production".to_string());
    let result = pipe.run_pipeline("start", StringMap::new(), config).unwrap();
    assert_eq!(result.final_output, "validated:mode=production");
    assert_eq!(result.all_outputs.len(), 3);
    assert_eq!(result.final_state.get("count").unwrap(), "1");
}

#[test]
fn test_pipeline_failure() {
    let pipe = Pipeline::new().add_step(PipelineStep::new(
        "fail_step",
        MonadType::Maybe,
        |state: StringMap, _config: &StringMap, _input: &str| (Err("boom".to_string()), state),
    ));
    let result = pipe.run_pipeline("x", StringMap::new(), StringMap::new());
    assert!(result.is_err());
    assert!(result.unwrap_err().contains("fail_step"));
}

#[test]
fn composition_test_pipeline_empty() {
    let pipe = Pipeline::<Exec>::new();
    let result = pipe
        .run_pipeline("input", StringMap::new(), StringMap::new())
        .unwrap();
    assert_eq!(result.final_output, "input");
    assert!(result.all_outputs.is_empty());
}

#[test]
fn test_pipeline_result_logs() {
    let pipe = Pipeline::<Exec>::new()
        .add_step(PipelineStep::new(
            "step1",
            MonadType::Identity,
            (|s: StringMap, _c: &StringMap, input: &str| (Ok(format!("{}_1", input)), s)) as Exec,
        ))
        .add_step(PipelineStep::new(
            "step2",
            MonadType::Identity,
            (|s: StringMap, _c: &StringMap, input: &str| (Ok(format!("{}_2", input)), s)) as Exec,
        ));
    let result = pipe
        .run_pipeline("x", StringMap::new(), StringMap::new())
        .unwrap();
    assert_eq!(result.logs.len(), 2);
    assert!(result.logs[0].contains("step1"));
    assert!(result.logs[1].contains("step2"));
}

// --- further cases ---

#[test]
fn test_maybe_writer_laws_examples() {
    let f = |x: i32| MaybeWriter::writer(x + 1, "f");
    let g = |x: i32| if x > 3 { MaybeWriter::none() } else { MaybeWriter::writer(x * 2, "g") };
    assert_eq!(MaybeWriter::pure(2).bind(f), f(2));
    assert_eq!(MaybeWriter::writer(2, "m").bind(MaybeWriter::pure), MaybeWriter::writer(2, "m"));
    for start in [1, 3] {
        let m = MaybeWriter::writer(start, "m");
        assert_eq!(m.clone().bind(f).bind(g), m.bind(|x| f(x).bind(g)));
    }
}

#[test]
fn test_pipeline_log_lines_exact() {
    let pipe = Pipeline::<Exec>::new()
        .add_step(PipelineStep::new(
            "step1",
            MonadType::Writer,
            (|s: StringMap, _c: &StringMap, input: &str| (Ok(format!("{}_1", input)), s)) as Exec,
        ))
        .add_step(PipelineStep::new(
            "step2",
            MonadType::Reader,
            (|s: StringMap, _c: &StringMap, input: &str| (Ok(format!("{}_2", input)), s)) as Exec,
        ));
    let result = pipe.run_pipeline("x", StringMap::new(), StringMap::new()).unwrap();
    assert_eq!(result.logs, vec!["[Writer] step1 -> x_1", "[Reader] step2 -> x_1_2"]);
    assert_eq!(result.final_output, "x_1_2");
    assert_eq!(result.all_outputs, vec!["x_1", "x_1_2"]);
}

#[test]
fn test_pipeline_failure_message_exact() {
    let pipe = Pipeline::new().add_step(PipelineStep::new(
        "fail_step",
        MonadType::Maybe,
        |state: StringMap, _config: &StringMap, _input: &str| (Err("boom".to_string()), state),
    ));
    let err = pipe.run_pipeline("x", StringMap::new(), StringMap::new()).unwrap_err();
    assert_eq!(err, "Pipeline failed at step 'fail_step': boom");
}

#[test]
fn test_state_maybe_failure_message_exact() {
    let steps = vec![StateMaybeStep::new("fail", |state: StringMap| {
        (Err("intentional failure".to_string()), state)
    })];
    let err = run_state_maybe_pipeline(&steps, StringMap::new()).unwrap_err();
    assert_eq!(err, "StateMaybe pipeline failed at 'fail': intentional failure");
}

#[test]
fn test_default_pipeline_is_empty() {
    let pipe: Pipeline<Exec> = Default::default();
    assert!(pipe.steps.is_empty());
}

#[test]
fn test_pipeline_concatenation_runs_in_sequence() {
    let first_step = (|mut s: StringMap, _c: &StringMap, input: &str| {
        s.insert("seen".to_string(), input.to_string());
        (Ok(format!("{}+a", input)), s)
    }) as Exec;
    let second_step = (|s: StringMap, _c: &StringMap, input: &str| {
        let seen = s.get("seen").cloned().unwrap_or_default();
        (Ok(format!("{}|{}", input, seen)), s)
    }) as Exec;
    let first = Pipeline::<Exec>::new().add_step(PipelineStep::new("a", MonadType::State, first_step));
    let second = Pipeline::<Exec>::new().add_step(PipelineStep::new("b", MonadType::Reader, second_step));
    let both = Pipeline::<Exec>::new()
        .add_step(PipelineStep::new("a", MonadType::State, first_step))
        .add_step(PipelineStep::new("b", MonadType::Reader, second_step));
    let r1 = first.run_pipeline("in", StringMap::new(), StringMap::new()).unwrap();
    let r2 = second
        .run_pipeline(&r1.final_output, r1.final_state.clone(), StringMap::new())
        .unwrap();
    let all = both.run_pipeline("in", StringMap::new(), StringMap::new()).unwrap();
    assert_eq!(all.final_output, r2.final_output);
    assert_eq!(all.final_output, "in+a|in");
    let mut outputs = r1.all_outputs.clone();
    outputs.extend(r2.all_outputs.clone());
    assert_eq!(all.all_outputs, outputs);
    let mut logs = r1.logs.clone();
    logs.extend(r2.logs.clone());
    assert_eq!(all.logs, logs);
    assert_eq!(all.final_state.get("seen").unwrap(), "in");
}
