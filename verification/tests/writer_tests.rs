use monad_composition::writer::{
    passthrough_process, run_writer_pipeline, sequence, AgentWriter, Writer,
};

type Step = fn(&str) -> Writer<String>;

#[test]
fn test_pure() {
    let w = Writer::pure(42);
    assert_eq!(w.value, 42);
    assert!(w.log.is_empty());
}

#[test]
fn test_writer_with_log() {
    let w = Writer::with_log(10, "created");
    assert_eq!(w.value, 10);
    assert_eq!(w.log, vec!["created"]);
}

#[test]
fn test_bind_accumulates_logs() {
    let w = Writer::with_log(1, "step1")
        .bind(|x| Writer::with_log(x + 1, "step2"))
        .bind(|x| Writer::with_log(x * 10, "step3"));
    assert_eq!(w.value, 20);
    assert_eq!(w.log, vec!["step1", "step2", "step3"]);
}

#[test]
fn test_map_preserves_log() {
    let w = Writer::with_log(5, "logged");
    let mapped = w.map(|x| x * 2);
    assert_eq!(mapped.value, 10);
    assert_eq!(mapped.log, vec!["logged"]);
}

#[test]
fn test_run_extracts() {
    let w = Writer::with_log("result", "entry");
    let (val, log) = w.run();
    assert_eq!(val, "result");
    assert_eq!(log, vec!["entry"]);
}

#[test]
fn test_sequence() {
    let ws = vec![
        Writer::with_log(1, "a"),
        Writer::with_log(2, "b"),
        Writer::with_log(3, "c"),
    ];
    let combined = sequence(ws);
    assert_eq!(combined.value, vec![1, 2, 3]);
    assert_eq!(combined.log, vec!["a", "b", "c"]);
}

#[test]
fn test_writer_pipeline() {
    let steps = vec![
        AgentWriter::new(
            "uppercase",
            (|s: &str| Writer::with_log(s.to_uppercase(), "converted to uppercase")) as Step,
        ),
        AgentWriter::new(
            "reverse",
            (|s: &str| {
                let reversed: String = s.chars().rev().collect();
                Writer::with_log(reversed, "reversed the string")
            }) as Step,
        ),
    ];
    let result = run_writer_pipeline(&steps, "hello").unwrap();
    assert_eq!(result.value, "OLLEH");
    assert_eq!(
        result.log,
        vec!["converted to uppercase", "reversed the string"]
    );
}

#[test]
fn test_writer_pipeline_empty() {
    let result = run_writer_pipeline::<Step>(&[], "data").unwrap();
    assert_eq!(result.value, "data");
    assert!(result.log.is_empty());
}

#[test]
fn test_writer_chain_order() {
    let w = Writer::pure(0)
        .bind(|_| Writer::with_log(1, "first"))
        .bind(|_| Writer::with_log(2, "second"))
        .bind(|_| Writer::with_log(3, "third"));
    assert_eq!(w.log, vec!["first", "second", "third"]);
}

#[test]
fn test_read_log() {
    let w = Writer::with_log(42, "logged");
    assert_eq!(w.read_log(), &["logged".to_string()]);
}

// --- further cases ---

#[test]
fn test_writer_left_identity_example() {
    let f = |x: i32| Writer::with_log(x + 1, "inc");
    assert_eq!(Writer::pure(4).bind(f), f(4));
}

#[test]
fn test_writer_right_identity_example() {
    let m = Writer::with_log(9, "nine");
    assert_eq!(m.clone().bind(Writer::pure), m);
}

#[test]
fn test_writer_associativity_example() {
    let f = |x: i32| Writer::with_log(x + 1, "f");
    let g = |x: i32| Writer::with_log(x * 2, "g");
    let m = Writer::with_log(1, "m");
    assert_eq!(m.clone().bind(f).bind(g), m.bind(|x| f(x).bind(g)));
}

#[test]
fn test_sequence_empty() {
    let combined = sequence::<i32>(vec![]);
    assert!(combined.value.is_empty());
    assert!(combined.log.is_empty());
}

#[test]
fn test_sequence_keeps_multi_entry_logs_in_order() {
    let two = Writer::with_log(1, "x").bind(|v| Writer::with_log(v, "y"));
    let combined = sequence(vec![two, Writer::pure(2), Writer::with_log(3, "z")]);
    assert_eq!(combined.value, vec![1, 2, 3]);
    assert_eq!(combined.log, vec!["x", "y", "z"]);
}

#[test]
fn test_passthrough_step_logs() {
    let steps = vec![AgentWriter::passthrough("pass")];
    let result = run_writer_pipeline(&steps, "keep").unwrap();
    assert_eq!(result.value, "keep");
    assert_eq!(result.log, vec!["passed through"]);
}

#[test]
fn test_passthrough_process_mixes_with_user_steps() {
    let steps = vec![
        AgentWriter::new("pass", passthrough_process as Step),
        AgentWriter::new("upper", (|s: &str| Writer::with_log(s.to_uppercase(), "upper")) as Step),
    ];
    let result = run_writer_pipeline(&steps, "ok").unwrap();
    assert_eq!(result.value, "OK");
    assert_eq!(result.log, vec!["passed through", "upper"]);
}
