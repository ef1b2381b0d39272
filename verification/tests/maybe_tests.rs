use monad_composition::maybe::{
    blocker_process, passthrough_process, run_maybe_pipeline, run_maybe_to_result, AgentMaybe,
    Maybe,
};

type Step = fn(&str) -> Maybe<String>;

#[test]
fn test_pure_and_unwrap() {
    let m = Maybe::pure(42);
    assert_eq!(m.unwrap_or(0), 42);
}

#[test]
fn test_none_unwrap() {
    let m: Maybe<i32> = Maybe::none();
    assert_eq!(m.unwrap_or(99), 99);
}

#[test]
fn test_bind_some() {
    let m = Maybe::pure(10);
    let result = m.bind(|x| Maybe::pure(x + 5));
    assert_eq!(result, Maybe::Just(15));
}

#[test]
fn test_bind_none() {
    let m: Maybe<i32> = Maybe::Nothing;
    let result = m.bind(|x| Maybe::pure(x + 5));
    assert!(result.is_none());
}

#[test]
fn test_bind_short_circuit() {
    let result = Maybe::pure(1)
        .bind(|x| if x > 0 { Maybe::pure(x) } else { Maybe::Nothing })
        .bind(|x| Maybe::pure(x * 100))
        .bind(|_| Maybe::<i32>::Nothing);
    assert!(result.is_none());
}

#[test]
fn test_map_some() {
    let result = Maybe::pure("hello").map(|s| s.len());
    assert_eq!(result, Maybe::Just(5));
}

#[test]
fn test_map_none() {
    let result: Maybe<usize> = Maybe::Nothing.map(|s: &str| s.len());
    assert!(result.is_none());
}

#[test]
fn test_maybe_pipeline_all_some() {
    let steps = vec![
        AgentMaybe::new("uppercase", (|s: &str| Maybe::Just(s.to_uppercase())) as Step),
        AgentMaybe::new(
            "add_suffix",
            (|s: &str| Maybe::Just(format!("{}_processed", s))) as Step,
        ),
    ];
    let result = run_maybe_pipeline(&steps, "data");
    assert_eq!(result, Maybe::Just("DATA_processed".to_string()));
}

#[test]
fn test_maybe_pipeline_short_circuits() {
    let steps = vec![
        AgentMaybe::new("ok_step", (|s: &str| Maybe::Just(s.to_uppercase())) as Step),
        AgentMaybe::new("blocker", (|_s: &str| Maybe::Nothing) as Step),
        AgentMaybe::new("never_reached", (|s: &str| Maybe::Just(s.to_string())) as Step),
    ];
    let result = run_maybe_pipeline(&steps, "data");
    assert!(result.is_none());
}

#[test]
fn test_maybe_to_result_ok() {
    let steps = vec![AgentMaybe::new("double", |s: &str| {
        Maybe::Just(format!("{}{}", s, s))
    })];
    let result = run_maybe_to_result(&steps, "ha");
    assert_eq!(result.unwrap(), "haha");
}

#[test]
fn test_maybe_to_result_err() {
    let steps = vec![AgentMaybe::blocker("gate")];
    let result = run_maybe_to_result(&steps, "input");
    assert!(result.is_err());
}

// --- further cases ---

#[test]
fn test_maybe_left_identity_example() {
    let f = |x: i32| if x > 2 { Maybe::Just(x * 3) } else { Maybe::Nothing };
    assert_eq!(Maybe::pure(4).bind(f), f(4));
    assert_eq!(Maybe::pure(1).bind(f), f(1));
}

#[test]
fn test_maybe_right_identity_example() {
    assert_eq!(Maybe::Just(7).bind(Maybe::pure), Maybe::Just(7));
    assert_eq!(Maybe::<i32>::Nothing.bind(Maybe::pure), Maybe::Nothing);
}

#[test]
fn test_maybe_associativity_example() {
    let f = |x: i32| if x > 0 { Maybe::Just(x - 1) } else { Maybe::Nothing };
    let g = |x: i32| Maybe::Just(x * 2);
    for start in [0, 1, 5] {
        assert_eq!(Maybe::pure(start).bind(f).bind(g), Maybe::pure(start).bind(|x| f(x).bind(g)));
    }
}

#[test]
fn test_is_some_and_unwrap_or() {
    assert!(Maybe::pure(3).is_some());
    assert!(!Maybe::<i32>::Nothing.is_some());
    assert!(!Maybe::pure(3).is_none());
    assert_eq!(Maybe::Just(3).unwrap_or(8), 3);
}

#[test]
fn test_passthrough_step() {
    let steps = vec![AgentMaybe::passthrough("pass")];
    assert_eq!(run_maybe_pipeline(&steps, "same"), Maybe::Just("same".to_string()));
    assert_eq!(steps[0].name, "pass");
}

#[test]
fn test_blocker_short_circuits_pipeline() {
    let steps = vec![AgentMaybe::blocker("gate")];
    assert_eq!(run_maybe_pipeline(&steps, "anything"), Maybe::Nothing);
}

#[test]
fn test_maybe_to_result_error_message() {
    let steps = vec![
        AgentMaybe::new("first", (|s: &str| Maybe::Just(s.to_string())) as Step),
        AgentMaybe::new("second", (|_s: &str| Maybe::Nothing) as Step),
    ];
    let err = run_maybe_to_result(&steps, "x").unwrap_err();
    assert_eq!(err, "Maybe pipeline short-circuited at step 'first -> second'");
}

#[test]
fn test_empty_maybe_pipeline_returns_input() {
    let steps: Vec<AgentMaybe<Step>> = vec![];
    assert_eq!(run_maybe_pipeline(&steps, "in"), Maybe::Just("in".to_string()));
    assert_eq!(run_maybe_to_result(&steps, "in").unwrap(), "in");
}

#[test]
fn test_maybe_to_result_agrees_with_pipeline() {
    let steps = vec![
        AgentMaybe::new("upper", (|s: &str| Maybe::Just(s.to_uppercase())) as Step),
        AgentMaybe::new(
            "gate",
            (|s: &str| if s.len() > 3 { Maybe::Nothing } else { Maybe::Just(s.to_string()) }) as Step,
        ),
    ];
    assert_eq!(run_maybe_pipeline(&steps, "abc"), Maybe::Just("ABC".to_string()));
    assert_eq!(run_maybe_to_result(&steps, "abc").unwrap(), "ABC");
    assert_eq!(run_maybe_pipeline(&steps, "abcd"), Maybe::Nothing);
    let err = run_maybe_to_result(&steps, "abcd").unwrap_err();
    assert!(err.contains("gate"));
}

#[test]
fn test_builtin_processes_mix_with_user_steps() {
    let steps = vec![
        AgentMaybe::new("pass", passthrough_process as Step),
        AgentMaybe::new("upper", (|s: &str| Maybe::Just(s.to_uppercase())) as Step),
    ];
    assert_eq!(run_maybe_pipeline(&steps, "ab"), Maybe::Just("AB".to_string()));
    let blocked = vec![
        AgentMaybe::new("upper", (|s: &str| Maybe::Just(s.to_uppercase())) as Step),
        AgentMaybe::new("gate", blocker_process as Step),
    ];
    assert_eq!(run_maybe_pipeline(&blocked, "ab"), Maybe::Nothing);
}

#[test]
fn test_map_is_bind_then_pure() {
    let f = |s: &str| s.len();
    assert_eq!(Maybe::pure("hello").map(f), Maybe::pure("hello").bind(|x| Maybe::pure(f(x))));
    assert_eq!(Maybe::<&str>::Nothing.map(f), Maybe::<&str>::Nothing.bind(|x| Maybe::pure(f(x))));
}
