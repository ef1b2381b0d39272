use monad_composition::state::{
    run_state_pipeline, state_get, state_modify, state_put, AgentState, State,
};
use monad_composition::string_map::StringMap;
use monad_composition::AgentResult;

type StateStep = fn(StringMap) -> (AgentResult<String>, StringMap);

fn make_state() -> StringMap {
    let mut h = StringMap::new();
    h.insert("count".to_string(), "0".to_string());
    h.insert("name".to_string(), "agent".to_string());
    h
}

#[test]
fn test_state_new_and_run() {
    let s = State::new("increment", |mut s: StringMap| {
        let count: i32 = s.get("count").unwrap().parse().unwrap();
        s.insert("count".to_string(), (count + 1).to_string());
        (format!("count={}", count + 1), s)
    });
    let (val, state) = s.run(make_state());
    assert_eq!(val, "count=1");
    assert_eq!(state.get("count").unwrap(), "1");
}

#[test]
fn test_state_pipeline() {
    let steps = vec![
        AgentState::new(
            "increment",
            (|mut state: StringMap| {
                if let Err(e) = state_modify(&mut state, "count", |v: &str| {
                    (v.parse::<i32>().unwrap() + 1).to_string()
                }) {
                    return (Err(e), state);
                }
                let result = state_get(&state, "count");
                (result, state)
            }) as StateStep,
        ),
        AgentState::new(
            "rename",
            (|mut state: StringMap| {
                state_put(&mut state, "name", "super_agent");
                (Ok("renamed".to_string()), state)
            }) as StateStep,
        ),
    ];
    let (outputs, final_state) = run_state_pipeline(&steps, make_state()).unwrap();
    assert_eq!(outputs, vec!["1", "renamed"]);
    assert_eq!(final_state.get("name").unwrap(), "super_agent");
    assert_eq!(final_state.get("count").unwrap(), "1");
}

#[test]
fn test_state_pipeline_error() {
    let steps = vec![AgentState::new("fail", |state: StringMap| {
        (Err("something went wrong".to_string()), state)
    })];
    let result = run_state_pipeline(&steps, make_state());
    assert!(result.is_err());
    assert!(result.unwrap_err().contains("fail"));
}

#[test]
fn test_state_get_ok() {
    let state = make_state();
    assert_eq!(state_get(&state, "count").unwrap(), "0");
}

#[test]
fn test_state_get_missing() {
    let state = make_state();
    assert!(state_get(&state, "missing").is_err());
}

#[test]
fn test_state_put() {
    let mut state = make_state();
    state_put(&mut state, "new_key", "new_value");
    assert_eq!(state.get("new_key").unwrap(), "new_value");
}

#[test]
fn test_state_modify_ok() {
    let mut state = make_state();
    state_modify(&mut state, "count", |v: &str| {
        (v.parse::<i32>().unwrap() + 10).to_string()
    })
    .unwrap();
    assert_eq!(state.get("count").unwrap(), "10");
}

#[test]
fn test_state_modify_missing() {
    let mut state = make_state();
    let result = state_modify(&mut state, "absent", |_: &str| "x".to_string());
    assert!(result.is_err());
}

#[test]
fn test_state_empty_pipeline() {
    let (outputs, final_state) = run_state_pipeline::<StateStep>(&[], make_state()).unwrap();
    assert!(outputs.is_empty());
    assert_eq!(final_state.get("count").unwrap(), "0");
}

// --- further cases ---

#[test]
fn test_state_get_after_put() {
    let mut state = make_state();
    state_put(&mut state, "count", "7");
    assert_eq!(state_get(&state, "count").unwrap(), "7");
    assert_eq!(state_get(&state, "name").unwrap(), "agent");
}

#[test]
fn test_state_error_messages() {
    let mut state = make_state();
    assert_eq!(state_get(&state, "gone").unwrap_err(), "key 'gone' not found in state");
    assert_eq!(
        state_modify(&mut state, "gone", |_: &str| "x".to_string()).unwrap_err(),
        "key 'gone' not found in state"
    );
    assert!(state.get("gone").is_none());
}

#[test]
fn test_state_pipeline_error_message_and_stop() {
    let steps = vec![
        AgentState::new("ok", (|s: StringMap| (Ok("first".to_string()), s)) as StateStep),
        AgentState::new("boom", (|s: StringMap| (Err("bad".to_string()), s)) as StateStep),
        AgentState::new(
            "after",
            (|mut s: StringMap| {
                s.insert("after".to_string(), "ran".to_string());
                (Ok("after".to_string()), s)
            }) as StateStep,
        ),
    ];
    let err = run_state_pipeline(&steps, make_state()).unwrap_err();
    assert_eq!(err, "State pipeline failed at step 'boom': bad");
}

#[test]
fn test_state_pure_runs_to_value_and_same_state() {
    let s = State::pure("p", 7);
    assert_eq!(s.label, "p");
    assert_eq!(s.run(3), (7, 3));
}

#[test]
fn test_state_bind_threads_state() {
    let counter = State::new("tick", |n: i32| (n * 10, n + 1));
    let chained = counter.bind(|a: i32| State::new("add", move |n: i32| (a + n, n * 2)));
    assert_eq!(chained.label, "tick >> bind");
    // tick from 4 gives (40, 5); add then gives (40 + 5, 10)
    assert_eq!(chained.run(4), (45, 10));
}

#[test]
fn test_state_left_identity_example() {
    let f = |a: i32| State::new("f", move |s: i32| (a + s, s + 1));
    let lhs = State::pure("p", 2).bind(f).run(10);
    let rhs = f(2).run(10);
    assert_eq!(lhs, rhs);
}

#[test]
fn test_state_right_identity_example() {
    let m = State::new("m", |s: i32| (s * 3, s - 1));
    let lhs = State::new("m", |s: i32| (s * 3, s - 1))
        .bind(|a: i32| State::pure("p", a))
        .run(5);
    assert_eq!(lhs, m.run(5));
}

#[test]
fn test_state_pure_and_bind_on_string_map() {
    let b = State::pure("start", 5).bind(|a: i32| {
        State::new("next", move |mut st: StringMap| {
            st.insert("seen".to_string(), a.to_string());
            (a + 1, st)
        })
    });
    assert_eq!(b.label, "start >> bind");
    let (v, st) = b.run(make_state());
    assert_eq!(v, 6);
    assert_eq!(st.get("seen").unwrap(), "5");
    assert_eq!(st.get("count").unwrap(), "0");
}

#[test]
fn test_string_map_insert_replaces() {
    let mut m = StringMap::new();
    assert_eq!(m.insert("k".to_string(), "1".to_string()), None);
    assert_eq!(m.insert("k".to_string(), "2".to_string()), Some("1".to_string()));
    assert_eq!(m.get("k").unwrap(), "2");
    assert!(m.contains_key("k"));
    assert!(!m.contains_key("other"));
    let copy = m.clone();
    assert_eq!(copy.get("k").unwrap(), "2");
}

#[test]
fn test_state_bind_without_function_keeps_label_only() {
    type Run = fn(i32) -> (i32, i32);
    let bare: State<i32, i32, Run> = State { run_state: None, label: "bare".to_string(), marker: std::marker::PhantomData };
    let bound = bare.bind(|a: i32| State::pure("p", a));
    assert_eq!(bound.label, "bare >> bind");
    assert!(bound.run_state.is_none());
}
