use monad_composition::reader::{
    config_get, config_get_or, config_has, run_reader_pipeline, AgentReader, Reader,
};
use monad_composition::string_map::StringMap;
use monad_composition::AgentResult;

type ReaderStep = fn(&StringMap) -> AgentResult<String>;

fn make_config() -> StringMap {
    let mut h = StringMap::new();
    h.insert("model".to_string(), "gpt-4".to_string());
    h.insert("temperature".to_string(), "0.7".to_string());
    h.insert("max_tokens".to_string(), "4096".to_string());
    h
}

#[test]
fn test_reader_new_and_run() {
    let r = Reader::new("get_model", |config: &StringMap| {
        config.get("model").unwrap().clone()
    });
    let val = r.run(&make_config());
    assert_eq!(val, "gpt-4");
}

#[test]
fn test_reader_pipeline() {
    let steps = vec![
        AgentReader::new("read_model", (|config: &StringMap| config_get(config, "model")) as ReaderStep),
        AgentReader::new(
            "read_temp",
            (|config: &StringMap| config_get(config, "temperature")) as ReaderStep,
        ),
        AgentReader::new(
            "combined",
            (|config: &StringMap| {
                let model = config_get(config, "model")?;
                let temp = config_get(config, "temperature")?;
                Ok(format!("{}@{}", model, temp))
            }) as ReaderStep,
        ),
    ];
    let outputs = run_reader_pipeline(&steps, &make_config()).unwrap();
    assert_eq!(outputs[0], "gpt-4");
    assert_eq!(outputs[1], "0.7");
    assert_eq!(outputs[2], "gpt-4@0.7");
}

#[test]
fn test_reader_pipeline_error() {
    let steps = vec![AgentReader::new("missing_key", |config: &StringMap| {
        config_get(config, "nonexistent")
    })];
    let result = run_reader_pipeline(&steps, &make_config());
    assert!(result.is_err());
}

#[test]
fn test_config_get_ok() {
    assert_eq!(config_get(&make_config(), "model").unwrap(), "gpt-4");
}

#[test]
fn test_config_get_missing() {
    assert!(config_get(&make_config(), "absent").is_err());
}

#[test]
fn test_config_get_or_present() {
    assert_eq!(config_get_or(&make_config(), "model", "default"), "gpt-4");
}

#[test]
fn test_config_get_or_missing() {
    assert_eq!(
        config_get_or(&make_config(), "absent", "fallback"),
        "fallback"
    );
}

#[test]
fn test_config_has() {
    assert!(config_has(&make_config(), "model"));
    assert!(!config_has(&make_config(), "nope"));
}

#[test]
fn test_reader_pipeline_empty() {
    let outputs = run_reader_pipeline::<ReaderStep>(&[], &make_config()).unwrap();
    assert!(outputs.is_empty());
}

// --- further cases ---

#[test]
fn test_reader_error_messages() {
    assert_eq!(config_get(&make_config(), "absent").unwrap_err(), "config key 'absent' not found");
    let steps = vec![AgentReader::new("missing_key", |config: &StringMap| {
        config_get(config, "nonexistent")
    })];
    assert_eq!(
        run_reader_pipeline(&steps, &make_config()).unwrap_err(),
        "Reader pipeline failed at step 'missing_key': config key 'nonexistent' not found"
    );
}

#[test]
fn test_reader_pure_ignores_environment() {
    let r = Reader::pure("model", "x".to_string());
    assert_eq!(r.label, "model");
    assert_eq!(r.run(&make_config()), "x");
    let empty = Reader::pure("model", "x".to_string());
    assert_eq!(empty.run(&StringMap::new()), "x");
}

#[test]
fn test_reader_map_applies_function() {
    let r = Reader::new("model", |c: &StringMap| c.get("model").unwrap().clone());
    let m = r.map(|s: String| s.len());
    assert_eq!(m.label, "model >> map");
    assert_eq!(m.run(&make_config()), 5);
}

#[test]
fn test_reader_map_of_pure() {
    let m = Reader::pure("v", 20).map(|x: i32| x + 1);
    assert_eq!(m.run(&make_config()), 21);
}

#[test]
fn test_reader_pipeline_leaves_config_alone() {
    let config = make_config();
    let steps = vec![AgentReader::new("model", |c: &StringMap| config_get(c, "model"))];
    let first = run_reader_pipeline(&steps, &config).unwrap();
    let second = run_reader_pipeline(&steps, &config).unwrap();
    assert_eq!(first, second);
    assert_eq!(config.get("model").unwrap(), "gpt-4");
}

#[test]
fn test_reader_map_without_function_keeps_label_only() {
    let bare: Reader<StringMap, String, ReaderStep2> =
        Reader { run_reader: None, label: "bare".to_string(), marker: std::marker::PhantomData };
    let mapped = bare.map(|s: String| s.len());
    assert_eq!(mapped.label, "bare >> map");
    assert!(mapped.run_reader.is_none());
}

type ReaderStep2 = fn(&StringMap) -> String;
