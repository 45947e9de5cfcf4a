use llama_harness::error::{DisplayErr, HarnessError};

#[test]
fn from_ffi_decodes_each_kind() {
    assert_eq!(HarnessError::from_ffi("1:bad"), HarnessError::InvalidArg("bad".to_string()));
    assert_eq!(HarnessError::from_ffi("2:bad"), HarnessError::InvalidArg("bad".to_string()));
    assert_eq!(HarnessError::from_ffi("3:boom"), HarnessError::Backend("boom".to_string()));
    assert_eq!(HarnessError::from_ffi("4:x"), HarnessError::Cancelled);
    assert_eq!(
        HarnessError::from_ffi("5:m"),
        HarnessError::Backend("model busy: m".to_string())
    );
    assert_eq!(HarnessError::from_ffi("6:m"), HarnessError::NoSuchModel("m".to_string()));
    assert_eq!(
        HarnessError::from_ffi("7:t"),
        HarnessError::Backend("tokenization: t".to_string())
    );
    assert_eq!(
        HarnessError::from_ffi("8:s"),
        HarnessError::InvalidSchema { name: "<unknown>".to_string(), message: "s".to_string() }
    );
    assert_eq!(HarnessError::from_ffi("9:io"), HarnessError::Io("io".to_string()));
    assert_eq!(HarnessError::from_ffi("42:x"), HarnessError::Other("x".to_string()));
}

#[test]
fn from_ffi_splits_at_first_colon_only() {
    assert_eq!(
        HarnessError::from_ffi("3:a:b:c"),
        HarnessError::Backend("a:b:c".to_string())
    );
    assert_eq!(HarnessError::from_ffi("1:"), HarnessError::InvalidArg(String::new()));
}

#[test]
fn from_ffi_without_kind_is_other() {
    assert_eq!(
        HarnessError::from_ffi("plain failure"),
        HarnessError::Other("plain failure".to_string())
    );
    assert_eq!(HarnessError::from_ffi(""), HarnessError::Other(String::new()));
}

#[test]
fn messages_match_display() {
    assert_eq!(HarnessError::Io("gone".into()).to_string(), "io: gone");
    assert_eq!(HarnessError::Backend("b".into()).to_string(), "backend: b");
    assert_eq!(HarnessError::Cancelled.to_string(), "cancelled");
    assert_eq!(HarnessError::NoSuchModel("m".into()).to_string(), "no such model: m");
    assert_eq!(HarnessError::AlreadyLoaded("m".into()).to_string(), "model already loaded: m");
    assert_eq!(HarnessError::InvalidArg("x".into()).to_string(), "invalid argument: x");
    assert_eq!(HarnessError::ModelNotLoaded("m".into()).to_string(), "model not loaded: m");
    assert_eq!(HarnessError::NoActiveModel.to_string(), "no active model");
    assert_eq!(HarnessError::Engine("e".into()).to_string(), "engine: e");
    assert_eq!(
        HarnessError::ToolExecution { name: "t".into(), message: "m".into() }.to_string(),
        "tool 't' failed: m"
    );
    assert_eq!(
        HarnessError::InvalidSchema { name: "t".into(), message: "m".into() }.to_string(),
        "invalid tool schema for 't': m"
    );
    assert_eq!(HarnessError::UnknownTool("t".into()).to_string(), "unknown tool: t");
    assert_eq!(HarnessError::MalformedToolCall("x".into()).to_string(), "malformed tool call: x");
    assert_eq!(HarnessError::Other("o".into()).to_string(), "other: o");
}

#[test]
fn numbers_print_in_decimal() {
    assert_eq!(
        HarnessError::CapacityExceeded { max: 0 }.to_string(),
        "model capacity exceeded (max 0)"
    );
    assert_eq!(
        HarnessError::CapacityExceeded { max: 2 }.to_string(),
        "model capacity exceeded (max 2)"
    );
    assert_eq!(
        HarnessError::IterationLimit { limit: 1090 }.to_string(),
        "tool iteration limit reached (1090) without final answer"
    );
    assert_eq!(
        HarnessError::IterationLimit { limit: usize::MAX }.to_string(),
        format!("tool iteration limit reached ({}) without final answer", usize::MAX)
    );
}

#[test]
fn display_adapter_prints_message() {
    let e = HarnessError::NoActiveModel;
    assert_eq!(DisplayErr(&e).to_string(), "no active model");
}

#[test]
fn conversions_from_outside_errors() {
    let io = std::io::Error::new(std::io::ErrorKind::Other, "disk");
    assert_eq!(HarnessError::from(io), HarnessError::Io("disk".to_string()));
    let json = serde_json::from_str::<serde_json::Value>("{").unwrap_err();
    let json_text = json.to_string();
    assert_eq!(
        HarnessError::from(json),
        HarnessError::InvalidArg(format!("json: {}", json_text))
    );
    let toml_err = toml::from_str::<toml::Table>("= 1").unwrap_err();
    let text = toml_err.to_string();
    assert!(!text.is_empty());
    assert_eq!(
        HarnessError::from(toml_err),
        HarnessError::InvalidArg(format!("toml: {}", text))
    );
    let any = anyhow::Error::msg("odd");
    assert_eq!(HarnessError::from(any), HarnessError::Other("odd".to_string()));
}

#[test]
fn errors_clone_equal() {
    let e = HarnessError::ToolExecution { name: "a".into(), message: "b".into() };
    assert_eq!(e.clone(), e);
}
