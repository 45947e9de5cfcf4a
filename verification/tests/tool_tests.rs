use llama_harness::error::HarnessError;
use llama_harness::tool::{
    extract_json_object_with_name, parse_tool_calls, ToolDescriptor, ToolFilter, ToolOutput,
    ToolRegistry,
};
use serde_json::Value;

#[test]
fn parse_llama3_format() {
    let raw = r#"Hello, calling the weather tool now.
{"name": "get_weather", "arguments": {"city": "Boston"}}
Done."#;
    let calls = parse_tool_calls(raw);
    assert_eq!(calls.len(), 1);
    assert_eq!(calls[0].0, "get_weather");
    assert_eq!(calls[0].1["city"], "Boston");
}

#[test]
fn parse_hermes_format() {
    let raw = r#"<tool_call>
{"name": "lookup", "arguments": {"q": "rust async"}}
</tool_call>"#;
    let calls = parse_tool_calls(raw);
    assert_eq!(calls.len(), 1);
    assert_eq!(calls[0].0, "lookup");
    assert_eq!(calls[0].1["q"], "rust async");
}

#[test]
fn parse_plain_text() {
    let raw = "No tools here, just a regular answer.";
    assert!(parse_tool_calls(raw).is_empty());
}

#[test]
fn parse_several_llama_calls_in_order() {
    let raw = r#"{"name": "a", "arguments": {"x": 1}} and {"name": "b", "arguments": {"s": "}{"}}"#;
    let calls = parse_tool_calls(raw);
    assert_eq!(calls.len(), 2);
    assert_eq!(calls[0].0, "a");
    assert_eq!(calls[0].1["x"], 1);
    assert_eq!(calls[1].0, "b");
    assert_eq!(calls[1].1["s"], "}{");
}

#[test]
fn parse_hermes_with_spaced_object() {
    // `{ "name"` does not match the Llama marker, so the tag form applies.
    let raw = "<tool_call> { \"name\": \"t\", \"arguments\": {} } </tool_call>";
    let calls = parse_tool_calls(raw);
    assert_eq!(calls.len(), 1);
    assert_eq!(calls[0].0, "t");
    assert_eq!(calls[0].1, serde_json::from_str::<Value>("{}").unwrap());
}

#[test]
fn parse_plain_json_object() {
    let raw = "  \n{ \"arguments\": [1, 2], \"name\": \"sum\" }\t ";
    let calls = parse_tool_calls(raw);
    assert_eq!(calls.len(), 1);
    assert_eq!(calls[0].0, "sum");
    assert_eq!(calls[0].1[1], 2);
}

#[test]
fn parse_rejects_calls_without_arguments_or_string_name() {
    assert!(parse_tool_calls(r#"{"name": "a"}"#).is_empty());
    assert!(parse_tool_calls(r#"{"name": 3, "arguments": {}}"#).is_empty());
    assert!(parse_tool_calls(r#"{"name": "a", "arguments": {"#).is_empty());
}

#[test]
fn extract_counts_consumed_bytes() {
    let text = "  {\"name\": \"é\", \"arguments\": {\"q\": \"\\\"}\"}} rest";
    let (name, args, used) = extract_json_object_with_name(text).unwrap();
    assert_eq!(name, "é");
    assert_eq!(args["q"], "\"}");
    assert_eq!(used, 43);
    assert_eq!(&text[used..], " rest");
    assert!(extract_json_object_with_name("x {\"name\": \"a\", \"arguments\": 1}").is_none());
    assert!(extract_json_object_with_name("{\"name\": \"a\", \"arguments\": 1").is_none());
}

#[test]
fn extract_counts_multibyte_names_in_bytes() {
    let text = r#"{"name": "é", "arguments": 1}"#;
    let (name, args, used) = extract_json_object_with_name(text).unwrap();
    assert_eq!(name, "é");
    assert_eq!(args, serde_json::from_str::<Value>("1").unwrap());
    assert_eq!(used, 30);
    assert_eq!(used, text.len());
}

#[test]
fn extract_stops_after_the_object() {
    let text = r#"  {"name": "f", "arguments": 1} tail"#;
    let (name, args, used) = extract_json_object_with_name(text).unwrap();
    assert_eq!(name, "f");
    assert_eq!(args, serde_json::from_str::<Value>("1").unwrap());
    assert_eq!(used, 31);
}

#[test]
fn parse_carries_each_calls_arguments() {
    let v = |s: &str| serde_json::from_str::<Value>(s).unwrap();
    let calls = parse_tool_calls(r#"Calling: {"name": "echo", "arguments": {"text": "a}b"}}"#);
    assert_eq!(calls, vec![("echo".to_string(), v(r#"{"text": "a}b"}"#))]);
    let calls = parse_tool_calls(r#"{"name": "a", "arguments": {}} then {"name": "b", "arguments": {"x": 1}}"#);
    assert_eq!(calls, vec![("a".to_string(), v("{}")), ("b".to_string(), v(r#"{"x": 1}"#))]);
    let calls = parse_tool_calls(r#"<tool_call>{"arguments": {"q": 1}, "name": "lookup"}</tool_call>"#);
    assert_eq!(calls, vec![("lookup".to_string(), v(r#"{"q": 1}"#))]);
    let calls = parse_tool_calls(r#"  {"arguments": [1, 2], "name": "sum"}  "#);
    assert_eq!(calls, vec![("sum".to_string(), v("[1, 2]"))]);
}

fn desc(name: &str, description: &str) -> ToolDescriptor {
    ToolDescriptor {
        name: name.to_string(),
        description: description.to_string(),
        parameters: serde_json::from_str("{\"type\": \"object\"}").unwrap(),
    }
}

#[test]
fn register_get_and_replace() {
    let mut r = ToolRegistry::new();
    assert!(r.is_empty());
    r.register(desc("time", "what time"));
    r.register(desc("calc", "math"));
    assert_eq!(r.len(), 2);
    assert_eq!(r.get("time").unwrap().description, "what time");
    r.register(desc("time", "clock"));
    assert_eq!(r.len(), 2);
    assert_eq!(r.get("time").unwrap().description, "clock");
    assert!(r.get("nope").is_none());
    assert_eq!(r.names(), vec!["calc".to_string(), "time".to_string()]);
    let copy = r.clone();
    assert_eq!(copy.names(), r.names());
}

#[test]
fn descriptors_follow_the_filter() {
    let mut r = ToolRegistry::new();
    for n in ["read_file", "calculator", "time"] {
        r.register(desc(n, n));
    }
    let all: Vec<String> = r.descriptors(&ToolFilter::All).into_iter().map(|d| d.name).collect();
    assert_eq!(all, vec!["calculator", "read_file", "time"]);
    assert!(r.descriptors(&ToolFilter::NoTools).is_empty());
    let named: Vec<String> = r
        .descriptors(&ToolFilter::Named(vec!["time".into(), "unknown".into(), "calculator".into()]))
        .into_iter()
        .map(|d| d.name)
        .collect();
    assert_eq!(named, vec!["calculator", "time"]);
    assert!(matches!(ToolFilter::default(), ToolFilter::All));
}

#[test]
fn validate_call_checks_tool_and_arguments() {
    let mut r = ToolRegistry::new();
    r.register(desc("calc", "math"));
    let obj: Value = serde_json::from_str("{\"a\": 1}").unwrap();
    let arr: Value = serde_json::from_str("[1,2]").unwrap();
    assert_eq!(r.validate_call("calc", &obj), Ok(obj.clone()));
    assert_eq!(
        r.validate_call("nope", &obj),
        Err(HarnessError::UnknownTool("nope".to_string()))
    );
    assert_eq!(
        r.validate_call("calc", &arr),
        Err(HarnessError::MalformedToolCall(
            "tool 'calc' arguments must be a JSON object, got [1,2]".to_string()
        ))
    );
}

#[test]
fn tool_outputs() {
    let t = ToolOutput::text("done");
    assert_eq!(t.text, "done");
    assert!(t.data.is_none());
    assert!(!t.is_terminal);
    let v: Value = serde_json::from_str("{\"k\": [1]}").unwrap();
    let d = ToolOutput::data(v.clone());
    assert_eq!(d.data, Some(v.clone()));
    assert_eq!(d.text, serde_json::to_string_pretty(&v).unwrap());
    assert!(d.terminal().is_terminal);
}

#[test]
fn each_call_is_a_whole_object_of_the_text() {
    let raw = r#"x <tool_call> {"name": "t", "arguments": {"k": "}"}} </tool_call> y"#;
    let calls = parse_tool_calls(raw);
    assert_eq!(calls.len(), 1);
    let start = raw.find('{').unwrap();
    let end = raw.rfind('}').unwrap() + 1;
    let obj: Value = serde_json::from_str(&raw[start..end]).unwrap();
    assert_eq!(obj["name"], Value::String(calls[0].0.clone()));
    assert_eq!(obj["arguments"], calls[0].1);
}

#[test]
fn extracted_span_is_one_leading_object() {
    let s = " \t{\"name\": \"ü\", \"arguments\": [1]}{\"more\": 1}";
    let (name, args, k) = extract_json_object_with_name(s).unwrap();
    assert!(k <= s.len());
    assert!(s.is_char_boundary(k));
    let obj: Value = serde_json::from_str(s[..k].trim_start()).unwrap();
    assert_eq!(obj["name"], Value::String(name));
    assert_eq!(obj["arguments"], args);
}
