use llama_harness::message::{Message, Role};
use llama_harness::model::{ModelId, ModelInfo, ModelLoadSpec, ModelSpec};
use llama_harness::ffi;

#[test]
fn role_wire_names() {
    assert_eq!(Role::System.as_str(), "system");
    assert_eq!(Role::User.as_str(), "user");
    assert_eq!(Role::Assistant.as_str(), "assistant");
    assert_eq!(Role::Tool.as_str(), "tool");
}

#[test]
fn plain_constructors_leave_tool_fields_empty() {
    for (m, role) in [
        (Message::system("s"), Role::System),
        (Message::user("hello, world"), Role::User),
        (Message::assistant("a"), Role::Assistant),
    ] {
        assert_eq!(m.role, role);
        assert!(m.tool_call_id.is_empty());
        assert!(m.tool_name.is_empty());
        assert!(m.tool_calls_json.is_empty());
    }
    assert_eq!(Message::user("hello, world").content, "hello, world");
}

#[test]
fn tool_result_and_tool_calls() {
    let m = Message::tool_result("call-1", "get_weather", "sunny");
    assert_eq!(m.role, Role::Tool);
    assert_eq!(m.tool_call_id, "call-1");
    assert_eq!(m.tool_name, "get_weather");
    assert_eq!(m.content, "sunny");
    let a = Message::assistant("").with_tool_calls_json("[{\"name\":\"x\"}]");
    assert_eq!(a.role, Role::Assistant);
    assert_eq!(a.tool_calls_json, "[{\"name\":\"x\"}]");
}

#[test]
fn message_to_engine_record() {
    let m = Message::tool_result("id", "tool", "out");
    let f = m.to_ffi();
    assert_eq!(f.role, "tool");
    assert_eq!(f.content, "out");
    assert_eq!(f.tool_call_id, "id");
    assert_eq!(f.tool_name, "tool");
    assert_eq!(f.tool_calls_json, "");
}

#[test]
fn model_id_conversions() {
    let a = ModelId::from("llama");
    let b: ModelId = String::from("llama").into();
    assert_eq!(a, b);
    assert_eq!(a.to_string(), "llama");
}

#[test]
fn model_spec_from_name() {
    match ModelSpec::from("qwen") {
        ModelSpec::RegistryName(n) => assert_eq!(n, "qwen"),
        other => panic!("unexpected {:?}", other),
    }
    match ModelSpec::from(String::from("q7")) {
        ModelSpec::RegistryName(n) => assert_eq!(n, "q7"),
        other => panic!("unexpected {:?}", other),
    }
}

#[test]
fn load_spec_defaults() {
    let s = ModelLoadSpec::default();
    assert_eq!(s.path, "");
    assert_eq!(s.context_size, 4096);
    assert_eq!(s.batch_size, 512);
    assert_eq!(s.threads, 0);
    assert_eq!(s.gpu_layers, -1);
    assert!(s.use_mmap);
    assert!(!s.use_mlock);
    assert_eq!(s.chat_template_name, "");
    let p = ModelLoadSpec::from_path("/m.gguf");
    assert_eq!(p.path, "/m.gguf");
    assert_eq!(p.context_size, 4096);
    let f = p.to_ffi();
    assert_eq!(f.path, "/m.gguf");
    assert_eq!(f.gpu_layers, -1);
    assert!(f.use_mmap);
}

#[test]
fn model_info_from_engine_record() {
    let r = ffi::ModelInfo {
        id: "m".to_string(),
        path: "/m".to_string(),
        arch: "llama".to_string(),
        family: "llama-3.1".to_string(),
        context_size: 8192,
        size_bytes: 42,
        n_params_b: 8,
        supports_tools: true,
    };
    let i = ModelInfo::from(r);
    assert_eq!(i.id, "m");
    assert_eq!(i.arch, "llama");
    assert_eq!(i.family, "llama-3.1");
    assert_eq!(i.context_size, 8192);
    assert_eq!(i.size_bytes, 42);
    assert_eq!(i.n_params_b, 8);
    assert!(i.supports_tools);
    let d = ModelInfo::default();
    assert_eq!(d.id, "");
    assert_eq!(d.context_size, 0);
    assert!(!d.supports_tools);
}
