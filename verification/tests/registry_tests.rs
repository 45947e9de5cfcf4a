use llama_harness::error::HarnessError;
use llama_harness::model::{ModelLoadSpec, ModelSpec};
use llama_harness::registry::{
    default_path_from, default_path_in, ModelEntry, ModelRegistry, ModelSource,
};

fn local(name: &str, path: &str, family: &str, alias: Option<&str>, context: Option<i32>) -> ModelEntry {
    ModelEntry {
        name: name.to_string(),
        alias: alias.map(|a| a.to_string()),
        family: family.to_string(),
        source: ModelSource::Local { path: path.to_string() },
        context,
        gpu_layers: None,
        sha256: None,
        description: None,
    }
}

/// The registry of the sample `models.toml`:
///
/// ```toml
/// [models.llama-3.1-8b-instruct]
/// type = "local"
/// path = "C:/models/llama-3.1-8b.gguf"
/// family = "llama-3.1"
/// context = 8192
///
/// [models.qwen2.5-7b]
/// type = "local"
/// path = "C:/models/qwen2.5-7b.gguf"
/// family = "qwen2.5"
/// alias = "q7"
/// context = 32768
/// ```
fn sample() -> ModelRegistry {
    // The file names no entry: each is named by its key.
    ModelRegistry::from_entries(
        vec![
            (
                "qwen2.5-7b".to_string(),
                local("", "C:/models/qwen2.5-7b.gguf", "qwen2.5", Some("q7"), Some(32768)),
            ),
            (
                "llama-3.1-8b-instruct".to_string(),
                local("", "C:/models/llama-3.1-8b.gguf", "llama-3.1", None, Some(8192)),
            ),
        ],
        None,
    )
}

#[test]
fn parse_registry() {
    let r = sample();
    assert_eq!(r.names(), vec!["llama-3.1-8b-instruct", "qwen2.5-7b"]);
    let ll = r.get("llama-3.1-8b-instruct").unwrap();
    assert_eq!(ll.family, "llama-3.1");
    let q = r.get("q7").unwrap(); // alias
    assert_eq!(q.family, "qwen2.5");
}

#[test]
fn resolve_load_spec() {
    let r = sample();
    let spec = r
        .resolve_spec(ModelSpec::RegistryName("llama-3.1-8b-instruct".into()))
        .unwrap();
    assert_eq!(spec.path, "C:/models/llama-3.1-8b.gguf");
    assert_eq!(spec.context_size, 8192);
    assert_eq!(spec.chat_template_name, "llama-3.1");
}

#[test]
fn missing_model() {
    let r = sample();
    assert!(r.resolve_spec(ModelSpec::RegistryName("nope".into())).is_err());
}

#[test]
fn missing_model_names_the_model() {
    let r = sample();
    match r.resolve_spec(ModelSpec::RegistryName("nope".into())) {
        Err(HarnessError::NoSuchModel(m)) => assert_eq!(m, "nope"),
        other => panic!("unexpected {:?}", other),
    }
}

#[test]
fn resolve_keeps_defaults_without_overrides() {
    let e = local("m", "/m.gguf", "fam", None, None);
    let s = e.resolve().unwrap();
    assert_eq!(s.path, "/m.gguf");
    assert_eq!(s.context_size, 4096);
    assert_eq!(s.batch_size, 512);
    assert_eq!(s.threads, 0);
    assert_eq!(s.gpu_layers, -1);
    assert!(s.use_mmap);
    assert!(!s.use_mlock);
    assert_eq!(s.chat_template_name, "fam");
}

#[test]
fn resolve_applies_gpu_layers_override() {
    let mut e = local("m", "/m.gguf", "fam", None, Some(2048));
    e.gpu_layers = Some(35);
    let s = e.resolve().unwrap();
    assert_eq!(s.context_size, 2048);
    assert_eq!(s.gpu_layers, 35);
}

#[test]
fn resolve_rejects_remote_sources() {
    let mut e = local("hub-model", "", "fam", None, None);
    e.source = ModelSource::HuggingFace {
        repo: "TheBloke/x".to_string(),
        file: "x.gguf".to_string(),
        revision: None,
    };
    match e.resolve() {
        Err(HarnessError::InvalidArg(m)) => assert_eq!(
            m,
            "model 'hub-model' is from a remote source; download it first or change the registry entry to type=local"
        ),
        other => panic!("unexpected {:?}", other),
    }
    e.source = ModelSource::Ollama { name: "llama3".to_string() };
    assert!(matches!(e.resolve(), Err(HarnessError::InvalidArg(_))));
}

#[test]
fn name_lookup_wins_over_alias() {
    let mut r = ModelRegistry::new();
    r.insert("a".to_string(), local("a", "/a", "fa", Some("b"), None));
    r.insert("b".to_string(), local("b", "/b", "fb", None, None));
    assert_eq!(r.get("b").unwrap().family, "fb");
    assert_eq!(r.get("a").unwrap().family, "fa");
    assert!(r.get("c").is_none());
}

#[test]
fn insert_replaces_entry_of_same_name() {
    let mut r = sample();
    let old = r.insert("q".to_string(), local("q", "/q", "fq", None, None));
    assert!(old.is_none());
    assert_eq!(r.len(), 3);
    let old = r.insert("q".to_string(), local("q", "/q2", "fq2", None, None));
    assert_eq!(old.unwrap().family, "fq");
    assert_eq!(r.len(), 3);
    assert_eq!(r.get("q").unwrap().family, "fq2");
    assert_eq!(r.names(), vec!["llama-3.1-8b-instruct", "q", "qwen2.5-7b"]);
}

#[test]
fn resolve_spec_path_and_inline() {
    let r = ModelRegistry::new();
    let s = r.resolve_spec(ModelSpec::Path("/x.gguf".to_string())).unwrap();
    assert_eq!(s.path, "/x.gguf");
    assert_eq!(s.context_size, 4096);
    let mut inline = ModelLoadSpec::from_path("/y.gguf");
    inline.threads = 8;
    let s = r.resolve_spec(ModelSpec::Inline(inline)).unwrap();
    assert_eq!(s.path, "/y.gguf");
    assert_eq!(s.threads, 8);
}

#[test]
fn default_model_is_kept() {
    let mut r = sample();
    assert_eq!(r.default_model(), None);
    r.set_default_model(Some("q7".to_string()));
    assert_eq!(r.default_model(), Some("q7"));
    assert_eq!(r.len(), 2);
}

#[test]
fn default_path_under_home() {
    assert_eq!(default_path_in("/home/u", '/'), "/home/u/.llama-harness/models.toml");
    assert_eq!(default_path_in("/home/u/", '/'), "/home/u/.llama-harness/models.toml");
    assert_eq!(default_path_in("", '/'), ".llama-harness/models.toml");
    assert_eq!(default_path_in("C:\\Users\\u", '\\'), "C:\\Users\\u\\.llama-harness\\models.toml");
    assert_eq!(default_path_in("C:/Users/u/", '\\'), "C:/Users/u/.llama-harness\\models.toml");
}

#[test]
fn default_path_from_optional_home() {
    assert_eq!(default_path_from(None, '/'), None);
    assert_eq!(
        default_path_from(Some("/root"), '/'),
        Some("/root/.llama-harness/models.toml".to_string())
    );
}

#[test]
fn default_path_ends_with_registry_file() {
    if let Some(p) = ModelRegistry::default_path() {
        let sep = std::path::MAIN_SEPARATOR;
        assert!(p.ends_with(&format!("{sep}.llama-harness{sep}models.toml")));
    }
}

#[test]
fn from_entries_names_sorts_and_keeps_the_last() {
    let r = ModelRegistry::from_entries(
        vec![
            ("b".to_string(), local("", "/b1", "f", None, None)),
            ("a".to_string(), local("Shown A", "/a", "f", None, None)),
            ("b".to_string(), local("", "/b2", "g", Some("bee"), None)),
        ],
        Some("a".to_string()),
    );
    assert_eq!(r.names(), vec!["a", "b"]);
    assert_eq!(r.len(), 2);
    assert_eq!(r.get("a").unwrap().name, "Shown A");
    let b = r.get("b").unwrap();
    assert_eq!(b.name, "b");
    assert_eq!(b.family, "g");
    assert_eq!(b.source, ModelSource::Local { path: "/b2".to_string() });
    assert_eq!(r.get("bee").unwrap().name, "b");
    assert_eq!(r.default_model(), Some("a"));
}

#[test]
fn under_key_fills_only_a_missing_name() {
    let e = local("", "/p", "f", None, None).under_key("k");
    assert_eq!(e.name, "k");
    let e = local("n", "/p", "f", None, None).under_key("k");
    assert_eq!(e.name, "n");
}

#[test]
fn names_sort_by_code_point() {
    let mut r = ModelRegistry::new();
    for n in ["b", "a", "B", "ab", "é", "a-1"] {
        r.insert(n.to_string(), local(n, "/p", "f", None, None));
    }
    assert_eq!(r.names(), vec!["B", "a", "a-1", "ab", "b", "é"]);
}
