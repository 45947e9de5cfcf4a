use llama_harness::error::HarnessError;
use llama_harness::harness::{HarnessBuilder, LoadStep, ModelCache};
use llama_harness::model::ModelInfo;
use llama_harness::registry::{ModelEntry, ModelRegistry, ModelSource};

fn info(id: &str) -> ModelInfo {
    let mut i = ModelInfo::default();
    i.id = id.to_string();
    i.family = format!("{}-family", id);
    i
}

/// Runs both steps of a load, as the harness does around the engine, and
/// returns the evicted models.
fn load(c: &mut ModelCache, id: &str) -> Vec<String> {
    match c.begin_load(id) {
        LoadStep::Ready(_) => Vec::new(),
        LoadStep::Load(gone) => {
            c.finish_load(id, info(id));
            gone
        }
    }
}

fn ids(c: &ModelCache) -> Vec<String> {
    c.loaded_models().into_iter().map(|i| i.id).collect()
}

#[test]
fn builder_defaults_and_cap() {
    let b = HarnessBuilder::default();
    assert_eq!(b.registry_path_value(), None);
    assert_eq!(b.loaded_model_cap(), 2);
    let b = b.registry_path("/r/models.toml").max_loaded_models(0);
    assert_eq!(b.registry_path_value(), Some("/r/models.toml".to_string()));
    assert_eq!(b.loaded_model_cap(), 1);
    assert_eq!(b.max_loaded_models(3).loaded_model_cap(), 3);
}

#[test]
fn builder_registry_file_defaults_under_home() {
    let b = HarnessBuilder::default();
    if let Some(p) = b.registry_file() {
        assert!(p.ends_with("/.llama-harness/models.toml"));
        assert_eq!(Some(p), ModelRegistry::default_path());
    }
    let b = b.registry_path("/r/models.toml");
    assert_eq!(b.registry_file(), Some("/r/models.toml".to_string()));
}

#[test]
fn first_load_becomes_active() {
    let mut c = ModelCache::new(2);
    match c.begin_load("a") {
        LoadStep::Load(gone) => assert!(gone.is_empty()),
        LoadStep::Ready(_) => panic!("not loaded yet"),
    }
    assert!(c.finish_load("a", info("a")));
    assert_eq!(c.active_model(), Some("a".to_string()));
    assert!(!{
        let _ = c.begin_load("b");
        c.finish_load("b", info("b"))
    });
    assert_eq!(c.active_model(), Some("a".to_string()));
    assert_eq!(ids(&c), vec!["a", "b"]);
}

#[test]
fn loading_past_the_cap_evicts_least_recently_used() {
    let mut c = ModelCache::new(2);
    assert!(load(&mut c, "a").is_empty());
    assert!(load(&mut c, "b").is_empty());
    // touching `a` makes `b` the least recently used
    assert!(load(&mut c, "a").is_empty());
    assert_eq!(ids(&c), vec!["b", "a"]);
    assert_eq!(load(&mut c, "c"), vec!["b".to_string()]);
    assert_eq!(ids(&c), vec!["a", "c"]);
    assert!(!c.is_loaded("b"));
    assert_eq!(c.loaded_models().len(), 2);
}

#[test]
fn evicting_the_active_model_clears_it() {
    let mut c = ModelCache::new(1);
    load(&mut c, "a");
    assert_eq!(c.active_model(), Some("a".to_string()));
    match c.begin_load("b") {
        LoadStep::Load(gone) => assert_eq!(gone, vec!["a".to_string()]),
        LoadStep::Ready(_) => panic!("b was not loaded"),
    }
    assert_eq!(c.active_model(), None);
    assert!(c.finish_load("b", info("b")));
    assert_eq!(c.active_model(), Some("b".to_string()));
}

#[test]
fn cap_of_zero_keeps_one() {
    let mut c = ModelCache::new(0);
    assert_eq!(c.capacity(), 1);
    load(&mut c, "a");
    assert_eq!(load(&mut c, "b"), vec!["a".to_string()]);
    assert_eq!(ids(&c), vec!["b"]);
}

#[test]
fn reload_returns_known_info() {
    let mut c = ModelCache::new(2);
    load(&mut c, "a");
    match c.begin_load("a") {
        LoadStep::Ready(i) => {
            assert_eq!(i.id, "a");
            assert_eq!(i.family, "a-family");
        }
        LoadStep::Load(_) => panic!("a is loaded"),
    }
}

#[test]
fn unload_forgets_model_and_active() {
    let mut c = ModelCache::new(3);
    load(&mut c, "a");
    load(&mut c, "b");
    c.unload("a");
    assert!(!c.is_loaded("a"));
    assert!(c.is_loaded("b"));
    assert_eq!(c.active_model(), None);
    c.unload("missing");
    assert_eq!(ids(&c), vec!["b"]);
}

#[test]
fn set_active_requires_loaded_model() {
    let mut c = ModelCache::new(2);
    load(&mut c, "a");
    load(&mut c, "b");
    assert_eq!(
        c.set_active("zzz"),
        Err(HarnessError::ModelNotLoaded("zzz".to_string()))
    );
    assert_eq!(c.active_model(), Some("a".to_string()));
    assert_eq!(c.set_active("b"), Ok(()));
    assert_eq!(c.active_model(), Some("b".to_string()));
}

#[test]
fn routing_of_requests() {
    let mut c = ModelCache::new(2);
    assert_eq!(c.route(None), Err(HarnessError::NoActiveModel));
    assert_eq!(
        c.route(Some("a")),
        Err(HarnessError::ModelNotLoaded("a".to_string()))
    );
    load(&mut c, "a");
    load(&mut c, "b");
    assert_eq!(c.route(None), Ok("a".to_string()));
    assert_eq!(c.route(Some("b")), Ok("b".to_string()));
    c.set_active("b").unwrap();
    assert_eq!(c.route(None), Ok("b".to_string()));
}

#[test]
fn list_merges_registry_and_loaded() {
    let mut reg = ModelRegistry::new();
    for n in ["zeta", "alpha"] {
        reg.insert(
            n.to_string(),
            ModelEntry {
                name: n.to_string(),
                alias: None,
                family: "f".to_string(),
                source: ModelSource::Local { path: "/p".to_string() },
                context: None,
                gpu_layers: None,
                sha256: None,
                description: None,
            },
        );
    }
    let mut c = ModelCache::new(3);
    load(&mut c, "alpha");
    load(&mut c, "beta");
    assert_eq!(c.list(&reg), vec!["alpha", "beta", "zeta"]);
    assert_eq!(ModelCache::new(1).list(&ModelRegistry::new()), Vec::<String>::new());
}
