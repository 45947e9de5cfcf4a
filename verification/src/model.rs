//! Model identity and load spec.
use vstd::prelude::*;
use vstd::string::StringExecFns;

use crate::ffi;

verus! {

/// A caller-chosen identifier for a loaded model.
///
/// The harness never assumes an opaque random id; the caller picks it.
/// Convention: the registry name (e.g. `"llama-3.1-8b-instruct"`).
#[derive(Debug, PartialEq, Eq, Hash)]
pub struct ModelId(pub String);

impl ModelId {
    /// The id as text (what `Display` prints).
    pub fn to_string(&self) -> (r: String)
        ensures
            r@ == self.0@,
    {
        self.0.clone()
    }
}

impl Clone for ModelId {
    fn clone(&self) -> (r: ModelId)
        ensures
            r == *self,
    {
        ModelId(self.0.clone())
    }
}

impl<'a> From<&'a str> for ModelId {
    fn from(s: &'a str) -> (r: ModelId)
        ensures
            r.0@ == s@,
    {
        ModelId(String::from_str(s))
    }
}

impl<'a> vstd::std_specs::convert::FromSpecImpl<&'a str> for ModelId {
    /// The characters are stated by `from` itself; a new `String` has no
    /// value that a spec function could name.
    open spec fn obeys_from_spec() -> bool {
        false
    }

    open spec fn from_spec(s: &'a str) -> ModelId {
        arbitrary()
    }
}

impl From<String> for ModelId {
    fn from(s: String) -> (r: ModelId) {
        ModelId(s)
    }
}

impl vstd::std_specs::convert::FromSpecImpl<String> for ModelId {
    open spec fn obeys_from_spec() -> bool {
        true
    }

    open spec fn from_spec(s: String) -> ModelId {
        ModelId(s)
    }
}

/// Information about a loaded model, as known to the Rust side.
#[derive(Debug)]
pub struct ModelInfo {
    /// Caller-chosen id.
    pub id: String,
    /// Path to the .gguf file.
    pub path: String,
    /// Architecture (e.g. "llama", "qwen2", "mistral").
    pub arch: String,
    /// Family name used for chat template dispatch (e.g. "llama-3.1").
    pub family: String,
    /// Context window in tokens.
    pub context_size: i32,
    /// Approximate memory footprint in bytes.
    pub size_bytes: u64,
    /// Approximate parameter count in billions.
    pub n_params_b: i32,
    /// Whether the model supports tool calling (per detected chat
    /// template).
    pub supports_tools: bool,
}

impl Clone for ModelInfo {
    fn clone(&self) -> (r: ModelInfo)
        ensures
            r == *self,
    {
        ModelInfo {
            id: self.id.clone(),
            path: self.path.clone(),
            arch: self.arch.clone(),
            family: self.family.clone(),
            context_size: self.context_size,
            size_bytes: self.size_bytes,
            n_params_b: self.n_params_b,
            supports_tools: self.supports_tools,
        }
    }
}

impl From<ffi::ModelInfo> for ModelInfo {
    fn from(m: ffi::ModelInfo) -> (r: ModelInfo) {
        ModelInfo {
            id: m.id,
            path: m.path,
            arch: m.arch,
            family: m.family,
            context_size: m.context_size,
            size_bytes: m.size_bytes,
            n_params_b: m.n_params_b,
            supports_tools: m.supports_tools,
        }
    }
}

impl vstd::std_specs::convert::FromSpecImpl<ffi::ModelInfo> for ModelInfo {
    open spec fn obeys_from_spec() -> bool {
        true
    }

    open spec fn from_spec(m: ffi::ModelInfo) -> ModelInfo {
        ModelInfo {
            id: m.id,
            path: m.path,
            arch: m.arch,
            family: m.family,
            context_size: m.context_size,
            size_bytes: m.size_bytes,
            n_params_b: m.n_params_b,
            supports_tools: m.supports_tools,
        }
    }
}

impl Default for ModelInfo {
    fn default() -> (r: ModelInfo)
        ensures
            r.id@ == Seq::<char>::empty(),
            r.path@ == Seq::<char>::empty(),
            r.arch@ == Seq::<char>::empty(),
            r.family@ == Seq::<char>::empty(),
            r.context_size == 0,
            r.size_bytes == 0,
            r.n_params_b == 0,
            !r.supports_tools,
    {
        ModelInfo {
            id: String::new(),
            path: String::new(),
            arch: String::new(),
            family: String::new(),
            context_size: 0,
            size_bytes: 0,
            n_params_b: 0,
            supports_tools: false,
        }
    }
}

/// Caller-facing spec for loading a model.
#[derive(Debug)]
pub struct ModelLoadSpec {
    /// Path to the .gguf file. Absolute.
    pub path: String,
    /// Context window. Default 4096.
    pub context_size: i32,
    /// Logical batch size. Default 512.
    pub batch_size: i32,
    /// CPU threads. 0 = auto.
    pub threads: i32,
    /// GPU layers to offload. -1 = all (default), 0 = CPU-only.
    pub gpu_layers: i32,
    /// Use mmap for weight loading. Default true.
    pub use_mmap: bool,
    /// Lock weights in RAM. Default false.
    pub use_mlock: bool,
    /// Override chat template detection. "" = auto.
    pub chat_template_name: String,
}

/// `s` holds the default settings, with `path` as its path.
pub open spec fn is_default_load_spec(s: ModelLoadSpec, path: Seq<char>) -> bool {
    &&& s.path@ == path
    &&& s.context_size == 4096
    &&& s.batch_size == 512
    &&& s.threads == 0
    &&& s.gpu_layers == -1
    &&& s.use_mmap
    &&& !s.use_mlock
    &&& s.chat_template_name@ == Seq::<char>::empty()
}

impl Clone for ModelLoadSpec {
    fn clone(&self) -> (r: ModelLoadSpec)
        ensures
            r == *self,
    {
        ModelLoadSpec {
            path: self.path.clone(),
            context_size: self.context_size,
            batch_size: self.batch_size,
            threads: self.threads,
            gpu_layers: self.gpu_layers,
            use_mmap: self.use_mmap,
            use_mlock: self.use_mlock,
            chat_template_name: self.chat_template_name.clone(),
        }
    }
}

impl Default for ModelLoadSpec {
    fn default() -> (r: ModelLoadSpec)
        ensures
            is_default_load_spec(r, Seq::<char>::empty()),
    {
        ModelLoadSpec {
            path: String::new(),
            context_size: 4096,
            batch_size: 512,
            threads: 0,
            gpu_layers: -1,
            use_mmap: true,
            use_mlock: false,
            chat_template_name: String::new(),
        }
    }
}

impl ModelLoadSpec {
    /// Construct from a path, with every other setting at its default.
    pub fn from_path(path: &str) -> (s: ModelLoadSpec)
        ensures
            is_default_load_spec(s, path@),
    {
        let mut s = ModelLoadSpec::default();
        s.path = String::from_str(path);
        s
    }

    /// Convert to the engine's record: the same settings, field for field.
    pub fn to_ffi(&self) -> (r: ffi::ModelLoadSpec)
        ensures
            r.path == self.path,
            r.context_size == self.context_size,
            r.batch_size == self.batch_size,
            r.threads == self.threads,
            r.gpu_layers == self.gpu_layers,
            r.use_mmap == self.use_mmap,
            r.use_mlock == self.use_mlock,
            r.chat_template_name == self.chat_template_name,
    {
        ffi::ModelLoadSpec {
            path: self.path.clone(),
            context_size: self.context_size,
            batch_size: self.batch_size,
            threads: self.threads,
            gpu_layers: self.gpu_layers,
            use_mmap: self.use_mmap,
            use_mlock: self.use_mlock,
            chat_template_name: self.chat_template_name.clone(),
        }
    }
}

/// What to load. Either a registry name (resolved via `models.toml`)
/// or an explicit inline spec.
#[derive(Debug)]
pub enum ModelSpec {
    /// Resolve via the registry.
    RegistryName(String),
    /// Load directly from a path with default settings.
    Path(String),
    /// Load from a path with explicit settings.
    Inline(ModelLoadSpec),
}

impl<'a> From<&'a str> for ModelSpec {
    fn from(s: &'a str) -> (r: ModelSpec)
        ensures
            r matches ModelSpec::RegistryName(n) && n@ == s@,
    {
        ModelSpec::RegistryName(String::from_str(s))
    }
}

impl<'a> vstd::std_specs::convert::FromSpecImpl<&'a str> for ModelSpec {
    /// The name is stated by `from` itself; a new `String` has no value
    /// that a spec function could name.
    open spec fn obeys_from_spec() -> bool {
        false
    }

    open spec fn from_spec(s: &'a str) -> ModelSpec {
        arbitrary()
    }
}

impl From<String> for ModelSpec {
    fn from(s: String) -> (r: ModelSpec) {
        ModelSpec::RegistryName(s)
    }
}

impl vstd::std_specs::convert::FromSpecImpl<String> for ModelSpec {
    open spec fn obeys_from_spec() -> bool {
        true
    }

    open spec fn from_spec(s: String) -> ModelSpec {
        ModelSpec::RegistryName(s)
    }
}

} // verus!
