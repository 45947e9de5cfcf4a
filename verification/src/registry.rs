//! Centralized `models.toml` registry.
//!
//! Format (TOML):
//!
//! ```toml
//! [models.llama-3.1-8b-instruct]
//! type    = "local"
//! path    = "C:/models/Meta-Llama-3.1-8B-Instruct-Q5_K_M.gguf"
//! alias   = "llama8b"               # optional
//! family  = "llama-3.1"             # chat template dispatch
//! context = 8192                    # optional, default 4096
//! gpu_layers = 35                   # optional, default -1
//! sha256  = "..."                   # optional integrity check
//! ```
//!
//! The registry maps each name to one entry; a name is looked up first
//! among the names, then among the aliases.
use vstd::prelude::*;
use vstd::pervasive::VecAdditionalExecFns;
use vstd::string::StrSliceExecFns;
use vstd::string::StringExecFns;

use crate::error::{joined, HarnessError};
use crate::model::{is_default_load_spec, ModelLoadSpec, ModelSpec};
use crate::text::{
    clone_opt_string, lemma_lex_irreflexive, push_char, first_where, Keyed, keys_of, lemma_first_where, lemma_first_where_absent,
    lemma_first_where_found, sort_by_key, strictly_sorted, str_eq,
};

verus! {

/// Where a model can come from.
#[derive(Debug, PartialEq, Eq)]
pub enum ModelSource {
    /// Local file on disk.
    Local {
        /// Absolute path to the .gguf.
        path: String,
    },
    /// Hugging Face Hub repo.
    HuggingFace {
        /// repo id, e.g. "TheBloke/Llama-2-7B-Chat-GGUF"
        repo: String,
        /// File within the repo.
        file: String,
        /// Optional revision (branch/tag/commit).
        revision: Option<String>,
    },
    /// Ollama-style model reference.
    Ollama {
        /// model name as served by ollama
        name: String,
    },
}

impl Clone for ModelSource {
    fn clone(&self) -> (r: ModelSource)
        ensures
            r == *self,
    {
        match self {
            ModelSource::Local { path } => ModelSource::Local { path: path.clone() },
            ModelSource::HuggingFace { repo, file, revision } => ModelSource::HuggingFace {
                repo: repo.clone(),
                file: file.clone(),
                revision: clone_opt_string(revision),
            },
            ModelSource::Ollama { name } => ModelSource::Ollama { name: name.clone() },
        }
    }
}

/// One entry in the registry.
#[derive(Debug)]
pub struct ModelEntry {
    /// Display name (registry key).
    pub name: String,
    /// Optional shorter alias usable in CLI / chat commands.
    pub alias: Option<String>,
    /// Family used to pick the chat template. e.g. "llama-3.1".
    pub family: String,
    /// Where to get the model.
    pub source: ModelSource,
    /// Default context size override.
    pub context: Option<i32>,
    /// Default GPU-layer count override.
    pub gpu_layers: Option<i32>,
    /// SHA256 for integrity check.
    pub sha256: Option<String>,
    /// Human-readable description / tags.
    pub description: Option<String>,
}

impl Clone for ModelEntry {
    fn clone(&self) -> (r: ModelEntry)
        ensures
            r == *self,
    {
        ModelEntry {
            name: self.name.clone(),
            alias: clone_opt_string(&self.alias),
            family: self.family.clone(),
            source: self.source.clone(),
            context: self.context,
            gpu_layers: self.gpu_layers,
            sha256: clone_opt_string(&self.sha256),
            description: clone_opt_string(&self.description),
        }
    }
}

/// The message of the error for an entry whose model is not on disk.
pub open spec fn remote_source_message(name: Seq<char>) -> Seq<char> {
    "model '"@ + name
        + "' is from a remote source; download it first or change the registry entry to type=local"@
}

/// What resolving entry `e` gives: for a local file, the default settings
/// with the entry's path, family and overrides; otherwise an error.
pub open spec fn resolves_to(e: ModelEntry, r: Result<ModelLoadSpec, HarnessError>) -> bool {
    match e.source {
        ModelSource::Local { path } => r matches Ok(s) && {
            &&& s.path@ == path@
            &&& s.context_size == (match e.context {
                Some(c) => c,
                None => 4096i32,
            })
            &&& s.batch_size == 512
            &&& s.threads == 0
            &&& s.gpu_layers == (match e.gpu_layers {
                Some(g) => g,
                None => -1i32,
            })
            &&& s.use_mmap
            &&& !s.use_mlock
            &&& s.chat_template_name@ == e.family@
        },
        _ => r matches Err(HarnessError::InvalidArg(m)) && m@ == remote_source_message(e.name@),
    }
}

impl ModelEntry {
    /// Resolve to a load spec. For `Local`, returns immediately.
    /// For remote sources, returns an error if the file is not yet
    /// cached locally; remote download is left to a future version.
    pub fn resolve(&self) -> (r: Result<ModelLoadSpec, HarnessError>)
        ensures
            resolves_to(*self, r),
    {
        match &self.source {
            ModelSource::Local { path } => {
                let mut spec = ModelLoadSpec::default();
                spec.path = path.clone();
                if let Some(c) = self.context {
                    spec.context_size = c;
                }
                if let Some(g) = self.gpu_layers {
                    spec.gpu_layers = g;
                }
                spec.chat_template_name = self.family.clone();
                Ok(spec)
            },
            _ => {
                let mut m = joined("model '", self.name.as_str());
                m.append(
                    "' is from a remote source; download it first or change the registry entry to type=local",
                );
                Err(HarnessError::InvalidArg(m))
            },
        }
    }
}

/// The names of a registry's entries, in order.
pub open spec fn names_of(entries: Seq<(Seq<char>, ModelEntry)>) -> Seq<Seq<char>> {
    entries.map_values(|e: (Seq<char>, ModelEntry)| e.0)
}

/// Whether the entry at a position has the name `name`.
pub open spec fn name_at(entries: Seq<(Seq<char>, ModelEntry)>, name: Seq<char>) -> spec_fn(int) -> bool {
    |i: int| entries[i].0 == name
}

/// Whether the entry at a position has the alias `name`.
pub open spec fn alias_at(entries: Seq<(Seq<char>, ModelEntry)>, name: Seq<char>) -> spec_fn(int) -> bool {
    |i: int| has_alias(entries[i].1, name)
}

/// Entry `e` has the alias `name`.
pub open spec fn has_alias(e: ModelEntry, name: Seq<char>) -> bool {
    e.alias matches Some(a) && a@ == name
}

/// What looking up `name` finds: the entry of that name; failing that,
/// the first entry with that alias; failing that, nothing.
pub open spec fn lookup(entries: Seq<(Seq<char>, ModelEntry)>, name: Seq<char>) -> Option<
    ModelEntry,
> {
    let by_name = first_where(entries.len() as int, name_at(entries, name));
    let by_alias = first_where(entries.len() as int, alias_at(entries, name));
    if by_name is Some {
        Some(entries[by_name->0].1)
    } else if by_alias is Some {
        Some(entries[by_alias->0].1)
    } else {
        None
    }
}

/// The entries after setting the entry of `name` to `e`: in place when
/// the name is present, appended otherwise.
pub open spec fn inserted(
    entries: Seq<(Seq<char>, ModelEntry)>,
    name: Seq<char>,
    e: ModelEntry,
) -> Seq<(Seq<char>, ModelEntry)> {
    let at = first_where(entries.len() as int, name_at(entries, name));
    if at is Some {
        entries.update(at->0, (name, e))
    } else {
        entries.push((name, e))
    }
}

/// What resolving `spec` against `entries` gives.
pub open spec fn resolves_spec_to(
    entries: Seq<(Seq<char>, ModelEntry)>,
    spec: ModelSpec,
    r: Result<ModelLoadSpec, HarnessError>,
) -> bool {
    match spec {
        ModelSpec::RegistryName(name) => match lookup(entries, name@) {
            Some(e) => resolves_to(e, r),
            None => r matches Err(HarnessError::NoSuchModel(m)) && m@ == name@,
        },
        ModelSpec::Path(p) => r matches Ok(s) && is_default_load_spec(s, p@),
        ModelSpec::Inline(s) => r == Ok::<ModelLoadSpec, HarnessError>(s),
    }
}

/// The model registry: the entries of `models.toml` by name, and the
/// model to load on startup.
#[derive(Debug)]
pub struct ModelRegistry {
    models: Vec<(String, ModelEntry)>,
    default: Option<String>,
}

impl View for ModelRegistry {
    type V = Seq<(Seq<char>, ModelEntry)>;

    closed spec fn view(&self) -> Seq<(Seq<char>, ModelEntry)> {
        self.models@.map_values(|p: (String, ModelEntry)| (p.0@, p.1))
    }
}

impl Default for ModelRegistry {
    fn default() -> (r: ModelRegistry)
        ensures
            r@ == Seq::<(Seq<char>, ModelEntry)>::empty(),
            r.default_name() is None,
    {
        ModelRegistry::new()
    }
}

impl ModelRegistry {
    #[verifier::type_invariant]
    spec fn names_unique(self) -> bool {
        names_of(self@).no_duplicates()
    }

    /// The model to load on startup, if the registry names one.
    pub closed spec fn default_name(&self) -> Option<Seq<char>> {
        match self.default {
            Some(s) => Some(s@),
            None => None,
        }
    }

    /// An empty registry.
    pub fn new() -> (r: ModelRegistry)
        ensures
            r@ == Seq::<(Seq<char>, ModelEntry)>::empty(),
            r.default_name() is None,
    {
        let r = ModelRegistry { models: Vec::new(), default: None };
        assert(names_of(r@) =~= Seq::<Seq<char>>::empty());
        r
    }

    /// Number of entries.
    pub fn len(&self) -> (n: usize)
        ensures
            n == self@.len(),
    {
        self.models.len()
    }

    fn position_of(&self, name: &str) -> (r: Option<usize>)
        ensures
            r matches Some(i) ==> i < self@.len() && self@[i as int].0 == name@ && first_where(
                self@.len() as int,
                name_at(self@, name@),
            ) == Some(i as int),
            r is None ==> first_where(self@.len() as int, name_at(self@, name@)) is None,
            r is None ==> forall|j: int| 0 <= j < self@.len() ==> #[trigger] self@[j].0 != name@,
    {
        let ghost p = name_at(self@, name@);
        let mut i: usize = 0;
        while i < self.models.len()
            invariant
                i <= self.models@.len(),
                self@.len() == self.models@.len(),
                p == name_at(self@, name@),
                forall|j: int| 0 <= j < i ==> !#[trigger] p(j),
            decreases self.models.len() - i,
        {
            if str_eq(self.models[i].0.as_str(), name) {
                assert(self@[i as int].0 == self.models@[i as int].0@);
                proof {
                    lemma_first_where_found(self@.len() as int, p, i as int);
                }
                return Some(i);
            }
            assert(self@[i as int].0 == self.models@[i as int].0@);
            i += 1;
        }
        proof {
            lemma_first_where_absent(self@.len() as int, p);
            assert forall|j: int| 0 <= j < self@.len() implies #[trigger] self@[j].0 != name@ by {
                assert(!p(j));
            }
        }
        None
    }

    /// Set the entry of `name`, replacing and returning the one it had.
    pub fn insert(&mut self, name: String, entry: ModelEntry) -> (old_entry: Option<ModelEntry>)
        ensures
            final(self)@ == inserted(old(self)@, name@, entry),
            final(self).default_name() == old(self).default_name(),
            names_of(final(self)@).no_duplicates(),
            old_entry == (match first_where(old(self)@.len() as int, name_at(old(self)@, name@)) {
                Some(i) => Some(old(self)@[i].1),
                None => None,
            }),
    {
        proof {
            use_type_invariant(&*self);
        }
        let ghost before = self@;
        let at = self.position_of(name.as_str());
        let ghost v = name@;
        let mut models: Vec<(String, ModelEntry)> = Vec::new();
        std::mem::swap(&mut models, &mut self.models);
        assert(models@.map_values(|p: (String, ModelEntry)| (p.0@, p.1)) == before);
        let r = match at {
            Some(i) => {
                let mut pair = (name, entry);
                models.set_and_swap(i, &mut pair);
                let ghost after = models@.map_values(|p: (String, ModelEntry)| (p.0@, p.1));
                assert(after =~= before.update(i as int, (v, entry)));
                assert(names_of(before)[i as int] == before[i as int].0);
                assert(names_of(after) =~= names_of(before));
                Some(pair.1)
            },
            None => {
                models.push((name, entry));
                let ghost after = models@.map_values(|p: (String, ModelEntry)| (p.0@, p.1));
                assert(after =~= before.push((v, entry)));
                assert(names_of(after) =~= names_of(before).push(v));
                assert forall|k: int| 0 <= k < before.len() implies names_of(before)[k] != v by {
                    assert(names_of(before)[k] == before[k].0);
                    assert(before[k].0 != v);
                }
                None
            },
        };
        self.models = models;
        r
    }

    /// Look up an entry by name or alias.
    pub fn get(&self, name: &str) -> (r: Option<&ModelEntry>)
        ensures
            match r {
                Some(e) => lookup(self@, name@) == Some(*e),
                None => lookup(self@, name@) is None,
            },
    {
        if let Some(i) = self.position_of(name) {
            return Some(&self.models[i].1);
        }
        let ghost p = alias_at(self@, name@);
        let mut i: usize = 0;
        while i < self.models.len()
            invariant
                i <= self.models@.len(),
                self@.len() == self.models@.len(),
                p == alias_at(self@, name@),
                first_where(self@.len() as int, name_at(self@, name@)) is None,
                forall|j: int| 0 <= j < i ==> !#[trigger] p(j),
            decreases self.models.len() - i,
        {
            assert(self@[i as int].1 == self.models@[i as int].1);
            let hit = match &self.models[i].1.alias {
                Some(a) => str_eq(a.as_str(), name),
                None => false,
            };
            if hit {
                proof {
                    lemma_first_where_found(self@.len() as int, p, i as int);
                }
                return Some(&self.models[i].1);
            }
            i += 1;
        }
        proof {
            lemma_first_where_absent(self@.len() as int, p);
        }
        None
    }

    /// List all names, in ascending order.
    pub fn names(&self) -> (r: Vec<&str>)
        ensures
            r.len() == self@.len(),
            strictly_sorted(keys_of(r@)),
            forall|k: Seq<char>| keys_of(r@).contains(k) <==> names_of(self@).contains(k),
    {
        proof {
            use_type_invariant(self);
        }
        let mut v: Vec<&str> = Vec::new();
        let mut i: usize = 0;
        while i < self.models.len()
            invariant
                i <= self.models@.len(),
                self@.len() == self.models@.len(),
                v.len() == i,
                forall|j: int| 0 <= j < i ==> (#[trigger] v@[j])@ == self@[j].0,
            decreases self.models.len() - i,
        {
            v.push(self.models[i].0.as_str());
            i += 1;
        }
        assert(keys_of(v@) =~= names_of(self@));
        let r = sort_by_key(&v);
        proof {
            assert forall|k: Seq<char>| keys_of(r@).contains(k) <==> names_of(self@).contains(
                k,
            ) by {
                if keys_of(r@).contains(k) {
                    let j = choose|j: int| 0 <= j < keys_of(r@).len() && keys_of(r@)[j] == k;
                    assert(r@.contains(r@[j]));
                    assert(v@.contains(r@[j]));
                    let m = choose|m: int| 0 <= m < v@.len() && v@[m] == r@[j];
                    assert(keys_of(v@)[m] == k);
                }
                if names_of(self@).contains(k) {
                    let m = choose|m: int| 0 <= m < names_of(self@).len() && names_of(self@)[m]
                        == k;
                    assert(keys_of(v@)[m] == k);
                    assert(v@.contains(v@[m]));
                    assert(r@.contains(v@[m]));
                    let j = choose|j: int| 0 <= j < r@.len() && r@[j] == v@[m];
                    assert(keys_of(r@)[j] == k);
                }
            }
        }
        r
    }

    /// Resolve a `ModelSpec` to a `ModelLoadSpec`.
    pub fn resolve_spec(&self, spec: ModelSpec) -> (r: Result<ModelLoadSpec, HarnessError>)
        ensures
            resolves_spec_to(self@, spec, r),
    {
        match spec {
            ModelSpec::RegistryName(name) => match self.get(name.as_str()) {
                Some(e) => e.resolve(),
                None => Err(HarnessError::NoSuchModel(name)),
            },
            ModelSpec::Path(p) => Ok(ModelLoadSpec::from_path(p.as_str())),
            ModelSpec::Inline(s) => Ok(s),
        }
    }

    /// The model to load on startup, if the registry names one.
    pub fn default_model(&self) -> (r: Option<&str>)
        ensures
            match r {
                Some(s) => self.default_name() == Some(s@),
                None => self.default_name() is None,
            },
    {
        match &self.default {
            Some(s) => Some(s.as_str()),
            None => None,
        }
    }

    /// Name the model to load on startup.
    pub fn set_default_model(&mut self, name: Option<String>)
        ensures
            final(self)@ == old(self)@,
            final(self).default_name() == (match name {
                Some(s) => Some(s@),
                None => None::<Seq<char>>,
            }),
    {
        proof {
            use_type_invariant(&*self);
        }
        self.default = name;
    }
}

/// Entry `r` is entry `e` under the key `key`: named by the key when `e`
/// has no name of its own, and otherwise the same.
pub open spec fn keyed_entry(e: ModelEntry, key: Seq<char>, r: ModelEntry) -> bool {
    &&& r.name@ == (if e.name@.len() == 0 {
        key
    } else {
        e.name@
    })
    &&& r.alias == e.alias
    &&& r.family == e.family
    &&& r.source == e.source
    &&& r.context == e.context
    &&& r.gpu_layers == e.gpu_layers
    &&& r.sha256 == e.sha256
    &&& r.description == e.description
}

/// Whether `i` is the last of the first `n` positions of `entries` whose
/// key is `key`.
pub open spec fn last_with_key(entries: Seq<(String, ModelEntry)>, n: int, i: int, key: Seq<char>) -> bool {
    &&& 0 <= i < n <= entries.len()
    &&& entries[i].0@ == key
    &&& forall|k: int| i < k < n ==> (#[trigger] entries[k]).0@ != key
}

/// Whether some key among the first `n` of `entries` is `key`.
pub open spec fn has_key(entries: Seq<(String, ModelEntry)>, n: int, key: Seq<char>) -> bool {
    exists|i: int| 0 <= i < n && (#[trigger] entries[i]).0@ == key
}

/// Whether the registry entry `x` (a name and an entry) is the last of the
/// first `n` of `entries` with that key, under that key.
pub open spec fn from_last_entry(entries: Seq<(String, ModelEntry)>, n: int, x: (Seq<char>, ModelEntry)) -> bool {
    exists|i: int| #[trigger] last_with_key(entries, n, i, x.0) && keyed_entry(entries[i].1, x.0, x.1)
}

impl ModelEntry {
    /// This entry under the registry key `key`: an entry without a name of
    /// its own is named by its key.
    pub fn under_key(self, key: &str) -> (r: ModelEntry)
        ensures
            keyed_entry(self, key@, r),
    {
        let mut r = self;
        if r.name.as_str().unicode_len() == 0 {
            r.name = String::from_str(key);
        }
        r
    }
}

impl<'a> Keyed for &'a (String, ModelEntry) {
    open spec fn key(&self) -> Seq<char> {
        self.0@
    }

    fn key_str(&self) -> (k: &str) {
        self.0.as_str()
    }
}

impl ModelRegistry {
    /// The same registry with its entries in ascending order of name.
    fn sorted(&self) -> (r: ModelRegistry)
        ensures
            r.default_name() == self.default_name(),
            strictly_sorted(names_of(r@)),
            forall|x: (Seq<char>, ModelEntry)| r@.contains(x) <==> self@.contains(x),
    {
        proof {
            use_type_invariant(self);
        }
        let mut refs: Vec<&(String, ModelEntry)> = Vec::new();
        let mut i: usize = 0;
        while i < self.models.len()
            invariant
                i <= self.models@.len(),
                self@.len() == self.models@.len(),
                refs.len() == i,
                forall|j: int| 0 <= j < i ==> *(#[trigger] refs@[j]) == self.models@[j],
            decreases self.models.len() - i,
        {
            refs.push(&self.models[i]);
            i += 1;
        }
        assert(keys_of(refs@) =~= names_of(self@));
        let sorted = sort_by_key(&refs);
        let mut models: Vec<(String, ModelEntry)> = Vec::new();
        let mut m: usize = 0;
        while m < sorted.len()
            invariant
                m <= sorted@.len(),
                models@.len() == m,
                forall|j: int| 0 <= j < m ==> (#[trigger] models@[j]).0@ == sorted@[j].0@ && models@[j].1
                    == sorted@[j].1,
            decreases sorted.len() - m,
        {
            let p = sorted[m];
            models.push((p.0.clone(), p.1.clone()));
            m += 1;
        }
        let ghost v = models@.map_values(|p: (String, ModelEntry)| (p.0@, p.1));
        proof {
            assert(names_of(v) =~= keys_of(sorted@));
            assert forall|a: int, b: int| 0 <= a < b < names_of(v).len() implies names_of(v)[a]
                != names_of(v)[b] by {
                lemma_lex_irreflexive(names_of(v)[a]);
            }
            assert forall|x: (Seq<char>, ModelEntry)| v.contains(x) <==> self@.contains(x) by {
                if v.contains(x) {
                    let j = choose|j: int| 0 <= j < v.len() && v[j] == x;
                    assert(sorted@.contains(sorted@[j]));
                    assert(refs@.contains(sorted@[j]));
                    let k = choose|k: int| 0 <= k < refs@.len() && refs@[k] == sorted@[j];
                    assert(self@[k] == x);
                }
                if self@.contains(x) {
                    let k = choose|k: int| 0 <= k < self@.len() && self@[k] == x;
                    assert(refs@.contains(refs@[k]));
                    assert(sorted@.contains(refs@[k]));
                    let j = choose|j: int| 0 <= j < sorted@.len() && sorted@[j] == refs@[k];
                    assert(v[j] == x);
                }
            }
        }
        let r = ModelRegistry { models, default: clone_opt_string(&self.default) };
        assert(r@ == v);
        r
    }

    /// The registry of `models.toml`: each entry under its key, named by
    /// the key where it has no name of its own (a later entry for a key
    /// replaces an earlier one), in ascending order of name, with
    /// `default` as the model to load on startup.
    pub fn from_entries(entries: Vec<(String, ModelEntry)>, default: Option<String>) -> (r:
        ModelRegistry)
        ensures
            r.default_name() == (match default {
                Some(d) => Some(d@),
                None => None::<Seq<char>>,
            }),
            strictly_sorted(names_of(r@)),
            forall|k: Seq<char>|
                names_of(r@).contains(k) <==> has_key(entries@, entries@.len() as int, k),
            forall|j: int|
                0 <= j < r@.len() ==> from_last_entry(entries@, entries@.len() as int, #[trigger] r@[j]),
    {
        let mut reg = ModelRegistry::new();
        let ghost es = entries@;
        let mut n: usize = 0;
        while n < entries.len()
            invariant
                n <= es.len(),
                es == entries@,
                reg.default_name() is None,
                names_of(reg@).no_duplicates(),
                forall|k: Seq<char>| names_of(reg@).contains(k) <==> has_key(es, n as int, k),
                forall|j: int| 0 <= j < reg@.len() ==> from_last_entry(es, n as int, #[trigger] reg@[j]),
            decreases entries.len() - n,
        {
            let key = entries[n].0.clone();
            let entry = entries[n].1.clone().under_key(key.as_str());
            let ghost kv = key@;
            let ghost before = reg@;
            proof {
                lemma_first_where(before.len() as int, name_at(before, kv));
            }
            reg.insert(key, entry);
            proof {
                let nn = n + 1;
                let at = first_where(before.len() as int, name_at(before, kv));
                assert(has_key(es, nn as int, kv)) by {
                    assert(es[n as int].0@ == kv);
                }
                assert forall|j: int| 0 <= j < reg@.len() implies from_last_entry(es, nn as int, #[trigger] reg@[j]) by {
                    if reg@[j].0 == kv {
                        assert(last_with_key(es, nn as int, n as int, reg@[j].0));
                        if at is Some {
                            assert(reg@[j] == before[j] || j == at->0);
                            if j != at->0 {
                                assert(names_of(reg@)[j] == names_of(reg@)[at->0]);
                            }
                        } else {
                            if j < before.len() {
                                assert(!name_at(before, kv)(j));
                            }
                        }
                    } else {
                        if at is Some {
                            assert(j != at->0);
                        } else {
                            assert(j < before.len());
                        }
                        assert(reg@[j] == before[j]);
                        let i = choose|i: int|
                            #[trigger] last_with_key(es, n as int, i, before[j].0) && keyed_entry(
                                es[i].1,
                                before[j].0,
                                before[j].1,
                            );
                        assert(last_with_key(es, nn as int, i, reg@[j].0));
                    }
                }
                assert forall|k: Seq<char>| names_of(reg@).contains(k) <==> has_key(
                    es,
                    nn as int,
                    k,
                ) by {
                    if at is Some {
                        let p = at->0;
                        assert(names_of(reg@) =~= names_of(before).update(p, kv));
                        assert(names_of(before)[p] == kv);
                        if names_of(reg@).contains(k) {
                            let j = choose|j: int| 0 <= j < names_of(reg@).len() && names_of(
                                reg@,
                            )[j] == k;
                            assert(names_of(before)[j] == k);
                            assert(names_of(before).contains(k));
                        }
                        if has_key(es, nn as int, k) && k != kv {
                            let i = choose|i: int| 0 <= i < nn && (#[trigger] es[i]).0@ == k;
                            assert(has_key(es, n as int, k));
                            let j = choose|j: int| 0 <= j < names_of(before).len() && names_of(
                                before,
                            )[j] == k;
                            assert(names_of(reg@)[j] == k);
                        }
                        assert(names_of(reg@)[p] == kv);
                    } else {
                        assert(names_of(reg@) =~= names_of(before).push(kv));
                        if names_of(reg@).contains(k) && k != kv {
                            let j = choose|j: int| 0 <= j < names_of(reg@).len() && names_of(
                                reg@,
                            )[j] == k;
                            assert(names_of(before)[j] == k);
                            assert(names_of(before).contains(k));
                        }
                        if has_key(es, nn as int, k) && k != kv {
                            let i = choose|i: int| 0 <= i < nn && (#[trigger] es[i]).0@ == k;
                            assert(has_key(es, n as int, k));
                            let j = choose|j: int| 0 <= j < names_of(before).len() && names_of(
                                before,
                            )[j] == k;
                            assert(names_of(reg@)[j] == k);
                        }
                        assert(names_of(reg@)[before.len() as int] == kv);
                    }
                }
            }
            n += 1;
        }
        reg.set_default_model(default);
        let r = reg.sorted();
        proof {
            assert forall|k: Seq<char>| names_of(r@).contains(k) <==> names_of(reg@).contains(k) by {
                if names_of(r@).contains(k) {
                    let j = choose|j: int| 0 <= j < names_of(r@).len() && names_of(r@)[j] == k;
                    assert(r@.contains(r@[j]));
                    let m = choose|m: int| 0 <= m < reg@.len() && reg@[m] == r@[j];
                    assert(names_of(reg@)[m] == k);
                }
                if names_of(reg@).contains(k) {
                    let m = choose|m: int| 0 <= m < names_of(reg@).len() && names_of(reg@)[m] == k;
                    assert(reg@.contains(reg@[m]));
                    let j = choose|j: int| 0 <= j < r@.len() && r@[j] == reg@[m];
                    assert(names_of(r@)[j] == k);
                }
            }
            assert forall|j: int| 0 <= j < r@.len() implies from_last_entry(entries@, entries@.len() as int, #[trigger] r@[j]) by {
                assert(r@.contains(r@[j]));
                let m = choose|m: int| 0 <= m < reg@.len() && reg@[m] == r@[j];
                let i = choose|i: int|
                    #[trigger] last_with_key(es, es.len() as int, i, reg@[m].0) && keyed_entry(
                        es[i].1,
                        reg@[m].0,
                        reg@[m].1,
                    );
                assert(last_with_key(entries@, entries@.len() as int, i, r@[j].0));
            }
        }
        r
    }
}

/// Resolving a registry name agrees with looking it up: the name resolves
/// as the entry that `get` finds (by name, else by alias) resolves, and
/// gives `NoSuchModel` exactly when `get` finds nothing.
pub proof fn lemma_resolve_name_agrees_with_get(
    entries: Seq<(Seq<char>, ModelEntry)>,
    name: String,
    r: Result<ModelLoadSpec, HarnessError>,
)
    requires
        resolves_spec_to(entries, ModelSpec::RegistryName(name), r),
    ensures
        lookup(entries, name@) matches Some(e) ==> resolves_to(e, r),
        lookup(entries, name@) is None <==> (r matches Err(HarnessError::NoSuchModel(m)) && m@
            == name@),
{
}

/// A registry name that is the name of an entry resolves as that entry.
pub proof fn lemma_resolve_by_name(
    entries: Seq<(Seq<char>, ModelEntry)>,
    name: String,
    i: int,
    r: Result<ModelLoadSpec, HarnessError>,
)
    requires
        names_of(entries).no_duplicates(),
        0 <= i < entries.len(),
        entries[i].0 == name@,
        resolves_spec_to(entries, ModelSpec::RegistryName(name), r),
    ensures
        resolves_to(entries[i].1, r),
{
    let p = name_at(entries, name@);
    lemma_first_where(entries.len() as int, p);
    let f = first_where(entries.len() as int, p);
    assert(p(i));
    if let Some(k) = f {
        if k != i {
            assert(names_of(entries)[k] == entries[k].0);
            assert(names_of(entries)[i] == entries[i].0);
        }
    }
}

/// A registry name that no entry has, but that is the alias of an entry,
/// resolves as the first entry with that alias.
pub proof fn lemma_resolve_by_alias(
    entries: Seq<(Seq<char>, ModelEntry)>,
    name: String,
    i: int,
    r: Result<ModelLoadSpec, HarnessError>,
)
    requires
        forall|j: int| 0 <= j < entries.len() ==> (#[trigger] entries[j]).0 != name@,
        0 <= i < entries.len(),
        has_alias(entries[i].1, name@),
        forall|j: int| 0 <= j < i ==> !has_alias(#[trigger] entries[j].1, name@),
        resolves_spec_to(entries, ModelSpec::RegistryName(name), r),
    ensures
        resolves_to(entries[i].1, r),
{
    let p = name_at(entries, name@);
    let q = alias_at(entries, name@);
    assert forall|j: int| 0 <= j < entries.len() implies !#[trigger] p(j) by {
        assert(entries[j].0 != name@);
    }
    lemma_first_where_absent(entries.len() as int, p);
    assert forall|j: int| 0 <= j < i implies !#[trigger] q(j) by {
        assert(!has_alias(entries[j].1, name@));
    }
    assert(q(i));
    lemma_first_where_found(entries.len() as int, q, i);
}

/// Looking a name up right after setting its entry finds that entry.
pub proof fn lemma_get_after_insert(
    entries: Seq<(Seq<char>, ModelEntry)>,
    name: Seq<char>,
    e: ModelEntry,
)
    ensures
        lookup(inserted(entries, name, e), name) == Some(e),
{
    let at = first_where(entries.len() as int, name_at(entries, name));
    let after = inserted(entries, name, e);
    if at is Some {
        let i = at->0;
        lemma_first_where(entries.len() as int, name_at(entries, name));
        assert forall|j: int| 0 <= j < i implies !#[trigger] name_at(after, name)(j) by {
            assert(after[j] == entries[j]);
            assert(!name_at(entries, name)(j));
        }
        assert(name_at(after, name)(i));
        lemma_first_where_found(after.len() as int, name_at(after, name), i);
    } else {
        let n = entries.len() as int;
        lemma_first_where(n, name_at(entries, name));
        assert forall|j: int| 0 <= j < n implies !#[trigger] name_at(after, name)(j) by {
            assert(after[j] == entries[j]);
            assert(!name_at(entries, name)(j));
        }
        assert(name_at(after, name)(n));
        lemma_first_where_found(after.len() as int, name_at(after, name), n);
    }
}

/// Setting the entry of a name leaves every other name's lookup by name
/// as it was, and keeps the names free of duplicates.
pub proof fn lemma_insert_keeps_other_names(
    entries: Seq<(Seq<char>, ModelEntry)>,
    name: Seq<char>,
    e: ModelEntry,
    other: Seq<char>,
)
    requires
        names_of(entries).no_duplicates(),
        other != name,
    ensures
        names_of(inserted(entries, name, e)).no_duplicates(),
        names_of(inserted(entries, name, e)).contains(other) == names_of(entries).contains(other),
        names_of(inserted(entries, name, e)).contains(name),
{
    let at = first_where(entries.len() as int, name_at(entries, name));
    let after = inserted(entries, name, e);
    if at is Some {
        let i = at->0;
        lemma_first_where(entries.len() as int, name_at(entries, name));
        assert(names_of(after) =~= names_of(entries));
        assert(names_of(after)[i] == name);
    } else {
        let n = entries.len() as int;
        lemma_first_where(n, name_at(entries, name));
        assert forall|j: int| 0 <= j < n implies names_of(entries)[j] != name by {
            assert(!name_at(entries, name)(j));
        }
        assert(names_of(after) =~= names_of(entries).push(name));
        assert(names_of(after)[n] == name);
        if names_of(after).contains(other) {
            let j = choose|j: int| 0 <= j < names_of(after).len() && names_of(after)[j] == other;
            assert(names_of(entries)[j] == other);
        }
        if names_of(entries).contains(other) {
            let j = choose|j: int| 0 <= j < names_of(entries).len() && names_of(entries)[j] == other;
            assert(names_of(after)[j] == other);
        }
    }
}

/// Whether `c` ends a path component where `sep` is the platform's main
/// separator: `sep` itself, or `/`, which every platform accepts.
pub open spec fn is_separator(c: char, sep: char) -> bool {
    c == sep || c == '/'
}

/// `base` joined with the relative path `part`, where `sep` is the
/// platform's main separator: `sep` goes between them unless `base` is
/// empty or already ends with a separator. This is how `PathBuf::join`
/// adjoins a relative path to a base without a Windows prefix (Unix paths,
/// and Windows paths such as `C:\Users\u`). A base that is a bare Windows
/// drive (`C:`) or starts with a verbatim prefix (`\\?\`) is not treated
/// as `PathBuf::join` treats it: no separator is left out for the bare
/// drive, and a verbatim base is not normalized.
pub open spec fn path_join(base: Seq<char>, part: Seq<char>, sep: char) -> Seq<char> {
    if base.len() == 0 || is_separator(base.last(), sep) {
        base + part
    } else {
        base.push(sep) + part
    }
}

/// Where the registry lives under the home directory `home`, where `sep`
/// is the platform's main separator.
pub open spec fn registry_path_under(home: Seq<char>, sep: char) -> Seq<char> {
    path_join(path_join(home, ".llama-harness"@, sep), "models.toml"@, sep)
}

/// `dirs::home_dir`: the current user's home directory, if the platform
/// names one, as text (lossily, where the path is not valid UTF-8). Nothing
/// is stated of it: it comes from the environment.
#[verifier::external_body]
fn home_dir() -> (r: Option<String>) {
    dirs::home_dir().map(|p| p.to_string_lossy().into_owned())
}

/// `std::path::MAIN_SEPARATOR`: the separator of path components on the
/// platform the library was built for (`/` on Unix, `\` on Windows).
/// Nothing is stated of it: it depends on the platform.
#[verifier::external_body]
fn main_separator() -> (c: char) {
    std::path::MAIN_SEPARATOR
}

/// `base` joined with the relative path `part` by the rule of
/// [`path_join`], where `sep` is the platform's main separator.
fn join_path(base: &str, part: &str, sep: char) -> (r: String)
    ensures
        r@ == path_join(base@, part@, sep),
{
    let cs = crate::text::chars_of(base);
    let mut r = String::from_str(base);
    if cs.len() > 0 {
        let last = cs[cs.len() - 1];
        if last != sep && last != '/' {
            push_char(&mut r, sep);
        }
    }
    r.append(part);
    r
}

/// The registry path under the home directory `home`, where `sep` is the
/// platform's main separator: `<home>/.llama-harness/models.toml`.
pub fn default_path_in(home: &str, sep: char) -> (r: String)
    ensures
        r@ == registry_path_under(home@, sep),
{
    let dir = join_path(home, ".llama-harness", sep);
    join_path(dir.as_str(), "models.toml", sep)
}

/// The default registry path for the home directory `home`, if there is
/// one, where `sep` is the platform's main separator.
pub fn default_path_from(home: Option<&str>, sep: char) -> (r: Option<String>)
    ensures
        match home {
            Some(h) => r matches Some(p) && p@ == registry_path_under(h@, sep),
            None => r is None,
        },
{
    match home {
        Some(h) => Some(default_path_in(h, sep)),
        None => None,
    }
}

impl ModelRegistry {
    /// Default registry path: `~/.llama-harness/models.toml`, or `None` when
    /// there is no home directory.
    pub fn default_path() -> (r: Option<String>)
        ensures
            r matches Some(p) ==> exists|home: Seq<char>, sep: char|
                p@ == #[trigger] registry_path_under(home, sep),
    {
        let sep = main_separator();
        match home_dir() {
            Some(h) => default_path_from(Some(h.as_str()), sep),
            None => default_path_from(None, sep),
        }
    }
}

} // verus!
