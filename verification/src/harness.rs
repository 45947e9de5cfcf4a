//! The harness's decisions about loaded models: which models are resident,
//! in which order they were last used, which one answers requests that
//! name none, and which ones make room when a new one is loaded.
//!
//! Loading a new model past the configured cap evicts the least recently
//! used ones. The engine work (loading, unloading, activating) is done by
//! the caller between the steps that [`ModelCache`] takes.
use vstd::prelude::*;
use vstd::string::StringExecFns;

use crate::error::HarnessError;
use crate::model::ModelInfo;
use crate::registry::{names_of, registry_path_under, ModelRegistry};
use crate::text::{
    clone_opt_string, keys_of, lemma_lex_irreflexive, sort_by_key, str_eq, strictly_sorted,
    string_views,
};

verus! {

/// Builder for the harness: where the registry lives and how many models
/// may stay loaded at once.
#[derive(Debug)]
pub struct HarnessBuilder {
    registry_path: Option<String>,
    max_loaded_models: usize,
}

impl HarnessBuilder {
    /// The registry path that was set, if any.
    pub closed spec fn path_setting(&self) -> Option<Seq<char>> {
        match self.registry_path {
            Some(p) => Some(p@),
            None => None,
        }
    }

    /// The cap on loaded models that was asked for.
    pub closed spec fn cap_setting(&self) -> nat {
        self.max_loaded_models as nat
    }

    /// Set the path to `models.toml`. Defaults to `~/.llama-harness/models.toml`.
    pub fn registry_path(self, p: &str) -> (b: HarnessBuilder)
        ensures
            b.path_setting() == Some(p@),
            b.cap_setting() == self.cap_setting(),
    {
        let mut b = self;
        b.registry_path = Some(String::from_str(p));
        b
    }

    /// Set the maximum number of models to keep loaded simultaneously.
    /// Loading a new model past this cap evicts the least-recently-used one.
    /// Default: 2.
    pub fn max_loaded_models(self, n: usize) -> (b: HarnessBuilder)
        ensures
            b.path_setting() == self.path_setting(),
            b.cap_setting() == n,
    {
        let mut b = self;
        b.max_loaded_models = n;
        b
    }

    /// The registry path that was set, if any.
    pub fn registry_path_value(&self) -> (r: Option<String>)
        ensures
            match r {
                Some(p) => self.path_setting() == Some(p@),
                None => self.path_setting() is None,
            },
    {
        clone_opt_string(&self.registry_path)
    }

    /// The registry file the harness reads: the path that was set, else
    /// `~/.llama-harness/models.toml`; `None` when no path was set and
    /// there is no home directory.
    pub fn registry_file(&self) -> (r: Option<String>)
        ensures
            self.path_setting() matches Some(p) ==> r matches Some(q) && q@ == p,
            self.path_setting() is None ==> (r matches Some(q) ==> exists|home: Seq<char>, sep: char|
                q@ == #[trigger] registry_path_under(home, sep)),
    {
        match &self.registry_path {
            Some(p) => Some(p.clone()),
            None => ModelRegistry::default_path(),
        }
    }

    /// The cap the harness is built with: the one asked for, but at least one.
    pub fn loaded_model_cap(&self) -> (n: usize)
        ensures
            n == (if self.cap_setting() >= 1 {
                self.cap_setting()
            } else {
                1
            }),
    {
        if self.max_loaded_models >= 1 {
            self.max_loaded_models
        } else {
            1
        }
    }
}

impl Default for HarnessBuilder {
    fn default() -> (b: HarnessBuilder)
        ensures
            b.path_setting() is None,
            b.cap_setting() == 2,
    {
        HarnessBuilder { registry_path: None, max_loaded_models: 2 }
    }
}

/// The abstract state of a [`ModelCache`].
pub struct CacheView {
    /// The loaded models, least recently used first.
    pub entries: Seq<(Seq<char>, ModelInfo)>,
    /// The model that answers requests that name none.
    pub active: Option<Seq<char>>,
    /// How many models may be loaded at once.
    pub capacity: nat,
}

/// The ids of the loaded models, least recently used first.
pub open spec fn ids(entries: Seq<(Seq<char>, ModelInfo)>) -> Seq<Seq<char>> {
    entries.map_values(|e: (Seq<char>, ModelInfo)| e.0)
}

/// `active`, if its model is among `entries`.
pub open spec fn kept_active(active: Option<Seq<char>>, entries: Seq<(Seq<char>, ModelInfo)>) -> Option<
    Seq<char>,
> {
    match active {
        Some(a) => if ids(entries).contains(a) {
            Some(a)
        } else {
            None
        },
        None => None,
    }
}

/// Whether an entry belongs to a model other than `id`.
pub open spec fn other_than(id: Seq<char>) -> spec_fn((Seq<char>, ModelInfo)) -> bool {
    |e: (Seq<char>, ModelInfo)| e.0 != id
}

/// How many of the least recently used models make room for one more.
pub open spec fn evict_count(len: nat, capacity: nat) -> nat {
    if len >= capacity {
        (len - capacity + 1) as nat
    } else {
        0
    }
}

impl CacheView {
    /// Whether the model `id` is loaded.
    pub open spec fn is_loaded(self, id: Seq<char>) -> bool {
        ids(self.entries).contains(id)
    }

    /// The cache's invariant: no model is loaded twice, no more than
    /// `capacity` are loaded, the capacity is at least one, and the
    /// active model is a loaded one.
    pub open spec fn wf(self) -> bool {
        &&& ids(self.entries).no_duplicates()
        &&& self.entries.len() <= self.capacity
        &&& self.capacity >= 1
        &&& (self.active matches Some(a) ==> self.is_loaded(a))
    }

    /// The state after a request for `id` when `id` is loaded at `i`: the
    /// model becomes the most recently used one.
    pub open spec fn touched(self, i: int) -> CacheView {
        CacheView {
            entries: self.entries.remove(i).push(self.entries[i]),
            active: self.active,
            capacity: self.capacity,
        }
    }

    /// The state after the least recently used models made room for one
    /// more; the active model stays only if it was not evicted.
    pub open spec fn evicted(self) -> CacheView {
        let k = evict_count(self.entries.len(), self.capacity);
        CacheView {
            entries: self.entries.skip(k as int),
            active: kept_active(self.active, self.entries.skip(k as int)),
            capacity: self.capacity,
        }
    }

    /// The state after the first step of loading `id`.
    pub open spec fn begun(self, id: Seq<char>) -> CacheView {
        if self.is_loaded(id) {
            self.touched(ids(self.entries).index_of(id))
        } else {
            self.evicted()
        }
    }

    /// The state after the engine loaded `id`, which reported `info`: the
    /// model is the most recently used one, and the active one if there
    /// was none.
    pub open spec fn finished(self, id: Seq<char>, info: ModelInfo) -> CacheView {
        CacheView {
            entries: self.entries.push((id, info)),
            active: if self.active is None {
                Some(id)
            } else {
                self.active
            },
            capacity: self.capacity,
        }
    }

    /// The state after loading `id`, whose engine reports `info` when it is
    /// not loaded yet.
    pub open spec fn loaded_with(self, id: Seq<char>, info: ModelInfo) -> CacheView {
        if self.is_loaded(id) {
            self.begun(id)
        } else {
            self.begun(id).finished(id, info)
        }
    }

    /// The state after unloading `id`.
    pub open spec fn without(self, id: Seq<char>) -> CacheView {
        let rest = self.entries.filter(other_than(id));
        CacheView { entries: rest, active: kept_active(self.active, rest), capacity: self.capacity }
    }
}

/// What a chat request that names `model` (or none) is routed to.
pub open spec fn routes_to(
    v: CacheView,
    model: Option<Seq<char>>,
    r: Result<String, HarnessError>,
) -> bool {
    match model {
        Some(id) => if v.is_loaded(id) {
            r matches Ok(s) && s@ == id
        } else {
            r matches Err(HarnessError::ModelNotLoaded(m)) && m@ == id
        },
        None => match v.active {
            Some(a) => r matches Ok(s) && s@ == a,
            None => r matches Err(HarnessError::NoActiveModel),
        },
    }
}

/// What the first step of loading a model tells the caller.
#[derive(Debug)]
pub enum LoadStep {
    /// The model was loaded already; this is what is known of it.
    Ready(ModelInfo),
    /// The engine must unload these models, least recently used first,
    /// and then load the requested one.
    Load(Vec<String>),
}

/// The loaded models, least recently used first, and the active one.
#[derive(Debug)]
pub struct ModelCache {
    entries: Vec<(String, ModelInfo)>,
    active: Option<String>,
    capacity: usize,
}

impl View for ModelCache {
    type V = CacheView;

    closed spec fn view(&self) -> CacheView {
        CacheView {
            entries: self.entries@.map_values(|p: (String, ModelInfo)| (p.0@, p.1)),
            active: match self.active {
                Some(a) => Some(a@),
                None => None,
            },
            capacity: self.capacity as nat,
        }
    }
}

/// The entries of a vector of loaded models.
pub open spec fn entries_view(v: Seq<(String, ModelInfo)>) -> Seq<(Seq<char>, ModelInfo)> {
    v.map_values(|p: (String, ModelInfo)| (p.0@, p.1))
}

/// The position of `id` among `entries`, if it is there.
fn position_of(entries: &Vec<(String, ModelInfo)>, id: &str) -> (r: Option<usize>)
    ensures
        match r {
            Some(i) => i < entries@.len() && entries@[i as int].0@ == id@ && ids(
                entries_view(entries@),
            ).contains(id@),
            None => !ids(entries_view(entries@)).contains(id@),
        },
{
    let mut i: usize = 0;
    while i < entries.len()
        invariant
            i <= entries@.len(),
            forall|j: int| 0 <= j < i ==> (#[trigger] entries@[j]).0@ != id@,
        decreases entries.len() - i,
    {
        if str_eq(entries[i].0.as_str(), id) {
            assert(ids(entries_view(entries@))[i as int] == id@);
            return Some(i);
        }
        i += 1;
    }
    proof {
        if ids(entries_view(entries@)).contains(id@) {
            let j = choose|j: int|
                0 <= j < ids(entries_view(entries@)).len() && ids(entries_view(entries@))[j]
                    == id@;
            assert(ids(entries_view(entries@))[j] == entries@[j].0@);
        }
    }
    None
}

impl ModelCache {
    #[verifier::type_invariant]
    spec fn well_formed(self) -> bool {
        self@.wf()
    }

    /// An empty cache that keeps at most `capacity` models (at least one).
    pub fn new(capacity: usize) -> (c: ModelCache)
        ensures
            c@.wf(),
            c@.entries == Seq::<(Seq<char>, ModelInfo)>::empty(),
            c@.active is None,
            c@.capacity == (if capacity >= 1 {
                capacity as nat
            } else {
                1
            }),
    {
        let c = ModelCache {
            entries: Vec::new(),
            active: None,
            capacity: if capacity >= 1 {
                capacity
            } else {
                1
            },
        };
        assert(ids(c@.entries) =~= Seq::<Seq<char>>::empty());
        c
    }

    /// How many models may be loaded at once.
    pub fn capacity(&self) -> (n: usize)
        ensures
            n == self@.capacity,
    {
        self.capacity
    }

    /// True if `name` is currently loaded.
    pub fn is_loaded(&self, name: &str) -> (b: bool)
        ensures
            b == self@.is_loaded(name@),
    {
        position_of(&self.entries, name).is_some()
    }

    /// Snapshot of the currently loaded models, least recently used first.
    pub fn loaded_models(&self) -> (r: Vec<ModelInfo>)
        ensures
            r@ == self@.entries.map_values(|e: (Seq<char>, ModelInfo)| e.1),
            r@.len() <= self@.capacity,
    {
        proof {
            use_type_invariant(self);
        }
        let mut r: Vec<ModelInfo> = Vec::new();
        let mut i: usize = 0;
        while i < self.entries.len()
            invariant
                i <= self.entries@.len(),
                r@ == self@.entries.take(i as int).map_values(|e: (Seq<char>, ModelInfo)| e.1),
            decreases self.entries.len() - i,
        {
            r.push(self.entries[i].1.clone());
            proof {
                assert(self@.entries.take(i + 1).map_values(|e: (Seq<char>, ModelInfo)| e.1)
                    =~= self@.entries.take(i as int).map_values(|e: (Seq<char>, ModelInfo)| e.1).push(
                    self.entries@[i as int].1,
                ));
            }
            i += 1;
        }
        assert(self@.entries.take(self.entries.len() as int) =~= self@.entries);
        r
    }

    /// Name of the active model, if any.
    pub fn active_model(&self) -> (r: Option<String>)
        ensures
            match r {
                Some(a) => self@.active == Some(a@),
                None => self@.active is None,
            },
    {
        clone_opt_string(&self.active)
    }

    /// The model a chat request is answered by: the one it names, which
    /// must be loaded, or else the active one.
    pub fn route(&self, model: Option<&str>) -> (r: Result<String, HarnessError>)
        ensures
            routes_to(
                self@,
                match model {
                    Some(m) => Some(m@),
                    None => None,
                },
                r,
            ),
    {
        match model {
            Some(id) => {
                if self.is_loaded(id) {
                    Ok(String::from_str(id))
                } else {
                    Err(HarnessError::ModelNotLoaded(String::from_str(id)))
                }
            },
            None => match &self.active {
                Some(a) => Ok(a.clone()),
                None => Err(HarnessError::NoActiveModel),
            },
        }
    }

    /// Set the active model. Future requests that name no model use this one.
    pub fn set_active(&mut self, name: &str) -> (r: Result<(), HarnessError>)
        ensures
            final(self)@.wf(),
            old(self)@.is_loaded(name@) ==> r is Ok && final(self)@ == (CacheView {
                active: Some(name@),
                ..old(self)@
            }),
            !old(self)@.is_loaded(name@) ==> final(self)@ == old(self)@ && (r matches Err(
                HarnessError::ModelNotLoaded(m),
            ) && m@ == name@),
    {
        proof {
            use_type_invariant(&*self);
        }
        if !self.is_loaded(name) {
            return Err(HarnessError::ModelNotLoaded(String::from_str(name)));
        }
        self.active = Some(String::from_str(name));
        Ok(())
    }

    /// Forget the model `name`: it is no longer loaded, and no longer active.
    pub fn unload(&mut self, name: &str)
        ensures
            final(self)@.wf(),
            final(self)@ == old(self)@.without(name@),
    {
        proof {
            use_type_invariant(&*self);
        }
        let ghost before = self@;
        let mut active: Option<String> = None;
        std::mem::swap(&mut active, &mut self.active);
        if let Some(i) = position_of(&self.entries, name) {
            let mut entries: Vec<(String, ModelInfo)> = Vec::new();
            std::mem::swap(&mut entries, &mut self.entries);
            let ghost ev = entries_view(entries@);
            assert(ev == before.entries);
            entries.remove(i);
            proof {
                let f = other_than(name@);
                assert(ids(ev)[i as int] == name@);
                assert forall|j: int| 0 <= j < ev.len() && j != i implies #[trigger] f(ev[j]) by {
                    assert(ids(ev)[j] == ev[j].0);
                }
                lemma_filter_removes_one(ev, f, i as int);
                assert(entries_view(entries@) =~= ev.remove(i as int));
                assert(ids(ev.remove(i as int)) =~= ids(ev).remove(i as int));
            }
            self.entries = entries;
        } else {
            proof {
                let f = other_than(name@);
                assert forall|j: int| 0 <= j < before.entries.len() implies #[trigger] f(
                    before.entries[j],
                ) by {
                    assert(ids(before.entries)[j] == before.entries[j].0);
                }
                lemma_filter_keeps_all(before.entries, f);
            }
        }
        let keep = match &active {
            Some(a) => position_of(&self.entries, a.as_str()).is_some(),
            None => false,
        };
        if keep {
            self.active = active;
        }
        proof {
            assert(self@.entries == before.without(name@).entries);
        }
    }

    /// First step of loading `id`. If it is loaded, it becomes the most
    /// recently used model and what is known of it is returned. Otherwise
    /// the least recently used models make room for one more and are
    /// returned, for the engine to unload them before it loads `id`.
    pub fn begin_load(&mut self, id: &str) -> (step: LoadStep)
        ensures
            final(self)@.wf(),
            final(self)@ == old(self)@.begun(id@),
            old(self)@.is_loaded(id@) ==> (step matches LoadStep::Ready(info) && info == old(
                self,
            )@.entries[ids(old(self)@.entries).index_of(id@)].1),
            !old(self)@.is_loaded(id@) ==> (step matches LoadStep::Load(gone) && string_views(gone@) == ids(old(self)@.entries).take(
                evict_count(old(self)@.entries.len(), old(self)@.capacity) as int,
            )),
            !final(self)@.is_loaded(id@) ==> final(self)@.entries.len() < final(self)@.capacity,
    {
        proof {
            use_type_invariant(&*self);
        }
        let ghost before = self@;
        let mut active: Option<String> = None;
        std::mem::swap(&mut active, &mut self.active);
        let mut entries: Vec<(String, ModelInfo)> = Vec::new();
        std::mem::swap(&mut entries, &mut self.entries);
        let ghost ev = entries_view(entries@);
        assert(ev == before.entries);
        match position_of(&entries, id) {
            Some(i) => {
                proof {
                    assert(ids(ev)[i as int] == id@);
                    assert(ids(ev).contains(id@));
                    let c = ids(ev).index_of(id@);
                    assert(0 <= c < ids(ev).len() && ids(ev)[c] == id@);
                    assert(c == i);
                }
                let pair = entries.remove(i);
                let info = pair.1.clone();
                entries.push(pair);
                proof {
                    let t = before.touched(i as int);
                    assert(entries_view(entries@) =~= t.entries);
                    assert(ids(t.entries) =~= ids(ev).remove(i as int).push(ids(ev)[i as int]));
                    lemma_move_last_unique(ids(ev), i as int);
                    assert forall|a: Seq<char>| ids(ev).contains(a) implies ids(
                        t.entries,
                    ).contains(a) by {
                        let j = choose|j: int| 0 <= j < ids(ev).len() && ids(ev)[j] == a;
                        if j < i {
                            assert(ids(t.entries)[j] == a);
                        } else if j > i {
                            assert(ids(t.entries)[j - 1] == a);
                        } else {
                            assert(ids(t.entries)[ids(t.entries).len() - 1] == a);
                        }
                    }
                }
                self.entries = entries;
                self.active = active;
                LoadStep::Ready(info)
            },
            None => {
                let ghost n = entries@.len();
                let ghost k = evict_count(n as nat, self.capacity as nat);
                let mut gone: Vec<String> = Vec::new();
                while entries.len() >= self.capacity
                    invariant
                        self.capacity == before.capacity,
                        self.capacity >= 1,
                        n == before.entries.len(),
                        ev.len() == n,
                        gone.len() <= n,
                        entries.len() == n - gone.len(),
                        entries_view(entries@) == ev.skip(gone.len() as int),
                        string_views(gone@) == ids(ev).take(gone.len() as int),
                        n >= self.capacity ==> gone.len() <= n - self.capacity + 1,
                        n < self.capacity ==> gone.len() == 0,
                    decreases entries.len(),
                {
                    let ghost g = gone.len();
                    let ghost oe = entries@;
                    let pair = entries.remove(0);
                    proof {
                        assert(entries_view(oe)[0] == ev.skip(g as int)[0]);
                        assert(ev.skip(g as int)[0] == ev[g as int]);
                        assert(ids(ev)[g as int] == ev[g as int].0);
                        assert(pair.0@ == ids(ev)[g as int]);
                        assert forall|j: int| 0 <= j < entries@.len() implies #[trigger] entries_view(
                            entries@,
                        )[j] == ev.skip(g + 1)[j] by {
                            assert(entries@[j] == oe[j + 1]);
                            assert(entries_view(oe)[j + 1] == ev.skip(g as int)[j + 1]);
                        }
                        assert(entries_view(entries@) =~= ev.skip(g + 1));
                    }
                    gone.push(pair.0);
                    proof {
                        assert(string_views(gone@) =~= ids(ev).take(g + 1));
                    }
                }
                assert(gone.len() == k);
                proof {
                    let rest = ev.skip(k as int);
                    assert(ids(rest) =~= ids(ev).skip(k as int));
                    assert forall|a: int, b: int|
                        0 <= a < ids(rest).len() && 0 <= b < ids(rest).len() && a != b implies ids(
                        rest,
                    )[a] != ids(rest)[b] by {
                        assert(ids(rest)[a] == ids(ev)[a + k]);
                        assert(ids(rest)[b] == ids(ev)[b + k]);
                    }
                    assert(!ids(rest).contains(id@)) by {
                        if ids(rest).contains(id@) {
                            let j = choose|j: int| 0 <= j < ids(rest).len() && ids(rest)[j] == id@;
                            assert(ids(ev)[j + k] == id@);
                        }
                    }
                }
                self.entries = entries;
                let keep = match &active {
                    Some(a) => position_of(&self.entries, a.as_str()).is_some(),
                    None => false,
                };
                if keep {
                    self.active = active;
                }
                LoadStep::Load(gone)
            },
        }
    }

    /// Second step of loading `id`, after the engine loaded it and reported
    /// `info`: `id` becomes the most recently used model, and the active one
    /// if there was none. Returns whether it became the active one.
    pub fn finish_load(&mut self, id: &str, info: ModelInfo) -> (activated: bool)
        requires
            !old(self)@.is_loaded(id@),
            old(self)@.entries.len() < old(self)@.capacity,
        ensures
            final(self)@.wf(),
            final(self)@ == old(self)@.finished(id@, info),
            activated == (old(self)@.active is None),
    {
        proof {
            use_type_invariant(&*self);
        }
        let ghost before = self@;
        let mut entries: Vec<(String, ModelInfo)> = Vec::new();
        let mut active: Option<String> = None;
        std::mem::swap(&mut active, &mut self.active);
        std::mem::swap(&mut entries, &mut self.entries);
        let ghost ev = entries_view(entries@);
        entries.push((String::from_str(id), info));
        proof {
            assert(entries_view(entries@) =~= ev.push((id@, info)));
            assert(ids(ev.push((id@, info))) =~= ids(ev).push(id@));
            assert forall|a: Seq<char>| ids(ev).contains(a) implies ids(ev).push(id@).contains(
                a,
            ) by {
                let j = choose|j: int| 0 <= j < ids(ev).len() && ids(ev)[j] == a;
                assert(ids(ev).push(id@)[j] == a);
            }
            assert(ids(ev).push(id@)[ids(ev).len() as int] == id@);
        }
        self.entries = entries;
        let activated = active.is_none();
        if activated {
            self.active = Some(String::from_str(id));
        } else {
            self.active = active;
        }
        activated
    }

    /// List all known model names: those of the registry and those loaded,
    /// each once, in ascending order.
    pub fn list(&self, registry: &ModelRegistry) -> (r: Vec<String>)
        ensures
            strictly_sorted(string_views(r@)),
            forall|k: Seq<char>|
                string_views(r@).contains(k) <==> (names_of(registry@).contains(k)
                    || ids(self@.entries).contains(k)),
    {
        let mut all: Vec<&str> = registry.names();
        proof {
            assert forall|a: int, b: int|
                0 <= a < keys_of(all@).len() && 0 <= b < keys_of(all@).len() && a != b implies keys_of(
                all@,
            )[a] != keys_of(all@)[b] by {
                if a < b {
                    lemma_lex_irreflexive(keys_of(all@)[a]);
                } else {
                    lemma_lex_irreflexive(keys_of(all@)[b]);
                }
            }
        }
        let ghost base = keys_of(all@);
        let mut i: usize = 0;
        while i < self.entries.len()
            invariant
                i <= self.entries@.len(),
                keys_of(all@).no_duplicates(),
                forall|k: Seq<char>|
                    keys_of(all@).contains(k) <==> (base.contains(k) || ids(self@.entries).take(
                        i as int,
                    ).contains(k)),
            decreases self.entries.len() - i,
        {
            let id = self.entries[i].0.as_str();
            let ghost before = keys_of(all@);
            let ghost t0 = ids(self@.entries).take(i as int);
            let mut present = false;
            let mut j: usize = 0;
            while j < all.len()
                invariant
                    j <= all@.len(),
                    before == keys_of(all@),
                    before.no_duplicates(),
                    forall|k: Seq<char>|
                        before.contains(k) <==> (base.contains(k) || t0.contains(k)),
                    !present ==> forall|m: int| 0 <= m < j ==> #[trigger] before[m] != id@,
                    present ==> before.contains(id@),
                decreases all.len() - j,
            {
                if str_eq(all[j], id) {
                    present = true;
                    assert(before[j as int] == id@);
                }
                j += 1;
            }
            proof {
                let t0 = ids(self@.entries).take(i as int);
                let t1 = ids(self@.entries).take(i + 1);
                assert(ids(self@.entries)[i as int] == id@);
                assert(t1 =~= t0.push(id@));
                assert forall|k: Seq<char>| t1.contains(k) <==> (t0.contains(k) || k == id@) by {
                    if t1.contains(k) {
                        let m = choose|m: int| 0 <= m < t1.len() && t1[m] == k;
                        if m < t0.len() {
                            assert(t0[m] == k);
                        }
                    }
                    if t0.contains(k) {
                        let m = choose|m: int| 0 <= m < t0.len() && t0[m] == k;
                        assert(t1[m] == k);
                    }
                    if k == id@ {
                        assert(t1[i as int] == k);
                    }
                }
            }
            if !present {
                all.push(id);
                proof {
                    assert forall|a: int, b: int|
                        0 <= a < keys_of(all@).len() && 0 <= b < keys_of(all@).len() && a != b implies keys_of(
                        all@,
                    )[a] != keys_of(all@)[b] by {
                        if a < before.len() {
                            assert(keys_of(all@)[a] == before[a]);
                        }
                        if b < before.len() {
                            assert(keys_of(all@)[b] == before[b]);
                        }
                    }
                    assert(keys_of(all@) =~= before.push(id@));
                    assert forall|k: Seq<char>| keys_of(all@).contains(k) <==> before.contains(k)
                        || k == id@ by {
                        if keys_of(all@).contains(k) {
                            let m = choose|m: int| 0 <= m < keys_of(all@).len() && keys_of(all@)[m]
                                == k;
                            if m < before.len() {
                                assert(before[m] == k);
                            }
                        }
                        if before.contains(k) {
                            let m = choose|m: int| 0 <= m < before.len() && before[m] == k;
                            assert(keys_of(all@)[m] == k);
                        }
                        if k == id@ {
                            assert(keys_of(all@)[before.len() as int] == k);
                        }
                    }
                }
            }
            proof {
                let t0 = ids(self@.entries).take(i as int);
                let t1 = ids(self@.entries).take(i + 1);
                assert forall|k: Seq<char>| keys_of(all@).contains(k) <==> (base.contains(k)
                    || t1.contains(k)) by {
                    if k == id@ {
                        assert(t1.contains(k));
                        if !present {
                            assert(keys_of(all@)[before.len() as int] == id@);
                            assert(keys_of(all@).contains(k));
                        }
                    } else {
                        assert(keys_of(all@).contains(k) <==> before.contains(k));
                        assert(before.contains(k) <==> (base.contains(k) || t0.contains(k)));
                        assert(t1.contains(k) <==> t0.contains(k));
                    }
                }
            }
            i += 1;
        }
        assert(ids(self@.entries).take(self.entries.len() as int) =~= ids(self@.entries));
        let sorted = sort_by_key(&all);
        proof {
            assert forall|k: Seq<char>| keys_of(sorted@).contains(k) <==> keys_of(all@).contains(k) by {
                if keys_of(sorted@).contains(k) {
                    let a = choose|a: int| 0 <= a < keys_of(sorted@).len() && keys_of(sorted@)[a]
                        == k;
                    assert(all@.contains(sorted@[a]));
                    let b = choose|b: int| 0 <= b < all@.len() && all@[b] == sorted@[a];
                    assert(keys_of(all@)[b] == k);
                }
                if keys_of(all@).contains(k) {
                    let b = choose|b: int| 0 <= b < keys_of(all@).len() && keys_of(all@)[b] == k;
                    assert(sorted@.contains(all@[b]));
                    let a = choose|a: int| 0 <= a < sorted@.len() && sorted@[a] == all@[b];
                    assert(keys_of(sorted@)[a] == k);
                }
            }
            assert forall|k: Seq<char>|
                keys_of(sorted@).contains(k) <==> (names_of(registry@).contains(k) || ids(
                    self@.entries,
                ).contains(k)) by {
                assert(keys_of(all@).contains(k) <==> (base.contains(k) || ids(
                    self@.entries,
                ).contains(k)));
            }
        }
        let mut r: Vec<String> = Vec::new();
        let mut m: usize = 0;
        while m < sorted.len()
            invariant
                m <= sorted@.len(),
                r.len() == m,
                string_views(r@) == keys_of(sorted@).take(m as int),
                forall|k: Seq<char>|
                    keys_of(sorted@).contains(k) <==> (names_of(registry@).contains(k) || ids(
                        self@.entries,
                    ).contains(k)),
            decreases sorted.len() - m,
        {
            let ghost old_r = r@;
            r.push(String::from_str(sorted[m]));
            proof {
                assert(keys_of(sorted@)[m as int] == sorted@[m as int]@);
                assert(r@[m as int]@ == sorted@[m as int]@);
                assert forall|j: int| 0 <= j <= m implies #[trigger] string_views(r@)[j] == keys_of(sorted@).take(m + 1)[j] by {
                    if j < m {
                        assert(r@[j] == old_r[j]);
                        assert(string_views(old_r)[j] == keys_of(sorted@).take(
                            m as int,
                        )[j]);
                    }
                }
                assert(string_views(r@) =~= keys_of(sorted@).take(m + 1));
            }
            m += 1;
        }
        assert(keys_of(sorted@).take(sorted.len() as int) =~= keys_of(sorted@));
        r
    }
}

/// Removing the one element that fails `f` is what filtering by `f` does.
pub proof fn lemma_filter_removes_one<A>(s: Seq<A>, f: spec_fn(A) -> bool, i: int)
    requires
        0 <= i < s.len(),
        !f(s[i]),
        forall|j: int| 0 <= j < s.len() && j != i ==> #[trigger] f(s[j]),
    ensures
        s.filter(f) == s.remove(i),
    decreases s.len(),
{
    reveal_with_fuel(Seq::filter, 1);
    if i == s.len() - 1 {
        lemma_filter_keeps_all(s.drop_last(), f);
        assert(s.remove(i) =~= s.drop_last());
    } else {
        lemma_filter_removes_one(s.drop_last(), f, i);
        assert(s.remove(i) =~= s.drop_last().remove(i).push(s.last()));
    }
}

/// Filtering by a predicate that every element meets keeps them all.
pub proof fn lemma_filter_keeps_all<A>(s: Seq<A>, f: spec_fn(A) -> bool)
    requires
        forall|j: int| 0 <= j < s.len() ==> #[trigger] f(s[j]),
    ensures
        s.filter(f) == s,
    decreases s.len(),
{
    reveal_with_fuel(Seq::filter, 1);
    if s.len() > 0 {
        lemma_filter_keeps_all(s.drop_last(), f);
        assert(s.drop_last().push(s.last()) =~= s);
    }
}

/// Moving one element of a duplicate-free sequence to its end keeps it
/// free of duplicates.
pub proof fn lemma_move_last_unique<A>(s: Seq<A>, i: int)
    requires
        0 <= i < s.len(),
        s.no_duplicates(),
    ensures
        s.remove(i).push(s[i]).no_duplicates(),
{
    let t = s.remove(i).push(s[i]);
    assert forall|a: int, b: int| 0 <= a < t.len() && 0 <= b < t.len() && a != b implies t[a]
        != t[b] by {
        let sa = if a == t.len() - 1 {
            i
        } else if a < i {
            a
        } else {
            a + 1
        };
        let sb = if b == t.len() - 1 {
            i
        } else if b < i {
            b
        } else {
            b + 1
        };
        assert(t[a] == s[sa]);
        assert(t[b] == s[sb]);
    }
}

/// Removing one element of a duplicate-free sequence removes exactly that
/// value and keeps the sequence free of duplicates.
pub proof fn lemma_remove_unique<A>(s: Seq<A>, i: int)
    requires
        0 <= i < s.len(),
        s.no_duplicates(),
    ensures
        s.remove(i).no_duplicates(),
        !s.remove(i).contains(s[i]),
        forall|x: A| x != s[i] ==> (s.remove(i).contains(x) <==> s.contains(x)),
{
    let t = s.remove(i);
    assert forall|a: int, b: int| 0 <= a < t.len() && 0 <= b < t.len() && a != b implies t[a]
        != t[b] by {
        let sa = if a < i {
            a
        } else {
            a + 1
        };
        let sb = if b < i {
            b
        } else {
            b + 1
        };
        assert(t[a] == s[sa]);
        assert(t[b] == s[sb]);
    }
    if t.contains(s[i]) {
        let j = choose|j: int| 0 <= j < t.len() && t[j] == s[i];
        if j < i {
            assert(s[j] == s[i]);
        } else {
            assert(s[j + 1] == s[i]);
        }
    }
    assert forall|x: A| x != s[i] implies (t.contains(x) <==> s.contains(x)) by {
        if t.contains(x) {
            let j = choose|j: int| 0 <= j < t.len() && t[j] == x;
            if j < i {
                assert(s[j] == x);
            } else {
                assert(s[j + 1] == x);
            }
        }
        if s.contains(x) {
            let j = choose|j: int| 0 <= j < s.len() && s[j] == x;
            if j < i {
                assert(t[j] == x);
            } else if j > i {
                assert(t[j - 1] == x);
            }
        }
    }
}

/// The ids of a cache after a request for a loaded model: the same ids,
/// with the requested one last.
proof fn lemma_touched(v: CacheView, id: Seq<char>)
    requires
        v.wf(),
        v.is_loaded(id),
    ensures
        v.begun(id).wf(),
        ids(v.begun(id).entries).last() == id,
        forall|x: Seq<char>| v.begun(id).is_loaded(x) <==> v.is_loaded(x),
        v.begun(id).capacity == v.capacity,
        v.begun(id).active == v.active,
{
    let i = ids(v.entries).index_of(id);
    let t = v.touched(i);
    assert(ids(t.entries) =~= ids(v.entries).remove(i).push(ids(v.entries)[i]));
    lemma_move_last_unique(ids(v.entries), i);
    lemma_remove_unique(ids(v.entries), i);
    assert forall|x: Seq<char>| t.is_loaded(x) <==> v.is_loaded(x) by {
        let r = ids(v.entries).remove(i);
        assert(ids(t.entries) == r.push(id));
        if ids(t.entries).contains(x) {
            let j = choose|j: int| 0 <= j < ids(t.entries).len() && ids(t.entries)[j] == x;
            if j < r.len() {
                assert(r[j] == x);
                assert(r.contains(x));
            }
        }
        if v.is_loaded(x) && x != id {
            assert(r.contains(x));
            let j = choose|j: int| 0 <= j < r.len() && r[j] == x;
            assert(ids(t.entries)[j] == x);
        }
        if x == id {
            assert(ids(t.entries)[r.len() as int] == x);
        }
    }
}

/// The ids of a cache after the least recently used models made room for
/// one more: the rest, in the same order.
proof fn lemma_evicted(v: CacheView, id: Seq<char>)
    requires
        v.wf(),
        !v.is_loaded(id),
    ensures
        v.evicted().wf(),
        v.evicted().entries.len() < v.capacity,
        ids(v.evicted().entries) == ids(v.entries).skip(
            evict_count(v.entries.len(), v.capacity) as int,
        ),
        !v.evicted().is_loaded(id),
        v.evicted().capacity == v.capacity,
{
    let k = evict_count(v.entries.len(), v.capacity) as int;
    let rest = v.entries.skip(k);
    assert(ids(rest) =~= ids(v.entries).skip(k));
    assert forall|a: int, b: int|
        0 <= a < ids(rest).len() && 0 <= b < ids(rest).len() && a != b implies ids(rest)[a] != ids(
        rest,
    )[b] by {
        assert(ids(rest)[a] == ids(v.entries)[a + k]);
        assert(ids(rest)[b] == ids(v.entries)[b + k]);
    }
    if ids(rest).contains(id) {
        let j = choose|j: int| 0 <= j < ids(rest).len() && ids(rest)[j] == id;
        assert(ids(v.entries)[j + k] == id);
    }
}

/// Loading a model makes it resident and the most recently used one, keeps
/// the number of loaded models within the capacity, keeps the cache's
/// invariant, and routes requests that name the model to it.
pub proof fn lemma_load_makes_resident(v: CacheView, id: Seq<char>, info: ModelInfo)
    requires
        v.wf(),
    ensures
        v.loaded_with(id, info).wf(),
        v.loaded_with(id, info).is_loaded(id),
        ids(v.loaded_with(id, info).entries).last() == id,
        v.loaded_with(id, info).entries.len() <= v.capacity,
        forall|r: Result<String, HarnessError>|
            routes_to(v.loaded_with(id, info), Some(id), r) ==> (r matches Ok(s) && s@ == id),
{
    if v.is_loaded(id) {
        lemma_touched(v, id);
    } else {
        lemma_evicted(v, id);
        let e = v.evicted();
        let w = e.finished(id, info);
        assert(ids(w.entries) =~= ids(e.entries).push(id));
        assert(ids(w.entries)[ids(e.entries).len() as int] == id);
        assert forall|a: Seq<char>| e.is_loaded(a) implies w.is_loaded(a) by {
            let j = choose|j: int| 0 <= j < ids(e.entries).len() && ids(e.entries)[j] == a;
            assert(ids(w.entries)[j] == a);
        }
        if e.active is Some {
            let a = e.active->0;
            assert(ids(rest_of(v)).contains(a));
        }
    }
}

/// The entries that stay when room is made for one more model.
pub open spec fn rest_of(v: CacheView) -> Seq<(Seq<char>, ModelInfo)> {
    v.entries.skip(evict_count(v.entries.len(), v.capacity) as int)
}

/// Loading a model evicts only when the cache is full, and then only the
/// least recently used models: every model that was loaded and is not
/// among the evicted ones stays loaded, and nothing else becomes loaded.
pub proof fn lemma_load_evicts_least_recent(v: CacheView, id: Seq<char>, info: ModelInfo)
    requires
        v.wf(),
    ensures
        forall|x: Seq<char>|
            v.is_loaded(x) && !(!v.is_loaded(id) && ids(v.entries).take(
                evict_count(v.entries.len(), v.capacity) as int,
            ).contains(x)) ==> #[trigger] v.loaded_with(id, info).is_loaded(x),
        forall|x: Seq<char>|
            #[trigger] v.loaded_with(id, info).is_loaded(x) ==> (v.is_loaded(x) || x == id),
        v.entries.len() < v.capacity ==> forall|x: Seq<char>|
            v.is_loaded(x) ==> #[trigger] v.loaded_with(id, info).is_loaded(x),
{
    if v.is_loaded(id) {
        lemma_touched(v, id);
    } else {
        lemma_evicted(v, id);
        let k = evict_count(v.entries.len(), v.capacity) as int;
        let e = v.evicted();
        let w = e.finished(id, info);
        assert(ids(w.entries) =~= ids(e.entries).push(id));
        assert forall|x: Seq<char>|
            v.is_loaded(x) && !ids(v.entries).take(k).contains(x) implies #[trigger] w.is_loaded(
            x,
        ) by {
            let j = choose|j: int| 0 <= j < ids(v.entries).len() && ids(v.entries)[j] == x;
            if j < k {
                assert(ids(v.entries).take(k)[j] == x);
            } else {
                assert(ids(e.entries)[j - k] == x);
                assert(ids(w.entries)[j - k] == x);
            }
        }
        assert forall|x: Seq<char>| #[trigger] w.is_loaded(x) implies (v.is_loaded(x) || x == id) by {
            let j = choose|j: int| 0 <= j < ids(w.entries).len() && ids(w.entries)[j] == x;
            if j < ids(e.entries).len() {
                assert(ids(e.entries)[j] == x);
                assert(ids(v.entries)[j + k] == x);
            }
        }
        if v.entries.len() < v.capacity {
            assert(k == 0);
            assert(ids(v.entries).take(k) =~= Seq::<Seq<char>>::empty());
        }
    }
}

/// Unloading a model forgets it and nothing else: it is no longer loaded
/// nor active, every other model keeps its state, and the invariant holds.
pub proof fn lemma_unload_forgets(v: CacheView, id: Seq<char>)
    requires
        v.wf(),
    ensures
        v.without(id).wf(),
        !v.without(id).is_loaded(id),
        v.without(id).active != Some(id),
        forall|x: Seq<char>| x != id ==> (#[trigger] v.without(id).is_loaded(x) == v.is_loaded(x)),
        v.active != Some(id) ==> v.without(id).active == v.active,
{
    let f = other_than(id);
    if v.is_loaded(id) {
        let i = ids(v.entries).index_of(id);
        assert forall|j: int| 0 <= j < v.entries.len() && j != i implies #[trigger] f(
            v.entries[j],
        ) by {
            assert(ids(v.entries)[j] == v.entries[j].0);
        }
        assert(ids(v.entries)[i] == v.entries[i].0);
        lemma_filter_removes_one(v.entries, f, i);
        assert(ids(v.entries.remove(i)) =~= ids(v.entries).remove(i));
        lemma_remove_unique(ids(v.entries), i);
        let w = v.without(id);
        if v.active is Some && v.active->0 != id {
            assert(v.is_loaded(v.active->0));
        }
    } else {
        assert forall|j: int| 0 <= j < v.entries.len() implies #[trigger] f(v.entries[j]) by {
            assert(ids(v.entries)[j] == v.entries[j].0);
        }
        lemma_filter_keeps_all(v.entries, f);
    }
}

/// After a model is made active, requests that name no model go to it.
pub proof fn lemma_route_to_active(v: CacheView, id: Seq<char>, r: Result<String, HarnessError>)
    requires
        routes_to(CacheView { active: Some(id), ..v }, None, r),
    ensures
        r matches Ok(s) && s@ == id,
{
}

/// Whether an id is other than `id`.
pub open spec fn id_other_than(id: Seq<char>) -> spec_fn(Seq<char>) -> bool {
    |x: Seq<char>| x != id
}

/// The ids of the entries kept by the filter are the ids kept by it.
proof fn lemma_ids_filter(s: Seq<(Seq<char>, ModelInfo)>, id: Seq<char>)
    ensures
        ids(s.filter(other_than(id))) == ids(s).filter(id_other_than(id)),
    decreases s.len(),
{
    reveal(Seq::filter);
    if s.len() > 0 {
        let f = other_than(id);
        let g = id_other_than(id);
        let t = ids(s);
        lemma_ids_filter(s.drop_last(), id);
        assert(t.drop_last() =~= ids(s.drop_last()));
        assert(t.last() == s.last().0);
        assert(f(s.last()) == g(t.last()));
        let sub = s.drop_last().filter(f);
        assert(s.filter(f) == if f(s.last()) {
            sub.push(s.last())
        } else {
            sub
        });
        assert(t.filter(g) == if g(t.last()) {
            t.drop_last().filter(g).push(t.last())
        } else {
            t.drop_last().filter(g)
        });
        if f(s.last()) {
            assert(ids(sub.push(s.last())) =~= ids(sub).push(s.last().0));
        }
    } else {
        assert(ids(s) =~= Seq::<Seq<char>>::empty());
    }
}

/// Unloading a model keeps the other models in their order of last use:
/// the ids left are those that were loaded, without `id`, in the same
/// order.
pub proof fn lemma_unload_keeps_order(v: CacheView, id: Seq<char>)
    ensures
        ids(v.without(id).entries) == ids(v.entries).filter(id_other_than(id)),
{
    lemma_ids_filter(v.entries, id);
}

/// Loading a model keeps the active model unless the load evicts it: when
/// the model loaded was resident already, or the active model is not among
/// the least recently used ones that make room, the active model after the
/// load is the one before it.
pub proof fn lemma_load_keeps_active(v: CacheView, id: Seq<char>, info: ModelInfo, a: Seq<char>)
    requires
        v.wf(),
        v.active == Some(a),
        v.is_loaded(id) || !ids(v.entries).take(evict_count(v.entries.len(), v.capacity) as int).contains(a),
    ensures
        v.loaded_with(id, info).active == Some(a),
{
    if !v.is_loaded(id) {
        let k = evict_count(v.entries.len(), v.capacity) as int;
        let s = ids(v.entries);
        assert(s.contains(a));
        let j = choose|j: int| 0 <= j < s.len() && s[j] == a;
        if j < k {
            assert(s.take(k)[j] == a);
        }
        let rest = v.entries.skip(k);
        assert(ids(rest)[j - k] == a);
        assert(ids(rest).contains(a));
    }
}

} // verus!
