//! A semantic cache: step output memoized by kind, version and key.

use super::frame::by_triple;
use super::frame::key_of;
use super::frame::keyed_by_triples;
use super::frame::lemma_by_triple_empty;
use super::frame::lemma_by_triple_insert;
use super::frame::lemma_by_triple_len;
use super::frame::Triple;
use super::step::Step;
use super::step::StepVersion;
use vstd::hash_map::StringHashMap;
use vstd::prelude::*;

verus! {

/// A step input that yields a stable cache key.
pub trait CacheKey {
    /// The key identifying this input in a cache.
    open spec fn cache_key_spec(&self) -> Seq<char> {
        arbitrary()
    }

    /// The key identifying this input in a cache.
    fn cache_key(&self) -> (r: String)
        ensures
            r@ == self.cache_key_spec(),
    ;
}

/// Memoizes step output by a step kind, a version and a key.
pub trait Cache<V> {
    /// What the cache holds, by kind, version and key.
    open spec fn entries(&self) -> Map<Triple, V> {
        arbitrary()
    }

    /// Fetches the value cached under `(kind, version, key)`.
    fn get(&self, kind: &str, version: &StepVersion, key: &str) -> (r: Option<V>) where V: Clone
        ensures
            match r {
                Some(value) => self.entries().contains_key((kind@, version@, key@)) && cloned(
                    self.entries()[(kind@, version@, key@)],
                    value,
                ),
                None => !self.entries().contains_key((kind@, version@, key@)),
            },
    ;

    /// Caches `value` under `(kind, version, key)`.
    fn put(&mut self, kind: &str, version: &StepVersion, key: &str, value: V)
        ensures
            final(self).entries() == old(self).entries().insert((kind@, version@, key@), value),
    ;
}

/// An in-memory [`Cache`].
#[verifier::reject_recursive_types(V)]
pub struct InMemoryCache<V> {
    inner: StringHashMap<V>,
}

impl<V> View for InMemoryCache<V> {
    type V = Map<Triple, V>;

    closed spec fn view(&self) -> Map<Triple, V> {
        by_triple(self.inner@)
    }
}

impl<V> InMemoryCache<V> {
    #[verifier::type_invariant]
    closed spec fn well_keyed(self) -> bool {
        keyed_by_triples(self.inner@) && self.inner@.dom().finite()
    }

    /// Creates an empty cache.
    pub fn new() -> (r: Self)
        ensures
            r@ == Map::<Triple, V>::empty(),
    {
        let r = InMemoryCache { inner: StringHashMap::new() };
        assert(by_triple(r.inner@) =~= Map::<Triple, V>::empty());
        r
    }

    /// Whether the cache holds no entries.
    pub fn is_empty(&self) -> (r: bool)
        ensures
            r == (self@ == Map::<Triple, V>::empty()),
    {
        proof {
            use_type_invariant(self);
            lemma_by_triple_empty(self.inner@);
        }
        self.inner.is_empty()
    }

    /// The number of cached entries.
    pub fn len(&self) -> (r: usize)
        ensures
            r == self@.len(),
    {
        proof {
            use_type_invariant(self);

            lemma_by_triple_len(self.inner@);
        }
        self.inner.len()
    }
}

impl<V> Default for InMemoryCache<V> {
    fn default() -> (r: Self)
        ensures
            r@ == Map::<Triple, V>::empty(),
    {
        InMemoryCache::new()
    }
}

impl<V> Cache<V> for InMemoryCache<V> {
    open spec fn entries(&self) -> Map<Triple, V> {
        self@
    }

    fn get(&self, kind: &str, version: &StepVersion, key: &str) -> (r: Option<V>) where V: Clone {
        match self.inner.get(key_of(kind, version.as_str(), key).as_str()) {
            Some(value) => Some(value.clone()),
            None => None,
        }
    }

    fn put(&mut self, kind: &str, version: &StepVersion, key: &str, value: V) {
        proof {
            use_type_invariant(&*self);
            lemma_by_triple_insert(self.inner@, (kind@, version@, key@), value);
        }
        let mut inner = StringHashMap::new();
        std::mem::swap(&mut self.inner, &mut inner);
        inner.insert(key_of(kind, version.as_str(), key), value);
        self.inner = inner;
    }
}

/// What a [`Cached`] step remembers: what its inner step does, the kept outputs,
/// and what they are kept under.
pub struct CachedMemory<M, V> {
    pub inner: M,
    pub entries: Map<Triple, V>,
    pub kind: Seq<char>,
    pub version: Seq<char>,
}

/// A [`Step`] decorator that memoizes the inner step's output in a [`Cache`].
///
/// A hit returns the cached output and leaves the inner step alone; a miss runs
/// it and caches what it gave. The version must encode the inner step's identity
/// so that a change of it drops prior entries.
pub struct Cached<S: Step, C: Cache<S::Out>> {
    /// The step whose output is memoized.
    pub inner: S,
    /// Where outputs are kept.
    pub cache: C,
    /// The version under which outputs are kept.
    pub version: StepVersion,
}

impl<S: Step, C: Cache<S::Out>> Cached<S, C> {
    /// Wraps `inner` with `cache`, tagging entries with `version`.
    pub fn new(inner: S, cache: C, version: StepVersion) -> (r: Self)
        ensures
            r.inner == inner,
            r.cache == cache,
            r.version == version,
    {
        Cached { inner, cache, version }
    }

    /// Wraps `inner`, taking its own version as the cache version.
    pub fn with_inner_version(inner: S, cache: C) -> (r: Self)
        ensures
            r.inner == inner,
            r.cache == cache,
            r.version@ == inner.version_spec(),
    {
        let version = inner.version();
        Cached::new(inner, cache, version)
    }

    /// Where the output for `input` is kept.
    pub open spec fn entry_of(&self, input: &S::In) -> Triple where S::In: CacheKey {
        (self.inner.kind_spec(), self.version@, input.cache_key_spec())
    }
}

impl<S, C> Step for Cached<S, C> where S: Step, S::In: CacheKey, S::Out: Clone, C: Cache<S::Out> {
    type In = S::In;

    type Out = S::Out;

    type Memory = CachedMemory<S::Memory, S::Out>;

    open spec fn kind_spec(&self) -> Seq<char> {
        self.inner.kind_spec()
    }

    open spec fn version_spec(&self) -> Seq<char> {
        self.version@
    }

    open spec fn memory(&self) -> CachedMemory<S::Memory, S::Out> {
        CachedMemory {
            inner: self.inner.memory(),
            entries: self.cache.entries(),
            kind: self.inner.kind_spec(),
            version: self.version@,
        }
    }

    open spec fn runs(
        &self,
        input: &S::In,
        after: CachedMemory<S::Memory, S::Out>,
        out: &S::Out,
    ) -> bool {
        let entry = self.entry_of(input);
        if self.cache.entries().contains_key(entry) {
            &&& cloned(self.cache.entries()[entry], *out)
            &&& after == self.memory()
        } else {
            &&& self.inner.runs(input, after.inner, out)
            &&& after.kind == self.inner.kind_spec()
            &&& after.version == self.version@
            &&& exists|kept: S::Out|
                cloned(*out, kept) && after.entries == #[trigger] self.cache.entries().insert(
                    entry,
                    kept,
                )
        }
    }

    fn kind(&self) -> (r: &'static str) {
        self.inner.kind()
    }

    fn version(&self) -> (r: StepVersion) {
        self.version.clone()
    }

    fn run(&mut self, input: &S::In) -> (out: S::Out) {
        let key = input.cache_key();
        if let Some(hit) = self.cache.get(self.inner.kind(), &self.version, key.as_str()) {
            return hit;
        }
        let out = self.inner.run(input);
        let kept = out.clone();
        self.cache.put(self.inner.kind(), &self.version, key.as_str(), kept);
        out
    }
}

} // verus!
