//! Steps and the cache that memoizes them.

use mirrorlane::runtime::cache::Cache;
use mirrorlane::runtime::cache::CacheKey;
use mirrorlane::runtime::cache::Cached;
use mirrorlane::runtime::cache::InMemoryCache;
use mirrorlane::runtime::step::Step;
use mirrorlane::runtime::step::StepVersion;
use std::sync::atomic::AtomicUsize;
use std::sync::atomic::Ordering;
use std::sync::Arc;

struct Doubler;

impl Step for Doubler {
    type In = u64;
    type Out = u64;
    type Memory = ();

    fn kind(&self) -> &'static str {
        "probe.doubler"
    }

    fn version(&self) -> StepVersion {
        StepVersion::new("v1")
    }

    fn run(&mut self, input: &u64) -> u64 {
        input * 2
    }
}

/// A probe input: a number whose key is its decimal text.
struct Probe(u64);

impl CacheKey for Probe {
    fn cache_key(&self) -> String {
        self.0.to_string()
    }
}

struct CountingDoubler {
    calls: Arc<AtomicUsize>,
}

impl Step for CountingDoubler {
    type In = Probe;
    type Out = u64;
    type Memory = ();

    fn kind(&self) -> &'static str {
        "probe.doubler"
    }

    fn version(&self) -> StepVersion {
        StepVersion::new("v1")
    }

    fn run(&mut self, n: &Probe) -> u64 {
        self.calls.fetch_add(1, Ordering::SeqCst);
        n.0 * 2
    }
}

/// A step behind a trait object.
struct Erased(Box<dyn Step<In = Probe, Out = u64, Memory = ()>>);

impl Step for Erased {
    type In = Probe;
    type Out = u64;
    type Memory = ();

    fn kind(&self) -> &'static str {
        self.0.kind()
    }

    fn version(&self) -> StepVersion {
        self.0.version()
    }

    fn run(&mut self, n: &Probe) -> u64 {
        self.0.run(n)
    }
}

#[test]
fn a_domain_free_step_runs() {
    let mut step = Doubler;
    assert_eq!(step.run(&21), 42);
    assert_eq!(step.kind(), "probe.doubler");
    assert_eq!(step.version(), StepVersion::new("v1"));
    assert_eq!(step.version().as_str(), "v1");
}

#[test]
fn step_is_object_safe() {
    let mut step: Box<dyn Step<In = u64, Out = u64, Memory = ()>> = Box::new(Doubler);
    assert_eq!(step.run(&5), 10);
}

#[test]
fn in_memory_cache_get_put_and_version_miss() {
    let mut cache = InMemoryCache::<u64>::new();
    let v = StepVersion::new("v1");
    cache.put("k", &v, "key", 42);
    assert_eq!(cache.get("k", &v, "key"), Some(42));
    assert_eq!(cache.get("k", &StepVersion::new("v2"), "key"), None);
}

#[test]
fn cache_inner_runs_only_on_a_miss() {
    let calls = Arc::new(AtomicUsize::new(0));
    let inner = CountingDoubler {
        calls: calls.clone(),
    };
    let cache = InMemoryCache::<u64>::new();
    let mut cached = Cached::new(inner, cache, StepVersion::new("v1"));

    assert_eq!(cached.run(&Probe(21)), 42);
    assert_eq!(cached.run(&Probe(21)), 42);
    assert_eq!(calls.load(Ordering::SeqCst), 1, "inner runs once per key");
}

#[test]
fn cache_a_changed_version_recomputes() {
    let calls = Arc::new(AtomicUsize::new(0));
    let cache = InMemoryCache::<u64>::new();

    let mut first = Cached::new(
        CountingDoubler {
            calls: calls.clone(),
        },
        cache,
        StepVersion::new("v1"),
    );
    first.run(&Probe(21));
    let mut second = Cached::new(
        CountingDoubler {
            calls: calls.clone(),
        },
        first.cache,
        StepVersion::new("v2"),
    );
    second.run(&Probe(21));

    assert_eq!(
        calls.load(Ordering::SeqCst),
        2,
        "each version recomputes"
    );
    assert_eq!(second.cache.len(), 2);
}

#[test]
fn cached_wraps_a_trait_object_step() {
    let inner = Erased(Box::new(CountingDoubler {
        calls: Arc::new(AtomicUsize::new(0)),
    }));
    let cache = InMemoryCache::<u64>::new();
    let mut cached = Cached::new(inner, cache, StepVersion::new("v1"));
    assert_eq!(cached.run(&Probe(5)), 10);
    assert_eq!(cached.run(&Probe(5)), 10);
}

#[test]
fn cached_takes_the_inner_version() {
    let cached = Cached::with_inner_version(
        CountingDoubler {
            calls: Arc::new(AtomicUsize::new(0)),
        },
        InMemoryCache::<u64>::new(),
    );
    assert_eq!(cached.version().as_str(), "v1");
    assert_eq!(cached.kind(), "probe.doubler");
}

#[test]
fn cache_parts_do_not_alias() {
    let mut cache = InMemoryCache::<u64>::default();
    assert!(cache.is_empty());
    cache.put("a:b", &StepVersion::new("c"), "d", 1);
    cache.put("a", &StepVersion::new("b:c"), "d", 2);
    cache.put("a", &StepVersion::new("b"), "c:d", 3);
    cache.put("ax", &StepVersion::new(".b"), "", 4);
    cache.put("a", &StepVersion::new("xx.b"), "", 5);
    assert_eq!(cache.len(), 5);
    assert!(!cache.is_empty());
    assert_eq!(cache.get("a:b", &StepVersion::new("c"), "d"), Some(1));
    assert_eq!(cache.get("a", &StepVersion::new("b:c"), "d"), Some(2));
    assert_eq!(cache.get("a", &StepVersion::new("b"), "c:d"), Some(3));
    assert_eq!(cache.get("ax", &StepVersion::new(".b"), ""), Some(4));
    assert_eq!(cache.get("a", &StepVersion::new("xx.b"), ""), Some(5));
    cache.put("a:b", &StepVersion::new("c"), "d", 9);
    assert_eq!(cache.len(), 5, "a put replaces");
    assert_eq!(cache.get("a:b", &StepVersion::new("c"), "d"), Some(9));
}
