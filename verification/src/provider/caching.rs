//! A caching projector: [`Cached`] over the projection workload.
//!
//! It freezes the first projection of a message under a version, so that a
//! projector that does not always answer alike is replay-safe.

use crate::model::message::MessageEnvelope;
use crate::model::projection::Projection;
use crate::runtime::cache::Cache;
use crate::runtime::cache::Cached;
use crate::runtime::cache::CachedMemory;
use crate::runtime::step::Step;
use crate::runtime::step::StepVersion;
use vstd::prelude::*;

verus! {

/// A projector that memoizes an inner projector's output in a [`Cache`].
pub struct CachingProjector<
    S: Step<In = MessageEnvelope, Out = Projection>,
    C: Cache<Projection>,
> {
    /// The memoized projector.
    pub inner: Cached<S, C>,
}

impl<
    S: Step<In = MessageEnvelope, Out = Projection>,
    C: Cache<Projection>,
> CachingProjector<S, C> {
    /// Wraps `inner` with `cache`, tagging entries with `version`, which must
    /// change whenever the inner projector's output could.
    pub fn new(inner: S, cache: C, version: &str) -> (r: Self)
        ensures
            r.inner.inner == inner,
            r.inner.cache == cache,
            r.inner.version@ == version@,
    {
        CachingProjector { inner: Cached::new(inner, cache, StepVersion::new(version)) }
    }
}

impl<
    S: Step<In = MessageEnvelope, Out = Projection>,
    C: Cache<Projection>,
> Step for CachingProjector<S, C> {
    type In = MessageEnvelope;

    type Out = Projection;

    type Memory = CachedMemory<S::Memory, Projection>;

    open spec fn kind_spec(&self) -> Seq<char> {
        "mirrorlane.projection.cached"@
    }

    open spec fn version_spec(&self) -> Seq<char> {
        self.inner.version@
    }

    open spec fn memory(&self) -> CachedMemory<S::Memory, Projection> {
        self.inner.memory()
    }

    open spec fn runs(
        &self,
        input: &MessageEnvelope,
        after: CachedMemory<S::Memory, Projection>,
        out: &Projection,
    ) -> bool {
        self.inner.runs(input, after, out)
    }

    fn kind(&self) -> (r: &'static str) {
        "mirrorlane.projection.cached"
    }

    fn version(&self) -> (r: StepVersion) {
        self.inner.version()
    }

    fn run(&mut self, input: &MessageEnvelope) -> (out: Projection) {
        self.inner.run(input)
    }
}

} // verus!
