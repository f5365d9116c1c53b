//! Projection caching as an instance of the generic runtime cache.

use super::digest::digest;
use super::digest::Digest;
use super::message::MessageEnvelope;
use super::projection::Projection;
use crate::runtime::cache::CacheKey;
use crate::runtime::cache::InMemoryCache;
use vstd::prelude::*;

verus! {

/// The key covers the id and the body, so that a message edited in place misses
/// rather than serving a stale projection.
impl CacheKey for MessageEnvelope {
    open spec fn cache_key_spec(&self) -> Seq<char> {
        digest(seq![self.id@, self.body@])
    }

    fn cache_key(&self) -> (r: String) {
        let mut d = Digest::new();
        d.text(self.id.0.as_str());
        d.text(self.body.as_str());
        assert(d@ =~= seq![self.id@, self.body@]);
        d.finish()
    }
}

/// An in-memory cache of projections.
pub type InMemoryProjectionCache = InMemoryCache<Projection>;

} // verus!
