//! The derived output of one conversation, and the cache port for it.
//!
//! A persisted derivation is a cache of a deterministic computation: a lookup
//! under another derivation version or another content hash misses, so that the
//! output is computed anew.

use super::message::ConversationId;
use super::projection::Projection;
use super::projection::ProjectionView;
use super::routing::RoutingHint;
use super::routing::RoutingHintView;
use super::scope::Scope;
use super::scope::ScopeView;
use super::seqs::lookup;
use super::seqs::view_of;
use super::seqs::views;
use super::skill::SessionDevelopers;
use super::skill::SessionDevelopersView;
use super::warmup::WarmupDocument;
use super::warmup::WarmupDocumentView;
use crate::runtime::frame::by_triple;
use crate::runtime::frame::key_of;
use crate::runtime::frame::keyed_by_triples;
use crate::runtime::frame::lemma_by_triple_insert;
use crate::runtime::frame::Triple;
use crate::runtime::step::StepVersion;
use vstd::hash_map::StringHashMap;
use vstd::prelude::*;

verus! {

/// The version of the derivation code, bumped whenever a derivation step or the
/// composition of the pipeline changes.
pub const DERIVATION_SCHEMA_VERSION: &'static str = "1";

/// The version that keys derived output: the schema version, the strategy and
/// the projector's version, joined by colons.
pub open spec fn composed_version(strategy: Seq<char>, projector: Seq<char>) -> Seq<char> {
    "1"@ + ":"@ + strategy + ":"@ + projector
}

/// Composes the version that keys the [`DerivedOutputCache`].
pub fn derivation_version(strategy: &str, projector: &StepVersion) -> (r: StepVersion)
    ensures
        r@ == composed_version(strategy@, projector@),
{
    let mut out = DERIVATION_SCHEMA_VERSION.to_string();
    out.append(":");
    out.append(strategy);
    out.append(":");
    out.append(projector.as_str());
    StepVersion(out)
}

/// The reproducible derived output of one conversation: its projections, and the scope,
/// warm-up, developers and hints derived from them.
#[derive(Debug, PartialEq)]
pub struct ConversationDerivation {
    pub conversation: ConversationId,
    pub projections: Vec<Projection>,
    pub scope: Option<Scope>,
    pub warmup: WarmupDocument,
    pub developers: Option<SessionDevelopers>,
    pub hints: Vec<RoutingHint>,
}

/// The contents of a [`ConversationDerivation`].
pub struct ConversationDerivationView {
    pub conversation: Seq<char>,
    pub projections: Seq<ProjectionView>,
    pub scope: Option<ScopeView>,
    pub warmup: WarmupDocumentView,
    pub developers: Option<SessionDevelopersView>,
    pub hints: Seq<RoutingHintView>,
}

impl View for ConversationDerivation {
    type V = ConversationDerivationView;

    open spec fn view(&self) -> ConversationDerivationView {
        ConversationDerivationView {
            conversation: self.conversation@,
            projections: views(self.projections@),
            scope: view_of(self.scope),
            warmup: self.warmup@,
            developers: view_of(self.developers),
            hints: views(self.hints@),
        }
    }
}

impl Clone for ConversationDerivation {
    fn clone(&self) -> (r: Self)
        ensures
            r@ == self@,
    {
        let r = ConversationDerivation {
            conversation: self.conversation.clone(),
            projections: self.projections.clone(),
            scope: self.scope.clone(),
            warmup: self.warmup.clone(),
            developers: self.developers.clone(),
            hints: self.hints.clone(),
        };
        assert(views(r.projections@) =~= views(self.projections@));
        assert(views(r.hints@) =~= views(self.hints@));
        r
    }
}

/// A cache of derivations, by derivation version, conversation and content hash.
pub trait DerivedOutputCache {
    /// What the cache holds, by version, conversation and content hash.
    open spec fn entries(&self) -> Map<Triple, ConversationDerivationView> {
        arbitrary()
    }

    /// Whether reclaiming what `(keep_version, keep_content)` supersedes of a
    /// conversation may leave `after`.
    open spec fn reclaims(
        &self,
        conversation: Seq<char>,
        keep_version: Seq<char>,
        keep_content: Seq<char>,
        after: Map<Triple, ConversationDerivationView>,
    ) -> bool {
        true
    }

    /// Fetches the derivation cached under `(version, conversation, content)`.
    fn get(&self, version: &StepVersion, conversation: &ConversationId, content: &str) -> (r: Option<
        ConversationDerivation,
    >)
        ensures
            view_of(r) == lookup(self.entries(), (version@, conversation@, content@)),
    ;

    /// Caches `value` under `(version, conversation, content)`.
    fn put(
        &mut self,
        version: &StepVersion,
        conversation: &ConversationId,
        content: &str,
        value: ConversationDerivation,
    )
        ensures
            final(self).entries() == old(self).entries().insert(
                (version@, conversation@, content@),
                value@,
            ),
    ;

    /// Reclaims cached output of `conversation` superseded by the current version
    /// and content. Nothing else goes, and reclaiming is best-effort: a cache that
    /// does not grow on disk keeps all.
    fn reclaim_superseded(
        &mut self,
        conversation: &ConversationId,
        keep_version: &StepVersion,
        keep_content: &str,
    )
        ensures
            old(self).reclaims(
                conversation@,
                keep_version@,
                keep_content@,
                final(self).entries(),
            ),
            final(self).entries().submap_of(old(self).entries()),
            forall|t: Triple| #[trigger]
                old(self).entries().contains_key(t) && (t.1 != conversation@ || t == (
                    keep_version@,
                    conversation@,
                    keep_content@,
                )) ==> final(self).entries().contains_key(t),
    ;
}

/// An in-memory [`DerivedOutputCache`].
pub struct InMemoryDerivedOutputCache {
    inner: StringHashMap<ConversationDerivation>,
}

impl View for InMemoryDerivedOutputCache {
    type V = Map<Triple, ConversationDerivationView>;

    closed spec fn view(&self) -> Map<Triple, ConversationDerivationView> {
        by_triple(self.inner@).map_values(|d: ConversationDerivation| d@)
    }
}

impl InMemoryDerivedOutputCache {
    #[verifier::type_invariant]
    closed spec fn well_keyed(self) -> bool {
        keyed_by_triples(self.inner@)
    }

    /// Creates an empty cache.
    pub fn new() -> (r: Self)
        ensures
            r@ == Map::<Triple, ConversationDerivationView>::empty(),
    {
        let r = InMemoryDerivedOutputCache { inner: StringHashMap::new() };
        assert(r@ =~= Map::<Triple, ConversationDerivationView>::empty());
        r
    }
}

impl Default for InMemoryDerivedOutputCache {
    fn default() -> (r: Self)
        ensures
            r@ == Map::<Triple, ConversationDerivationView>::empty(),
    {
        InMemoryDerivedOutputCache::new()
    }
}

impl DerivedOutputCache for InMemoryDerivedOutputCache {
    open spec fn entries(&self) -> Map<Triple, ConversationDerivationView> {
        self@
    }

    open spec fn reclaims(
        &self,
        conversation: Seq<char>,
        keep_version: Seq<char>,
        keep_content: Seq<char>,
        after: Map<Triple, ConversationDerivationView>,
    ) -> bool {
        after == self@
    }

    fn get(&self, version: &StepVersion, conversation: &ConversationId, content: &str) -> (r: Option<
        ConversationDerivation,
    >) {
        let key = key_of(version.as_str(), conversation.0.as_str(), content);
        match self.inner.get(key.as_str()) {
            Some(value) => Some(value.clone()),
            None => None,
        }
    }

    fn put(
        &mut self,
        version: &StepVersion,
        conversation: &ConversationId,
        content: &str,
        value: ConversationDerivation,
    ) {
        let ghost before = self@;
        let ghost entry = (version@, conversation@, content@);
        let ghost derived = value@;
        proof {
            use_type_invariant(&*self);
            lemma_by_triple_insert(self.inner@, entry, value);
        }
        let mut inner = StringHashMap::new();
        std::mem::swap(&mut self.inner, &mut inner);
        inner.insert(key_of(version.as_str(), conversation.0.as_str(), content), value);
        self.inner = inner;
        assert(self@ =~= before.insert(entry, derived));
    }

    fn reclaim_superseded(
        &mut self,
        conversation: &ConversationId,
        keep_version: &StepVersion,
        keep_content: &str,
    ) {
    }
}

} // verus!
