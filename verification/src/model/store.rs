//! The store ports and their in-memory adapters.
//!
//! `upsert` replaces any record with the same key, so that processing a message
//! or a session more than once leaves exactly one record.

use super::message::ConversationId;
use super::message::MessageId;
use super::projection::Projection;
use super::projection::ProjectionView;
use super::projection::Topic;
use super::routing::RoutingDecision;
use super::routing::RoutingDecisionView;
use super::routing::RoutingHint;
use super::routing::RoutingHintView;
use super::routing::RoutingTrace;
use super::routing::RoutingTraceView;
use super::scope::Scope;
use super::scope::ScopeView;
use super::seqs::lookup;
use super::seqs::view_of;
use super::skill::SessionDevelopers;
use super::skill::SessionDevelopersView;
use super::skill::TopicOwnership;
use super::skill::TopicOwnershipView;
use super::warmup::WarmupDocument;
use super::warmup::WarmupDocumentView;
use vstd::hash_map::StringHashMap;
use vstd::prelude::*;

verus! {

/// The views of what a map holds.
spec fn held<T: View>(m: Map<Seq<char>, T>) -> Map<Seq<char>, T::V> {
    m.map_values(|x: T| x@)
}

/// Persists projections by message id.
pub trait ProjectionStore {
    /// What the store holds, by key.
    open spec fn records(&self) -> Map<Seq<char>, ProjectionView> {
        arbitrary()
    }

    /// Inserts a record, replacing any with the same key.
    fn upsert(&mut self, projection: Projection)
        ensures
            final(self).records() == old(self).records().insert(projection@.message_id, projection@),
    ;

    /// Fetches the record with the given key, if any.
    fn get(&self, id: &MessageId) -> (r: Option<Projection>)
        ensures
            view_of(r) == lookup(self.records(), id@),
    ;
}

/// An in-memory [`ProjectionStore`].
pub struct InMemoryProjectionStore {
    inner: StringHashMap<Projection>,
}

impl View for InMemoryProjectionStore {
    type V = Map<Seq<char>, ProjectionView>;

    closed spec fn view(&self) -> Map<Seq<char>, ProjectionView> {
        held(self.inner@)
    }
}

impl InMemoryProjectionStore {
    /// Creates an empty store.
    pub fn new() -> (r: Self)
        ensures
            r@ == Map::<Seq<char>, ProjectionView>::empty(),
    {
        let r = InMemoryProjectionStore { inner: StringHashMap::new() };
        assert(r@ =~= Map::<Seq<char>, ProjectionView>::empty());
        r
    }

    /// The number of stored projections.
    pub fn len(&self) -> (r: usize)
        ensures
            r == self@.len(),
    {
        assert(self@.dom() =~= self.inner@.dom());
        self.inner.len()
    }

    /// Whether the store holds nothing.
    pub fn is_empty(&self) -> (r: bool)
        ensures
            r == self@.is_empty(),
    {
        assert(self@.dom() =~= self.inner@.dom());
        self.inner.is_empty()
    }
}

impl Default for InMemoryProjectionStore {
    fn default() -> (r: Self)
        ensures
            r@ == Map::<Seq<char>, ProjectionView>::empty(),
    {
        InMemoryProjectionStore::new()
    }
}

impl ProjectionStore for InMemoryProjectionStore {
    open spec fn records(&self) -> Map<Seq<char>, ProjectionView> {
        self@
    }

    fn upsert(&mut self, projection: Projection) {
        let key = projection.message_id.0.clone();
        let ghost before = self.inner@;
        let ghost record = projection;
        self.inner.insert(key, projection);
        assert(held(self.inner@) =~= held(before).insert(record@.message_id, record@));
    }

    fn get(&self, id: &MessageId) -> (r: Option<Projection>) {
        match self.inner.get(id.0.as_str()) {
            Some(record) => Some(record.clone()),
            None => None,
        }
    }
}

/// Persists scopes by conversation id.
pub trait ScopeStore {
    /// What the store holds, by key.
    open spec fn records(&self) -> Map<Seq<char>, ScopeView> {
        arbitrary()
    }

    /// Inserts a record, replacing any with the same key.
    fn upsert(&mut self, scope: Scope)
        ensures
            final(self).records() == old(self).records().insert(scope@.conversation, scope@),
    ;

    /// Fetches the record with the given key, if any.
    fn get(&self, id: &ConversationId) -> (r: Option<Scope>)
        ensures
            view_of(r) == lookup(self.records(), id@),
    ;
}

/// An in-memory [`ScopeStore`].
pub struct InMemoryScopeStore {
    inner: StringHashMap<Scope>,
}

impl View for InMemoryScopeStore {
    type V = Map<Seq<char>, ScopeView>;

    closed spec fn view(&self) -> Map<Seq<char>, ScopeView> {
        held(self.inner@)
    }
}

impl InMemoryScopeStore {
    /// Creates an empty store.
    pub fn new() -> (r: Self)
        ensures
            r@ == Map::<Seq<char>, ScopeView>::empty(),
    {
        let r = InMemoryScopeStore { inner: StringHashMap::new() };
        assert(r@ =~= Map::<Seq<char>, ScopeView>::empty());
        r
    }

    /// The number of stored scopes.
    pub fn len(&self) -> (r: usize)
        ensures
            r == self@.len(),
    {
        assert(self@.dom() =~= self.inner@.dom());
        self.inner.len()
    }

    /// Whether the store holds nothing.
    pub fn is_empty(&self) -> (r: bool)
        ensures
            r == self@.is_empty(),
    {
        assert(self@.dom() =~= self.inner@.dom());
        self.inner.is_empty()
    }
}

impl Default for InMemoryScopeStore {
    fn default() -> (r: Self)
        ensures
            r@ == Map::<Seq<char>, ScopeView>::empty(),
    {
        InMemoryScopeStore::new()
    }
}

impl ScopeStore for InMemoryScopeStore {
    open spec fn records(&self) -> Map<Seq<char>, ScopeView> {
        self@
    }

    fn upsert(&mut self, scope: Scope) {
        let key = scope.conversation.0.clone();
        let ghost before = self.inner@;
        let ghost record = scope;
        self.inner.insert(key, scope);
        assert(held(self.inner@) =~= held(before).insert(record@.conversation, record@));
    }

    fn get(&self, id: &ConversationId) -> (r: Option<Scope>) {
        match self.inner.get(id.0.as_str()) {
            Some(record) => Some(record.clone()),
            None => None,
        }
    }
}

/// Persists warm-up documents by conversation id; `get` is how a session resumes.
pub trait WarmupStore {
    /// What the store holds, by key.
    open spec fn records(&self) -> Map<Seq<char>, WarmupDocumentView> {
        arbitrary()
    }

    /// Inserts a record, replacing any with the same key.
    fn upsert(&mut self, document: WarmupDocument)
        ensures
            final(self).records() == old(self).records().insert(document@.conversation, document@),
    ;

    /// Fetches the record with the given key, if any.
    fn get(&self, id: &ConversationId) -> (r: Option<WarmupDocument>)
        ensures
            view_of(r) == lookup(self.records(), id@),
    ;
}

/// An in-memory [`WarmupStore`].
pub struct InMemoryWarmupStore {
    inner: StringHashMap<WarmupDocument>,
}

impl View for InMemoryWarmupStore {
    type V = Map<Seq<char>, WarmupDocumentView>;

    closed spec fn view(&self) -> Map<Seq<char>, WarmupDocumentView> {
        held(self.inner@)
    }
}

impl InMemoryWarmupStore {
    /// Creates an empty store.
    pub fn new() -> (r: Self)
        ensures
            r@ == Map::<Seq<char>, WarmupDocumentView>::empty(),
    {
        let r = InMemoryWarmupStore { inner: StringHashMap::new() };
        assert(r@ =~= Map::<Seq<char>, WarmupDocumentView>::empty());
        r
    }

    /// The number of stored documents.
    pub fn len(&self) -> (r: usize)
        ensures
            r == self@.len(),
    {
        assert(self@.dom() =~= self.inner@.dom());
        self.inner.len()
    }

    /// Whether the store holds nothing.
    pub fn is_empty(&self) -> (r: bool)
        ensures
            r == self@.is_empty(),
    {
        assert(self@.dom() =~= self.inner@.dom());
        self.inner.is_empty()
    }
}

impl Default for InMemoryWarmupStore {
    fn default() -> (r: Self)
        ensures
            r@ == Map::<Seq<char>, WarmupDocumentView>::empty(),
    {
        InMemoryWarmupStore::new()
    }
}

impl WarmupStore for InMemoryWarmupStore {
    open spec fn records(&self) -> Map<Seq<char>, WarmupDocumentView> {
        self@
    }

    fn upsert(&mut self, document: WarmupDocument) {
        let key = document.conversation.0.clone();
        let ghost before = self.inner@;
        let ghost record = document;
        self.inner.insert(key, document);
        assert(held(self.inner@) =~= held(before).insert(record@.conversation, record@));
    }

    fn get(&self, id: &ConversationId) -> (r: Option<WarmupDocument>) {
        match self.inner.get(id.0.as_str()) {
            Some(record) => Some(record.clone()),
            None => None,
        }
    }
}

/// Persists topic ownerships by topic.
pub trait SkillStore {
    /// What the store holds, by key.
    open spec fn records(&self) -> Map<Seq<char>, TopicOwnershipView> {
        arbitrary()
    }

    /// Inserts a record, replacing any with the same key.
    fn upsert(&mut self, ownership: TopicOwnership)
        ensures
            final(self).records() == old(self).records().insert(ownership@.topic, ownership@),
    ;

    /// Fetches the record with the given key, if any.
    fn get(&self, topic: &Topic) -> (r: Option<TopicOwnership>)
        ensures
            view_of(r) == lookup(self.records(), topic@),
    ;
}

/// An in-memory [`SkillStore`].
pub struct InMemorySkillStore {
    inner: StringHashMap<TopicOwnership>,
}

impl View for InMemorySkillStore {
    type V = Map<Seq<char>, TopicOwnershipView>;

    closed spec fn view(&self) -> Map<Seq<char>, TopicOwnershipView> {
        held(self.inner@)
    }
}

impl InMemorySkillStore {
    /// Creates an empty store.
    pub fn new() -> (r: Self)
        ensures
            r@ == Map::<Seq<char>, TopicOwnershipView>::empty(),
    {
        let r = InMemorySkillStore { inner: StringHashMap::new() };
        assert(r@ =~= Map::<Seq<char>, TopicOwnershipView>::empty());
        r
    }

    /// The number of stored ownerships.
    pub fn len(&self) -> (r: usize)
        ensures
            r == self@.len(),
    {
        assert(self@.dom() =~= self.inner@.dom());
        self.inner.len()
    }

    /// Whether the store holds nothing.
    pub fn is_empty(&self) -> (r: bool)
        ensures
            r == self@.is_empty(),
    {
        assert(self@.dom() =~= self.inner@.dom());
        self.inner.is_empty()
    }
}

impl Default for InMemorySkillStore {
    fn default() -> (r: Self)
        ensures
            r@ == Map::<Seq<char>, TopicOwnershipView>::empty(),
    {
        InMemorySkillStore::new()
    }
}

impl SkillStore for InMemorySkillStore {
    open spec fn records(&self) -> Map<Seq<char>, TopicOwnershipView> {
        self@
    }

    fn upsert(&mut self, ownership: TopicOwnership) {
        let key = ownership.topic.0.clone();
        let ghost before = self.inner@;
        let ghost record = ownership;
        self.inner.insert(key, ownership);
        assert(held(self.inner@) =~= held(before).insert(record@.topic, record@));
    }

    fn get(&self, topic: &Topic) -> (r: Option<TopicOwnership>) {
        match self.inner.get(topic.0.as_str()) {
            Some(record) => Some(record.clone()),
            None => None,
        }
    }
}

/// Persists routing decisions by message id.
pub trait RoutingStore {
    /// What the store holds, by key.
    open spec fn records(&self) -> Map<Seq<char>, RoutingDecisionView> {
        arbitrary()
    }

    /// Inserts a record, replacing any with the same key.
    fn upsert(&mut self, decision: RoutingDecision)
        ensures
            final(self).records() == old(self).records().insert(decision@.message_id, decision@),
    ;

    /// Fetches the record with the given key, if any.
    fn get(&self, id: &MessageId) -> (r: Option<RoutingDecision>)
        ensures
            view_of(r) == lookup(self.records(), id@),
    ;
}

/// An in-memory [`RoutingStore`].
pub struct InMemoryRoutingStore {
    inner: StringHashMap<RoutingDecision>,
}

impl View for InMemoryRoutingStore {
    type V = Map<Seq<char>, RoutingDecisionView>;

    closed spec fn view(&self) -> Map<Seq<char>, RoutingDecisionView> {
        held(self.inner@)
    }
}

impl InMemoryRoutingStore {
    /// Creates an empty store.
    pub fn new() -> (r: Self)
        ensures
            r@ == Map::<Seq<char>, RoutingDecisionView>::empty(),
    {
        let r = InMemoryRoutingStore { inner: StringHashMap::new() };
        assert(r@ =~= Map::<Seq<char>, RoutingDecisionView>::empty());
        r
    }

    /// The number of stored decisions.
    pub fn len(&self) -> (r: usize)
        ensures
            r == self@.len(),
    {
        assert(self@.dom() =~= self.inner@.dom());
        self.inner.len()
    }

    /// Whether the store holds nothing.
    pub fn is_empty(&self) -> (r: bool)
        ensures
            r == self@.is_empty(),
    {
        assert(self@.dom() =~= self.inner@.dom());
        self.inner.is_empty()
    }
}

impl Default for InMemoryRoutingStore {
    fn default() -> (r: Self)
        ensures
            r@ == Map::<Seq<char>, RoutingDecisionView>::empty(),
    {
        InMemoryRoutingStore::new()
    }
}

impl RoutingStore for InMemoryRoutingStore {
    open spec fn records(&self) -> Map<Seq<char>, RoutingDecisionView> {
        self@
    }

    fn upsert(&mut self, decision: RoutingDecision) {
        let key = decision.message_id.0.clone();
        let ghost before = self.inner@;
        let ghost record = decision;
        self.inner.insert(key, decision);
        assert(held(self.inner@) =~= held(before).insert(record@.message_id, record@));
    }

    fn get(&self, id: &MessageId) -> (r: Option<RoutingDecision>) {
        match self.inner.get(id.0.as_str()) {
            Some(record) => Some(record.clone()),
            None => None,
        }
    }
}

/// The last items of a sequence, at most `count`.
pub open spec fn newest<T>(items: Seq<T>, count: nat) -> Seq<T> {
    if items.len() <= count {
        items
    } else {
        items.skip(items.len() - count)
    }
}

/// The message ids of stored traces, by their first write, after one more write.
pub open spec fn first_written(order: Seq<Seq<char>>, id: Seq<char>) -> Seq<Seq<char>> {
    if order.contains(id) {
        order
    } else {
        order.push(id)
    }
}

/// The ids of a store bounded to `cap` traces after a write: the newest by their
/// first write.
pub open spec fn order_after(order: Seq<Seq<char>>, id: Seq<char>, cap: nat) -> Seq<Seq<char>> {
    newest(first_written(order, id), cap)
}

/// The traces of a bounded store after a write.
pub open spec fn traces_after(
    order: Seq<Seq<char>>,
    traces: Map<Seq<char>, RoutingTraceView>,
    trace: RoutingTraceView,
    cap: nat,
) -> Map<Seq<char>, RoutingTraceView> {
    traces.insert(trace.message_id, trace).restrict(
        order_after(order, trace.message_id, cap).to_set(),
    )
}

/// Persists routing traces by message id. Traces are there to be looked at, not a
/// store of record: a store may be bounded to the most recent ones, and then drops
/// older ones on a write.
pub trait RoutingTraceStore {
    /// What the store holds, by key.
    open spec fn records(&self) -> Map<Seq<char>, RoutingTraceView> {
        arbitrary()
    }

    /// The number of traces the store is bounded to, if it is bounded.
    open spec fn cap(&self) -> Option<nat> {
        arbitrary()
    }

    /// The message ids of a bounded store's traces, by their first write.
    open spec fn order(&self) -> Seq<Seq<char>> {
        arbitrary()
    }

    /// Inserts a record, replacing any with the same key.
    fn upsert(&mut self, trace: RoutingTrace)
        ensures
            final(self).cap() == old(self).cap(),
            match old(self).cap() {
                Some(cap) => {
                    &&& final(self).order() == order_after(
                        old(self).order(),
                        trace@.message_id,
                        cap,
                    )
                    &&& final(self).records() == traces_after(
                        old(self).order(),
                        old(self).records(),
                        trace@,
                        cap,
                    )
                },
                None => final(self).records() == old(self).records().insert(
                    trace@.message_id,
                    trace@,
                ),
            },
    ;

    /// Fetches the record with the given key, if any.
    fn get(&self, id: &MessageId) -> (r: Option<RoutingTrace>)
        ensures
            view_of(r) == lookup(self.records(), id@),
    ;
}

/// An in-memory [`RoutingTraceStore`].
pub struct InMemoryRoutingTraceStore {
    inner: StringHashMap<RoutingTrace>,
}

impl View for InMemoryRoutingTraceStore {
    type V = Map<Seq<char>, RoutingTraceView>;

    closed spec fn view(&self) -> Map<Seq<char>, RoutingTraceView> {
        held(self.inner@)
    }
}

impl InMemoryRoutingTraceStore {
    /// Creates an empty store.
    pub fn new() -> (r: Self)
        ensures
            r@ == Map::<Seq<char>, RoutingTraceView>::empty(),
    {
        let r = InMemoryRoutingTraceStore { inner: StringHashMap::new() };
        assert(r@ =~= Map::<Seq<char>, RoutingTraceView>::empty());
        r
    }

    /// The number of stored traces.
    pub fn len(&self) -> (r: usize)
        ensures
            r == self@.len(),
    {
        assert(self@.dom() =~= self.inner@.dom());
        self.inner.len()
    }

    /// Whether the store holds nothing.
    pub fn is_empty(&self) -> (r: bool)
        ensures
            r == self@.is_empty(),
    {
        assert(self@.dom() =~= self.inner@.dom());
        self.inner.is_empty()
    }
}

impl Default for InMemoryRoutingTraceStore {
    fn default() -> (r: Self)
        ensures
            r@ == Map::<Seq<char>, RoutingTraceView>::empty(),
    {
        InMemoryRoutingTraceStore::new()
    }
}

impl RoutingTraceStore for InMemoryRoutingTraceStore {
    open spec fn records(&self) -> Map<Seq<char>, RoutingTraceView> {
        self@
    }

    open spec fn cap(&self) -> Option<nat> {
        None
    }

    fn upsert(&mut self, trace: RoutingTrace) {
        let key = trace.message_id.0.clone();
        let ghost before = self.inner@;
        let ghost record = trace;
        self.inner.insert(key, trace);
        assert(held(self.inner@) =~= held(before).insert(record@.message_id, record@));
    }

    fn get(&self, id: &MessageId) -> (r: Option<RoutingTrace>) {
        match self.inner.get(id.0.as_str()) {
            Some(record) => Some(record.clone()),
            None => None,
        }
    }
}

/// Persists routing hints by message id.
pub trait RoutingHintStore {
    /// What the store holds, by key.
    open spec fn records(&self) -> Map<Seq<char>, RoutingHintView> {
        arbitrary()
    }

    /// Inserts a record, replacing any with the same key.
    fn upsert(&mut self, hint: RoutingHint)
        ensures
            final(self).records() == old(self).records().insert(hint@.message_id, hint@),
    ;

    /// Fetches the record with the given key, if any.
    fn get(&self, id: &MessageId) -> (r: Option<RoutingHint>)
        ensures
            view_of(r) == lookup(self.records(), id@),
    ;
}

/// An in-memory [`RoutingHintStore`].
pub struct InMemoryRoutingHintStore {
    inner: StringHashMap<RoutingHint>,
}

impl View for InMemoryRoutingHintStore {
    type V = Map<Seq<char>, RoutingHintView>;

    closed spec fn view(&self) -> Map<Seq<char>, RoutingHintView> {
        held(self.inner@)
    }
}

impl InMemoryRoutingHintStore {
    /// Creates an empty store.
    pub fn new() -> (r: Self)
        ensures
            r@ == Map::<Seq<char>, RoutingHintView>::empty(),
    {
        let r = InMemoryRoutingHintStore { inner: StringHashMap::new() };
        assert(r@ =~= Map::<Seq<char>, RoutingHintView>::empty());
        r
    }

    /// The number of stored hints.
    pub fn len(&self) -> (r: usize)
        ensures
            r == self@.len(),
    {
        assert(self@.dom() =~= self.inner@.dom());
        self.inner.len()
    }

    /// Whether the store holds nothing.
    pub fn is_empty(&self) -> (r: bool)
        ensures
            r == self@.is_empty(),
    {
        assert(self@.dom() =~= self.inner@.dom());
        self.inner.is_empty()
    }
}

impl Default for InMemoryRoutingHintStore {
    fn default() -> (r: Self)
        ensures
            r@ == Map::<Seq<char>, RoutingHintView>::empty(),
    {
        InMemoryRoutingHintStore::new()
    }
}

impl RoutingHintStore for InMemoryRoutingHintStore {
    open spec fn records(&self) -> Map<Seq<char>, RoutingHintView> {
        self@
    }

    fn upsert(&mut self, hint: RoutingHint) {
        let key = hint.message_id.0.clone();
        let ghost before = self.inner@;
        let ghost record = hint;
        self.inner.insert(key, hint);
        assert(held(self.inner@) =~= held(before).insert(record@.message_id, record@));
    }

    fn get(&self, id: &MessageId) -> (r: Option<RoutingHint>) {
        match self.inner.get(id.0.as_str()) {
            Some(record) => Some(record.clone()),
            None => None,
        }
    }
}

/// Persists session developers by conversation id.
pub trait DeveloperSnapshotStore {
    /// What the store holds, by key.
    open spec fn records(&self) -> Map<Seq<char>, SessionDevelopersView> {
        arbitrary()
    }

    /// Inserts a record, replacing any with the same key.
    fn upsert(&mut self, developers: SessionDevelopers)
        ensures
            final(self).records() == old(self).records().insert(developers@.conversation, developers@),
    ;

    /// Fetches the record with the given key, if any.
    fn get(&self, id: &ConversationId) -> (r: Option<SessionDevelopers>)
        ensures
            view_of(r) == lookup(self.records(), id@),
    ;
}

/// An in-memory [`DeveloperSnapshotStore`].
pub struct InMemoryDeveloperSnapshotStore {
    inner: StringHashMap<SessionDevelopers>,
}

impl View for InMemoryDeveloperSnapshotStore {
    type V = Map<Seq<char>, SessionDevelopersView>;

    closed spec fn view(&self) -> Map<Seq<char>, SessionDevelopersView> {
        held(self.inner@)
    }
}

impl InMemoryDeveloperSnapshotStore {
    /// Creates an empty store.
    pub fn new() -> (r: Self)
        ensures
            r@ == Map::<Seq<char>, SessionDevelopersView>::empty(),
    {
        let r = InMemoryDeveloperSnapshotStore { inner: StringHashMap::new() };
        assert(r@ =~= Map::<Seq<char>, SessionDevelopersView>::empty());
        r
    }

    /// The number of stored snapshots.
    pub fn len(&self) -> (r: usize)
        ensures
            r == self@.len(),
    {
        assert(self@.dom() =~= self.inner@.dom());
        self.inner.len()
    }

    /// Whether the store holds nothing.
    pub fn is_empty(&self) -> (r: bool)
        ensures
            r == self@.is_empty(),
    {
        assert(self@.dom() =~= self.inner@.dom());
        self.inner.is_empty()
    }
}

impl Default for InMemoryDeveloperSnapshotStore {
    fn default() -> (r: Self)
        ensures
            r@ == Map::<Seq<char>, SessionDevelopersView>::empty(),
    {
        InMemoryDeveloperSnapshotStore::new()
    }
}

impl DeveloperSnapshotStore for InMemoryDeveloperSnapshotStore {
    open spec fn records(&self) -> Map<Seq<char>, SessionDevelopersView> {
        self@
    }

    fn upsert(&mut self, developers: SessionDevelopers) {
        let key = developers.conversation.0.clone();
        let ghost before = self.inner@;
        let ghost record = developers;
        self.inner.insert(key, developers);
        assert(held(self.inner@) =~= held(before).insert(record@.conversation, record@));
    }

    fn get(&self, id: &ConversationId) -> (r: Option<SessionDevelopers>) {
        match self.inner.get(id.0.as_str()) {
            Some(record) => Some(record.clone()),
            None => None,
        }
    }
}

} // verus!
