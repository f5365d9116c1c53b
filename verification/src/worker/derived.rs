//! Turning the stores of a run into cached output per conversation.

use super::jobs::fetch_stored;
use super::jobs::stored;
use super::replay::ReplayStores;
use super::replay::ReplayStoresView;
use super::sessions::ids_of;
use super::sessions::lemma_no_messages;
use crate::model::derivation::ConversationDerivation;
use crate::model::derivation::ConversationDerivationView;
use crate::model::derivation::DerivedOutputCache;
use crate::model::digest::digest;
use crate::model::digest::Digest;
use crate::model::message::ConversationId;
use crate::model::message::MessageEnvelope;
use crate::model::message::MessageEnvelopeView;
use crate::model::message::MessageId;
use crate::model::message_log::conversations_of;
use crate::model::message_log::distinct_conversations;
use crate::model::message_log::in_conversation;
use crate::model::message_log::messages_of;
use crate::model::message_log::MessageStore;
use crate::model::routing::RoutingHint;
use crate::model::routing::RoutingHintView;
use crate::model::seqs::lookup;
use crate::model::seqs::view_of;
use crate::model::seqs::views;
use crate::model::store::DeveloperSnapshotStore;
use crate::model::store::RoutingHintStore;
use crate::model::store::ScopeStore;
use crate::model::store::WarmupStore;
use crate::runtime::frame::Triple;
use crate::runtime::step::StepVersion;
use vstd::hash_map::StringHashMap;
use vstd::prelude::*;

verus! {

/// The id and body of each message, one after the other.
pub open spec fn content_texts(messages: Seq<MessageEnvelopeView>) -> Seq<Seq<char>>
    decreases messages.len(),
{
    if messages.len() == 0 {
        Seq::empty()
    } else {
        content_texts(messages.drop_last()).push(messages.last().id).push(messages.last().body)
    }
}

/// The content hash of a conversation's messages.
pub open spec fn content_digest(messages: Seq<MessageEnvelopeView>) -> Seq<char> {
    digest(content_texts(messages))
}

/// The stored hints of the given messages, in order; a message without one is
/// skipped.
pub open spec fn stored_hints(
    hints: Map<Seq<char>, RoutingHintView>,
    ids: Seq<Seq<char>>,
) -> Seq<RoutingHintView>
    decreases ids.len(),
{
    if ids.len() == 0 {
        Seq::empty()
    } else {
        let before = stored_hints(hints, ids.drop_last());
        match lookup(hints, ids.last()) {
            Some(hint) => before.push(hint),
            None => before,
        }
    }
}

/// The derivation of one conversation in the stores of a run; none without a
/// warm-up.
pub open spec fn derivation_of(
    stores: ReplayStoresView,
    conversation: Seq<char>,
    ids: Seq<Seq<char>>,
) -> Option<ConversationDerivationView> {
    match lookup(stores.warmups, conversation) {
        Some(warmup) => Some(
            ConversationDerivationView {
                conversation,
                projections: stored(stores.projections, ids),
                scope: lookup(stores.scopes, conversation),
                warmup,
                developers: lookup(stores.developers, conversation),
                hints: stored_hints(stores.hints, ids),
            },
        ),
        None => None,
    }
}

/// The derivation of one conversation of a log.
pub open spec fn derivation_in(
    log: Seq<MessageEnvelopeView>,
    stores: ReplayStoresView,
    conversation: Seq<char>,
) -> Option<ConversationDerivationView> {
    derivation_of(stores, conversation, ids_of(messages_of(log, conversation)))
}

/// The derivations of the given conversations, in order.
pub open spec fn derivations_of(
    log: Seq<MessageEnvelopeView>,
    stores: ReplayStoresView,
    conversations: Seq<Seq<char>>,
) -> Seq<ConversationDerivationView>
    decreases conversations.len(),
{
    if conversations.len() == 0 {
        Seq::empty()
    } else {
        let before = derivations_of(log, stores, conversations.drop_last());
        match derivation_in(log, stores, conversations.last()) {
            Some(derivation) => before.push(derivation),
            None => before,
        }
    }
}

/// Where the derivation of a conversation is cached.
pub open spec fn cache_entry(
    log: Seq<MessageEnvelopeView>,
    version: Seq<char>,
    conversation: Seq<char>,
) -> Triple {
    (version, conversation, content_digest(messages_of(log, conversation)))
}

/// Whether caching the derivation of one conversation, and then reclaiming what it
/// supersedes, may take a cache from `before` to `after`. A conversation without a
/// derivation touches nothing.
pub open spec fn publishes<C: DerivedOutputCache>(
    before: C,
    after: C,
    log: Seq<MessageEnvelopeView>,
    stores: ReplayStoresView,
    version: Seq<char>,
    conversation: Seq<char>,
) -> bool {
    match derivation_in(log, stores, conversation) {
        Some(derivation) => {
            let entry = cache_entry(log, version, conversation);
            exists|written: C|
                written.entries() == before.entries().insert(entry, derivation)
                    && #[trigger] written.reclaims(
                    conversation,
                    version,
                    entry.2,
                    after.entries(),
                )
        },
        None => after == before,
    }
}

/// Whether publishing the given conversations in order may take a cache from
/// `before` to `after`.
pub open spec fn publishes_all<C: DerivedOutputCache>(
    before: C,
    after: C,
    log: Seq<MessageEnvelopeView>,
    stores: ReplayStoresView,
    version: Seq<char>,
    conversations: Seq<Seq<char>>,
) -> bool
    decreases conversations.len(),
{
    if conversations.len() == 0 {
        after == before
    } else {
        exists|between: C|
            publishes_all(before, between, log, stores, version, conversations.drop_last())
                && #[trigger] publishes(
                between,
                after,
                log,
                stores,
                version,
                conversations.last(),
            )
    }
}

/// Whether a run's output was published: each conversation's derivation is written
/// and what it supersedes reclaimed, in order, so that each is cached under its
/// current entry and nothing is lost but older output of those conversations.
pub open spec fn populated<C: DerivedOutputCache>(
    before: C,
    after: C,
    log: Seq<MessageEnvelopeView>,
    stores: ReplayStoresView,
    version: Seq<char>,
    conversations: Seq<Seq<char>>,
) -> bool {
    &&& publishes_all(before, after, log, stores, version, conversations)
    &&& holds_output(before.entries(), after.entries(), log, stores, version, conversations)
}

/// Whether `after` is `before` with the derivation of each given conversation
/// cached under its current entry, and nothing else lost but older output of
/// those conversations.
pub open spec fn holds_output(
    before: Map<Triple, ConversationDerivationView>,
    after: Map<Triple, ConversationDerivationView>,
    log: Seq<MessageEnvelopeView>,
    stores: ReplayStoresView,
    version: Seq<char>,
    conversations: Seq<Seq<char>>,
) -> bool {
    &&& forall|c: Seq<char>|
        #![trigger derivation_in(log, stores, c)]
        conversations.contains(c) && derivation_in(log, stores, c) is Some ==> lookup(
            after,
            cache_entry(log, version, c),
        ) == derivation_in(log, stores, c)
    &&& forall|t: Triple| #[trigger]
        after.contains_key(t) ==> (before.contains_key(t) && after[t] == before[t]) || (
        conversations.contains(t.1) && t == cache_entry(log, version, t.1) && derivation_in(
            log,
            stores,
            t.1,
        ) is Some)
    &&& forall|t: Triple| #[trigger]
        before.contains_key(t) && !(conversations.contains(t.1) && derivation_in(log, stores, t.1)
            is Some) ==> after.contains_key(t)
}

/// The distinct conversations of a log, in first-seen order.
pub fn conversations<M: MessageStore>(store: &M) -> (r: Vec<ConversationId>)
    ensures
        views(r@) == conversations_of(store.log()),
{
    let log = store.all();
    distinct_conversations(&log)
}

/// The message ids of a conversation, in order.
pub fn messages_in<M: MessageStore>(store: &M, conversation: &ConversationId) -> (r: Vec<MessageId>)
    ensures
        views(r@) == ids_of(messages_of(store.log(), conversation@)),
{
    let log = store.all();
    let messages = in_conversation(&log, conversation);
    message_ids(&messages)
}

/// The ids of the messages.
fn message_ids(messages: &Vec<MessageEnvelope>) -> (r: Vec<MessageId>)
    ensures
        views(r@) == ids_of(views(messages@)),
{
    let mut out: Vec<MessageId> = Vec::new();
    let mut i: usize = 0;
    while i < messages.len()
        invariant
            i <= messages@.len(),
            out@.len() == i,
            forall|j: int| 0 <= j < i ==> (#[trigger] out@[j])@ == messages@[j]@.id,
        decreases messages@.len() - i,
    {
        out.push(messages[i].id.clone());
        i = i + 1;
    }
    assert(views(out@) =~= ids_of(views(messages@)));
    out
}

/// A stable hash of a conversation's messages: an appended or edited message
/// changes what is hashed.
pub fn content_hash<M: MessageStore>(store: &M, conversation: &ConversationId) -> (r: String)
    ensures
        r@ == content_digest(messages_of(store.log(), conversation@)),
{
    let log = store.all();
    let messages = in_conversation(&log, conversation);
    content_hash_of(messages.as_slice())
}

/// The content hash of messages already at hand.
pub fn content_hash_of(messages: &[MessageEnvelope]) -> (r: String)
    ensures
        r@ == content_digest(views(messages@)),
{
    let ghost all = views(messages@);
    let mut d = Digest::new();
    let mut i: usize = 0;
    assert(d@ =~= content_texts(all.take(0)));
    while i < messages.len()
        invariant
            i <= messages@.len(),
            all == views(messages@),
            d.wf(),
            d@ == content_texts(all.take(i as int)),
        decreases messages@.len() - i,
    {
        proof {
            assert(all.take(i + 1).drop_last() =~= all.take(i as int));
            assert(all.take(i + 1).last() == messages@[i as int]@);
        }
        d.text(messages[i].id.0.as_str());
        d.text(messages[i].body.as_str());
        i = i + 1;
    }
    assert(all.take(i as int) =~= all);
    d.finish()
}

/// Fetches the stored hints of the given messages.
fn fetch_hints<H: RoutingHintStore>(hints: &H, ids: &Vec<MessageId>) -> (r: Vec<RoutingHint>)
    ensures
        views(r@) == stored_hints(hints.records(), views(ids@)),
{
    let ghost all = views(ids@);
    let mut out: Vec<RoutingHint> = Vec::new();
    let mut i: usize = 0;
    assert(views(out@) =~= stored_hints(hints.records(), all.take(0)));
    while i < ids.len()
        invariant
            i <= ids@.len(),
            all == views(ids@),
            views(out@) == stored_hints(hints.records(), all.take(i as int)),
        decreases ids@.len() - i,
    {
        proof {
            assert(all.take(i + 1).drop_last() =~= all.take(i as int));
            assert(all.take(i + 1).last() == ids@[i as int]@);
        }
        if let Some(hint) = hints.get(&ids[i]) {
            let ghost before = views(out@);
            let ghost fresh = hint@;
            out.push(hint);
            assert(views(out@) =~= before.push(fresh));
        }
        i = i + 1;
    }
    assert(all.take(i as int) =~= all);
    out
}

/// Extracts the derivation of one conversation, given its messages.
pub fn derivation_from_messages(
    stores: &ReplayStores,
    conversation: &ConversationId,
    messages: &Vec<MessageEnvelope>,
) -> (r: Option<ConversationDerivation>)
    ensures
        view_of(r) == derivation_of(stores@, conversation@, ids_of(views(messages@))),
{
    let warmup = match stores.warmups.get(conversation) {
        Some(warmup) => warmup,
        None => {
            return None;
        },
    };
    let ids = message_ids(messages);
    Some(
        ConversationDerivation {
            conversation: conversation.clone(),
            projections: fetch_stored(&stores.projections, &ids),
            scope: stores.scopes.get(conversation),
            warmup,
            developers: stores.developers.get(conversation),
            hints: fetch_hints(&stores.hints, &ids),
        },
    )
}

/// Extracts the derivation of one conversation from the stores of a run.
pub fn derivation_for<M: MessageStore>(
    store: &M,
    stores: &ReplayStores,
    conversation: &ConversationId,
) -> (r: Option<ConversationDerivation>)
    ensures
        view_of(r) == derivation_in(store.log(), stores@, conversation@),
{
    let log = store.all();
    let messages = in_conversation(&log, conversation);
    derivation_from_messages(stores, conversation, &messages)
}

/// One conversation of a log with its messages.
pub struct ConversationLog {
    pub conversation: ConversationId,
    pub messages: Vec<MessageEnvelope>,
}

/// Whether the groups are the conversations of the log, and the index finds them.
spec fn are_groups(
    groups: Seq<ConversationLog>,
    index: Map<Seq<char>, usize>,
    log: Seq<MessageEnvelopeView>,
) -> bool {
    &&& groups.len() == conversations_of(log).len()
    &&& forall|k: int|
        0 <= k < groups.len() ==> (#[trigger] groups[k]).conversation@ == conversations_of(log)[k]
            && views(groups[k].messages@) == messages_of(log, groups[k].conversation@)
            && index.contains_key(groups[k].conversation@) && index[groups[k].conversation@] == k
    &&& forall|c: Seq<char>| #[trigger]
        index.contains_key(c) ==> index[c] < groups.len() && groups[index[c] as int].conversation@
            == c
}

/// Groups the messages of a log by conversation, in one pass.
pub fn group_messages(log: Vec<MessageEnvelope>) -> (r: Vec<ConversationLog>)
    ensures
        r@.len() == conversations_of(views(log@)).len(),
        forall|k: int|
            0 <= k < r@.len() ==> (#[trigger] r@[k]).conversation@ == conversations_of(
                views(log@),
            )[k] && views(r@[k].messages@) == messages_of(views(log@), r@[k].conversation@),
{
    let ghost all = views(log@);
    let mut groups: Vec<ConversationLog> = Vec::new();
    let mut index: StringHashMap<usize> = StringHashMap::new();
    let mut i: usize = 0;
    while i < log.len()
        invariant
            i <= log@.len(),
            all == views(log@),
            are_groups(groups@, index@, all.take(i as int)),
        decreases log@.len() - i,
    {
        let message = &log[i];
        let ghost seen = all.take(i as int);
        let ghost next = all.take(i + 1);
        let ghost c = message@.conversation.id;
        proof {
            assert(next.drop_last() =~= seen);
            assert(next.last() == message@);
        }
        let known: Option<usize> = match index.get(message.conversation.id.0.as_str()) {
            Some(k) => Some(*k),
            None => None,
        };
        let ghost before = groups@;
        let place: usize = match known {
            Some(k) => k,
            None => {
                let k: usize = groups.len();
                let fresh = ConversationLog {
                    conversation: message.conversation.id.clone(),
                    messages: Vec::new(),
                };
                proof {
                    if conversations_of(seen).contains(c) {
                        let n = choose|n: int|
                            0 <= n < conversations_of(seen).len() && conversations_of(seen)[n] == c;
                        assert(before[n].conversation@ == c);
                    }
                    lemma_no_messages(seen, c);
                    assert(views(fresh.messages@) =~= messages_of(seen, c));
                }
                groups.push(fresh);
                index.insert(message.conversation.id.0.clone(), k);
                k
            },
        };
        let ghost middle = groups@;
        proof {
            if known is Some {
                assert(conversations_of(seen).contains(c)) by {
                    assert(before[place as int].conversation@ == c);
                    assert(conversations_of(seen)[place as int] == c);
                }
            }
            assert(middle[place as int].conversation@ == c);
            assert(views(middle[place as int].messages@) == messages_of(seen, c));
        }
        groups[place].messages.push(message.clone());
        proof {
            assert(views(groups@[place as int].messages@) =~= messages_of(seen, c).push(message@));
            assert(conversations_of(next) == if known is Some {
                conversations_of(seen)
            } else {
                conversations_of(seen).push(c)
            });
            assert forall|k: int| 0 <= k < groups@.len() implies (
            #[trigger] groups@[k]).conversation@ == conversations_of(next)[k] && views(
                groups@[k].messages@,
            ) == messages_of(next, groups@[k].conversation@) && index@.contains_key(
                groups@[k].conversation@,
            ) && index@[groups@[k].conversation@] == k by {
                if k != place {
                    assert(groups@[k] == middle[k]);
                    assert(middle[k] == before[k]);
                    assert(before[k].conversation@ != c);
                }
            }
        }
        i = i + 1;
    }
    assert(all.take(i as int) =~= all);
    groups
}

/// One more conversation cached.
proof fn lemma_output_step(
    start: Map<Triple, ConversationDerivationView>,
    before: Map<Triple, ConversationDerivationView>,
    after: Map<Triple, ConversationDerivationView>,
    log: Seq<MessageEnvelopeView>,
    stores: ReplayStoresView,
    version: Seq<char>,
    done: Seq<Seq<char>>,
    c: Seq<char>,
)
    requires
        holds_output(start, before, log, stores, version, done),
        !done.contains(c),
        match derivation_in(log, stores, c) {
            Some(derivation) => {
                let entry = cache_entry(log, version, c);
                let written = before.insert(entry, derivation);
                &&& after.submap_of(written)
                &&& forall|t: Triple| #[trigger]
                    written.contains_key(t) && (t.1 != c || t == entry) ==> after.contains_key(t)
            },
            None => after == before,
        },
    ensures
        holds_output(start, after, log, stores, version, done.push(c)),
{
    let more = done.push(c);
    assert forall|x: Seq<char>| more.contains(x) <==> (done.contains(x) || x == c) by {
        if more.contains(x) {
            let k = choose|k: int| 0 <= k < more.len() && more[k] == x;
            if k < done.len() {
                assert(done[k] == x);
            }
        }
        if done.contains(x) {
            let k = choose|k: int| 0 <= k < done.len() && done[k] == x;
            assert(more[k] == x);
        }
        assert(more[done.len() as int] == c);
    }
    let entry = cache_entry(log, version, c);
    match derivation_in(log, stores, c) {
        Some(derivation) => {
            let written = before.insert(entry, derivation);
            assert forall|x: Seq<char>|
                #![trigger derivation_in(log, stores, x)]
                more.contains(x) && derivation_in(log, stores, x) is Some implies lookup(
                after,
                cache_entry(log, version, x),
            ) == derivation_in(log, stores, x) by {
                let e = cache_entry(log, version, x);
                if x == c {
                    assert(written.contains_key(e));
                    assert(after.contains_key(e));
                } else {
                    assert(lookup(before, e) == derivation_in(log, stores, x));
                    assert(e.1 == x);
                    assert(written.contains_key(e));
                    assert(after.contains_key(e));
                }
            }
            assert forall|t: Triple| #[trigger] after.contains_key(t) implies (start.contains_key(t)
                && after[t] == start[t]) || (more.contains(t.1) && t == cache_entry(
                log,
                version,
                t.1,
            ) && derivation_in(log, stores, t.1) is Some) by {
                assert(written.contains_key(t) && written[t] == after[t]);
                if t != entry {
                    assert(before.contains_key(t));
                }
            }
            assert forall|t: Triple| #[trigger]
                start.contains_key(t) && !(more.contains(t.1) && derivation_in(log, stores, t.1)
                    is Some) implies after.contains_key(t) by {
                assert(before.contains_key(t));
                assert(written.contains_key(t));
            }
        },
        None => {},
    }
}

/// Caches the derivation of every conversation under the version and its content
/// hash, and returns the derivations in first-seen order.
pub fn populate_cache<M: MessageStore, C: DerivedOutputCache>(
    store: &M,
    stores: &ReplayStores,
    cache: &mut C,
    version: &StepVersion,
) -> (r: Vec<ConversationDerivation>)
    ensures
        views(r@) == derivations_of(store.log(), stores@, conversations_of(store.log())),
        populated(
            *old(cache),
            *final(cache),
            store.log(),
            stores@,
            version@,
            conversations_of(store.log()),
        ),
{
    let ghost log = store.log();
    let ghost all = conversations_of(log);
    let groups = group_messages(store.all());
    let mut out: Vec<ConversationDerivation> = Vec::new();
    let ghost start = *cache;
    let mut i: usize = 0;
    proof {
        assert(views(out@) =~= derivations_of(log, stores@, all.take(0)));
        lemma_conversations_distinct(log);
    }
    while i < groups.len()
        invariant
            i <= groups@.len(),
            groups@.len() == all.len(),
            all == conversations_of(log),
            all.no_duplicates(),
            forall|k: int|
                0 <= k < groups@.len() ==> (#[trigger] groups@[k]).conversation@ == all[k] && views(
                    groups@[k].messages@,
                ) == messages_of(log, all[k]),
            views(out@) == derivations_of(log, stores@, all.take(i as int)),
            populated(start, *cache, log, stores@, version@, all.take(i as int)),
        decreases groups@.len() - i,
    {
        let group = &groups[i];
        let ghost c = all[i as int];
        let ghost before = *cache;
        proof {
            assert(all.take(i + 1).drop_last() =~= all.take(i as int));
            assert(all.take(i + 1).last() == c);
            assert(all.take(i + 1) =~= all.take(i as int).push(c));
            assert(!all.take(i as int).contains(c)) by {
                if all.take(i as int).contains(c) {
                    let k = choose|k: int| 0 <= k < i && all.take(i as int)[k] == c;
                    assert(all[k] == all[i as int]);
                }
            }
        }
        if let Some(derivation) = derivation_from_messages(
            stores,
            &group.conversation,
            &group.messages,
        ) {
            let content = content_hash_of(group.messages.as_slice());
            cache.put(version, &group.conversation, content.as_str(), derivation.clone());
            let ghost written = *cache;
            cache.reclaim_superseded(&group.conversation, version, content.as_str());
            let ghost held = views(out@);
            let ghost fresh = derivation@;
            out.push(derivation);
            assert(views(out@) =~= held.push(fresh));
            proof {
                let entry = cache_entry(log, version@, c);
                assert(derivation_in(log, stores@, c) == Some(fresh));
                assert(written.entries() == before.entries().insert(entry, fresh));
                assert(written.reclaims(c, version@, entry.2, cache.entries()));
            }
        }
        proof {
            lemma_output_step(
                start.entries(),
                before.entries(),
                cache.entries(),
                log,
                stores@,
                version@,
                all.take(i as int),
                c,
            );
            assert(publishes(before, *cache, log, stores@, version@, c));
            assert(publishes_all(start, *cache, log, stores@, version@, all.take(i + 1)));
        }
        i = i + 1;
    }
    assert(all.take(i as int) =~= all);
    out
}

/// The conversations of a log are distinct.
pub proof fn lemma_conversations_distinct(log: Seq<MessageEnvelopeView>)
    ensures
        conversations_of(log).no_duplicates(),
    decreases log.len(),
{
    if log.len() > 0 {
        lemma_conversations_distinct(log.drop_last());
    }
}

} // verus!
