//! The message log: the source of truth that a replay derives from.

use super::message::ConversationId;
use super::message::MessageEnvelope;
use super::message::MessageEnvelopeView;
use super::message::MessageId;
use super::seqs::view_of;
use super::seqs::views;
use vstd::hash_map::StringHashMap;
use vstd::prelude::*;

verus! {

/// The position of a message in a log, if it is there.
pub open spec fn position(log: Seq<MessageEnvelopeView>, id: Seq<char>) -> Option<int>
    decreases log.len(),
{
    if log.len() == 0 {
        None
    } else if log.last().id == id {
        Some(log.len() - 1)
    } else {
        position(log.drop_last(), id)
    }
}

/// The log after an append: a known message is replaced in place, a new one
/// joins at the end.
pub open spec fn appended(
    log: Seq<MessageEnvelopeView>,
    message: MessageEnvelopeView,
) -> Seq<MessageEnvelopeView> {
    match position(log, message.id) {
        Some(i) => log.update(i, message),
        None => log.push(message),
    }
}

/// The message with an id, if the log has it.
pub open spec fn message_with(log: Seq<MessageEnvelopeView>, id: Seq<char>) -> Option<
    MessageEnvelopeView,
> {
    match position(log, id) {
        Some(i) => Some(log[i]),
        None => None,
    }
}

/// Whether every message of the log has an id of its own.
pub open spec fn ids_distinct(log: Seq<MessageEnvelopeView>) -> bool {
    forall|i: int, j: int| 0 <= i < j < log.len() ==> log[i].id != log[j].id
}

/// The distinct conversations of a log, in first-seen order.
pub open spec fn conversations_of(log: Seq<MessageEnvelopeView>) -> Seq<Seq<char>>
    decreases log.len(),
{
    if log.len() == 0 {
        Seq::empty()
    } else {
        let before = conversations_of(log.drop_last());
        let last = log.last().conversation.id;
        if before.contains(last) {
            before
        } else {
            before.push(last)
        }
    }
}

/// The messages of one conversation, in order.
pub open spec fn messages_of(log: Seq<MessageEnvelopeView>, conversation: Seq<char>) -> Seq<
    MessageEnvelopeView,
>
    decreases log.len(),
{
    if log.len() == 0 {
        Seq::empty()
    } else {
        let before = messages_of(log.drop_last(), conversation);
        if log.last().conversation.id == conversation {
            before.push(log.last())
        } else {
            before
        }
    }
}

/// Where a found message stands.
pub proof fn lemma_position(log: Seq<MessageEnvelopeView>, id: Seq<char>)
    ensures
        match position(log, id) {
            Some(i) => 0 <= i < log.len() && log[i].id == id,
            None => forall|i: int| 0 <= i < log.len() ==> (#[trigger] log[i]).id != id,
        },
    decreases log.len(),
{
    if log.len() > 0 && log.last().id != id {
        lemma_position(log.drop_last(), id);
        if position(log, id) is None {
            assert forall|i: int| 0 <= i < log.len() implies (#[trigger] log[i]).id != id by {
                if i < log.len() - 1 {
                    assert(log.drop_last()[i].id != id);
                }
            }
        } else {
            let i = position(log, id)->Some_0;
            assert(log.drop_last()[i] == log[i]);
        }
    }
}

/// In a log of distinct ids, a message stands where it is found.
pub proof fn lemma_position_of(log: Seq<MessageEnvelopeView>, i: int)
    requires
        ids_distinct(log),
        0 <= i < log.len(),
    ensures
        position(log, log[i].id) == Some(i),
{
    lemma_position(log, log[i].id);
    match position(log, log[i].id) {
        Some(k) => {
            if k < i {
                assert(log[k].id != log[i].id);
            } else if i < k {
                assert(log[i].id != log[k].id);
            }
        },
        None => {
            assert(log[i].id != log[i].id);
        },
    }
}

/// An append keeps the ids distinct.
pub proof fn lemma_append_distinct(log: Seq<MessageEnvelopeView>, message: MessageEnvelopeView)
    requires
        ids_distinct(log),
    ensures
        ids_distinct(appended(log, message)),
{
    lemma_position(log, message.id);
}

/// Whether a list of conversations holds one.
fn has_conversation(seen: &Vec<ConversationId>, id: &ConversationId) -> (r: bool)
    ensures
        r == views(seen@).contains(id@),
{
    let mut i: usize = 0;
    while i < seen.len()
        invariant
            i <= seen@.len(),
            forall|j: int| 0 <= j < i ==> (#[trigger] seen@[j])@ != id@,
        decreases seen@.len() - i,
    {
        if seen[i].0 == id.0 {
            assert(views(seen@)[i as int] == id@);
            return true;
        }
        i = i + 1;
    }
    proof {
        if views(seen@).contains(id@) {
            let k = choose|k: int| 0 <= k < views(seen@).len() && views(seen@)[k] == id@;
            assert(seen@[k]@ == id@);
        }
    }
    false
}

/// Lists the distinct conversations of a log.
pub fn distinct_conversations(log: &Vec<MessageEnvelope>) -> (r: Vec<ConversationId>)
    ensures
        views(r@) == conversations_of(views(log@)),
{
    let ghost all = views(log@);
    let mut seen: Vec<ConversationId> = Vec::new();
    let mut i: usize = 0;
    assert(views(seen@) =~= conversations_of(all.take(0)));
    while i < log.len()
        invariant
            i <= log@.len(),
            all == views(log@),
            views(seen@) == conversations_of(all.take(i as int)),
        decreases log@.len() - i,
    {
        let message = &log[i];
        proof {
            assert(all.take(i + 1).drop_last() =~= all.take(i as int));
            assert(all.take(i + 1).last() == message@);
        }
        if !has_conversation(&seen, &message.conversation.id) {
            let ghost before = views(seen@);
            seen.push(message.conversation.id.clone());
            assert(views(seen@) =~= before.push(message@.conversation.id));
        }
        i = i + 1;
    }
    assert(all.take(i as int) =~= all);
    seen
}

/// Picks the messages of one conversation.
pub fn in_conversation(log: &Vec<MessageEnvelope>, conversation: &ConversationId) -> (r: Vec<
    MessageEnvelope,
>)
    ensures
        views(r@) == messages_of(views(log@), conversation@),
{
    let ghost all = views(log@);
    let mut out: Vec<MessageEnvelope> = Vec::new();
    let mut i: usize = 0;
    assert(views(out@) =~= messages_of(all.take(0), conversation@));
    while i < log.len()
        invariant
            i <= log@.len(),
            all == views(log@),
            views(out@) == messages_of(all.take(i as int), conversation@),
        decreases log@.len() - i,
    {
        let message = &log[i];
        proof {
            assert(all.take(i + 1).drop_last() =~= all.take(i as int));
            assert(all.take(i + 1).last() == message@);
        }
        if message.conversation.id.0 == conversation.0 {
            let ghost before = views(out@);
            out.push(message.clone());
            assert(views(out@) =~= before.push(message@));
        }
        i = i + 1;
    }
    assert(all.take(i as int) =~= all);
    out
}

/// Stores ingested messages by id.
///
/// `append` is idempotent by id: a known message is replaced in place, so the log
/// accounts for each message exactly once.
pub trait MessageStore {
    /// The messages, in append order.
    open spec fn log(&self) -> Seq<MessageEnvelopeView> {
        arbitrary()
    }

    /// Appends a message, replacing any with the same id.
    fn append(&mut self, message: MessageEnvelope)
        ensures
            final(self).log() == appended(old(self).log(), message@),
    ;

    /// Fetches a message by id.
    fn get(&self, id: &MessageId) -> (r: Option<MessageEnvelope>)
        ensures
            view_of(r) == message_with(self.log(), id@),
    ;

    /// All messages, in append order, each id once.
    fn all(&self) -> (r: Vec<MessageEnvelope>)
        ensures
            views(r@) == self.log(),
            ids_distinct(self.log()),
    ;

    /// The distinct conversations, in first-seen order.
    fn conversation_ids(&self) -> (r: Vec<ConversationId>)
        ensures
            views(r@) == conversations_of(self.log()),
    {
        let log = self.all();
        distinct_conversations(&log)
    }

    /// The messages of one conversation, in append order.
    fn messages_for(&self, conversation: &ConversationId) -> (r: Vec<MessageEnvelope>)
        ensures
            views(r@) == messages_of(self.log(), conversation@),
    {
        let log = self.all();
        in_conversation(&log, conversation)
    }
}

/// An in-memory [`MessageStore`]: the messages in order, and where each stands.
pub struct InMemoryMessageStore {
    order: Vec<MessageEnvelope>,
    by_id: StringHashMap<usize>,
}

impl View for InMemoryMessageStore {
    type V = Seq<MessageEnvelopeView>;

    closed spec fn view(&self) -> Seq<MessageEnvelopeView> {
        views(self.order@)
    }
}

/// Whether the index tells where each message stands.
spec fn indexed(order: Seq<MessageEnvelopeView>, by_id: Map<Seq<char>, usize>) -> bool {
    &&& ids_distinct(order)
    &&& forall|i: int|
        0 <= i < order.len() ==> by_id.contains_key((#[trigger] order[i]).id) && by_id[order[i].id]
            == i
    &&& forall|id: Seq<char>| #[trigger]
        by_id.contains_key(id) ==> by_id[id] < order.len() && order[by_id[id] as int].id == id
}

impl InMemoryMessageStore {
    #[verifier::type_invariant]
    closed spec fn wf(self) -> bool {
        indexed(views(self.order@), self.by_id@)
    }

    /// Creates an empty log.
    pub fn new() -> (r: Self)
        ensures
            r@ == Seq::<MessageEnvelopeView>::empty(),
    {
        let r = InMemoryMessageStore { order: Vec::new(), by_id: StringHashMap::new() };
        assert(r@ =~= Seq::<MessageEnvelopeView>::empty());
        r
    }

    /// The number of distinct messages.
    pub fn len(&self) -> (r: usize)
        ensures
            r == self@.len(),
            ids_distinct(self@),
    {
        proof {
            use_type_invariant(self);
        }
        self.order.len()
    }

    /// Whether the log is empty.
    pub fn is_empty(&self) -> (r: bool)
        ensures
            r == (self@.len() == 0),
    {
        self.order.len() == 0
    }
}

impl Default for InMemoryMessageStore {
    fn default() -> (r: Self)
        ensures
            r@ == Seq::<MessageEnvelopeView>::empty(),
    {
        InMemoryMessageStore::new()
    }
}

impl MessageStore for InMemoryMessageStore {
    open spec fn log(&self) -> Seq<MessageEnvelopeView> {
        self@
    }

    fn append(&mut self, message: MessageEnvelope) {
        let ghost before = views(self.order@);
        let ghost fresh = message@;
        proof {
            use_type_invariant(&*self);
            lemma_position(before, message@.id);
        }
        let mut whole = InMemoryMessageStore::new();
        std::mem::swap(self, &mut whole);
        let InMemoryMessageStore { order: mut messages, by_id: mut index } = whole;
        let known: Option<usize> = match index.get(message.id.0.as_str()) {
            Some(i) => Some(*i),
            None => None,
        };
        match known {
            Some(i) => {
                proof {
                    lemma_position_of(before, i as int);
                }
                messages.set(i, message);
                assert(views(messages@) =~= before.update(i as int, fresh));
            },
            None => {
                let place: usize = messages.len();
                index.insert(message.id.0.clone(), place);
                proof {
                    if let Some(k) = position(before, fresh.id) {
                        assert(index@.contains_key(before[k].id));
                    }
                }
                messages.push(message);
                assert(views(messages@) =~= before.push(fresh));
            },
        }
        *self = InMemoryMessageStore { order: messages, by_id: index };
    }

    fn get(&self, id: &MessageId) -> (r: Option<MessageEnvelope>) {
        proof {
            use_type_invariant(self);
            lemma_position(views(self.order@), id@);
        }
        match self.by_id.get(id.0.as_str()) {
            Some(i) => {
                let place: usize = *i;
                proof {
                    lemma_position_of(views(self.order@), place as int);
                }
                Some(self.order[place].clone())
            },
            None => None,
        }
    }

    fn all(&self) -> (r: Vec<MessageEnvelope>) {
        proof {
            use_type_invariant(self);
        }
        let r = self.order.clone();
        assert(views(r@) =~= views(self.order@));
        r
    }
}

} // verus!
