//! The sessions of a log: each conversation with its messages and participants.

use crate::model::message::Author;
use crate::model::message::MessageEnvelope;
use crate::model::message::MessageEnvelopeView;
use crate::model::message_log::conversations_of;
use crate::model::message_log::messages_of;
use crate::model::seqs::views;
use crate::model::skill::DeveloperSnapshotRequest;
use crate::model::skill::DeveloperSnapshotRequestView;
use crate::model::skill::Participant;
use crate::model::skill::ParticipantView;
use crate::ordered::keys;
use crate::ordered::lemma_insert_contains;
use crate::ordered::lemma_listed;
use crate::ordered::listed;
use crate::ordered::lists;
use crate::ordered::locate;
use crate::ordered::Keyed;
use crate::text::lemma_precedes_irreflexive;
use crate::text::precedes;
use vstd::hash_map::StringHashMap;
use vstd::prelude::*;

verus! {

/// The ids of the messages, in order.
pub open spec fn ids_of(messages: Seq<MessageEnvelopeView>) -> Seq<Seq<char>> {
    messages.map_values(|m: MessageEnvelopeView| m.id)
}

/// Everyone who wrote one of the messages.
pub open spec fn writers(messages: Seq<MessageEnvelopeView>) -> Set<Seq<char>> {
    Set::new(
        |a: Seq<char>|
            exists|i: int| 0 <= i < messages.len() && (#[trigger] messages[i]).author.id == a,
    )
}

/// An author's name as their last message gives it.
pub open spec fn name_in(messages: Seq<MessageEnvelopeView>, author: Seq<char>) -> Seq<char>
    decreases messages.len(),
{
    if messages.len() == 0 {
        Seq::empty()
    } else if messages.last().author.id == author {
        messages.last().author.display_name
    } else {
        name_in(messages.drop_last(), author)
    }
}

/// The participants of a conversation: its writers by ascending id, each under
/// their last name.
pub open spec fn participants_of(messages: Seq<MessageEnvelopeView>) -> Seq<ParticipantView> {
    listed(writers(messages)).map_values(
        |a: Seq<char>| ParticipantView { author: a, display_name: name_in(messages, a) },
    )
}

/// One conversation of a log.
pub open spec fn session_of(
    log: Seq<MessageEnvelopeView>,
    conversation: Seq<char>,
) -> DeveloperSnapshotRequestView {
    let messages = messages_of(log, conversation);
    DeveloperSnapshotRequestView {
        conversation,
        participants: participants_of(messages),
        messages: ids_of(messages),
    }
}

/// The conversations of a log in first-seen order.
pub open spec fn sessions_of(log: Seq<MessageEnvelopeView>) -> Seq<DeveloperSnapshotRequestView> {
    conversations_of(log).map_values(|c: Seq<char>| session_of(log, c))
}

impl Keyed for Participant {
    open spec fn key_spec(&self) -> Seq<char> {
        self.author@
    }

    fn key(&self) -> (r: &str) {
        self.author.0.as_str()
    }
}

/// Whether the rows are the participants of the messages.
spec fn is_roster(rows: Seq<Participant>, messages: Seq<MessageEnvelopeView>) -> bool {
    &&& lists(keys(rows), writers(messages))
    &&& forall|k: int|
        0 <= k < rows.len() ==> (#[trigger] rows[k]).display_name@ == name_in(
            messages,
            rows[k].author@,
        )
}

proof fn lemma_roster(rows: Seq<Participant>, messages: Seq<MessageEnvelopeView>)
    requires
        is_roster(rows, messages),
    ensures
        views(rows) == participants_of(messages),
{
    lemma_listed(keys(rows), writers(messages));
    assert(views(rows) =~= participants_of(messages));
}

/// Adds the writer of one more message.
fn note_writer(
    rows: &mut Vec<Participant>,
    author: &Author,
    Ghost(messages): Ghost<Seq<MessageEnvelopeView>>,
    Ghost(message): Ghost<MessageEnvelopeView>,
)
    requires
        is_roster(old(rows)@, messages),
        message.author == author@,
    ensures
        is_roster(final(rows)@, messages.push(message)),
{
    let ghost before = rows@;
    let ghost more = messages.push(message);
    let slot = locate(rows, author.id.0.as_str());
    let row = Participant {
        author: author.id.clone(),
        display_name: author.display_name.clone(),
    };
    if slot.found {
        rows.set(slot.index, row);
    } else {
        rows.insert(slot.index, row);
    }
    proof {
        let at = slot.index as int;
        assert(more.drop_last() =~= messages);
        assert(more.last() == message);
        assert forall|a: Seq<char>| writers(more).contains(a) <==> (writers(messages).contains(a)
            || a == author@.id) by {
            if writers(more).contains(a) {
                let i = choose|i: int| 0 <= i < more.len() && (#[trigger] more[i]).author.id == a;
                if i < messages.len() {
                    assert(messages[i] == more[i]);
                }
            }
            if writers(messages).contains(a) {
                let i = choose|i: int|
                    0 <= i < messages.len() && (#[trigger] messages[i]).author.id == a;
                assert(more[i] == messages[i]);
            }
            assert(more[messages.len() as int] == message);
        }
        if slot.found {
            assert(keys(rows@) =~= keys(before));
            assert(writers(messages).contains(author@.id));
        } else {
            assert(keys(rows@) =~= keys(before).insert(at, author@.id));
            lemma_insert_contains(keys(before), at, author@.id);
        }
        assert forall|x: Seq<char>| #[trigger]
            keys(rows@).contains(x) <==> writers(more).contains(x) by {
            assert(keys(before).contains(x) <==> writers(messages).contains(x));
        }
        assert forall|k: int| 0 <= k < rows@.len() implies (#[trigger] rows@[k]).display_name@
            == name_in(more, rows@[k].author@) by {
            if k != at {
                if slot.found {
                    assert(rows@[k] == before[k]);
                } else {
                    let j = if k < at { k } else { k - 1 };
                    assert(rows@[k] == before[j]);
                }
                assert(keys(rows@)[k] == rows@[k].author@);
                assert(keys(rows@)[at] == author@.id);
                let low = if k < at { k } else { at };
                let high = if k < at { at } else { k };
                assert(precedes(keys(rows@)[low], keys(rows@)[high]));
                lemma_precedes_irreflexive(author@.id);
            }
        }
    }
}

/// Whether a group is one conversation of the log.
spec fn is_session(group: DeveloperSnapshotRequest, log: Seq<MessageEnvelopeView>) -> bool {
    let messages = messages_of(log, group.conversation@);
    &&& views(group.messages@) == ids_of(messages)
    &&& is_roster(group.participants@, messages)
}

/// Adds one more message to its group.
fn note_message(
    group: &mut DeveloperSnapshotRequest,
    message: &MessageEnvelope,
    Ghost(log): Ghost<Seq<MessageEnvelopeView>>,
)
    requires
        old(group).conversation@ == message@.conversation.id,
        is_session(*old(group), log),
    ensures
        is_session(*final(group), log.push(message@)),
        final(group).conversation == old(group).conversation,
{
    let ghost messages = messages_of(log, group.conversation@);
    proof {
        assert(log.push(message@).drop_last() =~= log);
        assert(messages_of(log.push(message@), group.conversation@) == messages.push(message@));
    }
    let ghost ids = views(group.messages@);
    group.messages.push(message.id.clone());
    proof {
        assert(views(group.messages@) =~= ids.push(message@.id));
        assert(ids_of(messages.push(message@)) =~= ids_of(messages).push(message@.id));
    }
    note_writer(&mut group.participants, &message.author, Ghost(messages), Ghost(message@));
}

/// Whether the groups are the sessions of the log, and the index finds them.
spec fn are_sessions(
    groups: Seq<DeveloperSnapshotRequest>,
    index: Map<Seq<char>, usize>,
    log: Seq<MessageEnvelopeView>,
) -> bool {
    &&& groups.len() == conversations_of(log).len()
    &&& forall|k: int|
        0 <= k < groups.len() ==> (#[trigger] groups[k]).conversation@ == conversations_of(log)[k]
            && is_session(groups[k], log) && index.contains_key(groups[k].conversation@)
            && index[groups[k].conversation@] == k
    &&& forall|c: Seq<char>| #[trigger]
        index.contains_key(c) ==> index[c] < groups.len() && groups[index[c] as int].conversation@
            == c
}

/// Messages of other conversations leave a session as it is.
proof fn lemma_other_session(
    group: DeveloperSnapshotRequest,
    log: Seq<MessageEnvelopeView>,
    message: MessageEnvelopeView,
)
    requires
        is_session(group, log),
        group.conversation@ != message.conversation.id,
    ensures
        is_session(group, log.push(message)),
{
    assert(log.push(message).drop_last() =~= log);
}

/// A conversation that no message belongs to has none.
pub proof fn lemma_no_messages(log: Seq<MessageEnvelopeView>, conversation: Seq<char>)
    requires
        !conversations_of(log).contains(conversation),
    ensures
        messages_of(log, conversation) == Seq::<MessageEnvelopeView>::empty(),
    decreases log.len(),
{
    if log.len() > 0 {
        let before = conversations_of(log.drop_last());
        let all = conversations_of(log);
        let last = log.last().conversation.id;
        assert(!before.contains(conversation)) by {
            if before.contains(conversation) {
                let k = choose|k: int| 0 <= k < before.len() && before[k] == conversation;
                assert(all[k] == conversation);
            }
        }
        if last == conversation {
            if !before.contains(last) {
                assert(all[before.len() as int] == conversation);
            }
        }
        lemma_no_messages(log.drop_last(), conversation);
    }
}

/// Groups a log by conversation, in one pass.
pub fn group_by_conversation(log: &Vec<MessageEnvelope>) -> (r: Vec<DeveloperSnapshotRequest>)
    ensures
        views(r@) == sessions_of(views(log@)),
{
    let ghost all = views(log@);
    let mut groups: Vec<DeveloperSnapshotRequest> = Vec::new();
    let mut index: StringHashMap<usize> = StringHashMap::new();
    let mut i: usize = 0;
    while i < log.len()
        invariant
            i <= log@.len(),
            all == views(log@),
            are_sessions(groups@, index@, all.take(i as int)),
        decreases log@.len() - i,
    {
        let message = &log[i];
        let ghost seen = all.take(i as int);
        let ghost next = all.take(i + 1);
        let ghost c = message@.conversation.id;
        proof {
            assert(next =~= seen.push(message@));
            assert(next.drop_last() =~= seen);
            assert(next.last() == message@);
        }
        let known: Option<usize> = match index.get(message.conversation.id.0.as_str()) {
            Some(k) => Some(*k),
            None => None,
        };
        let ghost before = groups@;
        let place: usize = match known {
            Some(k) => k,
            None => {
                let k: usize = groups.len();
                let fresh = DeveloperSnapshotRequest {
                    conversation: message.conversation.id.clone(),
                    participants: Vec::new(),
                    messages: Vec::new(),
                };
                proof {
                    if conversations_of(seen).contains(c) {
                        let n = choose|n: int|
                            0 <= n < conversations_of(seen).len() && conversations_of(seen)[n] == c;
                        assert(before[n].conversation@ == c);
                    }
                    lemma_no_messages(seen, c);
                    assert(views(fresh.messages@) =~= ids_of(messages_of(seen, c)));
                    assert(is_roster(fresh.participants@, messages_of(seen, c)));
                }
                groups.push(fresh);
                index.insert(message.conversation.id.0.clone(), k);
                k
            },
        };
        let ghost middle = groups@;
        proof {
            if known is Some {
                assert(conversations_of(seen).contains(c)) by {
                    assert(before[place as int].conversation@ == c);
                    assert(conversations_of(seen)[place as int] == c);
                }
            }
            assert(middle[place as int].conversation@ == c);
            assert(is_session(middle[place as int], seen));
        }
        note_message(&mut groups[place], message, Ghost(seen));
        proof {
            assert(conversations_of(next) == if known is Some {
                conversations_of(seen)
            } else {
                conversations_of(seen).push(c)
            });
            assert forall|k: int| 0 <= k < groups@.len() implies (
            #[trigger] groups@[k]).conversation@ == conversations_of(next)[k] && is_session(
                groups@[k],
                next,
            ) && index@.contains_key(groups@[k].conversation@)
                && index@[groups@[k].conversation@] == k by {
                if k != place {
                    assert(groups@[k] == middle[k]);
                    assert(middle[k] == before[k]);
                    assert(before[k].conversation@ != c);
                    lemma_other_session(before[k], seen, message@);
                }
            }
        }
        i = i + 1;
    }
    proof {
        assert(all.take(i as int) =~= all);
        assert forall|k: int| 0 <= k < groups@.len() implies (#[trigger] groups@[k])@ == session_of(
            all,
            conversations_of(all)[k],
        ) by {
            lemma_roster(
                groups@[k].participants@,
                messages_of(all, groups@[k].conversation@),
            );
        }
        assert(views(groups@) =~= sessions_of(all));
    }
    groups
}

} // verus!
