//! Laws of the message log.

use crate::github::source::appended_all;
use crate::model::message::MessageEnvelopeView;
use crate::model::message_log::appended;
use crate::model::message_log::conversations_of;
use crate::model::message_log::ids_distinct;
use crate::model::message_log::lemma_append_distinct;
use crate::model::message_log::lemma_position;
use crate::model::message_log::lemma_position_of;
use crate::model::message_log::message_with;
use crate::model::message_log::messages_of;
use crate::model::message_log::position;
use crate::worker::sessions::ids_of;
use vstd::prelude::*;

verus! {

/// Appending a message again changes nothing.
pub proof fn append_is_idempotent(log: Seq<MessageEnvelopeView>, message: MessageEnvelopeView)
    requires
        ids_distinct(log),
    ensures
        appended(appended(log, message), message) == appended(log, message),
{
    let once = appended(log, message);
    lemma_position(log, message.id);
    lemma_append_distinct(log, message);
    let at = match position(log, message.id) {
        Some(i) => i,
        None => log.len() as int,
    };
    assert(once[at] == message);
    lemma_position_of(once, at);
    assert(once.update(at, message) =~= once);
}

/// An append is read back, and no other message is touched.
pub proof fn append_is_read_back(
    log: Seq<MessageEnvelopeView>,
    message: MessageEnvelopeView,
    other: Seq<char>,
)
    requires
        ids_distinct(log),
    ensures
        message_with(appended(log, message), message.id) == Some(message),
        other != message.id ==> message_with(appended(log, message), other) == message_with(
            log,
            other,
        ),
{
    let once = appended(log, message);
    lemma_append_distinct(log, message);
    lemma_position(log, message.id);
    lemma_position(log, other);
    lemma_position(once, message.id);
    lemma_position(once, other);
    let at = match position(log, message.id) {
        Some(i) => i,
        None => log.len() as int,
    };
    assert(once[at] == message);
    lemma_position_of(once, at);
    if other != message.id {
        match position(log, other) {
            Some(k) => {
                assert(once[k] == log[k]);
                lemma_position_of(once, k);
            },
            None => {
                if let Some(k) = position(once, other) {
                    if k < log.len() {
                        assert(log[k].id != other);
                    }
                }
            },
        }
    }
}

/// An append keeps the order of the log: a known message stays in its place, a
/// new one comes last.
pub proof fn append_keeps_order(log: Seq<MessageEnvelopeView>, message: MessageEnvelopeView)
    ensures
        ids_of(appended(log, message)) == if position(log, message.id) is Some {
            ids_of(log)
        } else {
            ids_of(log).push(message.id)
        },
{
    lemma_position(log, message.id);
    match position(log, message.id) {
        Some(i) => {
            assert(ids_of(log.update(i, message)) =~= ids_of(log));
        },
        None => {
            assert(ids_of(log.push(message)) =~= ids_of(log).push(message.id));
        },
    }
}

/// A conversation is listed exactly if a message of the log belongs to it.
pub proof fn conversations_are_complete(log: Seq<MessageEnvelopeView>, conversation: Seq<char>)
    ensures
        conversations_of(log).contains(conversation) <==> exists|i: int|
            0 <= i < log.len() && (#[trigger] log[i]).conversation.id == conversation,
    decreases log.len(),
{
    if log.len() > 0 {
        let front = log.drop_last();
        let before = conversations_of(front);
        let all = conversations_of(log);
        let last = log.last().conversation.id;
        conversations_are_complete(front, conversation);
        if exists|i: int| 0 <= i < log.len() && (#[trigger] log[i]).conversation.id == conversation {
            let i = choose|i: int|
                0 <= i < log.len() && (#[trigger] log[i]).conversation.id == conversation;
            if i < front.len() {
                assert(front[i] == log[i]);
            }
        }
        if exists|i: int|
            0 <= i < front.len() && (#[trigger] front[i]).conversation.id == conversation {
            let i = choose|i: int|
                0 <= i < front.len() && (#[trigger] front[i]).conversation.id == conversation;
            assert(log[i] == front[i]);
        }
        assert(log[log.len() - 1] == log.last());
        if before.contains(conversation) {
            let k = choose|k: int| 0 <= k < before.len() && before[k] == conversation;
            assert(all[k] == conversation);
        }
        if all.contains(conversation) {
            let k = choose|k: int| 0 <= k < all.len() && all[k] == conversation;
            if k < before.len() {
                assert(before[k] == conversation);
            }
        }
        if !before.contains(last) {
            assert(all[before.len() as int] == last);
        }
    }
}

/// The messages of a conversation are those of the log that belong to it.
pub proof fn messages_are_complete(
    log: Seq<MessageEnvelopeView>,
    conversation: Seq<char>,
    message: MessageEnvelopeView,
)
    ensures
        messages_of(log, conversation).contains(message) <==> log.contains(message)
            && message.conversation.id == conversation,
    decreases log.len(),
{
    if log.len() > 0 {
        let front = log.drop_last();
        let before = messages_of(front, conversation);
        let all = messages_of(log, conversation);
        messages_are_complete(front, conversation, message);
        if log.contains(message) {
            let k = choose|k: int| 0 <= k < log.len() && log[k] == message;
            if k < front.len() {
                assert(front[k] == message);
            }
        }
        if front.contains(message) {
            let k = choose|k: int| 0 <= k < front.len() && front[k] == message;
            assert(log[k] == message);
        }
        assert(log[log.len() - 1] == log.last());
        if before.contains(message) {
            let k = choose|k: int| 0 <= k < before.len() && before[k] == message;
            assert(all[k] == message);
        }
        if all.contains(message) {
            let k = choose|k: int| 0 <= k < all.len() && all[k] == message;
            if k < before.len() {
                assert(before[k] == message);
            }
        }
        if log.last().conversation.id == conversation {
            assert(all[before.len() as int] == log.last());
        }
    }
}


/// After appending many messages, each id reads back what was appended last under
/// it, or what the log held.
pub proof fn appends_are_read_back(
    log: Seq<MessageEnvelopeView>,
    messages: Seq<MessageEnvelopeView>,
    id: Seq<char>,
)
    requires
        ids_distinct(log),
    ensures
        ids_distinct(appended_all(log, messages)),
        message_with(appended_all(log, messages), id) == match message_with(messages, id) {
            Some(message) => Some(message),
            None => message_with(log, id),
        },
    decreases messages.len(),
{
    if messages.len() > 0 {
        let front = messages.drop_last();
        let last = messages.last();
        appends_are_read_back(log, front, id);
        lemma_append_distinct(appended_all(log, front), last);
        append_is_read_back(appended_all(log, front), last, id);
        lemma_position(front, id);
        if last.id != id {
            match position(front, id) {
                Some(k) => {
                    assert(front[k] == messages[k]);
                },
                None => {},
            }
        }
    }
}

/// Appending known messages keeps the order of the log.
proof fn lemma_known_appends_keep_order(
    log: Seq<MessageEnvelopeView>,
    messages: Seq<MessageEnvelopeView>,
)
    requires
        ids_distinct(log),
        forall|i: int|
            0 <= i < messages.len() ==> message_with(log, (#[trigger] messages[i]).id) is Some,
    ensures
        ids_of(appended_all(log, messages)) == ids_of(log),
    decreases messages.len(),
{
    if messages.len() > 0 {
        let front = messages.drop_last();
        let last = messages.last();
        assert forall|i: int| 0 <= i < front.len() implies message_with(
            log,
            (#[trigger] front[i]).id,
        ) is Some by {
            assert(front[i] == messages[i]);
        }
        lemma_known_appends_keep_order(log, front);
        appends_are_read_back(log, front, last.id);
        assert(message_with(log, messages[messages.len() - 1].id) is Some);
        append_keeps_order(appended_all(log, front), last);
    }
}

/// Ingesting the same messages again leaves the log as it is.
pub proof fn reingestion_is_idempotent(
    log: Seq<MessageEnvelopeView>,
    messages: Seq<MessageEnvelopeView>,
)
    requires
        ids_distinct(log),
    ensures
        appended_all(appended_all(log, messages), messages) == appended_all(log, messages),
{
    let once = appended_all(log, messages);
    let twice = appended_all(once, messages);
    appends_are_read_back(log, messages, Seq::empty());
    appends_are_read_back(once, messages, Seq::empty());
    assert forall|i: int| 0 <= i < messages.len() implies message_with(
        once,
        (#[trigger] messages[i]).id,
    ) is Some by {
        appends_are_read_back(log, messages, messages[i].id);
        lemma_position(messages, messages[i].id);
    }
    lemma_known_appends_keep_order(once, messages);
    assert(twice.len() == once.len()) by {
        assert(ids_of(twice).len() == ids_of(once).len());
    }
    assert forall|i: int| 0 <= i < once.len() implies twice[i] == once[i] by {
        let id = once[i].id;
        assert(ids_of(twice)[i] == ids_of(once)[i]);
        lemma_position_of(once, i);
        lemma_position_of(twice, i);
        appends_are_read_back(log, messages, id);
        appends_are_read_back(once, messages, id);
    }
    assert(twice =~= once);
}

} // verus!
