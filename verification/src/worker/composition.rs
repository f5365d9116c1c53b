//! The fan-out shapes of a stage: a payload per message, per conversation, or one
//! for the whole input.

use crate::model::message::ConversationId;
use crate::model::message::MessageEnvelope;
use crate::model::message::MessageId;
use vstd::prelude::*;

verus! {

/// Fans out per message: one payload per message of the log.
pub fn per_message<P, F: Fn(&MessageEnvelope) -> P>(log: &[MessageEnvelope], build: F) -> (r: Vec<P>)
    requires
        forall|i: int| 0 <= i < log@.len() ==> call_requires(build, (&#[trigger] log@[i],)),
    ensures
        r@.len() == log@.len(),
        forall|i: int| 0 <= i < log@.len() ==> call_ensures(build, (&log@[i],), #[trigger] r@[i]),
{
    let mut out: Vec<P> = Vec::new();
    let mut i: usize = 0;
    while i < log.len()
        invariant
            i <= log@.len(),
            out@.len() == i,
            forall|j: int| 0 <= j < log@.len() ==> call_requires(build, (&#[trigger] log@[j],)),
            forall|j: int| 0 <= j < i ==> call_ensures(build, (&log@[j],), #[trigger] out@[j]),
        decreases log@.len() - i,
    {
        out.push(build(&log[i]));
        i = i + 1;
    }
    out
}

/// Fans out per conversation: one payload per conversation, from its id and its
/// message ids.
pub fn per_conversation<P, F: Fn(&ConversationId, &Vec<MessageId>) -> P>(
    conversations: &[(ConversationId, Vec<MessageId>)],
    build: F,
) -> (r: Vec<P>)
    requires
        forall|i: int|
            0 <= i < conversations@.len() ==> call_requires(
                build,
                (&(#[trigger] conversations@[i]).0, &conversations@[i].1),
            ),
    ensures
        r@.len() == conversations@.len(),
        forall|i: int|
            0 <= i < conversations@.len() ==> call_ensures(
                build,
                (&conversations@[i].0, &conversations@[i].1),
                #[trigger] r@[i],
            ),
{
    let mut out: Vec<P> = Vec::new();
    let mut i: usize = 0;
    while i < conversations.len()
        invariant
            i <= conversations@.len(),
            out@.len() == i,
            forall|j: int|
                0 <= j < conversations@.len() ==> call_requires(
                    build,
                    (&(#[trigger] conversations@[j]).0, &conversations@[j].1),
                ),
            forall|j: int|
                0 <= j < i ==> call_ensures(
                    build,
                    (&conversations@[j].0, &conversations@[j].1),
                    #[trigger] out@[j],
                ),
        decreases conversations@.len() - i,
    {
        let group = &conversations[i];
        out.push(build(&group.0, &group.1));
        i = i + 1;
    }
    out
}

/// One payload over the whole input.
pub fn global<P, F: FnOnce() -> P>(build: F) -> (r: Vec<P>)
    requires
        call_requires(build, ()),
    ensures
        r@.len() == 1,
        call_ensures(build, (), r@[0]),
{
    let mut out: Vec<P> = Vec::new();
    out.push(build());
    out
}

} // verus!
