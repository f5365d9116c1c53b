//! What is kept of a list, and in what order.

use crate::cli::commands::count_outcome;
use crate::cli::commands::missing;
use crate::cli::commands::unmentioned;
use crate::cli::commands::wanted_records;
use crate::cli::commands::VerifyRecordView;
use crate::model::message::MessageEnvelopeView;
use crate::model::message_log::conversations_of;
use crate::model::message_log::messages_of;
use crate::model::projection::Intent;
use crate::model::projection::ProjectionView;
use crate::model::routing::RoutingHintView;
use crate::model::skill::SkillContributionView;
use crate::model::skill::SkillEntryView;
use crate::model::skill::TopicOwnershipView;
use crate::provider::mock::found;
use crate::provider::scope::without;
use crate::provider::warmup::with_intent;
use crate::text::joined;
use crate::text::occurs;
use crate::worker::derived::stored_hints;
use crate::worker::jobs::contributions;
use crate::worker::jobs::distinct;
use crate::worker::jobs::stored;
use crate::worker::jobs::stored_ownerships;
use crate::worker::jobs::topics_in;
use vstd::prelude::*;

verus! {

/// What one more item changes of the items that pass, as they are shown.
pub proof fn lemma_kept<A, B>(s: Seq<A>, f: spec_fn(A) -> bool, g: spec_fn(A) -> B)
    ensures
        s.len() == 0 ==> s.filter(f).map_values(g) == Seq::<B>::empty() && s.filter(f) == Seq::<
            A,
        >::empty(),
        s.len() > 0 && f(s.last()) ==> s.filter(f).map_values(g) == s.drop_last().filter(
            f,
        ).map_values(g).push(g(s.last())) && s.filter(f) == s.drop_last().filter(f).push(s.last()),
        s.len() > 0 && !f(s.last()) ==> s.filter(f) == s.drop_last().filter(f),
{
    reveal(Seq::filter);
    if s.len() == 0 {
        assert(s.filter(f).map_values(g) =~= Seq::<B>::empty());
        assert(s.filter(f) =~= Seq::<A>::empty());
    } else if f(s.last()) {
        assert(s.filter(f).map_values(g) =~= s.drop_last().filter(f).map_values(g).push(
            g(s.last()),
        ));
    }
}

/// The messages of a conversation.
pub open spec fn in_conversation(conversation: Seq<char>) -> spec_fn(MessageEnvelopeView) -> bool {
    |m: MessageEnvelopeView| m.conversation.id == conversation
}

/// A conversation's messages are those of the log that belong to it, in the order of
/// the log.
pub proof fn a_conversation_keeps_the_order(
    log: Seq<MessageEnvelopeView>,
    conversation: Seq<char>,
)
    ensures
        messages_of(log, conversation) == log.filter(in_conversation(conversation)),
    decreases log.len(),
{
    lemma_kept(log, in_conversation(conversation), |m: MessageEnvelopeView| m);
    if log.len() > 0 {
        a_conversation_keeps_the_order(log.drop_last(), conversation);
    } else {
        assert(messages_of(log, conversation) =~= log.filter(in_conversation(conversation)));
    }
}

/// Whether a text stands in a list before a place.
pub open spec fn seen_before(seen: Seq<Seq<char>>, text: Seq<char>, n: int) -> bool {
    exists|m: int| 0 <= m < n && #[trigger] seen[m] == text
}

/// Whether texts come in the order in which they were first seen: none twice, none
/// but those seen, and each seen before any that comes later.
pub open spec fn in_first_seen_order(texts: Seq<Seq<char>>, seen: Seq<Seq<char>>) -> bool {
    &&& texts.no_duplicates()
    &&& forall|x: Seq<char>| #[trigger] texts.contains(x) <==> seen.contains(x)
    &&& forall|i: int, j: int, n: int|
        #![trigger texts[j], seen_before(seen, texts[i], n)]
        0 <= i < j < texts.len() && 0 <= n < seen.len() && seen[n] == texts[j] ==> seen_before(
            seen,
            texts[i],
            n,
        )
}

/// Repeats dropped, the texts stay in the order in which they were first seen.
pub proof fn distinct_texts_come_as_first_seen(seen: Seq<Seq<char>>)
    ensures
        in_first_seen_order(distinct(seen), seen),
    decreases seen.len(),
{
    let texts = distinct(seen);
    if seen.len() > 0 {
        let front = seen.drop_last();
        let before = distinct(front);
        let last = seen.last();
        distinct_texts_come_as_first_seen(front);
        lemma_contains_last(seen);
        lemma_seen_step(before, front, last);
        assert(front.push(last) =~= seen);
    } else {
        assert(texts =~= Seq::<Seq<char>>::empty());
    }
}

proof fn lemma_contains_last(s: Seq<Seq<char>>)
    requires
        s.len() > 0,
    ensures
        forall|x: Seq<char>| #[trigger] s.contains(x) <==> s.drop_last().contains(x) || x
            == s.last(),
{
    let front = s.drop_last();
    assert forall|x: Seq<char>| #[trigger] s.contains(x) <==> front.contains(x) || x
        == s.last() by {
        if s.contains(x) {
            let k = choose|k: int| 0 <= k < s.len() && s[k] == x;
            if k < front.len() {
                assert(front[k] == x);
            }
        }
        if front.contains(x) {
            let k = choose|k: int| 0 <= k < front.len() && front[k] == x;
            assert(s[k] == x);
        }
        assert(s[s.len() - 1] == s.last());
    }
}

proof fn lemma_seen_step(before: Seq<Seq<char>>, front: Seq<Seq<char>>, last: Seq<char>)
    requires
        in_first_seen_order(before, front),
    ensures
        in_first_seen_order(
            if before.contains(last) {
                before
            } else {
                before.push(last)
            },
            front.push(last),
        ),
{
    let seen = front.push(last);
    let texts = if before.contains(last) {
        before
    } else {
        before.push(last)
    };
    lemma_contains_last(seen);
    assert(seen.drop_last() =~= front);
    if !before.contains(last) {
        lemma_contains_last(texts);
        assert(texts.drop_last() =~= before);
    }
    assert forall|x: Seq<char>| #[trigger] texts.contains(x) <==> seen.contains(x) by {
        assert(before.contains(x) <==> front.contains(x));
        assert(seen.contains(x) <==> front.contains(x) || x == last);
    }
    assert(texts.no_duplicates()) by {
        assert forall|i: int, j: int| 0 <= i < texts.len() && 0 <= j < texts.len() && i
            != j implies texts[i] != texts[j] by {
            if i < before.len() {
                assert(before.contains(before[i]));
            }
            if j < before.len() {
                assert(before.contains(before[j]));
            }
        }
    }
    assert forall|i: int, j: int, n: int|
        #![trigger texts[j], seen_before(seen, texts[i], n)]
        0 <= i < j < texts.len() && 0 <= n < seen.len() && seen[n] == texts[j] implies seen_before(
        seen,
        texts[i],
        n,
    ) by {
        assert(before[i] == texts[i]);
        if n < front.len() {
            assert(front[n] == seen[n]);
            assert(front.contains(texts[j]));
            assert(before.contains(texts[j]));
            if j < before.len() {
                assert(before[j] == texts[j]);
                assert(seen_before(front, before[i], n));
                let m = choose|m: int| 0 <= m < n && #[trigger] front[m] == before[i];
                assert(seen[m] == texts[i]);
            }
        } else {
            assert(before.contains(before[i]));
            assert(front.contains(texts[i]));
            let m = choose|m: int| 0 <= m < front.len() && front[m] == texts[i];
            assert(seen[m] == texts[i]);
        }
    }
    assert(in_first_seen_order(texts, seen));
}

/// The conversations that messages belong to.
pub open spec fn conversations_in(log: Seq<MessageEnvelopeView>) -> Seq<Seq<char>> {
    log.map_values(|m: MessageEnvelopeView| m.conversation.id)
}

/// The conversations of a log come in the order in which they were first seen.
pub proof fn conversations_come_as_first_seen(log: Seq<MessageEnvelopeView>)
    ensures
        in_first_seen_order(conversations_of(log), conversations_in(log)),
    decreases log.len(),
{
    let seen = conversations_in(log);
    if log.len() > 0 {
        let front = log.drop_last();
        conversations_come_as_first_seen(front);
        lemma_seen_step(
            conversations_of(front),
            conversations_in(front),
            log.last().conversation.id,
        );
        assert(conversations_in(front).push(log.last().conversation.id) =~= seen);
    } else {
        assert(conversations_of(log) =~= Seq::<Seq<char>>::empty());
    }
}

/// The projections with an intent.
pub open spec fn has_intent(intent: Intent) -> spec_fn(ProjectionView) -> bool {
    |p: ProjectionView| p.intent == intent
}

/// The message a projection is about.
pub open spec fn about() -> spec_fn(ProjectionView) -> Seq<char> {
    |p: ProjectionView| p.message_id
}

/// The messages under an intent are those whose projection has it, in order.
pub proof fn lemma_with_intent(projections: Seq<ProjectionView>, intent: Intent)
    ensures
        with_intent(projections, intent) == projections.filter(has_intent(intent)).map_values(
            about(),
        ),
    decreases projections.len(),
{
    lemma_kept(projections, has_intent(intent), about());
    if projections.len() > 0 {
        lemma_with_intent(projections.drop_last(), intent);
    }
}

/// The keywords that occur in a text.
pub open spec fn occurring_in(body: Seq<char>) -> spec_fn(Seq<char>) -> bool {
    |k: Seq<char>| occurs(body, k)
}

/// The keywords found are those that occur, in their order.
pub proof fn lemma_found(keywords: Seq<Seq<char>>, body: Seq<char>)
    ensures
        found(keywords, body) == keywords.filter(occurring_in(body)),
    decreases keywords.len(),
{
    lemma_kept(keywords, occurring_in(body), |k: Seq<char>| k);
    if keywords.len() > 0 {
        lemma_found(keywords.drop_last(), body);
    }
}

/// The texts outside a set.
pub open spec fn outside(set: Set<Seq<char>>) -> spec_fn(Seq<char>) -> bool {
    |x: Seq<char>| !set.contains(x)
}

/// What is left of a list without a set stays in order.
pub proof fn lemma_outside(items: Seq<Seq<char>>, set: Set<Seq<char>>)
    ensures
        without(items, set) == items.filter(outside(set)),
    decreases items.len(),
{
    lemma_kept(items, outside(set), |x: Seq<char>| x);
    if items.len() > 0 {
        lemma_outside(items.drop_last(), set);
    }
}

/// The keys of a map.
pub open spec fn held_in<V>(m: Map<Seq<char>, V>) -> spec_fn(Seq<char>) -> bool {
    |k: Seq<char>| m.contains_key(k)
}

/// What a map holds under a key.
pub open spec fn entry_in<V>(m: Map<Seq<char>, V>) -> spec_fn(Seq<char>) -> V {
    |k: Seq<char>| m[k]
}

/// The stored projections of messages are what is held under their ids, in order;
/// messages without one are skipped.
pub proof fn stored_projections_keep_the_order(
    projections: Map<Seq<char>, ProjectionView>,
    ids: Seq<Seq<char>>,
)
    ensures
        stored(projections, ids) == ids.filter(held_in(projections)).map_values(
            entry_in(projections),
        ),
    decreases ids.len(),
{
    lemma_kept(ids, held_in(projections), entry_in(projections));
    if ids.len() > 0 {
        stored_projections_keep_the_order(projections, ids.drop_last());
    }
}

/// The stored hints of messages are what is held under their ids, in order.
pub proof fn stored_hints_keep_the_order(
    hints: Map<Seq<char>, RoutingHintView>,
    ids: Seq<Seq<char>>,
)
    ensures
        stored_hints(hints, ids) == ids.filter(held_in(hints)).map_values(entry_in(hints)),
    decreases ids.len(),
{
    lemma_kept(ids, held_in(hints), entry_in(hints));
    if ids.len() > 0 {
        stored_hints_keep_the_order(hints, ids.drop_last());
    }
}

/// The stored ownerships of topics are what is held under them, in order.
pub proof fn stored_ownerships_keep_the_order(
    skills: Map<Seq<char>, TopicOwnershipView>,
    topics: Seq<Seq<char>>,
)
    ensures
        stored_ownerships(skills, topics) == topics.filter(held_in(skills)).map_values(
            entry_in(skills),
        ),
    decreases topics.len(),
{
    lemma_kept(topics, held_in(skills), entry_in(skills));
    if topics.len() > 0 {
        stored_ownerships_keep_the_order(skills, topics.drop_last());
    }
}

/// The entries whose message was projected.
pub open spec fn projected_in(projections: Map<Seq<char>, ProjectionView>) -> spec_fn(
    SkillEntryView,
) -> bool {
    |e: SkillEntryView| projections.contains_key(e.message)
}

/// What an entry contributes: its author, with the topics and the confidence of the
/// projection of its message.
pub open spec fn contribution_by(projections: Map<Seq<char>, ProjectionView>) -> spec_fn(
    SkillEntryView,
) -> SkillContributionView {
    |e: SkillEntryView|
        SkillContributionView {
            author: e.author,
            display_name: e.display_name,
            topics: projections[e.message].topics,
            confidence: projections[e.message].confidence,
        }
}

/// Each entry whose message was projected contributes once, in order.
pub proof fn every_projected_message_contributes(
    projections: Map<Seq<char>, ProjectionView>,
    entries: Seq<SkillEntryView>,
)
    ensures
        contributions(projections, entries) == entries.filter(
            projected_in(projections),
        ).map_values(contribution_by(projections)),
    decreases entries.len(),
{
    lemma_kept(entries, projected_in(projections), contribution_by(projections));
    if entries.len() > 0 {
        every_projected_message_contributes(projections, entries.drop_last());
    }
}

/// A projection's topics.
pub open spec fn topics_shown() -> spec_fn(ProjectionView) -> Seq<Seq<char>> {
    |p: ProjectionView| p.topics
}

/// The topics of projections are those of each, one after the other.
pub proof fn lemma_topics_in(projections: Seq<ProjectionView>)
    ensures
        topics_in(projections) == projections.map_values(topics_shown()).flatten(),
    decreases projections.len(),
{
    let lists = projections.map_values(topics_shown());
    lists.lemma_flatten_and_flatten_alt_are_equivalent();
    if projections.len() > 0 {
        let front = projections.drop_last();
        lemma_topics_in(front);
        front.map_values(topics_shown()).lemma_flatten_and_flatten_alt_are_equivalent();
        assert(lists.drop_last() =~= front.map_values(topics_shown()));
        assert(lists.last() == projections.last().topics);
    } else {
        assert(topics_in(projections) =~= lists.flatten());
    }
}

/// The ids that a map does not hold.
pub open spec fn not_in<V>(m: Map<Seq<char>, V>) -> spec_fn(Seq<char>) -> bool {
    |k: Seq<char>| !m.contains_key(k)
}

/// The messages reported as unprojected are those without a stored projection, in
/// order.
pub proof fn unprojected_messages_keep_the_order(
    projections: Map<Seq<char>, ProjectionView>,
    ids: Seq<Seq<char>>,
)
    ensures
        missing(projections, ids) == ids.filter(not_in(projections)),
    decreases ids.len(),
{
    lemma_kept(ids, not_in(projections), |k: Seq<char>| k);
    if ids.len() > 0 {
        unprojected_messages_keep_the_order(projections, ids.drop_last());
    }
}

/// The ids that no projection is about.
pub open spec fn unmentioned_by(projections: Seq<ProjectionView>) -> spec_fn(Seq<char>) -> bool {
    |k: Seq<char>|
        forall|i: int|
            0 <= i < projections.len() ==> (#[trigger] projections[i]).message_id != k
}

/// Read from the cache, the messages reported as unprojected are those that no cached
/// projection is about, in order.
pub proof fn unmentioned_messages_keep_the_order(
    ids: Seq<Seq<char>>,
    projections: Seq<ProjectionView>,
)
    ensures
        unmentioned(ids, projections) == ids.filter(unmentioned_by(projections)),
    decreases ids.len(),
{
    lemma_kept(ids, unmentioned_by(projections), |k: Seq<char>| k);
    if ids.len() > 0 {
        unmentioned_messages_keep_the_order(ids.drop_last(), projections);
    }
}

/// The records of one conversation, or of all.
pub open spec fn wanted_by(wanted: Option<Seq<char>>) -> spec_fn(VerifyRecordView) -> bool {
    |r: VerifyRecordView|
        match wanted {
            Some(conversation) => r.conversation == conversation,
            None => true,
        }
}

/// The records with an outcome.
pub open spec fn came_out(outcome: Seq<char>) -> spec_fn(VerifyRecordView) -> bool {
    |r: VerifyRecordView| r.outcome == outcome
}

/// A summary shows the wanted records in order, and counts those with an outcome.
pub proof fn a_summary_counts_its_records(
    records: Seq<VerifyRecordView>,
    wanted: Option<Seq<char>>,
    outcome: Seq<char>,
)
    ensures
        wanted_records(records, wanted) == records.filter(wanted_by(wanted)),
        count_outcome(records, outcome) == records.filter(came_out(outcome)).len(),
    decreases records.len(),
{
    lemma_kept(records, wanted_by(wanted), |r: VerifyRecordView| r);
    lemma_kept(records, came_out(outcome), |r: VerifyRecordView| r);
    if records.len() > 0 {
        a_summary_counts_its_records(records.drop_last(), wanted, outcome);
    }
}

/// Joined texts begin with the first, end with the last, and have the separator
/// between neighbours and nowhere else.
pub proof fn joining_separates_neighbours(
    parts: Seq<Seq<char>>,
    more: Seq<char>,
    separator: Seq<char>,
)
    ensures
        joined(Seq::empty(), separator) == Seq::<char>::empty(),
        joined(seq![more], separator) == more,
        parts.len() > 0 ==> joined(parts.push(more), separator) == joined(parts, separator)
            + separator + more,
{
    assert(parts.push(more).drop_last() =~= parts);
}

} // verus!
