//! Laws of contexts: what a session's scope, warm-up, people and derivation hold of
//! its messages.

use super::decisions::a_scope_splits_the_catalog;
use super::expertise::an_index_holds_every_ownership;
use super::lists::a_conversation_keeps_the_order;
use super::lists::about;
use super::lists::contribution_by;
use super::lists::conversations_come_as_first_seen;
use super::lists::conversations_in;
use super::lists::distinct_texts_come_as_first_seen;
use super::lists::entry_in;
use super::lists::every_projected_message_contributes;
use super::lists::has_intent;
use super::lists::held_in;
use super::lists::in_conversation;
use super::lists::in_first_seen_order;
use super::lists::lemma_kept;
use super::lists::lemma_outside;
use super::lists::lemma_topics_in;
use super::lists::lemma_with_intent;
use super::lists::outside;
use super::lists::projected_in;
use super::lists::stored_hints_keep_the_order;
use super::lists::stored_ownerships_keep_the_order;
use super::lists::stored_projections_keep_the_order;
use super::lists::topics_shown;
use crate::cli::commands::routed_drafts;
use crate::cli::commands::session_context;
use crate::double::total;
use crate::double::Double;
use crate::double::ONE_BITS;
use crate::github::consumer::projection_draft;
use crate::github::consumer::GitHubDraftView;
use crate::model::derivation::ConversationDerivationView;
use crate::model::message::MessageEnvelopeView;
use crate::model::message_log::conversations_of;
use crate::model::message_log::messages_of;
use crate::model::projection::Intent;
use crate::model::projection::ProjectionView;
use crate::model::projector::DeveloperSnapshotBuilder;
use crate::model::projector::Projector;
use crate::model::projector::Router;
use crate::model::projector::RoutingHinter;
use crate::model::projector::ScopeProjector;
use crate::model::projector::SkillBuilder;
use crate::model::projector::WarmupBuilder;
use crate::model::routing::ConsumerKind;
use crate::model::routing::RoutingHintView;
use crate::model::scope::ScopeView;
use crate::model::seqs::lookup;
use crate::model::skill::DeveloperSnapshotRequestView;
use crate::model::skill::SkillEntryView;
use crate::model::skill::TopicOwnershipView;
use crate::ordered::is_ascending;
use crate::ordered::lemma_listable;
use crate::ordered::listed;
use crate::ordered::lists;
use crate::provider::developer::SkillDeveloperSnapshotter;
use crate::provider::hint::SkillRoutingHinter;
use crate::provider::scope::catalog;
use crate::provider::scope::component_of;
use crate::provider::scope::confidences;
use crate::provider::scope::lowered;
use crate::provider::scope::named_components;
use crate::provider::scope::session_keywords;
use crate::provider::scope::MockScopeProjector;
use crate::provider::skill::MessageSkillBuilder;
use crate::provider::warmup::MockWarmupBuilder;
use crate::text::decimal;
use crate::text::joined;
use crate::text::lemma_precedes_irreflexive;
use crate::text::lowercase;
use crate::text::precedes;
use crate::worker::derived::derivation_in;
use crate::worker::jobs::contributions;
use crate::worker::jobs::distinct;
use crate::worker::jobs::stored;
use crate::worker::jobs::stored_ownerships;
use crate::worker::jobs::topics_in;
use crate::worker::jobs::with_hints;
use crate::worker::jobs::with_ownerships;
use crate::worker::replay::developers_of;
use crate::worker::replay::entries_of;
use crate::worker::replay::scopes_of;
use crate::worker::replay::warmups_of;
use crate::worker::replay::ProjectionStrategy;
use crate::worker::replay::ReplayStoresView;
use crate::worker::sessions::ids_of;
use crate::worker::sessions::name_in;
use crate::worker::sessions::participants_of;
use crate::worker::sessions::sessions_of;
use crate::worker::sessions::writers;
use vstd::prelude::*;

verus! {

/// Whether a projection has a topic or an entity.
pub open spec fn mentions(projection: ProjectionView, word: Seq<char>) -> bool {
    projection.topics.contains(word) || projection.entities.contains(word)
}

proof fn lemma_session_keyword(projections: Seq<ProjectionView>, word: Seq<char>)
    ensures
        session_keywords(projections).contains(word) <==> exists|i: int|
            0 <= i < projections.len() && mentions(#[trigger] projections[i], word),
    decreases projections.len(),
{
    if projections.len() > 0 {
        let front = projections.drop_last();
        let last = projections.last();
        lemma_session_keyword(front, word);
        let a = session_keywords(front);
        lemma_add_contains(a, last.topics, word);
        lemma_add_contains(a + last.topics, last.entities, word);
        if exists|i: int| 0 <= i < projections.len() && mentions(#[trigger] projections[i], word) {
            let i = choose|i: int|
                0 <= i < projections.len() && mentions(#[trigger] projections[i], word);
            if i < front.len() {
                assert(front[i] == projections[i]);
            }
        }
        if exists|i: int| 0 <= i < front.len() && mentions(#[trigger] front[i], word) {
            let i = choose|i: int| 0 <= i < front.len() && mentions(#[trigger] front[i], word);
            assert(projections[i] == front[i]);
        }
        assert(projections[projections.len() - 1] == last);
    }
}

proof fn lemma_add_contains(a: Seq<Seq<char>>, b: Seq<Seq<char>>, word: Seq<char>)
    ensures
        (a + b).contains(word) <==> a.contains(word) || b.contains(word),
{
    if (a + b).contains(word) {
        let k = choose|k: int| 0 <= k < (a + b).len() && (a + b)[k] == word;
        if k < a.len() {
            assert(a[k] == word);
        } else {
            assert(b[k - a.len()] == word);
        }
    }
    if a.contains(word) {
        let k = choose|k: int| 0 <= k < a.len() && a[k] == word;
        assert((a + b)[k] == word);
    }
    if b.contains(word) {
        let k = choose|k: int| 0 <= k < b.len() && b[k] == word;
        assert((a + b)[a.len() + k] == word);
    }
}

/// A scope loads a component exactly if some projection of the session has a topic or
/// an entity whose lower-case form names it; what is loaded comes in ascending order,
/// and the rest of the catalog is ignored, in the catalog's order.
pub proof fn a_scope_loads_what_is_named(
    conversation: Seq<char>,
    projections: Seq<ProjectionView>,
    component: Seq<char>,
)
    ensures
        ({
            let scope = MockScopeProjector.scope_spec(conversation, projections);
            &&& scope.conversation == conversation
            &&& scope.load.contains(component) <==> exists|i: int, word: Seq<char>|
                0 <= i < projections.len() && #[trigger] mentions(projections[i], word)
                    && component_of(lowercase(word)) == Some(component)
            &&& is_ascending(scope.load)
            &&& scope.ignore == catalog().filter(outside(scope.load.to_set()))
        }),
{
    let words = session_keywords(projections);
    let keywords = lowered(words);
    let scope = MockScopeProjector.scope_spec(conversation, projections);
    let set = named_components(keywords);
    let confidences = confidences(projections);
    a_scope_splits_the_catalog(conversation, keywords, confidences, component);
    if scope.load.contains(component) {
        let k = choose|k: int|
            0 <= k < keywords.len() && component_of(#[trigger] keywords[k]) == Some(component);
        assert(keywords[k] == lowercase(words[k]));
        assert(words.contains(words[k]));
        lemma_session_keyword(projections, words[k]);
        let i = choose|i: int|
            0 <= i < projections.len() && mentions(#[trigger] projections[i], words[k]);
        assert(mentions(projections[i], words[k]));
    }
    if exists|i: int, word: Seq<char>|
        0 <= i < projections.len() && #[trigger] mentions(projections[i], word) && component_of(
            lowercase(word),
        ) == Some(component) {
        let (i, word) = choose|i: int, word: Seq<char>|
            0 <= i < projections.len() && #[trigger] mentions(projections[i], word) && component_of(
                lowercase(word),
            ) == Some(component);
        lemma_session_keyword(projections, word);
        let k = choose|k: int| 0 <= k < words.len() && words[k] == word;
        assert(component_of(keywords[k]) == Some(component));
    }
    lemma_outside(catalog(), set);
    assert(scope.load.to_set() =~= set) by {
        assert forall|c: Seq<char>| scope.load.to_set().contains(c) <==> set.contains(c) by {
            a_scope_splits_the_catalog(conversation, keywords, confidences, c);
        }
    }
}

/// A scope is as confident as its projections are on average, and says which
/// components it is about.
pub proof fn a_scope_averages_its_projections(
    conversation: Seq<char>,
    projections: Seq<ProjectionView>,
)
    ensures
        ({
            let scope = MockScopeProjector.scope_spec(conversation, projections);
            let n = projections.len();
            &&& n == 0 ==> scope.confidence == (Double { bits: 0 })
            &&& n > 0 ==> scope.confidence == total(
                Seq::new(n, |i: int| projections[i].confidence),
            ).quotient_spec((Double { bits: ONE_BITS }).scaled_spec(n)).clamp_unit_spec()
            &&& scope.load.len() == 0 ==> scope.reason
                == "No known components detected for this session."@
            &&& scope.load.len() > 0 ==> scope.reason == "Session focuses on "@ + joined(
                scope.load,
                ", "@,
            ) + "."@
        }),
{
    assert(confidences(projections) =~= Seq::new(
        projections.len(),
        |i: int| projections[i].confidence,
    ));
}

/// A warm-up lists, in order, the messages whose projection is a decision, a question
/// or a task, under the components that the scope loads.
pub proof fn a_warmup_lists_what_was_said(
    conversation: Seq<char>,
    scope: Option<ScopeView>,
    projections: Seq<ProjectionView>,
)
    ensures
        ({
            let document = MockWarmupBuilder.warmup_spec(conversation, scope, projections);
            &&& document.conversation == conversation
            &&& document.decisions == projections.filter(has_intent(Intent::Decision)).map_values(
                about(),
            )
            &&& document.open_questions == projections.filter(
                has_intent(Intent::Question),
            ).map_values(about())
            &&& document.tasks == projections.filter(has_intent(Intent::Task)).map_values(about())
            &&& scope is None ==> document.focus == Seq::<Seq<char>>::empty()
            &&& scope matches Some(s) ==> document.focus == s.load
        }),
{
    lemma_with_intent(projections, Intent::Decision);
    lemma_with_intent(projections, Intent::Question);
    lemma_with_intent(projections, Intent::Task);
}

/// A summary names the conversation, the focus, the scope's reason and how many
/// decisions, questions and tasks there are.
pub proof fn a_summary_counts_what_was_said(
    conversation: Seq<char>,
    scope: Option<ScopeView>,
    projections: Seq<ProjectionView>,
)
    ensures
        ({
            let document = MockWarmupBuilder.warmup_spec(conversation, scope, projections);
            let opening = "You are joining "@ + conversation + ".\n"@;
            let counts = "\nRecent decisions: "@ + decimal(document.decisions.len())
                + "\nOpen questions: "@ + decimal(document.open_questions.len()) + "\nTasks: "@
                + decimal(document.tasks.len());
            let focus = "Focus: "@ + joined(document.focus, ", "@);
            &&& scope is None ==> document.summary == opening + "Focus: (no scope yet)"@ + counts
            &&& scope matches Some(s) ==> document.summary == opening + (if s.load.len() > 0 {
                focus
            } else {
                "Focus: (no scope yet)"@
            }) + "\nWhy: "@ + s.reason + counts
        }),
{
    let document = MockWarmupBuilder.warmup_spec(conversation, scope, projections);
    let opening = "You are joining "@ + conversation + ".\n"@;
    let counts = "\nRecent decisions: "@ + decimal(document.decisions.len())
        + "\nOpen questions: "@ + decimal(document.open_questions.len()) + "\nTasks: "@ + decimal(
        document.tasks.len(),
    );
    match scope {
        None => {
            assert(document.summary =~= opening + "Focus: (no scope yet)"@ + counts);
        },
        Some(s) => {
            let focus = if s.load.len() > 0 {
                "Focus: "@ + joined(document.focus, ", "@)
            } else {
                "Focus: (no scope yet)"@
            };
            assert(document.summary =~= opening + focus + "\nWhy: "@ + s.reason + counts);
        },
    }
}

proof fn lemma_name_in(messages: Seq<MessageEnvelopeView>, author: Seq<char>, i: int)
    requires
        0 <= i < messages.len(),
        messages[i].author.id == author,
        forall|j: int| i < j < messages.len() ==> (#[trigger] messages[j]).author.id != author,
    ensures
        name_in(messages, author) == messages[i].author.display_name,
    decreases messages.len(),
{
    if i < messages.len() - 1 {
        let front = messages.drop_last();
        assert(messages[messages.len() - 1].author.id != author);
        assert forall|j: int| i < j < front.len() implies (#[trigger] front[j]).author.id
            != author by {
            assert(front[j] == messages[j]);
        }
        lemma_name_in(front, author, i);
    }
}

proof fn lemma_writers_listed(messages: Seq<MessageEnvelopeView>)
    ensures
        lists(listed(writers(messages)), writers(messages)),
{
    let ids = messages.map_values(|m: MessageEnvelopeView| m.author.id);
    let set = writers(messages);
    vstd::seq_lib::seq_to_set_is_finite(ids);
    assert forall|a: Seq<char>| set.contains(a) implies ids.to_set().contains(a) by {
        let i = choose|i: int| 0 <= i < messages.len() && (#[trigger] messages[i]).author.id == a;
        assert(ids[i] == a);
    }
    vstd::set_lib::lemma_set_subset_finite(ids.to_set(), set);
    lemma_listable(set);
}

/// Whether somebody wrote one of the messages.
pub open spec fn wrote(messages: Seq<MessageEnvelopeView>, author: Seq<char>) -> bool {
    exists|k: int| 0 <= k < messages.len() && (#[trigger] messages[k]).author.id == author
}

/// The participants of messages are their authors, each once.
pub proof fn participants_are_the_authors(messages: Seq<MessageEnvelopeView>, author: Seq<char>)
    ensures
        (exists|i: int|
            0 <= i < participants_of(messages).len() && (
            #[trigger] participants_of(messages)[i]).author == author) <==> wrote(messages, author),
{
    let people = participants_of(messages);
    let names = listed(writers(messages));
    lemma_writers_listed(messages);
    assert(names.contains(author) <==> wrote(messages, author)) by {
        assert(writers(messages).contains(author) <==> wrote(messages, author));
    }
    if exists|i: int| 0 <= i < people.len() && (#[trigger] people[i]).author == author {
        let i = choose|i: int| 0 <= i < people.len() && (#[trigger] people[i]).author == author;
        assert(names[i] == author);
    }
    if names.contains(author) {
        let i = choose|i: int| 0 <= i < names.len() && names[i] == author;
        assert(people[i].author == author);
    }
}

/// Participants come by ascending id.
pub proof fn participants_come_in_order(messages: Seq<MessageEnvelopeView>, i: int, j: int)
    requires
        0 <= i < j < participants_of(messages).len(),
    ensures
        precedes(participants_of(messages)[i].author, participants_of(messages)[j].author),
{
    lemma_writers_listed(messages);
    let names = listed(writers(messages));
    assert(precedes(names[i], names[j]));
}

/// A participant goes by the name of their last message.
pub proof fn participants_go_by_their_last_name(
    messages: Seq<MessageEnvelopeView>,
    i: int,
    last: int,
)
    requires
        0 <= i < participants_of(messages).len(),
        0 <= last < messages.len(),
        messages[last].author.id == participants_of(messages)[i].author,
        forall|j: int|
            last < j < messages.len() ==> (#[trigger] messages[j]).author.id
                != messages[last].author.id,
    ensures
        participants_of(messages)[i].display_name == messages[last].author.display_name,
{
    lemma_name_in(messages, messages[last].author.id, last);
}

/// A message's id.
pub open spec fn id_of() -> spec_fn(MessageEnvelopeView) -> Seq<char> {
    |m: MessageEnvelopeView| m.id
}

/// The sessions of a log are its conversations as first seen, each with the ids of its
/// messages in order and with their participants.
pub proof fn sessions_are_the_conversations(log: Seq<MessageEnvelopeView>, k: int)
    ensures
        ({
            let sessions = sessions_of(log);
            let order = sessions.map_values(|s: DeveloperSnapshotRequestView| s.conversation);
            &&& in_first_seen_order(order, conversations_in(log))
            &&& 0 <= k < sessions.len() ==> {
                let own = log.filter(in_conversation(sessions[k].conversation));
                &&& sessions[k].messages == own.map_values(id_of())
                &&& sessions[k].participants == participants_of(own)
            }
        }),
{
    let sessions = sessions_of(log);
    conversations_come_as_first_seen(log);
    assert(sessions.map_values(|s: DeveloperSnapshotRequestView| s.conversation)
        =~= conversations_of(log));
    if 0 <= k < sessions.len() {
        let c = sessions[k].conversation;
        a_conversation_keeps_the_order(log, c);
        assert(ids_of(messages_of(log, c)) =~= messages_of(log, c).map_values(id_of()));
    }
}

proof fn lemma_session_at(log: Seq<MessageEnvelopeView>, c: Seq<char>) -> (k: int)
    requires
        conversations_in(log).contains(c),
    ensures
        0 <= k < sessions_of(log).len(),
        sessions_of(log)[k].conversation == c,
        forall|j: int|
            k < j < sessions_of(log).len() ==> (#[trigger] sessions_of(log)[j]).conversation != c,
{
    conversations_come_as_first_seen(log);
    let all = conversations_of(log);
    assert(all.contains(c));
    let k = choose|k: int| 0 <= k < all.len() && all[k] == c;
    assert forall|j: int| k < j < sessions_of(log).len() implies (
    #[trigger] sessions_of(log)[j]).conversation != c by {
        assert(all[j] != all[k]);
    }
    k
}

proof fn lemma_session_stores(
    scoper: &MockScopeProjector,
    builder: &MockWarmupBuilder,
    snapshotter: &SkillDeveloperSnapshotter,
    projections: Map<Seq<char>, ProjectionView>,
    scopes: Map<Seq<char>, ScopeView>,
    skills: Map<Seq<char>, TopicOwnershipView>,
    sessions: Seq<DeveloperSnapshotRequestView>,
    k: int,
)
    requires
        0 <= k < sessions.len(),
        forall|j: int|
            k < j < sessions.len() ==> (#[trigger] sessions[j]).conversation
                != sessions[k].conversation,
    ensures
        ({
            let session = sessions[k];
            let c = session.conversation;
            let own = stored(projections, session.messages);
            &&& lookup(scopes_of(scoper, projections, sessions), c) == Some(
                scoper.scope_spec(c, own),
            )
            &&& lookup(warmups_of(builder, projections, scopes, sessions), c) == Some(
                builder.warmup_spec(c, lookup(scopes, c), own),
            )
            &&& lookup(developers_of(snapshotter, projections, skills, sessions), c) == Some(
                snapshotter.snapshot_spec(
                    c,
                    session.participants,
                    stored_ownerships(skills, distinct(topics_in(own))),
                ),
            )
        }),
    decreases sessions.len(),
{
    let front = sessions.drop_last();
    if k < front.len() {
        assert(sessions[sessions.len() - 1].conversation != sessions[k].conversation);
        assert forall|j: int| k < j < front.len() implies (#[trigger] front[j]).conversation
            != front[k].conversation by {
            assert(front[j] == sessions[j]);
        }
        lemma_session_stores(
            scoper,
            builder,
            snapshotter,
            projections,
            scopes,
            skills,
            front,
            k,
        );
    }
}

/// What was projected of a conversation's messages, in order.
pub open spec fn projected(
    log: Seq<MessageEnvelopeView>,
    projections: Map<Seq<char>, ProjectionView>,
    conversation: Seq<char>,
) -> Seq<ProjectionView> {
    log.filter(in_conversation(conversation)).map_values(id_of()).filter(
        held_in(projections),
    ).map_values(entry_in(projections))
}

/// Who owns the given topics, as far as the index says.
pub open spec fn owners(
    skills: Map<Seq<char>, TopicOwnershipView>,
    topics: Seq<Seq<char>>,
) -> Seq<TopicOwnershipView> {
    topics.filter(held_in(skills)).map_values(entry_in(skills))
}

/// A replay derives each conversation from its own messages: its scope from their
/// projections, its warm-up from that scope and them, and its developers from those
/// who took part and who owns the topics of the projections, each topic once.
pub proof fn a_replay_derives_each_conversation<P: Projector>(
    before: ProjectionStrategy<
        P,
        MockScopeProjector,
        MockWarmupBuilder,
        MessageSkillBuilder,
        SkillRoutingHinter,
        SkillDeveloperSnapshotter,
    >,
    after: ProjectionStrategy<
        P,
        MockScopeProjector,
        MockWarmupBuilder,
        MessageSkillBuilder,
        SkillRoutingHinter,
        SkillDeveloperSnapshotter,
    >,
    log: Seq<MessageEnvelopeView>,
    stores: ReplayStoresView,
    c: Seq<char>,
) -> (topics: Seq<Seq<char>>)
    requires
        before.replays(log, &after, stores),
        conversations_in(log).contains(c),
    ensures
        ({
            let own = projected(log, stores.projections, c);
            let people = participants_of(log.filter(in_conversation(c)));
            let scope = MockScopeProjector.scope_spec(c, own);
            &&& in_first_seen_order(topics, own.map_values(topics_shown()).flatten())
            &&& lookup(stores.scopes, c) == Some(scope)
            &&& lookup(stores.warmups, c) == Some(
                MockWarmupBuilder.warmup_spec(c, Some(scope), own),
            )
            &&& lookup(stores.developers, c) == Some(
                SkillDeveloperSnapshotter.snapshot_spec(c, people, owners(stores.skills, topics)),
            )
        }),
{
    let k = lemma_session_at(log, c);
    let sessions = sessions_of(log);
    sessions_are_the_conversations(log, k);
    let ids = log.filter(in_conversation(c)).map_values(id_of());
    stored_projections_keep_the_order(stores.projections, ids);
    let own = projected(log, stores.projections, c);
    assert(own == stored(stores.projections, sessions[k].messages));
    lemma_session_stores(
        &before.scoper,
        &before.builder,
        &before.snapshotter,
        stores.projections,
        stores.scopes,
        stores.skills,
        sessions,
        k,
    );
    let topics = distinct(topics_in(own));
    lemma_topics_in(own);
    distinct_texts_come_as_first_seen(topics_in(own));
    stored_ownerships_keep_the_order(stores.skills, topics);
    topics
}

/// An author and the message they wrote.
pub open spec fn authorship() -> spec_fn(MessageEnvelopeView) -> SkillEntryView {
    |m: MessageEnvelopeView|
        SkillEntryView {
            author: m.author.id,
            display_name: m.author.display_name,
            message: m.id,
        }
}

proof fn lemma_index_stored(ownerships: Seq<TopicOwnershipView>, topic: Seq<char>)
    requires
        forall|k: int, n: int|
            0 <= k < n < ownerships.len() ==> precedes(ownerships[k].topic, ownerships[n].topic),
    ensures
        forall|k: int|
            0 <= k < ownerships.len() && (#[trigger] ownerships[k]).topic == topic ==> lookup(
                with_ownerships(Map::empty(), ownerships),
                topic,
            ) == Some(ownerships[k]),
        (forall|k: int|
            0 <= k < ownerships.len() ==> (#[trigger] ownerships[k]).topic != topic) ==> lookup(
            with_ownerships(Map::empty(), ownerships),
            topic,
        ) is None,
    decreases ownerships.len(),
{
    if ownerships.len() > 0 {
        let front = ownerships.drop_last();
        let last = ownerships.last();
        assert forall|k: int, n: int| 0 <= k < n < front.len() implies precedes(
            front[k].topic,
            front[n].topic,
        ) by {
            assert(precedes(ownerships[k].topic, ownerships[n].topic));
        }
        lemma_index_stored(front, topic);
        assert(ownerships[ownerships.len() - 1] == last);
        assert forall|k: int| 0 <= k < ownerships.len() && (#[trigger] ownerships[k]).topic
            == topic implies lookup(with_ownerships(Map::empty(), ownerships), topic) == Some(
            ownerships[k],
        ) by {
            if k < front.len() {
                assert(front[k] == ownerships[k]);
                assert(precedes(ownerships[k].topic, ownerships[ownerships.len() - 1].topic));
                lemma_precedes_irreflexive(topic);
            }
        }
        if forall|k: int|
            0 <= k < ownerships.len() ==> (#[trigger] ownerships[k]).topic != topic {
            assert forall|k: int| 0 <= k < front.len() implies (#[trigger] front[k]).topic
                != topic by {
                assert(front[k] == ownerships[k]);
            }
        }
    }
}

/// A replay's skills are the index of the whole log: each author with what was
/// projected of their messages, across all conversations.
pub proof fn a_replay_indexes_the_whole_log<P: Projector>(
    before: ProjectionStrategy<
        P,
        MockScopeProjector,
        MockWarmupBuilder,
        MessageSkillBuilder,
        SkillRoutingHinter,
        SkillDeveloperSnapshotter,
    >,
    after: ProjectionStrategy<
        P,
        MockScopeProjector,
        MockWarmupBuilder,
        MessageSkillBuilder,
        SkillRoutingHinter,
        SkillDeveloperSnapshotter,
    >,
    log: Seq<MessageEnvelopeView>,
    stores: ReplayStoresView,
    topic: Seq<char>,
)
    requires
        before.replays(log, &after, stores),
    ensures
        ({
            let index = MessageSkillBuilder.index_spec(
                log.map_values(authorship()).filter(projected_in(stores.projections)).map_values(
                    contribution_by(stores.projections),
                ),
            );
            &&& forall|k: int|
                0 <= k < index.ownerships.len() && (#[trigger] index.ownerships[k]).topic == topic
                    ==> lookup(stores.skills, topic) == Some(index.ownerships[k])
            &&& (forall|k: int|
                0 <= k < index.ownerships.len() ==> (#[trigger] index.ownerships[k]).topic
                    != topic) ==> lookup(stores.skills, topic) is None
        }),
{
    let p = contributions(stores.projections, entries_of(log));
    assert(entries_of(log) =~= log.map_values(authorship()));
    every_projected_message_contributes(stores.projections, entries_of(log));
    an_index_holds_every_ownership(p, topic);
    lemma_index_stored(MessageSkillBuilder.index_spec(p).ownerships, topic);
}

/// Whether each projection is stored under its message.
pub open spec fn under_their_messages(projections: Map<Seq<char>, ProjectionView>) -> bool {
    forall|id: Seq<char>| #[trigger]
        projections.contains_key(id) ==> projections[id].message_id == id
}

proof fn lemma_hint_of(
    hinter: &SkillRoutingHinter,
    projections: Map<Seq<char>, ProjectionView>,
    skills: Map<Seq<char>, TopicOwnershipView>,
    ids: Seq<Seq<char>>,
    id: Seq<char>,
)
    requires
        under_their_messages(projections),
    ensures
        lookup(with_hints(hinter, projections, skills, Map::empty(), ids), id) == if ids.contains(
            id,
        ) && projections.contains_key(id) {
            Some(
                hinter.hint_spec(
                    projections[id],
                    stored_ownerships(skills, projections[id].topics),
                ),
            )
        } else {
            None
        },
    decreases ids.len(),
{
    if ids.len() > 0 {
        let front = ids.drop_last();
        lemma_hint_of(hinter, projections, skills, front, id);
        if ids.contains(id) {
            let k = choose|k: int| 0 <= k < ids.len() && ids[k] == id;
            if k < front.len() {
                assert(front[k] == id);
            }
        }
        if front.contains(id) {
            let k = choose|k: int| 0 <= k < front.len() && front[k] == id;
            assert(ids[k] == id);
        }
        assert(ids[ids.len() - 1] == ids.last());
    }
}

/// A replay hints, for each projected message of the log and for no other, who owns
/// the topics of its projection.
pub proof fn a_replay_hints_at_the_owners<P: Projector>(
    before: ProjectionStrategy<
        P,
        MockScopeProjector,
        MockWarmupBuilder,
        MessageSkillBuilder,
        SkillRoutingHinter,
        SkillDeveloperSnapshotter,
    >,
    after: ProjectionStrategy<
        P,
        MockScopeProjector,
        MockWarmupBuilder,
        MessageSkillBuilder,
        SkillRoutingHinter,
        SkillDeveloperSnapshotter,
    >,
    log: Seq<MessageEnvelopeView>,
    stores: ReplayStoresView,
    id: Seq<char>,
)
    requires
        before.replays(log, &after, stores),
        under_their_messages(stores.projections),
    ensures
        lookup(stores.hints, id) == if log.map_values(id_of()).contains(id)
            && stores.projections.contains_key(id) {
            Some(
                SkillRoutingHinter.hint_spec(
                    stores.projections[id],
                    owners(stores.skills, stores.projections[id].topics),
                ),
            )
        } else {
            None::<RoutingHintView>
        },
{
    assert(ids_of(log) =~= log.map_values(id_of()));
    lemma_hint_of(&before.hinter, stores.projections, stores.skills, ids_of(log), id);
    if stores.projections.contains_key(id) {
        stored_ownerships_keep_the_order(stores.skills, stores.projections[id].topics);
    }
}

/// A derivation holds what the stores have of its conversation: the projections and
/// hints of its messages in order, its scope, warm-up and developers. There is one
/// exactly if there is a warm-up.
pub proof fn a_derivation_holds_its_conversation(
    log: Seq<MessageEnvelopeView>,
    stores: ReplayStoresView,
    c: Seq<char>,
)
    ensures
        derivation_in(log, stores, c) is Some <==> stores.warmups.contains_key(c),
        derivation_in(log, stores, c) matches Some(d) ==> {
            let ids = log.filter(in_conversation(c)).map_values(id_of());
            &&& d.conversation == c
            &&& d.warmup == stores.warmups[c]
            &&& d.projections == projected(log, stores.projections, c)
            &&& d.scope == lookup(stores.scopes, c)
            &&& d.developers == lookup(stores.developers, c)
            &&& d.hints == ids.filter(held_in(stores.hints)).map_values(entry_in(stores.hints))
        },
{
    a_conversation_keeps_the_order(log, c);
    let ids = log.filter(in_conversation(c)).map_values(id_of());
    assert(ids_of(messages_of(log, c)) =~= ids);
    stored_projections_keep_the_order(stores.projections, ids);
    stored_hints_keep_the_order(stores.hints, ids);
}

/// The projections routed to GitHub.
pub open spec fn routed_to_github<R: Router>(router: &R) -> spec_fn(ProjectionView) -> bool {
    |p: ProjectionView| router.route_spec(p).0.target == ConsumerKind::GitHub
}

/// A projection's draft.
pub open spec fn drafted() -> spec_fn(ProjectionView) -> GitHubDraftView {
    |p: ProjectionView| projection_draft(p)
}

proof fn lemma_routed_drafts<R: Router>(router: &R, projections: Seq<ProjectionView>)
    ensures
        routed_drafts(router, projections) == projections.filter(
            routed_to_github(router),
        ).map_values(drafted()),
    decreases projections.len(),
{
    lemma_kept(projections, routed_to_github(router), drafted());
    if projections.len() > 0 {
        lemma_routed_drafts(router, projections.drop_last());
    }
}

/// A context shows its derivation as it is, with a decision for each projection, in
/// order, and a draft for each that is routed to GitHub.
pub proof fn a_context_shows_its_derivation<R: Router>(
    derivation: ConversationDerivationView,
    version: Seq<char>,
    router: &R,
)
    ensures
        ({
            let context = session_context(derivation, version, router);
            &&& context.schema == "mirrorlane.session_context/1"@
            &&& context.derivation_version == version
            &&& context.conversation == derivation.conversation
            &&& context.warmup == derivation.warmup
            &&& context.scope == derivation.scope
            &&& context.developers == derivation.developers
            &&& context.hints == derivation.hints
            &&& context.decisions.len() == derivation.projections.len()
            &&& forall|i: int|
                0 <= i < context.decisions.len() ==> #[trigger] context.decisions[i]
                    == router.route_spec(derivation.projections[i]).0
            &&& context.drafts == derivation.projections.filter(
                routed_to_github(router),
            ).map_values(drafted())
        }),
{
    lemma_routed_drafts(router, derivation.projections);
}

} // verus!
