//! Laws of equality: what `verify` calls verified is the same in every field.

use crate::cli::commands::verification;
use crate::double::ordinal;
use crate::double::Double;
use crate::double::SIGN_BIT;
use crate::model::alike::alike_all;
use crate::model::alike::Alike;
use crate::model::derivation::ConversationDerivation;
use crate::model::derivation::ConversationDerivationView;
use crate::model::message::MessageEnvelopeView;
use crate::model::message::MessageId;
use crate::model::message_log::messages_of;
use crate::model::projection::Entity;
use crate::model::projection::Projection;
use crate::model::projection::ProjectionView;
use crate::model::projection::Topic;
use crate::model::routing::RoutingHint;
use crate::model::routing::RoutingHintView;
use crate::model::scope::Component;
use crate::model::scope::Scope;
use crate::model::scope::ScopeView;
use crate::model::seqs::lookup;
use crate::model::skill::DeveloperSnapshot;
use crate::model::skill::DeveloperSnapshotView;
use crate::model::skill::ExpertCandidate;
use crate::model::skill::ExpertCandidateView;
use crate::model::skill::SessionDevelopers;
use crate::model::skill::SessionDevelopersView;
use crate::model::skill::TopicWeight;
use crate::model::warmup::WarmupDocument;
use crate::model::warmup::WarmupDocumentView;
use crate::runtime::frame::Triple;
use crate::worker::derived::content_digest;
use vstd::prelude::*;

verus! {

/// Whether a double is the one pattern of its number: it is a number, and not the
/// negative zero.
pub open spec fn is_plain(d: Double) -> bool {
    !d.is_nan_spec() && d.bits != SIGN_BIT
}

/// Whether the scores of candidates are plain.
pub open spec fn plain_candidates(candidates: Seq<ExpertCandidateView>) -> bool {
    forall|i: int| 0 <= i < candidates.len() ==> is_plain((#[trigger] candidates[i]).score)
}

/// Whether the scores of a hint are plain.
pub open spec fn plain_hint(hint: RoutingHintView) -> bool {
    &&& plain_candidates(hint.reviewers)
    &&& hint.human_hint matches Some(first) ==> is_plain(first.score)
}

/// Whether the weights of a developer are plain.
pub open spec fn plain_developer(developer: DeveloperSnapshotView) -> bool {
    forall|i: int|
        0 <= i < developer.topics.len() ==> is_plain((#[trigger] developer.topics[i]).weight)
}

/// Whether the weights of a session are plain.
pub open spec fn plain_session(session: SessionDevelopersView) -> bool {
    forall|i: int|
        0 <= i < session.developers.len() ==> plain_developer(#[trigger] session.developers[i])
}

/// Whether every confidence, score and weight of a derivation is plain.
pub open spec fn is_plain_derivation(d: ConversationDerivationView) -> bool {
    &&& forall|i: int|
        0 <= i < d.projections.len() ==> is_plain((#[trigger] d.projections[i]).confidence)
    &&& d.scope matches Some(scope) ==> is_plain(scope.confidence)
    &&& d.developers matches Some(session) ==> plain_session(session)
    &&& forall|i: int| 0 <= i < d.hints.len() ==> plain_hint(#[trigger] d.hints[i])
}

proof fn lemma_same_texts<T: Alike<V = Seq<char>>>(a: Seq<Seq<char>>, b: Seq<Seq<char>>)
    requires
        alike_all::<T>(a, b),
        forall|x: Seq<char>, y: Seq<char>| #[trigger] T::alike(x, y) ==> x == y,
    ensures
        a == b,
{
    assert forall|i: int| 0 <= i < a.len() implies a[i] == b[i] by {
        assert(T::alike(a[i], b[i]));
    }
    assert(a =~= b);
}

proof fn lemma_same_projection(a: ProjectionView, b: ProjectionView)
    requires
        Projection::alike(a, b),
        is_plain(a.confidence),
        is_plain(b.confidence),
    ensures
        a == b,
{
    lemma_same_texts::<Topic>(a.topics, b.topics);
    lemma_same_texts::<Entity>(a.entities, b.entities);
}

proof fn lemma_same_scope(a: ScopeView, b: ScopeView)
    requires
        Scope::alike(a, b),
        is_plain(a.confidence),
        is_plain(b.confidence),
    ensures
        a == b,
{
    lemma_same_texts::<Component>(a.load, b.load);
    lemma_same_texts::<Component>(a.ignore, b.ignore);
}

proof fn lemma_same_warmup(a: WarmupDocumentView, b: WarmupDocumentView)
    requires
        WarmupDocument::alike(a, b),
    ensures
        a == b,
{
    lemma_same_texts::<Component>(a.focus, b.focus);
    lemma_same_texts::<MessageId>(a.decisions, b.decisions);
    lemma_same_texts::<MessageId>(a.open_questions, b.open_questions);
    lemma_same_texts::<MessageId>(a.tasks, b.tasks);
}

proof fn lemma_same_developer(a: DeveloperSnapshotView, b: DeveloperSnapshotView)
    requires
        DeveloperSnapshot::alike(a, b),
        plain_developer(a),
        plain_developer(b),
    ensures
        a == b,
{
    assert forall|i: int| 0 <= i < a.topics.len() implies a.topics[i] == b.topics[i] by {
        assert(TopicWeight::alike(a.topics[i], b.topics[i]));
        assert(is_plain(a.topics[i].weight));
        assert(is_plain(b.topics[i].weight));
    }
    assert(a.topics =~= b.topics);
}

proof fn lemma_same_session(a: SessionDevelopersView, b: SessionDevelopersView)
    requires
        SessionDevelopers::alike(a, b),
        plain_session(a),
        plain_session(b),
    ensures
        a == b,
{
    assert forall|i: int| 0 <= i < a.developers.len() implies a.developers[i]
        == b.developers[i] by {
        assert(DeveloperSnapshot::alike(a.developers[i], b.developers[i]));
        assert(plain_developer(a.developers[i]));
        assert(plain_developer(b.developers[i]));
        lemma_same_developer(a.developers[i], b.developers[i]);
    }
    assert(a.developers =~= b.developers);
}

proof fn lemma_same_hint(a: RoutingHintView, b: RoutingHintView)
    requires
        RoutingHint::alike(a, b),
        plain_hint(a),
        plain_hint(b),
    ensures
        a == b,
{
    assert forall|i: int| 0 <= i < a.reviewers.len() implies a.reviewers[i] == b.reviewers[i] by {
        assert(ExpertCandidate::alike(a.reviewers[i], b.reviewers[i]));
        assert(is_plain(a.reviewers[i].score));
        assert(is_plain(b.reviewers[i].score));
    }
    assert(a.reviewers =~= b.reviewers);
}

/// Derivations that are equal agree in every field: conversation, projections, scope,
/// warm-up, developers and hints.
pub proof fn equal_derivations_are_the_same(
    a: ConversationDerivationView,
    b: ConversationDerivationView,
)
    requires
        is_plain_derivation(a),
        is_plain_derivation(b),
    ensures
        ConversationDerivation::alike(a, b) <==> a == b,
{
    if ConversationDerivation::alike(a, b) {
        assert forall|i: int| 0 <= i < a.projections.len() implies a.projections[i]
            == b.projections[i] by {
            assert(Projection::alike(a.projections[i], b.projections[i]));
            assert(is_plain(a.projections[i].confidence));
            assert(is_plain(b.projections[i].confidence));
            lemma_same_projection(a.projections[i], b.projections[i]);
        }
        assert(a.projections =~= b.projections);
        if let (Some(x), Some(y)) = (a.scope, b.scope) {
            lemma_same_scope(x, y);
        }
        lemma_same_warmup(a.warmup, b.warmup);
        if let (Some(x), Some(y)) = (a.developers, b.developers) {
            lemma_same_session(x, y);
        }
        assert forall|i: int| 0 <= i < a.hints.len() implies a.hints[i] == b.hints[i] by {
            assert(RoutingHint::alike(a.hints[i], b.hints[i]));
            assert(plain_hint(a.hints[i]));
            assert(plain_hint(b.hints[i]));
            lemma_same_hint(a.hints[i], b.hints[i]);
        }
        assert(a.hints =~= b.hints);
    }
    if a == b {
        lemma_same_as_itself(a);
    }
}

proof fn lemma_same_as_itself(d: ConversationDerivationView)
    requires
        is_plain_derivation(d),
    ensures
        ConversationDerivation::alike(d, d),
{
    assert forall|i: int| 0 <= i < d.projections.len() implies Projection::alike(
        #[trigger] d.projections[i],
        d.projections[i],
    ) by {
        assert(is_plain(d.projections[i].confidence));
    }
    assert forall|i: int| 0 <= i < d.hints.len() implies RoutingHint::alike(
        #[trigger] d.hints[i],
        d.hints[i],
    ) by {
        let hint = d.hints[i];
        assert(plain_hint(hint));
        assert forall|j: int| 0 <= j < hint.reviewers.len() implies ExpertCandidate::alike(
            #[trigger] hint.reviewers[j],
            hint.reviewers[j],
        ) by {
            assert(is_plain(hint.reviewers[j].score));
        }
    }
    if let Some(session) = d.developers {
        assert forall|i: int| 0 <= i < session.developers.len() implies DeveloperSnapshot::alike(
            #[trigger] session.developers[i],
            session.developers[i],
        ) by {
            let developer = session.developers[i];
            assert(plain_developer(developer));
            assert forall|j: int| 0 <= j < developer.topics.len() implies TopicWeight::alike(
                #[trigger] developer.topics[j],
                developer.topics[j],
            ) by {
                assert(is_plain(developer.topics[j].weight));
            }
        }
    }
}

/// Whether two scores are the same number.
pub open spec fn same_number(a: Double, b: Double) -> bool {
    !a.is_nan_spec() && !b.is_nan_spec() && ordinal(a.bits) == ordinal(b.bits)
}

/// Whether two candidates are the same, their scores as numbers.
pub open spec fn same_candidate(a: ExpertCandidateView, b: ExpertCandidateView) -> bool {
    a.author == b.author && a.display_name == b.display_name && same_number(a.score, b.score)
}

/// Whether two hints are the same, their scores as numbers.
pub open spec fn same_hint(a: RoutingHintView, b: RoutingHintView) -> bool {
    &&& a.message_id == b.message_id
    &&& a.reviewers.len() == b.reviewers.len()
    &&& forall|i: int|
        0 <= i < a.reviewers.len() ==> same_candidate(#[trigger] a.reviewers[i], b.reviewers[i])
    &&& match (a.human_hint, b.human_hint) {
        (Some(x), Some(y)) => same_candidate(x, y),
        (None, None) => true,
        _ => false,
    }
}

/// Whether two developers are the same, their weights as numbers.
pub open spec fn same_developer(a: DeveloperSnapshotView, b: DeveloperSnapshotView) -> bool {
    &&& a.author == b.author
    &&& a.display_name == b.display_name
    &&& a.topics.len() == b.topics.len()
    &&& forall|i: int|
        0 <= i < a.topics.len() ==> (#[trigger] a.topics[i]).topic == b.topics[i].topic
            && same_number(a.topics[i].weight, b.topics[i].weight)
}

/// Whether two projections are the same, their confidences as numbers.
pub open spec fn same_projection(a: ProjectionView, b: ProjectionView) -> bool {
    &&& a.message_id == b.message_id
    &&& a.intent == b.intent
    &&& a.topics == b.topics
    &&& a.entities == b.entities
    &&& same_number(a.confidence, b.confidence)
}

/// Equal derivations are the same in every text, list and flag, and their scores are
/// the same numbers, whatever the scores are.
pub proof fn equal_derivations_agree_everywhere(
    a: ConversationDerivationView,
    b: ConversationDerivationView,
)
    requires
        ConversationDerivation::alike(a, b),
    ensures
        a.conversation == b.conversation,
        a.warmup == b.warmup,
        a.projections.len() == b.projections.len(),
        forall|i: int|
            0 <= i < a.projections.len() ==> same_projection(
                #[trigger] a.projections[i],
                b.projections[i],
            ),
        match (a.scope, b.scope) {
            (Some(x), Some(y)) => x.conversation == y.conversation && x.load == y.load && x.ignore
                == y.ignore && x.reason == y.reason && same_number(x.confidence, y.confidence),
            (None, None) => true,
            _ => false,
        },
        match (a.developers, b.developers) {
            (Some(x), Some(y)) => x.conversation == y.conversation && x.developers.len()
                == y.developers.len() && forall|i: int|
                0 <= i < x.developers.len() ==> same_developer(
                    #[trigger] x.developers[i],
                    y.developers[i],
                ),
            (None, None) => true,
            _ => false,
        },
        a.hints.len() == b.hints.len(),
        forall|i: int| 0 <= i < a.hints.len() ==> same_hint(#[trigger] a.hints[i], b.hints[i]),
{
    assert forall|i: int| 0 <= i < a.projections.len() implies same_projection(
        #[trigger] a.projections[i],
        b.projections[i],
    ) by {
        let (x, y) = (a.projections[i], b.projections[i]);
        assert(Projection::alike(x, y));
        lemma_same_texts::<Topic>(x.topics, y.topics);
        lemma_same_texts::<Entity>(x.entities, y.entities);
    }
    if let (Some(x), Some(y)) = (a.scope, b.scope) {
        lemma_same_texts::<Component>(x.load, y.load);
        lemma_same_texts::<Component>(x.ignore, y.ignore);
    }
    lemma_same_warmup(a.warmup, b.warmup);
    if let (Some(x), Some(y)) = (a.developers, b.developers) {
        assert forall|i: int| 0 <= i < x.developers.len() implies same_developer(
            #[trigger] x.developers[i],
            y.developers[i],
        ) by {
            let (v, w) = (x.developers[i], y.developers[i]);
            assert(DeveloperSnapshot::alike(v, w));
            assert forall|j: int| 0 <= j < v.topics.len() implies (#[trigger] v.topics[j]).topic
                == w.topics[j].topic && same_number(v.topics[j].weight, w.topics[j].weight) by {
                assert(TopicWeight::alike(v.topics[j], w.topics[j]));
            }
        }
    }
    assert forall|i: int| 0 <= i < a.hints.len() implies same_hint(
        #[trigger] a.hints[i],
        b.hints[i],
    ) by {
        let (v, w) = (a.hints[i], b.hints[i]);
        assert(RoutingHint::alike(v, w));
        assert forall|j: int| 0 <= j < v.reviewers.len() implies same_candidate(
            #[trigger] v.reviewers[j],
            w.reviewers[j],
        ) by {
            assert(ExpertCandidate::alike(v.reviewers[j], w.reviewers[j]));
        }
    }
}

/// A conversation is reported verified exactly if the cache holds, for its version
/// and content, the derivation just made; diverged exactly if it holds another; and
/// not cached exactly if it holds none.
pub proof fn verify_tells_the_same_from_the_different(
    durable: Map<Triple, ConversationDerivationView>,
    log: Seq<MessageEnvelopeView>,
    version: Seq<char>,
    fresh: ConversationDerivationView,
)
    requires
        is_plain_derivation(fresh),
        forall|t: Triple| #[trigger] durable.contains_key(t) ==> is_plain_derivation(durable[t]),
    ensures
        ({
            let record = verification(durable, log, version, fresh);
            let place = (
                version,
                fresh.conversation,
                content_digest(messages_of(log, fresh.conversation)),
            );
            &&& record.conversation == fresh.conversation
            &&& (record.outcome == "verified"@ <==> lookup(durable, place) == Some(fresh))
            &&& (record.outcome == "diverged"@ <==> lookup(durable, place) is Some && lookup(
                durable,
                place,
            ) != Some(fresh))
            &&& (record.outcome == "not_cached"@ <==> lookup(durable, place) is None)
        }),
{
    reveal_strlit("verified");
    reveal_strlit("diverged");
    reveal_strlit("not_cached");
    assert("verified"@[0] != "diverged"@[0]);
    assert("verified"@[0] != "not_cached"@[0]);
    assert("diverged"@[0] != "not_cached"@[0]);
    let place = (
        version,
        fresh.conversation,
        content_digest(messages_of(log, fresh.conversation)),
    );
    if let Some(held) = lookup(durable, place) {
        assert(durable.contains_key(place));
        equal_derivations_are_the_same(held, fresh);
    }
}

} // verus!
