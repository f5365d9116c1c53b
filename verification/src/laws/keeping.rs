//! Laws of keeping: what stores, caches and recorders hold after a write, and what
//! settings come to.

use super::lists::conversations_come_as_first_seen;
use super::lists::conversations_in;
use super::lists::lemma_kept;
use super::replay::is_function;
use crate::cli::broker::given_url;
use crate::cli::commands::context_of;
use crate::cli::commands::contexts_of;
use crate::cli::commands::session_context;
use crate::cli::settings::given;
use crate::cli::settings::number;
use crate::cli::settings::preferred;
use crate::cli::settings::readable;
use crate::double::ordinal;
use crate::double::Double;
use crate::double::ONE_BITS;
use crate::github::consumer::projection_draft;
use crate::github::consumer::GitHubConsumer;
use crate::github::model::item_message;
use crate::github::model::GitHubItemView;
use crate::github::source::item_messages;
use crate::model::derivation::ConversationDerivationView;
use crate::model::derivation::DerivedOutputCache;
use crate::model::digest::digest;
use crate::model::message::MessageEnvelope;
use crate::model::message::MessageEnvelopeView;
use crate::model::message_log::appended;
use crate::model::message_log::conversations_of;
use crate::model::message_log::ids_distinct;
use crate::model::message_log::lemma_position;
use crate::model::message_log::lemma_position_of;
use crate::model::message_log::message_with;
use crate::model::message_log::messages_of;
use crate::model::projection::Projection;
use crate::model::projection::ProjectionView;
use crate::model::projector::DeveloperSnapshotBuilder;
use crate::model::projector::Projector;
use crate::model::projector::Router;
use crate::model::projector::RoutingHinter;
use crate::model::projector::ScopeProjector;
use crate::model::projector::SkillBuilder;
use crate::model::projector::WarmupBuilder;
use crate::model::routing::Consumer;
use crate::model::routing::ConsumerError;
use crate::model::routing::ConsumerKind;
use crate::model::routing::ConsumerReceiptView;
use crate::model::routing::ConsumerRegistry;
use crate::model::routing::RoutingDecisionView;
use crate::model::routing::RoutingTraceView;
use crate::model::seqs::lookup;
use crate::model::seqs::views;
use crate::model::store::RoutingTraceStore;
use crate::provider::routing::RecordingConsumer;
use crate::runtime::cache::Cache;
use crate::runtime::cache::CacheKey;
use crate::runtime::cache::Cached;
use crate::runtime::cache::CachedMemory;
use crate::runtime::frame::Triple;
use crate::runtime::step::Step;
use crate::storage::first_pending;
use crate::storage::migration_batch;
use crate::text::decimal;
use crate::text::parsed;
use crate::worker::derived::content_digest;
use crate::worker::derived::content_texts;
use crate::worker::derived::derivation_in;
use crate::worker::derived::derivations_of;
use crate::worker::derived::populated;
use crate::worker::derived::publishes;
use crate::worker::derived::publishes_all;
use crate::worker::replay::projects;
use crate::worker::replay::with_projections;
use crate::worker::replay::ProjectionStrategy;
use crate::worker::replay::ReplayStoresView;
use crate::worker::route::dispatches_all;
use crate::worker::route::dispatches_one;
use crate::worker::route::traced;
use crate::worker::route::with_routes;
use crate::worker::route::with_traces;
use vstd::prelude::*;

verus! {

/// Of projections stored one after the other, the last about a message is kept, and
/// what no projection is about stays as it was.
pub proof fn the_last_projection_is_kept(
    held: Map<Seq<char>, ProjectionView>,
    fresh: Seq<ProjectionView>,
    id: Seq<char>,
    last: int,
)
    requires
        -1 <= last < fresh.len(),
        last >= 0 ==> fresh[last].message_id == id,
        forall|j: int| last < j < fresh.len() ==> (#[trigger] fresh[j]).message_id != id,
    ensures
        lookup(with_projections(held, fresh), id) == if last >= 0 {
            Some(fresh[last])
        } else {
            lookup(held, id)
        },
    decreases fresh.len(),
{
    if last < fresh.len() - 1 {
        let front = fresh.drop_last();
        assert(fresh[fresh.len() - 1].message_id != id);
        assert forall|j: int| last < j < front.len() implies (#[trigger] front[j]).message_id
            != id by {
            assert(front[j] == fresh[j]);
        }
        the_last_projection_is_kept(held, front, id, last);
    }
}

/// A routing run keeps, for each requested message that was projected, the decision
/// and the trace that its projection routes to, and leaves every other as it was.
pub proof fn a_routing_run_keeps_each_decision<R: Router>(
    router: &R,
    projections: Map<Seq<char>, ProjectionView>,
    routes: Map<Seq<char>, RoutingDecisionView>,
    traces: Map<Seq<char>, RoutingTraceView>,
    ids: Seq<Seq<char>>,
    id: Seq<char>,
)
    requires
        forall|x: Seq<char>| #[trigger]
            projections.contains_key(x) ==> router.route_spec(projections[x]).0.message_id == x
                && router.route_spec(projections[x]).1.message_id == x,
    ensures
        ids.contains(id) && projections.contains_key(id) ==> lookup(
            with_routes(router, projections, routes, ids),
            id,
        ) == Some(router.route_spec(projections[id]).0) && lookup(
            with_traces(router, projections, traces, ids),
            id,
        ) == Some(router.route_spec(projections[id]).1),
        !(ids.contains(id) && projections.contains_key(id)) ==> lookup(
            with_routes(router, projections, routes, ids),
            id,
        ) == lookup(routes, id) && lookup(with_traces(router, projections, traces, ids), id)
            == lookup(traces, id),
    decreases ids.len(),
{
    if ids.len() > 0 {
        let front = ids.drop_last();
        a_routing_run_keeps_each_decision(router, projections, routes, traces, front, id);
        if ids.contains(id) {
            let k = choose|k: int| 0 <= k < ids.len() && ids[k] == id;
            if k < front.len() {
                assert(front[k] == id);
            }
        }
        if front.contains(id) {
            let k = choose|k: int| 0 <= k < front.len() && front[k] == id;
            assert(ids[k] == id);
        }
        assert(ids[ids.len() - 1] == ids.last());
    }
}

/// The recorder keeps a receipt for the target and the message of a decision, and all
/// that it had.
pub proof fn a_receipt_is_recorded(
    before: &RecordingConsumer,
    after: &RecordingConsumer,
    decision: RoutingDecisionView,
    projection: ProjectionView,
    result: Result<(), ConsumerError>,
    receipt: ConsumerReceiptView,
)
    requires
        before.consumes(decision, projection, after, result),
    ensures
        result is Ok,
        after@.contains(receipt) <==> before@.contains(receipt) || (receipt.kind == decision.target
            && receipt.message_id == decision.message_id),
{
}

/// The drafter keeps the draft of a projection under its message, and every other
/// draft that it had.
pub proof fn a_draft_is_kept(
    before: &GitHubConsumer,
    after: &GitHubConsumer,
    decision: RoutingDecisionView,
    projection: ProjectionView,
    result: Result<(), ConsumerError>,
    id: Seq<char>,
)
    requires
        before.consumes(decision, projection, after, result),
    ensures
        result is Ok,
        lookup(after@, id) == if id == projection.message_id {
            Some(projection_draft(projection))
        } else {
            lookup(before@, id)
        },
{
}

/// A memoized step is asked under its inner step's kind, its version and the input's
/// key. What is kept there is given back; else the inner step runs, and its answer is
/// given and kept there, and nothing else changes.
pub proof fn a_step_is_asked_once<S, C>(
    step: Cached<S, C>,
    input: S::In,
    after: CachedMemory<S::Memory, S::Out>,
    out: S::Out,
    place: Triple,
) where S: Step, S::In: CacheKey, S::Out: Clone, C: Cache<S::Out>
    requires
        step.runs(&input, after, &out),
    ensures
        ({
            let own = (step.inner.kind_spec(), step.version@, input.cache_key_spec());
            let held = step.cache.entries();
            &&& held.contains_key(own) ==> cloned(held[own], out) && after.entries == held
                && after.inner == step.inner.memory()
            &&& !held.contains_key(own) ==> step.inner.runs(&input, after.inner, &out)
                && after.entries.contains_key(own) && cloned(out, after.entries[own])
            &&& place != own ==> lookup(after.entries, place) == lookup(held, place)
        }),
{
}

/// What a conversation's content hash is made of: the id and the body of each message,
/// in order.
pub proof fn the_content_is_every_id_and_body(messages: Seq<MessageEnvelopeView>, i: int)
    requires
        0 <= i < messages.len(),
    ensures
        content_texts(messages).len() == 2 * messages.len(),
        content_texts(messages)[2 * i] == messages[i].id,
        content_texts(messages)[2 * i + 1] == messages[i].body,
    decreases messages.len(),
{
    let front = messages.drop_last();
    if front.len() > 0 {
        the_content_is_every_id_and_body(
            front,
            if i < front.len() {
                i
            } else {
                0
            },
        );
    } else {
        assert(content_texts(front) == Seq::<Seq<char>>::empty());
    }
}

/// Whether a conversation has a derivation.
pub open spec fn has_derivation(
    log: Seq<MessageEnvelopeView>,
    stores: ReplayStoresView,
) -> spec_fn(Seq<char>) -> bool {
    |c: Seq<char>| derivation_in(log, stores, c) is Some
}

/// A conversation's derivation.
pub open spec fn the_derivation(
    log: Seq<MessageEnvelopeView>,
    stores: ReplayStoresView,
) -> spec_fn(Seq<char>) -> ConversationDerivationView {
    |c: Seq<char>| derivation_in(log, stores, c)->Some_0
}

/// The derivations of a run are those of its conversations that have one, in order.
pub proof fn every_conversation_is_derived(
    log: Seq<MessageEnvelopeView>,
    stores: ReplayStoresView,
    conversations: Seq<Seq<char>>,
)
    ensures
        derivations_of(log, stores, conversations) == conversations.filter(
            has_derivation(log, stores),
        ).map_values(the_derivation(log, stores)),
    decreases conversations.len(),
{
    lemma_kept(conversations, has_derivation(log, stores), the_derivation(log, stores));
    if conversations.len() > 0 {
        every_conversation_is_derived(log, stores, conversations.drop_last());
    }
}

/// Every derivation is shown as a context, in order.
pub proof fn every_derivation_is_shown<R: Router>(
    derivations: Seq<ConversationDerivationView>,
    version: Seq<char>,
    router: &R,
    i: int,
)
    ensures
        contexts_of(derivations, version, router).len() == derivations.len(),
        0 <= i < derivations.len() ==> contexts_of(derivations, version, router)[i]
            == session_context(derivations[i], version, router),
        0 <= i < derivations.len() ==> context_of(Some(derivations[i]), version, router) == Some(
            session_context(derivations[i], version, router),
        ),
        context_of(None, version, router) is None,
{
}

/// Publishing a run touches no conversation outside the log, and writes nothing but
/// the current derivations.
pub proof fn publishing_keeps_other_entries<C: DerivedOutputCache>(
    before: C,
    after: C,
    log: Seq<MessageEnvelopeView>,
    stores: ReplayStoresView,
    version: Seq<char>,
    place: Triple,
)
    requires
        populated(before, after, log, stores, version, conversations_of(log)),
    ensures
        !conversations_in(log).contains(place.1) ==> lookup(after.entries(), place) == lookup(
            before.entries(),
            place,
        ),
        place.0 != version && after.entries().contains_key(place) ==> lookup(
            after.entries(),
            place,
        ) == lookup(before.entries(), place),
{
    conversations_come_as_first_seen(log);
    assert(conversations_of(log).contains(place.1) <==> conversations_in(log).contains(place.1));
}

/// A migration's batch is one transaction that ends by stamping the version after its
/// step, so each step leaves another version.
pub proof fn a_migration_stamps_its_version(step: Seq<char>, next: nat, current: int, steps: nat)
    ensures
        migration_batch(step, next) == "BEGIN;\n             "@ + step
            + "\n             PRAGMA user_version = "@ + decimal(next) + ";\n             COMMIT;"@,
        0 <= current <= steps ==> first_pending(current, steps) == current,
        current < 0 ==> first_pending(current, steps) == 0,
        current > steps ==> first_pending(current, steps) == steps,
{
}

/// A flag wins over the configuration, and that over the default.
pub proof fn a_flag_wins_over_the_configuration<T>(
    value: T,
    config: Option<T>,
    other: T,
    default: T,
)
    ensures
        preferred(Some(value), config, default) == value,
        preferred(None, Some(other), default) == other,
        preferred(None, None, default) == default,
        given(Some(value), default) == value,
        given(None, default) == default,
{
}

/// A variable wins over the configuration.
pub proof fn a_variable_wins_over_the_configuration(
    value: String,
    max: nat,
    config: Option<nat>,
)
    ensures
        number(Some(value), max, config) == parsed(value@, max),
        number(None, max, config) == config,
        readable(Some(value), max) <==> parsed(value@, max) is Some,
        readable(None, max),
{
}

/// A URL setting wins over `$WORKLANE_URL`, and that over the variable of the backend.
pub proof fn a_url_setting_wins(
    setting: &str,
    general: String,
    backend: String,
    any: Option<String>,
    other: Option<String>,
)
    ensures
        given_url(Some(setting), any, other) == Some(setting@),
        given_url(None, Some(general), other) == Some(general@),
        given_url(None, None, Some(backend)) == Some(backend@),
        given_url(None, None, None) is None,
{
}

/// An append of a known message puts it in that message's place, and leaves every
/// other; an append of a new one puts it at the end.
pub proof fn an_append_replaces_or_adds(
    log: Seq<MessageEnvelopeView>,
    message: MessageEnvelopeView,
    at: int,
)
    requires
        ids_distinct(log),
    ensures
        0 <= at < log.len() && log[at].id == message.id ==> appended(log, message) == log.update(
            at,
            message,
        ),
        (forall|i: int| 0 <= i < log.len() ==> (#[trigger] log[i]).id != message.id) ==> appended(
            log,
            message,
        ) == log.push(message),
        0 <= at < log.len() && log[at].id == message.id ==> message_with(log, message.id) == Some(
            log[at],
        ),
        (forall|i: int| 0 <= i < log.len() ==> (#[trigger] log[i]).id != message.id)
            ==> message_with(log, message.id) is None,
{
    lemma_position(log, message.id);
    if 0 <= at < log.len() && log[at].id == message.id {
        lemma_position_of(log, at);
    }
}

/// Items become messages one for one, in order.
pub proof fn every_item_becomes_a_message(items: Seq<GitHubItemView>, i: int)
    ensures
        item_messages(items).len() == items.len(),
        0 <= i < items.len() ==> item_messages(items)[i] == item_message(items[i]),
{
}

/// A score above the range becomes one, a score below it or no number at all zero, and
/// a score in range stays.
pub proof fn clamping_goes_to_the_nearer_end(value: Double)
    ensures
        ({
            let clamped = value.clamp_unit_spec();
            &&& value.is_nan_spec() ==> clamped.bits == 0
            &&& !value.is_nan_spec() && ordinal(value.bits) > ONE_BITS ==> clamped.bits == ONE_BITS
            &&& !value.is_nan_spec() && ordinal(value.bits) < 0 ==> clamped.bits == 0
            &&& 0 <= ordinal(value.bits) <= ONE_BITS ==> clamped == value
        }),
{
}

/// Whether consecutive projectors each projected the next message, and gave the next
/// projection.
pub open spec fn is_projecting<P: Projector>(
    states: Seq<P>,
    messages: Seq<MessageEnvelope>,
    outs: Seq<Projection>,
) -> bool {
    &&& states.len() == messages.len() + 1
    &&& outs.len() == messages.len()
    &&& forall|i: int|
        0 <= i < messages.len() ==> #[trigger] states[i].runs(
            &messages[i],
            states[i + 1].memory(),
            &outs[i],
        )
}

/// A projector that projects a log runs once on each message, in order, and each run
/// starts with what the one before remembered.
pub proof fn every_message_is_projected_once<P: Projector>(
    before: P,
    messages: Seq<MessageEnvelope>,
    after: P,
    outs: Seq<Projection>,
) -> (states: Seq<P>)
    requires
        projects(before, messages, after, outs),
    ensures
        is_projecting(states, messages, outs),
        states[0] == before,
        states.last() == after,
    decreases messages.len(),
{
    if messages.len() == 0 {
        seq![before]
    } else {
        let between = choose|between: P|
            projects(before, messages.drop_last(), between, outs.drop_last())
                && between.kind_spec() == before.kind_spec() && between.version_spec()
                == before.version_spec() && #[trigger] between.runs(
                &messages.last(),
                after.memory(),
                &outs.last(),
            );
        let front = every_message_is_projected_once(
            before,
            messages.drop_last(),
            between,
            outs.drop_last(),
        );
        let states = front.push(after);
        assert forall|i: int| 0 <= i < messages.len() implies #[trigger] states[i].runs(
            &messages[i],
            states[i + 1].memory(),
            &outs[i],
        ) by {
            if i < messages.len() - 1 {
                assert(front[i].runs(
                    &messages.drop_last()[i],
                    front[i + 1].memory(),
                    &outs.drop_last()[i],
                ));
            } else {
                assert(states[i] == between);
            }
        }
        states
    }
}

/// A replay with a projector that is a function of the message stores, for each message
/// of the log, what the function gives of it.
pub proof fn a_replay_stores_each_projection<
    P: Projector,
    S: ScopeProjector,
    W: WarmupBuilder,
    K: SkillBuilder,
    H: RoutingHinter,
    D: DeveloperSnapshotBuilder,
>(
    before: ProjectionStrategy<P, S, W, K, H, D>,
    after: ProjectionStrategy<P, S, W, K, H, D>,
    log: Seq<MessageEnvelopeView>,
    stores: ReplayStoresView,
    f: spec_fn(MessageEnvelopeView) -> ProjectionView,
    id: Seq<char>,
    last: int,
)
    requires
        is_function::<P>(f),
        before.replays(log, &after, stores),
        -1 <= last < log.len(),
        last >= 0 ==> f(log[last]).message_id == id,
        forall|j: int| last < j < log.len() ==> f(#[trigger] log[j]).message_id != id,
    ensures
        lookup(stores.projections, id) == if last >= 0 {
            Some(f(log[last]))
        } else {
            None
        },
{
    let (m, o) = choose|messages: Seq<MessageEnvelope>, outs: Seq<Projection>|
        views(messages) == log && #[trigger] projects(
            before.projector,
            messages,
            after.projector,
            outs,
        ) && stores == before.derived(log, with_projections(Map::empty(), views(outs)));
    let states = every_message_is_projected_once(before.projector, m, after.projector, o);
    let fresh = views(o);
    assert forall|j: int| 0 <= j < fresh.len() implies #[trigger] fresh[j] == f(log[j]) by {
        assert(states[j].runs(&m[j], states[j + 1].memory(), &o[j]));
        assert(views(m)[j] == m[j]@);
    }
    assert(fresh.len() == log.len());
    assert forall|j: int| last < j < fresh.len() implies (#[trigger] fresh[j]).message_id != id by {
        assert(f(log[j]).message_id != id);
    }
    the_last_projection_is_kept(Map::empty(), fresh, id, last);
}

/// Dispatching goes to the consumer registered for the target, and to no other; where
/// none is registered nothing happens, and that is a success.
pub proof fn dispatching_reaches_one_consumer<C: Consumer>(
    before: ConsumerRegistry<C>,
    after: ConsumerRegistry<C>,
    decision: RoutingDecisionView,
    projection: ProjectionView,
    result: Result<(), ConsumerError>,
    other: ConsumerKind,
)
    requires
        before.dispatches(decision, projection, &after, result),
    ensures
        other != decision.target ==> after.registered(other) == before.registered(other),
        before.registered(decision.target) matches Some(consumer) ==> exists|left: C| #[trigger]
            consumer.consumes(decision, projection, &left, result) && after.registered(
                decision.target,
            ) == Some(left),
        before.registered(decision.target) is None ==> result is Ok && after == before,
{
}

/// Whether consecutive registries each dispatched the next message that was projected,
/// with success.
pub open spec fn is_dispatching<R: Router, C: Consumer>(
    router: &R,
    projections: Map<Seq<char>, ProjectionView>,
    ids: Seq<Seq<char>>,
    states: Seq<ConsumerRegistry<C>>,
) -> bool {
    &&& states.len() == ids.len() + 1
    &&& forall|i: int|
        0 <= i < ids.len() ==> match lookup(projections, #[trigger] ids[i]) {
            Some(projection) => states[i].dispatches(
                router.route_spec(projection).0,
                projection,
                &states[i + 1],
                Ok(()),
            ),
            None => states[i + 1] == states[i],
        }
}

/// A routing run dispatches every requested message that was projected, once and in
/// order, to where its projection routes.
pub proof fn every_message_is_dispatched_once<R: Router, C: Consumer>(
    router: &R,
    projections: Map<Seq<char>, ProjectionView>,
    ids: Seq<Seq<char>>,
    before: ConsumerRegistry<C>,
    after: ConsumerRegistry<C>,
) -> (states: Seq<ConsumerRegistry<C>>)
    requires
        dispatches_all(router, projections, ids, before, after),
    ensures
        is_dispatching(router, projections, ids, states),
        states[0] == before,
        states.last() == after,
    decreases ids.len(),
{
    if ids.len() == 0 {
        seq![before]
    } else {
        let front_ids = ids.drop_last();
        let between = choose|between: ConsumerRegistry<C>|
            dispatches_all(router, projections, front_ids, before, between)
                && #[trigger] dispatches_one(
                router,
                projections,
                ids.last(),
                between,
                after,
                Ok(()),
            );
        let front = every_message_is_dispatched_once(
            router,
            projections,
            front_ids,
            before,
            between,
        );
        let states = front.push(after);
        assert forall|i: int| 0 <= i < ids.len() implies match lookup(
            projections,
            #[trigger] ids[i],
        ) {
            Some(projection) => states[i].dispatches(
                router.route_spec(projection).0,
                projection,
                &states[i + 1],
                Ok(()),
            ),
            None => states[i + 1] == states[i],
        } by {
            if i < front_ids.len() {
                assert(front_ids[i] == ids[i]);
                assert(states[i] == front[i]);
                assert(states[i + 1] == front[i + 1]);
            } else {
                assert(states[i] == between);
                assert(states[i + 1] == after);
            }
        }
        states
    }
}

/// Whether consecutive caches each took the next conversation's derivation, if it has
/// one, and then reclaimed what it supersedes.
pub open spec fn is_publishing<C: DerivedOutputCache>(
    log: Seq<MessageEnvelopeView>,
    stores: ReplayStoresView,
    version: Seq<char>,
    conversations: Seq<Seq<char>>,
    states: Seq<C>,
    written: Seq<C>,
) -> bool {
    &&& states.len() == conversations.len() + 1
    &&& written.len() == conversations.len()
    &&& forall|i: int|
        0 <= i < conversations.len() ==> match derivation_in(
            log,
            stores,
            #[trigger] conversations[i],
        ) {
            Some(derivation) => {
                let content = content_digest(messages_of(log, conversations[i]));
                &&& written[i].entries() == states[i].entries().insert(
                    (version, conversations[i], content),
                    derivation,
                )
                &&& written[i].reclaims(
                    conversations[i],
                    version,
                    content,
                    states[i + 1].entries(),
                )
            },
            None => states[i + 1] == states[i],
        }
}

proof fn lemma_publishing<C: DerivedOutputCache>(
    before: C,
    after: C,
    log: Seq<MessageEnvelopeView>,
    stores: ReplayStoresView,
    version: Seq<char>,
    conversations: Seq<Seq<char>>,
) -> (r: (Seq<C>, Seq<C>))
    requires
        publishes_all(before, after, log, stores, version, conversations),
    ensures
        is_publishing(log, stores, version, conversations, r.0, r.1),
        r.0[0] == before,
        r.0.last() == after,
    decreases conversations.len(),
{
    if conversations.len() == 0 {
        (seq![before], Seq::empty())
    } else {
        let earlier = conversations.drop_last();
        let c = conversations.last();
        let between = choose|between: C|
            publishes_all(before, between, log, stores, version, earlier) && #[trigger] publishes(
                between,
                after,
                log,
                stores,
                version,
                c,
            );
        let front = lemma_publishing(before, between, log, stores, version, earlier);
        let content = content_digest(messages_of(log, c));
        let last = match derivation_in(log, stores, c) {
            Some(derivation) => choose|w: C|
                w.entries() == between.entries().insert((version, c, content), derivation)
                    && #[trigger] w.reclaims(c, version, content, after.entries()),
            None => between,
        };
        let states = front.0.push(after);
        let written = front.1.push(last);
        assert forall|i: int| 0 <= i < conversations.len() implies match derivation_in(
            log,
            stores,
            #[trigger] conversations[i],
        ) {
            Some(derivation) => {
                let content = content_digest(messages_of(log, conversations[i]));
                &&& written[i].entries() == states[i].entries().insert(
                    (version, conversations[i], content),
                    derivation,
                )
                &&& written[i].reclaims(
                    conversations[i],
                    version,
                    content,
                    states[i + 1].entries(),
                )
            },
            None => states[i + 1] == states[i],
        } by {
            if i < earlier.len() {
                assert(earlier[i] == conversations[i]);
                assert(states[i] == front.0[i]);
                assert(states[i + 1] == front.0[i + 1]);
                assert(written[i] == front.1[i]);
            } else {
                assert(states[i] == between);
                assert(states[i + 1] == after);
                assert(written[i] == last);
            }
        }
        (states, written)
    }
}

/// Publishing a run writes each conversation's derivation under its version and content,
/// in first-seen order, and reclaims what that supersedes each time.
pub proof fn every_derivation_is_written_and_reclaimed<C: DerivedOutputCache>(
    before: C,
    after: C,
    log: Seq<MessageEnvelopeView>,
    stores: ReplayStoresView,
    version: Seq<char>,
) -> (r: (Seq<C>, Seq<C>))
    requires
        populated(before, after, log, stores, version, conversations_of(log)),
    ensures
        is_publishing(log, stores, version, conversations_of(log), r.0, r.1),
        r.0[0] == before,
        r.0.last() == after,
{
    lemma_publishing(before, after, log, stores, version, conversations_of(log))
}

/// An unbounded trace store holds the traces of a run, each under its message.
pub proof fn an_unbounded_store_keeps_every_trace<R: Router, U: RoutingTraceStore>(
    router: &R,
    projections: Map<Seq<char>, ProjectionView>,
    before: &U,
    after: &U,
    ids: Seq<Seq<char>>,
    id: Seq<char>,
)
    requires
        traced(router, projections, before, after, ids),
        before.cap() is None,
        forall|x: Seq<char>| #[trigger]
            projections.contains_key(x) ==> router.route_spec(projections[x]).0.message_id == x
                && router.route_spec(projections[x]).1.message_id == x,
    ensures
        lookup(after.records(), id) == if ids.contains(id) && projections.contains_key(id) {
            Some(router.route_spec(projections[id]).1)
        } else {
            lookup(before.records(), id)
        },
{
    a_routing_run_keeps_each_decision(
        router,
        projections,
        Map::empty(),
        before.records(),
        ids,
        id,
    );
}

/// A message is cached by its id and its body.
pub proof fn a_message_is_cached_by_id_and_body(message: &MessageEnvelope)
    ensures
        message.cache_key_spec() == digest(seq![message@.id, message@.body]),
{
}

} // verus!
