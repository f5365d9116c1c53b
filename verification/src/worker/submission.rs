//! Submitted strategy runs.

use super::derived::populate_cache;
use super::derived::populated;
use super::lane::lane_named;
use super::lane::parse_lane;
use super::registry::BuiltinStrategy;
use super::registry::ReplayStrategy;
use super::registry::StrategyContext;
use super::registry::StrategyRegistry;
use super::registry::UnknownStrategy;
use super::replay::ReplayStoresView;
use crate::model::derivation::composed_version;
use crate::model::derivation::derivation_version;
use crate::model::derivation::DerivedOutputCache;
use crate::model::message_log::conversations_of;
use crate::model::message_log::MessageStore;
use crate::model::projector::DeveloperSnapshotBuilder;
use crate::model::projector::Projector;
use crate::model::projector::RoutingHinter;
use crate::model::projector::ScopeProjector;
use crate::model::projector::SkillBuilder;
use crate::model::projector::WarmupBuilder;
use vstd::prelude::*;
use vstd::utf8::is_ascii_chars;
use vstd::utf8::is_ascii_chars_encode_utf8;

verus! {

/// The lane strategy-run jobs are submitted to and dead-lettered on.
pub const STRATEGY_RUN_LANE: &'static str = "mirrorlane.strategy_run";

/// [`STRATEGY_RUN_LANE`] as a validated lane.
pub fn strategy_run_lane() -> (r: worklane_core::Lane)
    ensures
        r == lane_named("mirrorlane.strategy_run"@),
{
    proof {
        reveal_strlit("mirrorlane.strategy_run");
        assert(is_ascii_chars("mirrorlane.strategy_run"@));
        is_ascii_chars_encode_utf8("mirrorlane.strategy_run"@);
    }
    match parse_lane(STRATEGY_RUN_LANE) {
        Ok(lane) => lane,
        Err(_) => vstd::pervasive::unreached(),
    }
}

/// The payload of a strategy-run submission: the id of the strategy to run.
#[derive(Debug, PartialEq, Eq)]
pub struct StrategyRunRequest {
    pub strategy: String,
}

/// The job a submitted run becomes: it carries the log to run over, the resolved
/// ports, the available strategies and the cache to fill.
#[verifier::reject_recursive_types(F)]
pub struct StrategyRunJob<'a, M, C, F, P, S, W, K, H, D> {
    pub store: &'a M,
    pub context: &'a mut StrategyContext<P, S, W, K, H, D>,
    pub registry: StrategyRegistry<F>,
    pub cache: &'a mut C,
}

impl<
    'a,
    M: MessageStore,
    C: DerivedOutputCache,
    F: ReplayStrategy<StrategyContext<P, S, W, K, H, D>>,
    P: Projector,
    S: ScopeProjector,
    W: WarmupBuilder,
    K: SkillBuilder,
    H: RoutingHinter,
    D: DeveloperSnapshotBuilder,
> StrategyRunJob<'a, M, C, F, P, S, W, K, H, D> {
    /// Builds the job over a log, the resolved ports, the available strategies
    /// and the cache a run fills.
    pub fn new(
        store: &'a M,
        context: &'a mut StrategyContext<P, S, W, K, H, D>,
        registry: StrategyRegistry<F>,
        cache: &'a mut C,
    ) -> (r: Self)
        ensures
            r.store == store,
            *r.context == *old(context),
            *final(r.context) == *final(context),
            r.registry == registry,
            *r.cache == *old(cache),
            *final(r.cache) == *final(cache),
    {
        StrategyRunJob { store, context, registry, cache }
    }

    /// Resolves the strategy, runs it over the log and publishes its output. An
    /// unknown id is an error and changes nothing.
    pub fn run(&mut self, request: &StrategyRunRequest) -> (r: Result<(), UnknownStrategy>)
        ensures
            match r {
                Ok(_) => {
                    &&& old(self).registry@.contains_key(request.strategy@)
                    &&& exists|stores: ReplayStoresView| #[trigger]
                        old(self).registry@[request.strategy@].replays_log(
                            *old(self).context,
                            old(self).store.log(),
                            *final(self).context,
                            stores,
                        ) && populated(
                            *old(self).cache,
                            *final(self).cache,
                            old(self).store.log(),
                            stores,
                            composed_version(
                                request.strategy@,
                                old(self).context.projector.version_spec(),
                            ),
                            conversations_of(old(self).store.log()),
                        )
                },
                Err(unknown) => {
                    &&& !old(self).registry@.contains_key(request.strategy@)
                    &&& unknown@ == request.strategy@
                    &&& *final(self).context == *old(self).context
                    &&& *final(self).cache == *old(self).cache
                },
            },
            final(self).store == old(self).store,
            *final(final(self).context) == *final(old(self).context),
            *final(final(self).cache) == *final(old(self).cache),
    {
        let strategy = match self.registry.build(request.strategy.as_str()) {
            Ok(strategy) => strategy,
            Err(unknown) => {
                return Err(unknown);
            },
        };
        let version = derivation_version(
            request.strategy.as_str(),
            &self.context.projector.version(),
        );
        let stores = strategy.run(self.context, self.store);
        let derivations = populate_cache(self.store, &stores, self.cache, &version);
        assert(strategy.replays_log(
            *old(self).context,
            self.store.log(),
            *self.context,
            stores@,
        ));
        Ok(())
    }
}

impl<
    'a,
    M: MessageStore,
    C: DerivedOutputCache,
    P: Projector,
    S: ScopeProjector,
    W: WarmupBuilder,
    K: SkillBuilder,
    H: RoutingHinter,
    D: DeveloperSnapshotBuilder,
> StrategyRunJob<'a, M, C, BuiltinStrategy, P, S, W, K, H, D> {
    /// Builds the job with the built-in strategies.
    pub fn with_builtins(
        store: &'a M,
        context: &'a mut StrategyContext<P, S, W, K, H, D>,
        cache: &'a mut C,
    ) -> (r: Self)
        ensures
            r.store == store,
            *r.context == *old(context),
            *final(r.context) == *final(context),
            r.registry@ == super::registry::builtin_strategies(),
            *r.cache == *old(cache),
            *final(r.cache) == *final(cache),
    {
        StrategyRunJob { store, context, registry: StrategyRegistry::with_builtins(), cache }
    }
}

} // verus!
