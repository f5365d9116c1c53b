//! The strategies a run can select by id.

use super::replay::empty_stores;
use super::replay::ProjectionStrategy;
use super::replay::ReplayStores;
use super::replay::ReplayStoresView;
use super::strategy::Strategy;
use crate::model::message::MessageEnvelope;
use crate::model::message::MessageEnvelopeView;
use crate::model::message_log::MessageStore;
use crate::model::projector::DeveloperSnapshotBuilder;
use crate::model::projector::Projector;
use crate::model::projector::RoutingHinter;
use crate::model::projector::ScopeProjector;
use crate::model::projector::SkillBuilder;
use crate::model::projector::WarmupBuilder;
use crate::model::seqs::views;
use crate::text::cat;
use crate::text::quoted;
use crate::text::to_quoted;
use vstd::hash_map::StringHashMap;
use vstd::prelude::*;

verus! {

impl<
    P: Projector,
    S: ScopeProjector,
    W: WarmupBuilder,
    K: SkillBuilder,
    H: RoutingHinter,
    D: DeveloperSnapshotBuilder,
> Strategy for ProjectionStrategy<P, S, W, K, H, D> {
    type Input = Vec<MessageEnvelope>;

    type Output = ReplayStores;

    open spec fn achieves(
        &self,
        input: &Vec<MessageEnvelope>,
        after: &Self,
        output: &ReplayStores,
    ) -> bool {
        self.replays(views(input@), after, output@)
    }

    fn run(&mut self, input: &Vec<MessageEnvelope>) -> (output: ReplayStores) {
        self.run_phases(input)
    }
}

/// A strategy that composes no step and gives empty stores.
#[derive(Clone, Copy, Debug)]
pub struct EmptyStrategy;

impl Strategy for EmptyStrategy {
    type Input = Vec<MessageEnvelope>;

    type Output = ReplayStores;

    open spec fn achieves(
        &self,
        input: &Vec<MessageEnvelope>,
        after: &Self,
        output: &ReplayStores,
    ) -> bool {
        output@ == empty_stores()
    }

    fn run(&mut self, input: &Vec<MessageEnvelope>) -> (output: ReplayStores) {
        ReplayStores::new()
    }
}

/// The resolved ports a strategy is wired from.
pub type StrategyContext<P, S, W, K, H, D> = ProjectionStrategy<P, S, W, K, H, D>;

/// A strategy over a message log that can be selected at run time: it is wired
/// from a context `X` when it runs.
pub trait ReplayStrategy<X> {
    /// Whether a run over a log, wired from `context`, may leave the context as
    /// `after` and give `stores`.
    open spec fn replays_log(
        &self,
        context: X,
        log: Seq<MessageEnvelopeView>,
        after: X,
        stores: ReplayStoresView,
    ) -> bool {
        true
    }

    /// Runs the strategy over a message log.
    fn run<M: MessageStore>(&self, context: &mut X, log: &M) -> (stores: ReplayStores)
        ensures
            self.replays_log(*old(context), log.log(), *final(context), stores@),
    ;
}

/// The strategies that come with the library.
#[derive(Clone, Copy, Debug, PartialEq, Eq, Structural)]
pub enum BuiltinStrategy {
    /// The reference projection pipeline.
    Projection,
    /// The strategy that derives nothing.
    Empty,
}

impl<
    P: Projector,
    S: ScopeProjector,
    W: WarmupBuilder,
    K: SkillBuilder,
    H: RoutingHinter,
    D: DeveloperSnapshotBuilder,
> ReplayStrategy<StrategyContext<P, S, W, K, H, D>> for BuiltinStrategy {
    open spec fn replays_log(
        &self,
        context: StrategyContext<P, S, W, K, H, D>,
        log: Seq<MessageEnvelopeView>,
        after: StrategyContext<P, S, W, K, H, D>,
        stores: ReplayStoresView,
    ) -> bool {
        match *self {
            BuiltinStrategy::Projection => context.replays(log, &after, stores),
            BuiltinStrategy::Empty => after == context && stores == empty_stores(),
        }
    }

    fn run<M: MessageStore>(&self, context: &mut StrategyContext<P, S, W, K, H, D>, log: &M) -> (
    stores: ReplayStores) {
        match *self {
            BuiltinStrategy::Projection => context.run(log),
            BuiltinStrategy::Empty => {
                let messages: Vec<MessageEnvelope> = Vec::new();
                let mut strategy = EmptyStrategy;
                strategy.run(&messages)
            },
        }
    }
}

/// A requested strategy id that was never registered.
#[derive(Debug, PartialEq, Eq)]
pub struct UnknownStrategy(pub String);

impl View for UnknownStrategy {
    type V = Seq<char>;

    open spec fn view(&self) -> Seq<char> {
        self.0@
    }
}

impl UnknownStrategy {
    /// The error as shown to a user.
    pub fn message(&self) -> (r: String)
        ensures
            r@ == "unknown strategy "@ + quoted(self@),
    {
        cat("unknown strategy ", to_quoted(self.0.as_str()).as_str())
    }
}

/// Maps a strategy id to a strategy.
#[verifier::reject_recursive_types(F)]
pub struct StrategyRegistry<F> {
    strategies: StringHashMap<F>,
}

impl<F> View for StrategyRegistry<F> {
    type V = Map<Seq<char>, F>;

    closed spec fn view(&self) -> Map<Seq<char>, F> {
        self.strategies@
    }
}

/// The built-in strategies by id.
pub open spec fn builtin_strategies() -> Map<Seq<char>, BuiltinStrategy> {
    Map::<Seq<char>, BuiltinStrategy>::empty().insert(
        "projection"@,
        BuiltinStrategy::Projection,
    ).insert("empty"@, BuiltinStrategy::Empty)
}

impl<F> StrategyRegistry<F> {
    /// A registry without strategies.
    pub fn new() -> (r: Self)
        ensures
            r@ == Map::<Seq<char>, F>::empty(),
    {
        StrategyRegistry { strategies: StringHashMap::new() }
    }

    /// Registers a strategy under an id, replacing any prior registration.
    pub fn register(&mut self, id: &str, strategy: F)
        ensures
            final(self)@ == old(self)@.insert(id@, strategy),
    {
        self.strategies.insert(id.to_string(), strategy);
    }

    /// The strategy registered under an id; an unregistered one is an error.
    pub fn build(&self, id: &str) -> (r: Result<&F, UnknownStrategy>)
        ensures
            match r {
                Ok(strategy) => self@.contains_key(id@) && *strategy == self@[id@],
                Err(unknown) => !self@.contains_key(id@) && unknown@ == id@,
            },
    {
        match self.strategies.get(id) {
            Some(strategy) => Ok(strategy),
            None => Err(UnknownStrategy(id.to_string())),
        }
    }
}

impl StrategyRegistry<BuiltinStrategy> {
    /// The id of the default strategy, the reference projection pipeline.
    pub const DEFAULT: &'static str = "projection";

    /// A registry with the built-in strategies: `projection` and `empty`.
    pub fn with_builtins() -> (r: Self)
        ensures
            r@ == builtin_strategies(),
    {
        let mut registry = StrategyRegistry::new();
        registry.register(Self::DEFAULT, BuiltinStrategy::Projection);
        registry.register("empty", BuiltinStrategy::Empty);
        registry
    }
}

impl Default for StrategyRegistry<BuiltinStrategy> {
    fn default() -> (r: Self)
        ensures
            r@ == builtin_strategies(),
    {
        StrategyRegistry::with_builtins()
    }
}

} // verus!
