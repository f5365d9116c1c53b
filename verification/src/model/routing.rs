//! The routing model: the orchestrator's output edge.

use super::message::MessageId;
use super::projection::Intent;
use super::projection::Projection;
use super::projection::ProjectionView;
use super::skill::ExpertCandidate;
use super::skill::ExpertCandidateView;
use super::seqs::view_of;
use super::seqs::views;
use crate::text::cat;
use vstd::prelude::*;

verus! {

/// Who a projection's context is routed to.
#[derive(Clone, Copy, Debug, PartialEq, Eq, Structural, Hash)]
pub enum ConsumerKind {
    Human,
    Agent,
    WorklaneJob,
    GitHub,
}

/// A rule mapping a projection's intent to a target.
#[derive(Clone, Copy, Debug, PartialEq, Eq, Structural)]
pub struct RoutingRule {
    pub intent: Intent,
    pub target: ConsumerKind,
}

/// Where a projection was routed, and why.
#[derive(Debug, PartialEq, Eq)]
pub struct RoutingDecision {
    pub message_id: MessageId,
    pub target: ConsumerKind,
    pub reason: String,
    pub escalated: bool,
}

/// The contents of a [`RoutingDecision`].
pub struct RoutingDecisionView {
    pub message_id: Seq<char>,
    pub target: ConsumerKind,
    pub reason: Seq<char>,
    pub escalated: bool,
}

impl View for RoutingDecision {
    type V = RoutingDecisionView;

    open spec fn view(&self) -> RoutingDecisionView {
        RoutingDecisionView {
            message_id: self.message_id@,
            target: self.target,
            reason: self.reason@,
            escalated: self.escalated,
        }
    }
}

impl Clone for RoutingDecision {
    fn clone(&self) -> (r: Self)
        ensures
            r@ == self@,
    {
        let r = RoutingDecision {
            message_id: self.message_id.clone(),
            target: self.target,
            reason: self.reason.clone(),
            escalated: self.escalated,
        };
        r
    }
}

/// One step of the rule evaluation.
#[derive(Debug, PartialEq, Eq)]
pub struct EvaluationStep {
    pub rule_name: String,
    pub matched: bool,
    pub resulting_target: Option<ConsumerKind>,
}

/// The contents of a [`EvaluationStep`].
pub struct EvaluationStepView {
    pub rule_name: Seq<char>,
    pub matched: bool,
    pub resulting_target: Option<ConsumerKind>,
}

impl View for EvaluationStep {
    type V = EvaluationStepView;

    open spec fn view(&self) -> EvaluationStepView {
        EvaluationStepView {
            rule_name: self.rule_name@,
            matched: self.matched,
            resulting_target: self.resulting_target,
        }
    }
}

impl Clone for EvaluationStep {
    fn clone(&self) -> (r: Self)
        ensures
            r@ == self@,
    {
        let r = EvaluationStep {
            rule_name: self.rule_name.clone(),
            matched: self.matched,
            resulting_target: self.resulting_target,
        };
        r
    }
}

/// How a routing decision was reached.
#[derive(Debug, PartialEq, Eq)]
pub struct RoutingTrace {
    pub message_id: MessageId,
    pub steps: Vec<EvaluationStep>,
}

/// The contents of a [`RoutingTrace`].
pub struct RoutingTraceView {
    pub message_id: Seq<char>,
    pub steps: Seq<EvaluationStepView>,
}

impl View for RoutingTrace {
    type V = RoutingTraceView;

    open spec fn view(&self) -> RoutingTraceView {
        RoutingTraceView {
            message_id: self.message_id@,
            steps: views(self.steps@),
        }
    }
}

impl Clone for RoutingTrace {
    fn clone(&self) -> (r: Self)
        ensures
            r@ == self@,
    {
        let r = RoutingTrace {
            message_id: self.message_id.clone(),
            steps: self.steps.clone(),
        };
        assert(views(r.steps@) =~= views(self.steps@));
        r
    }
}

/// Who should look at a message, best first, and the one best person to route it to.
#[derive(Debug, PartialEq)]
pub struct RoutingHint {
    pub message_id: MessageId,
    pub reviewers: Vec<ExpertCandidate>,
    pub human_hint: Option<ExpertCandidate>,
}

/// The contents of a [`RoutingHint`].
pub struct RoutingHintView {
    pub message_id: Seq<char>,
    pub reviewers: Seq<ExpertCandidateView>,
    pub human_hint: Option<ExpertCandidateView>,
}

impl View for RoutingHint {
    type V = RoutingHintView;

    open spec fn view(&self) -> RoutingHintView {
        RoutingHintView {
            message_id: self.message_id@,
            reviewers: views(self.reviewers@),
            human_hint: view_of(self.human_hint),
        }
    }
}

impl Clone for RoutingHint {
    fn clone(&self) -> (r: Self)
        ensures
            r@ == self@,
    {
        let r = RoutingHint {
            message_id: self.message_id.clone(),
            reviewers: self.reviewers.clone(),
            human_hint: self.human_hint.clone(),
        };
        assert(views(r.reviewers@) =~= views(self.reviewers@));
        r
    }
}

/// A record that a consumer received a routed message.
#[derive(Debug, PartialEq, Eq, Hash)]
pub struct ConsumerReceipt {
    pub kind: ConsumerKind,
    pub message_id: MessageId,
}

/// The contents of a [`ConsumerReceipt`].
pub struct ConsumerReceiptView {
    pub kind: ConsumerKind,
    pub message_id: Seq<char>,
}

impl View for ConsumerReceipt {
    type V = ConsumerReceiptView;

    open spec fn view(&self) -> ConsumerReceiptView {
        ConsumerReceiptView {
            kind: self.kind,
            message_id: self.message_id@,
        }
    }
}

impl Clone for ConsumerReceipt {
    fn clone(&self) -> (r: Self)
        ensures
            r@ == self@,
    {
        let r = ConsumerReceipt {
            kind: self.kind,
            message_id: self.message_id.clone(),
        };
        r
    }
}

/// A request to route a set of messages.
#[derive(Debug, PartialEq, Eq)]
pub struct RoutingRequest {
    pub messages: Vec<MessageId>,
}

/// The contents of a [`RoutingRequest`].
pub struct RoutingRequestView {
    pub messages: Seq<Seq<char>>,
}

impl View for RoutingRequest {
    type V = RoutingRequestView;

    open spec fn view(&self) -> RoutingRequestView {
        RoutingRequestView {
            messages: views(self.messages@),
        }
    }
}

impl Clone for RoutingRequest {
    fn clone(&self) -> (r: Self)
        ensures
            r@ == self@,
    {
        let r = RoutingRequest {
            messages: self.messages.clone(),
        };
        assert(views(r.messages@) =~= views(self.messages@));
        r
    }
}

/// A request to build routing hints for a set of messages.
#[derive(Debug, PartialEq, Eq)]
pub struct RoutingHintRequest {
    pub messages: Vec<MessageId>,
}

/// The contents of a [`RoutingHintRequest`].
pub struct RoutingHintRequestView {
    pub messages: Seq<Seq<char>>,
}

impl View for RoutingHintRequest {
    type V = RoutingHintRequestView;

    open spec fn view(&self) -> RoutingHintRequestView {
        RoutingHintRequestView {
            messages: views(self.messages@),
        }
    }
}

impl Clone for RoutingHintRequest {
    fn clone(&self) -> (r: Self)
        ensures
            r@ == self@,
    {
        let r = RoutingHintRequest {
            messages: self.messages.clone(),
        };
        assert(views(r.messages@) =~= views(self.messages@));
        r
    }
}

/// An error from a [`Consumer`] while consuming a routed decision.
#[derive(Debug, PartialEq, Eq)]
pub struct ConsumerError(pub String);

impl View for ConsumerError {
    type V = Seq<char>;

    open spec fn view(&self) -> Seq<char> {
        self.0@
    }
}

impl Clone for ConsumerError {
    fn clone(&self) -> (r: Self)
        ensures
            r@ == self@,
    {
        ConsumerError(self.0.clone())
    }
}

impl ConsumerError {
    /// Builds an error from its cause.
    pub fn new(message: &str) -> (r: Self)
        ensures
            r@ == message@,
    {
        ConsumerError(message.to_string())
    }

    /// The error as shown to a user.
    pub fn message(&self) -> (r: String)
        ensures
            r@ == "consumer error: "@ + self@,
    {
        cat("consumer error: ", self.0.as_str())
    }
}

/// A sink for routed context. Dispatch is at-least-once, so a consumer must be
/// idempotent; one that can fail reports the failure rather than hiding it.
pub trait Consumer {
    /// Whether consuming may leave the consumer as `after` and give `result`.
    open spec fn consumes(
        &self,
        decision: RoutingDecisionView,
        projection: ProjectionView,
        after: &Self,
        result: Result<(), ConsumerError>,
    ) -> bool {
        true
    }

    /// Consumes a routed decision.
    fn consume(&mut self, decision: &RoutingDecision, projection: &Projection) -> (r: Result<
        (),
        ConsumerError,
    >)
        ensures
            old(self).consumes(decision@, projection@, final(self), r),
    ;
}

/// Dispatches a decision to the consumer registered for its target. Dispatch to
/// an unregistered target is a successful no-op; a consumer's error propagates.
pub struct ConsumerRegistry<C> {
    human: Option<C>,
    agent: Option<C>,
    worklane_job: Option<C>,
    github: Option<C>,
}

impl<C> ConsumerRegistry<C> {
    /// The consumer registered for a kind.
    pub closed spec fn registered(&self, kind: ConsumerKind) -> Option<C> {
        match kind {
            ConsumerKind::Human => self.human,
            ConsumerKind::Agent => self.agent,
            ConsumerKind::WorklaneJob => self.worklane_job,
            ConsumerKind::GitHub => self.github,
        }
    }

    /// Creates an empty registry.
    pub fn new() -> (r: Self)
        ensures
            forall|kind: ConsumerKind| (#[trigger] r.registered(kind)) is None,
    {
        ConsumerRegistry { human: None, agent: None, worklane_job: None, github: None }
    }

    /// Registers the consumer for a kind, replacing any prior one.
    pub fn register(&mut self, kind: ConsumerKind, consumer: C)
        ensures
            final(self).registered(kind) == Some(consumer),
            forall|other: ConsumerKind|
                other != kind ==> #[trigger] final(self).registered(other) == old(self).registered(
                    other,
                ),
    {
        match kind {
            ConsumerKind::Human => {
                self.human = Some(consumer);
            },
            ConsumerKind::Agent => {
                self.agent = Some(consumer);
            },
            ConsumerKind::WorklaneJob => {
                self.worklane_job = Some(consumer);
            },
            ConsumerKind::GitHub => {
                self.github = Some(consumer);
            },
        }
    }

    /// The consumer for a kind, if one is registered.
    pub fn consumer_for(&self, kind: ConsumerKind) -> (r: Option<&C>)
        ensures
            match r {
                Some(consumer) => self.registered(kind) == Some(*consumer),
                None => self.registered(kind) is None,
            },
    {
        match kind {
            ConsumerKind::Human => self.human.as_ref(),
            ConsumerKind::Agent => self.agent.as_ref(),
            ConsumerKind::WorklaneJob => self.worklane_job.as_ref(),
            ConsumerKind::GitHub => self.github.as_ref(),
        }
    }

    /// Takes the consumer for a kind out of the registry.
    fn take(&mut self, kind: ConsumerKind) -> (r: Option<C>)
        ensures
            r == old(self).registered(kind),
            final(self).registered(kind) is None,
            forall|other: ConsumerKind|
                other != kind ==> #[trigger] final(self).registered(other) == old(self).registered(
                    other,
                ),
            old(self).registered(kind) is None ==> *final(self) == *old(self),
    {
        match kind {
            ConsumerKind::Human => self.human.take(),
            ConsumerKind::Agent => self.agent.take(),
            ConsumerKind::WorklaneJob => self.worklane_job.take(),
            ConsumerKind::GitHub => self.github.take(),
        }
    }
}

impl<C: Consumer> ConsumerRegistry<C> {
    /// Whether dispatching a decision may leave the registry as `after` and give
    /// `result`: the registered consumer of the target consumes it, or nothing
    /// happens.
    pub open spec fn dispatches(
        &self,
        decision: RoutingDecisionView,
        projection: ProjectionView,
        after: &Self,
        result: Result<(), ConsumerError>,
    ) -> bool {
        match self.registered(decision.target) {
            Some(consumer) => {
                &&& exists|left: C| #[trigger]
                    consumer.consumes(decision, projection, &left, result) && after.registered(
                        decision.target,
                    ) == Some(left)
                &&& forall|other: ConsumerKind|
                    other != decision.target ==> #[trigger] after.registered(other)
                        == self.registered(other)
            },
            None => result is Ok && after == self,
        }
    }

    /// Dispatches a decision to its target consumer, if one is registered.
    pub fn dispatch(&mut self, decision: &RoutingDecision, projection: &Projection) -> (r: Result<
        (),
        ConsumerError,
    >)
        ensures
            old(self).dispatches(decision@, projection@, final(self), r),
    {
        match self.take(decision.target) {
            Some(mut consumer) => {
                let ghost before = consumer;
                let r = consumer.consume(decision, projection);
                let ghost left = consumer;
                self.register(decision.target, consumer);
                assert(before.consumes(decision@, projection@, &left, r));
                r
            },
            None => Ok(()),
        }
    }
}

impl<C> Default for ConsumerRegistry<C> {
    fn default() -> (r: Self)
        ensures
            forall|kind: ConsumerKind| (#[trigger] r.registered(kind)) is None,
    {
        ConsumerRegistry::new()
    }
}

} // verus!
