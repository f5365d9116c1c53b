//! A deterministic, rule-based router and a recording consumer.
//!
//! The router maps a projection's intent to a target, escalating to a human when
//! the confidence is below a threshold. The recorder keeps one receipt per kind
//! and message, since dispatch is at-least-once.

use crate::double::two_decimals;
use crate::double::Double;
use crate::model::message::MessageId;
use crate::model::projection::Intent;
use crate::model::projection::Projection;
use crate::model::projection::ProjectionView;
use crate::model::projector::Router;
use crate::model::routing::Consumer;
use crate::model::routing::ConsumerError;
use crate::model::routing::ConsumerKind;
use crate::model::routing::ConsumerReceipt;
use crate::model::routing::ConsumerReceiptView;
use crate::model::routing::EvaluationStep;
use crate::model::routing::EvaluationStepView;
use crate::model::routing::RoutingDecision;
use crate::model::routing::RoutingDecisionView;
use crate::model::routing::RoutingRule;
use crate::model::routing::RoutingTrace;
use crate::model::routing::RoutingTraceView;
use crate::model::seqs::views;
use vstd::prelude::*;

verus! {

/// The pattern of `0.6`, the default escalation threshold.
pub const DEFAULT_ESCALATION_THRESHOLD: u64 = 0x3FE3_3333_3333_3333;

/// The target of the first rule for an intent, else the default one.
pub open spec fn rule_target(
    rules: Seq<RoutingRule>,
    intent: Intent,
    default_target: ConsumerKind,
) -> ConsumerKind
    decreases rules.len(),
{
    if rules.len() == 0 {
        default_target
    } else if rules[0].intent == intent {
        rules[0].target
    } else {
        rule_target(rules.drop_first(), intent, default_target)
    }
}

/// The name of an intent.
pub open spec fn intent_name(intent: Intent) -> Seq<char> {
    match intent {
        Intent::Question => "question"@,
        Intent::Decision => "decision"@,
        Intent::Proposal => "proposal"@,
        Intent::Task => "task"@,
        Intent::Issue => "issue"@,
        Intent::Social => "social"@,
    }
}

/// The name of a target.
pub open spec fn target_name(target: ConsumerKind) -> Seq<char> {
    match target {
        ConsumerKind::Human => "human"@,
        ConsumerKind::Agent => "agent"@,
        ConsumerKind::WorklaneJob => "worklane-job"@,
        ConsumerKind::GitHub => "github"@,
    }
}

/// The rules a router uses unless it is given others.
pub open spec fn default_rule_set() -> Seq<RoutingRule> {
    seq![
        RoutingRule { intent: Intent::Question, target: ConsumerKind::Human },
        RoutingRule { intent: Intent::Decision, target: ConsumerKind::Agent },
        RoutingRule { intent: Intent::Proposal, target: ConsumerKind::GitHub },
        RoutingRule { intent: Intent::Issue, target: ConsumerKind::GitHub },
        RoutingRule { intent: Intent::Task, target: ConsumerKind::WorklaneJob },
        RoutingRule { intent: Intent::Social, target: ConsumerKind::Human },
    ]
}

/// The decision and trace under a rule set, a threshold and a default target.
pub open spec fn rule_route(
    rules: Seq<RoutingRule>,
    threshold: Double,
    default_target: ConsumerKind,
    projection: ProjectionView,
) -> (RoutingDecisionView, RoutingTraceView) {
    let escalated = projection.confidence.less_spec(threshold);
    let target = if escalated {
        ConsumerKind::Human
    } else {
        rule_target(rules, projection.intent, default_target)
    };
    let checked = EvaluationStepView {
        rule_name: "confidence_threshold"@,
        matched: escalated,
        resulting_target: if escalated {
            Some(ConsumerKind::Human)
        } else {
            None
        },
    };
    let routed = EvaluationStepView {
        rule_name: "intent_routing"@,
        matched: true,
        resulting_target: Some(target),
    };
    (
        RoutingDecisionView {
            message_id: projection.message_id,
            target,
            reason: if escalated {
                "confidence "@ + two_decimals(projection.confidence) + " below "@ + two_decimals(
                    threshold,
                ) + " threshold; escalated to human"@
            } else {
                "intent="@ + intent_name(projection.intent) + " routed to "@ + target_name(target)
            },
            escalated,
        },
        RoutingTraceView {
            message_id: projection.message_id,
            steps: if escalated {
                seq![checked]
            } else {
                seq![checked, routed]
            },
        },
    )
}

/// The default rule set.
pub fn default_rules() -> (r: Vec<RoutingRule>)
    ensures
        r@ == default_rule_set(),
{
    let r = vec![
        RoutingRule { intent: Intent::Question, target: ConsumerKind::Human },
        RoutingRule { intent: Intent::Decision, target: ConsumerKind::Agent },
        RoutingRule { intent: Intent::Proposal, target: ConsumerKind::GitHub },
        RoutingRule { intent: Intent::Issue, target: ConsumerKind::GitHub },
        RoutingRule { intent: Intent::Task, target: ConsumerKind::WorklaneJob },
        RoutingRule { intent: Intent::Social, target: ConsumerKind::Human },
    ];
    assert(r@ =~= default_rule_set());
    r
}

/// The name of an intent.
pub fn intent_label(intent: Intent) -> (r: &'static str)
    ensures
        r@ == intent_name(intent),
{
    match intent {
        Intent::Question => "question",
        Intent::Decision => "decision",
        Intent::Proposal => "proposal",
        Intent::Task => "task",
        Intent::Issue => "issue",
        Intent::Social => "social",
    }
}

/// The name of a target.
pub fn target_label(target: ConsumerKind) -> (r: &'static str)
    ensures
        r@ == target_name(target),
{
    match target {
        ConsumerKind::Human => "human",
        ConsumerKind::Agent => "agent",
        ConsumerKind::WorklaneJob => "worklane-job",
        ConsumerKind::GitHub => "github",
    }
}

/// A deterministic [`Router`] driven by a rule set: the first rule whose intent
/// matches selects the target, else the default one does, and a confidence below
/// the threshold escalates to a human.
#[derive(Debug)]
pub struct RuleRouter {
    rules: Vec<RoutingRule>,
    escalation_threshold: Double,
    default_target: ConsumerKind,
}

/// The contents of a [`RuleRouter`].
pub struct RuleRouterView {
    pub rules: Seq<RoutingRule>,
    pub escalation_threshold: Double,
    pub default_target: ConsumerKind,
}

impl View for RuleRouter {
    type V = RuleRouterView;

    closed spec fn view(&self) -> RuleRouterView {
        RuleRouterView {
            rules: self.rules@,
            escalation_threshold: self.escalation_threshold,
            default_target: self.default_target,
        }
    }
}

impl Clone for RuleRouter {
    fn clone(&self) -> (r: Self)
        ensures
            r@ == self@,
    {
        let rules = self.rules.clone();
        assert(rules@ =~= self.rules@);
        RuleRouter {
            rules,
            escalation_threshold: self.escalation_threshold,
            default_target: self.default_target,
        }
    }
}

impl Default for RuleRouter {
    fn default() -> (r: Self)
        ensures
            r@ == (RuleRouterView {
                rules: default_rule_set(),
                escalation_threshold: Double { bits: 0x3FE3_3333_3333_3333 },
                default_target: ConsumerKind::Human,
            }),
    {
        RuleRouter::new()
    }
}

impl RuleRouter {
    /// A router with the default rule set, threshold and default target.
    pub fn new() -> (r: Self)
        ensures
            r@ == (RuleRouterView {
                rules: default_rule_set(),
                escalation_threshold: Double { bits: 0x3FE3_3333_3333_3333 },
                default_target: ConsumerKind::Human,
            }),
    {
        RuleRouter::with_rules(
            default_rules(),
            Double::from_bits(DEFAULT_ESCALATION_THRESHOLD),
            ConsumerKind::Human,
        )
    }

    /// A router over a given rule set, threshold and default target.
    pub fn with_rules(
        rules: Vec<RoutingRule>,
        escalation_threshold: Double,
        default_target: ConsumerKind,
    ) -> (r: Self)
        ensures
            r@ == (RuleRouterView { rules: rules@, escalation_threshold, default_target }),
    {
        RuleRouter { rules, escalation_threshold, default_target }
    }

    /// The target for an intent.
    pub fn target_for(&self, intent: Intent) -> (r: ConsumerKind)
        ensures
            r == rule_target(self@.rules, intent, self@.default_target),
    {
        let ghost all = self.rules@;
        let mut i: usize = 0;
        assert(all.skip(0) =~= all);
        while i < self.rules.len()
            invariant
                i <= self.rules@.len(),
                all == self.rules@,
                rule_target(all, intent, self.default_target) == rule_target(
                    all.skip(i as int),
                    intent,
                    self.default_target,
                ),
            decreases self.rules@.len() - i,
        {
            let rule = self.rules[i];
            let ghost rest = all.skip(i as int);
            assert(rest[0] == rule);
            if rule.intent == intent {
                return rule.target;
            }
            assert(rest.drop_first() =~= all.skip(i + 1));
            i = i + 1;
        }
        self.default_target
    }
}

impl Router for RuleRouter {
    open spec fn route_spec(&self, projection: ProjectionView) -> (
        RoutingDecisionView,
        RoutingTraceView,
    ) {
        rule_route(
            self@.rules,
            self@.escalation_threshold,
            self@.default_target,
            projection,
        )
    }

    fn route(&self, projection: &Projection) -> (r: (RoutingDecision, RoutingTrace)) {
        let confidence = projection.confidence.get();
        let threshold = self.escalation_threshold;
        let escalated = confidence.less(threshold);
        let mut steps: Vec<EvaluationStep> = Vec::new();
        steps.push(
            EvaluationStep {
                rule_name: "confidence_threshold".to_string(),
                matched: escalated,
                resulting_target: if escalated {
                    Some(ConsumerKind::Human)
                } else {
                    None
                },
            },
        );
        if escalated {
            let mut reason = "confidence ".to_string();
            reason.append(confidence.to_two_decimals().as_str());
            reason.append(" below ");
            reason.append(threshold.to_two_decimals().as_str());
            reason.append(" threshold; escalated to human");
            let decision = RoutingDecision {
                message_id: projection.message_id.clone(),
                target: ConsumerKind::Human,
                reason,
                escalated: true,
            };
            let trace = RoutingTrace { message_id: projection.message_id.clone(), steps };
            assert(trace@.steps =~= self.route_spec(projection@).1.steps);
            return (decision, trace);
        }
        let target = self.target_for(projection.intent);
        steps.push(
            EvaluationStep {
                rule_name: "intent_routing".to_string(),
                matched: true,
                resulting_target: Some(target),
            },
        );
        let mut reason = "intent=".to_string();
        reason.append(intent_label(projection.intent));
        reason.append(" routed to ");
        reason.append(target_label(target));
        let decision = RoutingDecision {
            message_id: projection.message_id.clone(),
            target,
            reason,
            escalated: false,
        };
        let trace = RoutingTrace { message_id: projection.message_id.clone(), steps };
        assert(trace@.steps =~= self.route_spec(projection@).1.steps);
        (decision, trace)
    }
}

/// A [`Consumer`] that records what it received, once per kind and message.
#[derive(Debug)]
pub struct RecordingConsumer {
    receipts: Vec<ConsumerReceipt>,
}

impl View for RecordingConsumer {
    type V = Set<ConsumerReceiptView>;

    closed spec fn view(&self) -> Set<ConsumerReceiptView> {
        views(self.receipts@).to_set()
    }
}

impl RecordingConsumer {
    #[verifier::type_invariant]
    closed spec fn distinct(self) -> bool {
        views(self.receipts@).no_duplicates()
    }

    /// Creates an empty recording consumer.
    pub fn new() -> (r: Self)
        ensures
            r@ == Set::<ConsumerReceiptView>::empty(),
    {
        let r = RecordingConsumer { receipts: Vec::new() };
        assert(r@ =~= Set::<ConsumerReceiptView>::empty());
        r
    }

    /// The number of distinct receipts recorded.
    pub fn len(&self) -> (r: usize)
        ensures
            r == self@.len(),
    {
        proof {
            use_type_invariant(self);
            views(self.receipts@).unique_seq_to_set();
        }
        self.receipts.len()
    }

    /// Whether nothing has been recorded.
    pub fn is_empty(&self) -> (r: bool)
        ensures
            r == (self@ == Set::<ConsumerReceiptView>::empty()),
    {
        proof {
            let all = views(self.receipts@);
            if all.len() == 0 {
                assert(all.to_set() =~= Set::<ConsumerReceiptView>::empty());
            } else {
                assert(all.contains(all[0]));
                assert(all.to_set().contains(all[0]));
            }
        }
        self.receipts.len() == 0
    }

    /// Whether a message was received under a kind.
    pub fn received(&self, kind: ConsumerKind, message_id: &MessageId) -> (r: bool)
        ensures
            r == self@.contains(ConsumerReceiptView { kind, message_id: message_id@ }),
    {
        let ghost all = views(self.receipts@);
        let ghost sought = ConsumerReceiptView { kind, message_id: message_id@ };
        let mut i: usize = 0;
        while i < self.receipts.len()
            invariant
                i <= self.receipts@.len(),
                all == views(self.receipts@),
                sought == (ConsumerReceiptView { kind, message_id: message_id@ }),
                forall|j: int| 0 <= j < i ==> #[trigger] all[j] != sought,
            decreases self.receipts@.len() - i,
        {
            assert(all[i as int] == self.receipts@[i as int]@);
            if self.receipts[i].kind == kind && self.receipts[i].message_id.0 == message_id.0 {
                assert(all.contains(sought));
                return true;
            }
            i = i + 1;
        }
        false
    }
}

impl Default for RecordingConsumer {
    fn default() -> (r: Self)
        ensures
            r@ == Set::<ConsumerReceiptView>::empty(),
    {
        RecordingConsumer::new()
    }
}

impl Consumer for RecordingConsumer {
    open spec fn consumes(
        &self,
        decision: RoutingDecisionView,
        projection: ProjectionView,
        after: &Self,
        result: Result<(), ConsumerError>,
    ) -> bool {
        &&& result is Ok
        &&& after@ == self@.insert(
            ConsumerReceiptView { kind: decision.target, message_id: decision.message_id },
        )
    }

    fn consume(&mut self, decision: &RoutingDecision, projection: &Projection) -> (r: Result<
        (),
        ConsumerError,
    >) {
        let ghost before = self@;
        let ghost all = views(self.receipts@);
        let ghost fresh = ConsumerReceiptView {
            kind: decision.target,
            message_id: decision.message_id@,
        };
        if self.received(decision.target, &decision.message_id) {
            assert(before.insert(fresh) =~= before);
            return Ok(());
        }
        proof {
            use_type_invariant(&*self);
            assert(!all.contains(fresh)) by {
                assert(all.to_set().contains(fresh) == all.contains(fresh));
            }
        }
        let mut receipts: Vec<ConsumerReceipt> = Vec::new();
        std::mem::swap(&mut self.receipts, &mut receipts);
        receipts.push(
            ConsumerReceipt { kind: decision.target, message_id: decision.message_id.clone() },
        );
        proof {
            assert(views(receipts@) =~= all.push(fresh));
            assert(views(receipts@).no_duplicates());
            assert forall|x: ConsumerReceiptView| views(receipts@).to_set().contains(x)
                <==> before.insert(fresh).contains(x) by {
                let w = all.push(fresh);
                if w.contains(x) {
                    let k = choose|k: int| 0 <= k < w.len() && w[k] == x;
                    if k < all.len() {
                        assert(all[k] == x);
                        assert(all.contains(x));
                    }
                }
                if all.contains(x) {
                    let k = choose|k: int| 0 <= k < all.len() && all[k] == x;
                    assert(w[k] == x);
                }
                assert(w[all.len() as int] == fresh);
            }
            assert(views(receipts@).to_set() =~= before.insert(fresh));
        }
        self.receipts = receipts;
        Ok(())
    }
}

} // verus!
