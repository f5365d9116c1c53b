//! The projection model: the structured interpretation of a message.

use super::message::MessageId;
use super::seqs::views;
use crate::double::Double;
use vstd::prelude::*;

verus! {

/// What a message is trying to do.
#[derive(Clone, Copy, Debug, PartialEq, Eq, Structural)]
pub enum Intent {
    Question,
    Decision,
    Proposal,
    Task,
    Issue,
    Social,
}

/// A topic a message touches, such as `rust` or `auth`.
#[derive(Debug, PartialEq, Eq, Hash)]
pub struct Topic(pub String);

impl View for Topic {
    type V = Seq<char>;

    open spec fn view(&self) -> Seq<char> {
        self.0@
    }
}

impl Clone for Topic {
    fn clone(&self) -> (r: Self)
        ensures
            r@ == self@,
    {
        Topic(self.0.clone())
    }
}

/// A concrete entity a message refers to, such as `postgres`.
#[derive(Debug, PartialEq, Eq, Hash)]
pub struct Entity(pub String);

impl View for Entity {
    type V = Seq<char>;

    open spec fn view(&self) -> Seq<char> {
        self.0@
    }
}

impl Clone for Entity {
    fn clone(&self) -> (r: Self)
        ensures
            r@ == self@,
    {
        Entity(self.0.clone())
    }
}

/// A confidence constrained to `0.0..=1.0`.
///
/// Construction clamps into range, so an out-of-range value cannot exist.
#[derive(Clone, Copy, Debug, PartialEq)]
pub struct Confidence {
    value: Double,
}

impl View for Confidence {
    type V = Double;

    closed spec fn view(&self) -> Double {
        self.value
    }
}

impl Confidence {
    /// Every value lies in `0.0..=1.0`.
    #[verifier::type_invariant]
    closed spec fn in_range(self) -> bool {
        self.value.in_unit()
    }

    /// Clamps the value into `0.0..=1.0`; what is not a number becomes `0.0`.
    pub fn new(value: Double) -> (r: Self)
        ensures
            r@ == value.clamp_unit_spec(),
            r@.in_unit(),
    {
        Confidence { value: value.clamp_unit() }
    }

    /// The underlying score.
    pub fn get(self) -> (r: Double)
        ensures
            r == self@,
            r.in_unit(),
    {
        proof {
            use_type_invariant(&self);
        }
        self.value
    }
}

impl From<Double> for Confidence {
    fn from(value: Double) -> (r: Self)
        ensures
            r@ == value.clamp_unit_spec(),
    {
        Confidence::new(value)
    }
}

impl vstd::std_specs::convert::FromSpecImpl<Double> for Confidence {
    open spec fn obeys_from_spec() -> bool {
        true
    }

    closed spec fn from_spec(v: Double) -> Self {
        Confidence { value: v.clamp_unit_spec() }
    }
}

/// The structured interpretation of a message, keyed by its [`MessageId`].
#[derive(Debug, PartialEq)]
pub struct Projection {
    pub message_id: MessageId,
    pub intent: Intent,
    pub topics: Vec<Topic>,
    pub entities: Vec<Entity>,
    pub confidence: Confidence,
}

/// The contents of a [`Projection`].
pub struct ProjectionView {
    pub message_id: Seq<char>,
    pub intent: Intent,
    pub topics: Seq<Seq<char>>,
    pub entities: Seq<Seq<char>>,
    pub confidence: Double,
}

impl View for Projection {
    type V = ProjectionView;

    open spec fn view(&self) -> ProjectionView {
        ProjectionView {
            message_id: self.message_id@,
            intent: self.intent,
            topics: views(self.topics@),
            entities: views(self.entities@),
            confidence: self.confidence@,
        }
    }
}

impl Clone for Projection {
    fn clone(&self) -> (r: Self)
        ensures
            r@ == self@,
    {
        let r = Projection {
            message_id: self.message_id.clone(),
            intent: self.intent,
            topics: self.topics.clone(),
            entities: self.entities.clone(),
            confidence: self.confidence,
        };
        assert(views(r.topics@) =~= views(self.topics@));
        assert(views(r.entities@) =~= views(self.entities@));
        r
    }
}

} // verus!
