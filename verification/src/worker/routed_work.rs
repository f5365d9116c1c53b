//! Routed work: what a projection routed to a job becomes.

use super::lane::lane_named;
use super::lane::parse_lane;
use crate::model::message::MessageId;
use crate::model::projection::Projection;
use crate::model::projection::ProjectionView;
use crate::model::routing::RoutingDecision;
use crate::text::cat3;
use vstd::prelude::*;
use vstd::utf8::is_ascii_chars;
use vstd::utf8::is_ascii_chars_encode_utf8;

verus! {

/// The lane routed-work jobs are enqueued to and dead-lettered on.
pub const ROUTED_WORK_LANE: &'static str = "mirrorlane.routed_work";

/// [`ROUTED_WORK_LANE`] as a validated lane.
pub fn routed_work_lane() -> (r: worklane_core::Lane)
    ensures
        r == lane_named("mirrorlane.routed_work"@),
{
    proof {
        reveal_strlit("mirrorlane.routed_work");
        assert(is_ascii_chars("mirrorlane.routed_work"@));
        is_ascii_chars_encode_utf8("mirrorlane.routed_work"@);
    }
    match parse_lane(ROUTED_WORK_LANE) {
        Ok(lane) => lane,
        Err(_) => vstd::pervasive::unreached(),
    }
}

/// The payload of a routed-work job: the message and its projection, so that the job
/// carries its own context.
#[derive(Debug, PartialEq)]
pub struct RoutedWorkPayload {
    pub message_id: MessageId,
    pub projection: Projection,
}

/// The contents of a [`RoutedWorkPayload`].
pub struct RoutedWorkPayloadView {
    pub message_id: Seq<char>,
    pub projection: ProjectionView,
}

impl View for RoutedWorkPayload {
    type V = RoutedWorkPayloadView;

    open spec fn view(&self) -> RoutedWorkPayloadView {
        RoutedWorkPayloadView {
            message_id: self.message_id@,
            projection: self.projection@,
        }
    }
}

impl Clone for RoutedWorkPayload {
    fn clone(&self) -> (r: Self)
        ensures
            r@ == self@,
    {
        let r = RoutedWorkPayload {
            message_id: self.message_id.clone(),
            projection: self.projection.clone(),
        };
        r
    }
}

/// The typed job a routed projection becomes. It owns the enqueue edge only: its
/// handler does nothing.
#[derive(Clone, Copy, Debug)]
pub struct RoutedWork;

/// The uniqueness key of a routed message.
pub open spec fn routed_work_key(message_id: Seq<char>) -> Seq<char> {
    "mirrorlane.routed_work"@ + ":"@ + message_id
}

/// The uniqueness key a routed message enqueues under, fixed by the message id.
pub fn unique_key(message_id: &MessageId) -> (r: String)
    ensures
        r@ == routed_work_key(message_id@),
{
    cat3(ROUTED_WORK_LANE, ":", message_id.0.as_str())
}

/// Different messages have different keys.
pub proof fn lemma_unique_key_injective(a: Seq<char>, b: Seq<char>)
    requires
        routed_work_key(a) == routed_work_key(b),
    ensures
        a == b,
{
    let prefix = "mirrorlane.routed_work"@ + ":"@;
    let n = prefix.len() as int;
    assert(a =~= routed_work_key(a).subrange(n, routed_work_key(a).len() as int));
    assert(b =~= routed_work_key(b).subrange(n, routed_work_key(b).len() as int));
}

impl RoutedWork {
    /// What to enqueue for a routed decision: the uniqueness key and the payload.
    pub fn enqueue_request(decision: &RoutingDecision, projection: &Projection) -> (r: (
        String,
        RoutedWorkPayload,
    ))
        ensures
            r.0@ == routed_work_key(decision@.message_id),
            r.1@ == (RoutedWorkPayloadView {
                message_id: decision@.message_id,
                projection: projection@,
            }),
    {
        (
            unique_key(&decision.message_id),
            RoutedWorkPayload {
                message_id: decision.message_id.clone(),
                projection: projection.clone(),
            },
        )
    }
}

} // verus!
