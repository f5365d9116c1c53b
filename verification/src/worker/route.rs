//! The routing job: a separate dispatch path that a replay never runs.

use crate::model::message::MessageId;
use crate::model::projection::Projection;
use crate::model::projection::ProjectionView;
use crate::model::projector::Router;
use crate::model::routing::Consumer;
use crate::model::routing::ConsumerError;
use crate::model::routing::ConsumerRegistry;
use crate::model::routing::RoutingDecision;
use crate::model::routing::RoutingDecisionView;
use crate::model::routing::RoutingRequest;
use crate::model::routing::RoutingTraceView;
use crate::model::seqs::lookup;
use crate::model::seqs::views;
use crate::model::store::order_after;
use crate::model::store::traces_after;
use crate::model::store::ProjectionStore;
use crate::model::store::RoutingStore;
use crate::model::store::RoutingTraceStore;
use vstd::prelude::*;

verus! {

/// The decisions of the given messages upserted one after the other.
pub open spec fn with_routes<R: Router>(
    router: &R,
    projections: Map<Seq<char>, ProjectionView>,
    routes: Map<Seq<char>, RoutingDecisionView>,
    ids: Seq<Seq<char>>,
) -> Map<Seq<char>, RoutingDecisionView>
    decreases ids.len(),
{
    if ids.len() == 0 {
        routes
    } else {
        let before = with_routes(router, projections, routes, ids.drop_last());
        match lookup(projections, ids.last()) {
            Some(projection) => {
                let decision = router.route_spec(projection).0;
                before.insert(decision.message_id, decision)
            },
            None => before,
        }
    }
}

/// The traces of the given messages upserted one after the other.
pub open spec fn with_traces<R: Router>(
    router: &R,
    projections: Map<Seq<char>, ProjectionView>,
    traces: Map<Seq<char>, RoutingTraceView>,
    ids: Seq<Seq<char>>,
) -> Map<Seq<char>, RoutingTraceView>
    decreases ids.len(),
{
    if ids.len() == 0 {
        traces
    } else {
        let before = with_traces(router, projections, traces, ids.drop_last());
        match lookup(projections, ids.last()) {
            Some(projection) => {
                let trace = router.route_spec(projection).1;
                before.insert(trace.message_id, trace)
            },
            None => before,
        }
    }
}

/// A bounded trace store's contents: its ids by their first write, and its traces.
pub struct BoundedTraces {
    pub order: Seq<Seq<char>>,
    pub records: Map<Seq<char>, RoutingTraceView>,
}

/// The traces of the given messages upserted one after the other into a store
/// bounded to `cap`.
pub open spec fn with_bounded_traces<R: Router>(
    router: &R,
    projections: Map<Seq<char>, ProjectionView>,
    traces: BoundedTraces,
    cap: nat,
    ids: Seq<Seq<char>>,
) -> BoundedTraces
    decreases ids.len(),
{
    if ids.len() == 0 {
        traces
    } else {
        let before = with_bounded_traces(router, projections, traces, cap, ids.drop_last());
        match lookup(projections, ids.last()) {
            Some(projection) => {
                let trace = router.route_spec(projection).1;
                BoundedTraces {
                    order: order_after(before.order, trace.message_id, cap),
                    records: traces_after(before.order, before.records, trace, cap),
                }
            },
            None => before,
        }
    }
}

/// Whether a trace store, once `before`, now holds the traces of the given messages
/// upserted one after the other.
pub open spec fn traced<R: Router, U: RoutingTraceStore>(
    router: &R,
    projections: Map<Seq<char>, ProjectionView>,
    before: &U,
    after: &U,
    ids: Seq<Seq<char>>,
) -> bool {
    &&& after.cap() == before.cap()
    &&& match before.cap() {
        Some(cap) => (BoundedTraces { order: after.order(), records: after.records() })
            == with_bounded_traces(
            router,
            projections,
            BoundedTraces { order: before.order(), records: before.records() },
            cap,
            ids,
        ),
        None => after.records() == with_traces(router, projections, before.records(), ids),
    }
}

/// Whether dispatching one message may take the registry from `before` to `after`
/// with the given result. A message without a projection dispatches nothing.
pub open spec fn dispatches_one<R: Router, C: Consumer>(
    router: &R,
    projections: Map<Seq<char>, ProjectionView>,
    id: Seq<char>,
    before: ConsumerRegistry<C>,
    after: ConsumerRegistry<C>,
    result: Result<(), ConsumerError>,
) -> bool {
    match lookup(projections, id) {
        Some(projection) => before.dispatches(
            router.route_spec(projection).0,
            projection,
            &after,
            result,
        ),
        None => after == before && result is Ok,
    }
}

/// Whether dispatching the messages in order, each with success, may take the
/// registry from `before` to `after`.
pub open spec fn dispatches_all<R: Router, C: Consumer>(
    router: &R,
    projections: Map<Seq<char>, ProjectionView>,
    ids: Seq<Seq<char>>,
    before: ConsumerRegistry<C>,
    after: ConsumerRegistry<C>,
) -> bool
    decreases ids.len(),
{
    if ids.len() == 0 {
        after == before
    } else {
        exists|between: ConsumerRegistry<C>|
            dispatches_all(router, projections, ids.drop_last(), before, between)
                && #[trigger] dispatches_one(
                router,
                projections,
                ids.last(),
                between,
                after,
                Ok(()),
            )
    }
}

/// Routes each requested message's projection and dispatches it.
pub struct RouteJob<'a, P, R, T, U, C> {
    /// Where projections are read.
    pub projections: &'a P,
    /// The router.
    pub router: &'a R,
    /// Where decisions go.
    pub routes: &'a mut T,
    /// Where traces go.
    pub traces: &'a mut U,
    /// The consumers to dispatch to.
    pub consumers: &'a mut ConsumerRegistry<C>,
}

impl<
    'a,
    P: ProjectionStore,
    R: Router,
    T: RoutingStore,
    U: RoutingTraceStore,
    C,
> RouteJob<'a, P, R, T, U, C> {
    /// Builds the job from the projection store, a router, a routing store, a
    /// trace store and a consumer registry.
    pub fn new(
        projections: &'a P,
        router: &'a R,
        routes: &'a mut T,
        traces: &'a mut U,
        consumers: &'a mut ConsumerRegistry<C>,
    ) -> (r: Self)
        ensures
            r.projections == projections,
            r.router == router,
            *r.routes == *old(routes),
            *final(r.routes) == *final(routes),
            *r.traces == *old(traces),
            *final(r.traces) == *final(traces),
            *r.consumers == *old(consumers),
            *final(r.consumers) == *final(consumers),
    {
        RouteJob { projections, router, routes, traces, consumers }
    }

    /// Decides one message: records its decision and trace, and gives what is to
    /// be dispatched. A message without a stored projection is skipped.
    pub fn decide(&mut self, id: &MessageId) -> (r: Option<(RoutingDecision, Projection)>)
        ensures
            match (r, lookup(old(self).projections.records(), id@)) {
                (Some(work), Some(projection)) => {
                    let routed = old(self).router.route_spec(projection);
                    &&& work.0@ == routed.0
                    &&& work.1@ == projection
                    &&& final(self).routes.records() == old(self).routes.records().insert(
                        routed.0.message_id,
                        routed.0,
                    )
                    &&& final(self).traces.cap() == old(self).traces.cap()
                    &&& match old(self).traces.cap() {
                        Some(cap) => {
                            &&& final(self).traces.order() == order_after(
                                old(self).traces.order(),
                                routed.1.message_id,
                                cap,
                            )
                            &&& final(self).traces.records() == traces_after(
                                old(self).traces.order(),
                                old(self).traces.records(),
                                routed.1,
                                cap,
                            )
                        },
                        None => final(self).traces.records() == old(self).traces.records().insert(
                            routed.1.message_id,
                            routed.1,
                        ),
                    }
                },
                (None, None) => {
                    &&& *final(self).routes == *old(self).routes
                    &&& *final(self).traces == *old(self).traces
                },
                _ => false,
            },
            final(self).projections == old(self).projections,
            final(self).router == old(self).router,
            *final(self).consumers == *old(self).consumers,
            *final(final(self).routes) == *final(old(self).routes),
            *final(final(self).traces) == *final(old(self).traces),
            *final(final(self).consumers) == *final(old(self).consumers),
    {
        match self.projections.get(id) {
            Some(projection) => {
                let (decision, trace) = self.router.route(&projection);
                self.traces.upsert(trace);
                self.routes.upsert(decision.clone());
                Some((decision, projection))
            },
            None => None,
        }
    }
}

impl<
    'a,
    P: ProjectionStore,
    R: Router,
    T: RoutingStore,
    U: RoutingTraceStore,
    C: Consumer,
> RouteJob<'a, P, R, T, U, C> {
    /// Routes and dispatches the requested messages in order, stopping at the
    /// first consumer that fails. Whatever was decided by then is recorded, and
    /// recording is by message id, so a retry duplicates no decision.
    pub fn run(&mut self, request: &RoutingRequest) -> (r: Result<(), ConsumerError>)
        ensures
            match r {
                Ok(_) => {
                    &&& final(self).routes.records() == with_routes(
                        old(self).router,
                        old(self).projections.records(),
                        old(self).routes.records(),
                        request@.messages,
                    )
                    &&& traced(
                        old(self).router,
                        old(self).projections.records(),
                        old(self).traces,
                        final(self).traces,
                        request@.messages,
                    )
                    &&& dispatches_all(
                        old(self).router,
                        old(self).projections.records(),
                        request@.messages,
                        *old(self).consumers,
                        *final(self).consumers,
                    )
                },
                Err(_) => exists|n: int, between: ConsumerRegistry<C>|
                    0 <= n < request@.messages.len() && #[trigger] dispatches_one(
                        old(self).router,
                        old(self).projections.records(),
                        request@.messages[n],
                        between,
                        *final(self).consumers,
                        r,
                    ) && dispatches_all(
                        old(self).router,
                        old(self).projections.records(),
                        request@.messages.take(n),
                        *old(self).consumers,
                        between,
                    ) && final(self).routes.records() == with_routes(
                        old(self).router,
                        old(self).projections.records(),
                        old(self).routes.records(),
                        request@.messages.take(n + 1),
                    ) && traced(
                        old(self).router,
                        old(self).projections.records(),
                        old(self).traces,
                        final(self).traces,
                        request@.messages.take(n + 1),
                    ),
            },
            final(self).projections == old(self).projections,
            final(self).router == old(self).router,
            *final(final(self).routes) == *final(old(self).routes),
            *final(final(self).traces) == *final(old(self).traces),
            *final(final(self).consumers) == *final(old(self).consumers),
    {
        let ghost all = request@.messages;
        let ghost p = self.projections.records();
        let ghost routes = self.routes.records();
        let ghost start = *self.consumers;
        let mut i: usize = 0;
        while i < request.messages.len()
            invariant
                i <= request.messages@.len(),
                all == views(request.messages@),
                p == self.projections.records(),
                self.projections == old(self).projections,
                self.router == old(self).router,
                self.routes.records() == with_routes(self.router, p, routes, all.take(i as int)),
                traced(self.router, p, old(self).traces, self.traces, all.take(i as int)),
                dispatches_all(self.router, p, all.take(i as int), start, *self.consumers),
                p == old(self).projections.records(),
                routes == old(self).routes.records(),
                start == *old(self).consumers,
                *final(self.routes) == *final(old(self).routes),
                *final(self.traces) == *final(old(self).traces),
                *final(self.consumers) == *final(old(self).consumers),
            decreases request.messages@.len() - i,
        {
            let ghost next = all.take(i + 1);
            let ghost between = *self.consumers;
            proof {
                assert(next.drop_last() =~= all.take(i as int));
                assert(next.last() == request.messages@[i as int]@);
            }
            let work = self.decide(&request.messages[i]);
            assert(traced(self.router, p, old(self).traces, self.traces, next));
            match work {
                Some((decision, projection)) => {
                    match self.consumers.dispatch(&decision, &projection) {
                        Ok(unit) => {
                            assert(unit == ());
                        },
                        Err(e) => {
                            let r = Err(e);
                            proof {
                                let n = i as int;
                                assert(dispatches_one(
                                    self.router,
                                    p,
                                    all[n],
                                    between,
                                    *self.consumers,
                                    r,
                                ));
                                assert(request@.messages[n] == all[n]);
                                assert(self.routes.records() == with_routes(
                                    self.router,
                                    p,
                                    routes,
                                    request@.messages.take(n + 1),
                                ));
                                assert(traced(
                                    self.router,
                                    p,
                                    old(self).traces,
                                    self.traces,
                                    request@.messages.take(n + 1),
                                ));
                                assert(dispatches_all(
                                    self.router,
                                    p,
                                    request@.messages.take(n),
                                    start,
                                    between,
                                ));
                            }
                            return r;
                        },
                    }
                },
                None => {},
            }
            assert(dispatches_one(self.router, p, next.last(), between, *self.consumers, Ok(())));
            i = i + 1;
        }
        assert(all.take(i as int) =~= all);
        Ok(())
    }
}

} // verus!
