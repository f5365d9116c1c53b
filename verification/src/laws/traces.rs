//! Laws of bounded trace stores: the most recent traces stay.

use crate::model::routing::RoutingTraceView;
use crate::model::seqs::lookup;
use crate::model::store::first_written;
use crate::model::store::order_after;
use crate::model::store::traces_after;
use vstd::prelude::*;

verus! {

/// The trace just written is kept, unless the store is bounded to nothing or, before
/// a write that replaces a trace, held more than it is bounded to.
pub proof fn a_written_trace_is_kept(
    order: Seq<Seq<char>>,
    traces: Map<Seq<char>, RoutingTraceView>,
    trace: RoutingTraceView,
    cap: nat,
)
    requires
        cap > 0,
        !order.contains(trace.message_id) || order.len() <= cap,
    ensures
        lookup(traces_after(order, traces, trace, cap), trace.message_id) == Some(trace),
{
    let after = order_after(order, trace.message_id, cap);
    if !order.contains(trace.message_id) {
        assert(after.last() == trace.message_id);
    }
    assert(after.contains(trace.message_id));
    assert(after.to_set().contains(trace.message_id));
}

/// A write changes no other trace that stays.
pub proof fn a_write_keeps_other_traces(
    order: Seq<Seq<char>>,
    traces: Map<Seq<char>, RoutingTraceView>,
    trace: RoutingTraceView,
    cap: nat,
    id: Seq<char>,
)
    requires
        id != trace.message_id,
        order_after(order, trace.message_id, cap).contains(id),
    ensures
        lookup(traces_after(order, traces, trace, cap), id) == lookup(traces, id),
{
    assert(order_after(order, trace.message_id, cap).to_set().contains(id));
}

/// After a write a bounded store holds no more traces than it is bounded to.
pub proof fn a_bounded_store_fits(
    order: Seq<Seq<char>>,
    traces: Map<Seq<char>, RoutingTraceView>,
    trace: RoutingTraceView,
    cap: nat,
)
    ensures
        order_after(order, trace.message_id, cap).len() <= cap,
        first_written(order, trace.message_id).len() >= cap ==> order_after(
            order,
            trace.message_id,
            cap,
        ).len() == cap,
        traces_after(order, traces, trace, cap).dom().finite(),
        traces_after(order, traces, trace, cap).len() <= cap,
{
    let after = order_after(order, trace.message_id, cap);
    let held = traces_after(order, traces, trace, cap).dom();
    after.lemma_cardinality_of_set();
    vstd::seq_lib::seq_to_set_is_finite(after);
    assert(held.subset_of(after.to_set()));
    vstd::set_lib::lemma_len_subset(held, after.to_set());
}

/// Only older traces go: of two traces, where the older stays the newer does too.
pub proof fn only_older_traces_go(
    order: Seq<Seq<char>>,
    id: Seq<char>,
    cap: nat,
    older: int,
    newer: int,
)
    requires
        order.no_duplicates(),
        0 <= older < newer < first_written(order, id).len(),
        order_after(order, id, cap).contains(first_written(order, id)[older]),
    ensures
        order_after(order, id, cap).contains(first_written(order, id)[newer]),
{
    let wide = first_written(order, id);
    let after = order_after(order, id, cap);
    let k = choose|k: int| 0 <= k < after.len() && after[k] == wide[older];
    let dropped = wide.len() - after.len();
    assert(wide[dropped + k] == wide[older]);
    assert(after[newer - dropped] == wide[newer]);
}

/// Nothing goes as long as all fits.
pub proof fn nothing_goes_while_all_fits(order: Seq<Seq<char>>, id: Seq<char>, cap: nat)
    requires
        first_written(order, id).len() <= cap,
    ensures
        order_after(order, id, cap) == first_written(order, id),
{
}

/// A bounded store's order lists its traces, once each, after a write as before.
pub proof fn the_order_lists_the_traces(
    order: Seq<Seq<char>>,
    traces: Map<Seq<char>, RoutingTraceView>,
    trace: RoutingTraceView,
    cap: nat,
)
    requires
        order.no_duplicates(),
        order.to_set() == traces.dom(),
    ensures
        order_after(order, trace.message_id, cap).no_duplicates(),
        order_after(order, trace.message_id, cap).to_set() == traces_after(
            order,
            traces,
            trace,
            cap,
        ).dom(),
{
    let id = trace.message_id;
    let wide = first_written(order, id);
    let after = order_after(order, id, cap);
    assert(wide.no_duplicates());
    let dropped = wide.len() - after.len();
    assert forall|x: Seq<char>| #[trigger] after.contains(x) implies order.to_set().contains(x)
        || x == id by {
        let k = choose|k: int| 0 <= k < after.len() && after[k] == x;
        assert(wide[dropped + k] == x);
        if dropped + k < order.len() {
            assert(order[dropped + k] == x);
        }
    }
    assert(after.to_set() =~= traces_after(order, traces, trace, cap).dom());
}

} // verus!
