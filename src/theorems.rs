use vstd::prelude::*;
use crate::counting::{
    count_events, count_in_tx, lemma_count_remove, lemma_in_tx_le_len, EventFilter,
};
use crate::node::{Node, PACKET_PAYLOAD};
use crate::scheduler::{
    earliest_index, initial_state, is_earliest, run, samples, Event, EventType, Scheduler,
    SimState,
};

verus! {

/// A non-empty list of events has an earliest one.
pub proof fn lemma_earliest_exists(events: Seq<Event>)
    requires
        events.len() > 0,
    ensures
        is_earliest(events, earliest_index(events)),
{
    let w = earliest_witness(events);
    assert(is_earliest(events, w));
}

proof fn earliest_witness(events: Seq<Event>) -> (k: int)
    requires
        events.len() > 0,
    ensures
        is_earliest(events, k),
    decreases events.len(),
{
    if events.len() == 1 {
        0
    } else {
        let init = events.drop_last();
        let k0 = earliest_witness(init);
        assert forall|j: int| 0 <= j < init.len() implies init[j] == events[j] by {}
        if events.last().time < events[k0].time {
            events.len() - 1
        } else {
            k0
        }
    }
}

/// Every station in state InTx either waits for its StartTx event or is
/// counted among the active transmitters, so the number of stations in InTx
/// is the active count plus the pending StartTx events, and equals the active
/// count whenever no start is pending. Each step keeps this (see `step`).
pub proof fn lemma_in_tx_matches_active(s: &Scheduler)
    requires
        s.wf(),
    ensures
        count_in_tx(s@.nodes) == s.nodes_in_tx + count_events(
            s@.events,
            EventFilter::OfKind(EventType::StartTx),
        ),
        count_events(s@.events, EventFilter::OfKind(EventType::StartTx)) == 0 ==> count_in_tx(
            s@.nodes,
        ) == s.nodes_in_tx,
{
}

/// Every station's contention window lies within its bounds.
pub proof fn lemma_window_in_bounds(s: &Scheduler)
    requires
        s.wf(),
    ensures
        forall|i: int|
            0 <= i < s@.nodes.len() ==> #[trigger] s@.nodes[i].cw_min <= s@.nodes[i].cw
                <= s@.nodes[i].cw_max,
{
    assert forall|i: int| 0 <= i < s@.nodes.len() implies #[trigger] s@.nodes[i].cw_min
        <= s@.nodes[i].cw <= s@.nodes[i].cw_max by {
        assert(s@.nodes[i].wf());
    }
}

/// A success resets the window to its minimum; a failure keeps it within
/// its bounds.
pub proof fn lemma_window_after_end(n: Node, draw: usize)
    requires
        n.wf(),
    ensures
        n.tx_end_step(true, draw).cw == n.cw_min,
        n.cw_min <= n.tx_end_step(false, draw).cw <= n.cw_max,
{
}

/// A round in which exactly one transmission started ends in success for
/// it; a round in which two or more started ends in failure for each
/// participant, as each of their EndTx events is handled.
pub proof fn lemma_collision_rule(s: &Scheduler, draw: usize)
    requires
        s.wf(),
        s@.dispatches(),
        s@.next_event().event_type == EventType::EndTx,
    ensures
        ({
            let id = s@.next_event().node_id as int;
            let before = s@.nodes[id];
            let after = s@.step(draw).0.nodes[id];
            &&& s.round_starts@ >= 1
            &&& s.round_starts@ == 1 ==> after.num_success == before.num_success + 1
                && after.num_fail == before.num_fail
            &&& s.round_starts@ >= 2 ==> after.num_fail == before.num_fail + 1
                && after.num_success == before.num_success
        }),
{
    lemma_earliest_exists(s@.events);
    let k = earliest_index(s@.events);
    lemma_count_remove(s@.events, k, EventFilter::OfKind(EventType::EndTx));
}

/// Each station's samples are exactly the EndTx events it handled, and its
/// transmitted bits are one payload per success.
pub proof fn lemma_statistics_consistent(s: &Scheduler)
    requires
        s.wf(),
    ensures
        forall|i: int|
            0 <= i < s@.nodes.len() ==> {
                &&& samples(#[trigger] s@.nodes[i]) == s.ends_handled@[i]
                &&& s@.nodes[i].tx_bits == s@.nodes[i].num_success * PACKET_PAYLOAD
            },
{
    assert forall|i: int| 0 <= i < s@.nodes.len() implies {
        &&& samples(#[trigger] s@.nodes[i]) == s.ends_handled@[i]
        &&& s@.nodes[i].tx_bits == s@.nodes[i].num_success * PACKET_PAYLOAD
    } by {
        assert(s@.nodes[i].wf());
    }
}

/// Two runs with the same parameters and the same random draws, for the
/// initial backoffs and for every step, end in the same state, statistics
/// included.
pub proof fn lemma_runs_reproducible(
    a: SimState,
    b: SimState,
    num_nodes: usize,
    use_rts_cts: bool,
    cw_min: usize,
    cw_max: usize,
    init_draws: Seq<usize>,
    step_draws: Seq<usize>,
)
    requires
        a == initial_state(num_nodes, use_rts_cts, cw_min, cw_max, init_draws),
        b == initial_state(num_nodes, use_rts_cts, cw_min, cw_max, init_draws),
    ensures
        run(a, step_draws) == run(b, step_draws),
        forall|i: int|
            0 <= i < num_nodes ==> {
                let x = #[trigger] run(a, step_draws).nodes[i];
                let y = run(b, step_draws).nodes[i];
                (x.num_success, x.num_fail, x.tx_bits) == (y.num_success, y.num_fail, y.tx_bits)
            },
{
}

/// A lone station never collides: every round it takes part in is
/// collision-free, so it never records a failure.
pub proof fn lemma_single_station_never_fails(s: &Scheduler, draw: usize)
    requires
        s.wf(),
        s@.nodes.len() == 1,
        s.tx_success,
        s@.nodes[0].num_fail == 0,
    ensures
        s@.step(draw).0.tx_success,
        s@.step(draw).0.nodes[0].num_fail == 0,
{
    if s@.dispatches() {
        lemma_earliest_exists(s@.events);
        let k = earliest_index(s@.events);
        lemma_count_remove(s@.events, k, EventFilter::OfKind(EventType::StartTx));
        lemma_in_tx_le_len(s@.nodes);
        assert(s@.nodes[0].wf());
    }
}

} // verus!
