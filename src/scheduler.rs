use vstd::prelude::*;
use crate::counting::{
    count_events, count_in_tx, ind, lemma_count_append_none, lemma_count_le_len,
    lemma_count_push, lemma_count_remove, lemma_in_tx_le_len, lemma_in_tx_none, lemma_in_tx_same,
    lemma_in_tx_update, EventFilter,
};
use crate::node::{
    free_delay, random_draw, Node, NodeStateType, Violation, PACKET_PAYLOAD, TIME_HORIZON,
};

verus! {

/// What a pending event asks its station to do.
#[derive(Clone, Copy, PartialEq, Eq, Structural, Debug)]
pub enum EventType {
    DecrementBackoff,
    StartTx,
    EndTx,
}

impl EventType {
    /// Human-readable name of the event kind.
    pub fn as_str(&self) -> (r: &'static str)
        ensures
            r@ == self.label(),
    {
        match self {
            EventType::DecrementBackoff => "Decrement Backoff",
            EventType::StartTx => "Start TX",
            EventType::EndTx => "End TX",
        }
    }

    pub open spec fn label(self) -> Seq<char> {
        match self {
            EventType::DecrementBackoff => "Decrement Backoff"@,
            EventType::StartTx => "Start TX"@,
            EventType::EndTx => "End TX"@,
        }
    }
}

/// An immutable record: which station, what to do, and when (in simulated
/// microseconds).
#[derive(Clone, Copy, PartialEq, Eq, Structural, Debug)]
pub struct Event {
    pub event_type: EventType,
    pub node_id: usize,
    pub time: u64,
}

impl Event {
    pub fn new(event_type: EventType, node_id: usize, time: u64) -> (r: Event)
        ensures
            r == (Event { event_type, node_id, time }),
    {
        Event { event_type, node_id, time }
    }

    pub fn get_node_id(&self) -> (r: usize)
        ensures
            r == self.node_id,
    {
        self.node_id
    }

    pub fn get_time(&self) -> (r: u64)
        ensures
            r == self.time,
    {
        self.time
    }

    pub fn get_event_type(&self) -> (r: EventType)
        ensures
            r == self.event_type,
    {
        self.event_type
    }
}

/// Samples (finished transmissions) a station must exceed to stop the run.
pub const NUM_STATISTICS: usize = 10000;
/// Time of every station's first backoff tick.
pub const START_TIME: u64 = 1;

/// The simulation state as Verus sees it.
pub struct SimState {
    pub events: Seq<Event>,
    pub nodes: Seq<Node>,
    pub nodes_in_tx: usize,
    pub use_rts_cts: bool,
    pub tx_success: bool,
    pub stop_stats: bool,
    pub time: u64,
    /// Refused requests so far: the station and what was wrong.
    pub violations: Seq<(usize, Violation)>,
}

/// The log with `v`, if any, of station `id` appended.
pub open spec fn logged(
    log: Seq<(usize, Violation)>,
    id: usize,
    v: Option<Violation>,
) -> Seq<(usize, Violation)> {
    match v {
        Some(k) => log.push((id, k)),
        None => log,
    }
}

/// Finished transmissions of a station.
pub open spec fn samples(n: Node) -> int {
    n.num_success + n.num_fail
}

/// `i` is the position of the first event with the smallest time.
pub open spec fn is_earliest(events: Seq<Event>, i: int) -> bool {
    &&& 0 <= i < events.len()
    &&& forall|j: int| 0 <= j < events.len() ==> events[i].time <= #[trigger] events[j].time
    &&& forall|j: int| 0 <= j < i ==> events[i].time < #[trigger] events[j].time
}

pub open spec fn earliest_index(events: Seq<Event>) -> int {
    choose|i: int| is_earliest(events, i)
}

pub open spec fn opt_seq(o: Option<Event>) -> Seq<Event> {
    match o {
        Some(e) => seq![e],
        None => Seq::empty(),
    }
}

/// Every station told that the channel is now occupied.
pub open spec fn occupied_all(nodes: Seq<Node>, time: u64) -> Seq<Node> {
    Seq::new(nodes.len(), |j: int| nodes[j].notify_step(time, true, false, false).0)
}

/// Every station told that the channel is now free.
pub open spec fn freed_all(nodes: Seq<Node>, time: u64, ok: bool, rts: bool) -> Seq<Node> {
    Seq::new(nodes.len(), |j: int| nodes[j].notify_step(time, false, ok, rts).0)
}

/// The events the stations ask for, in station order, when told that the
/// channel is free.
pub open spec fn freed_events(nodes: Seq<Node>, time: u64, ok: bool, rts: bool) -> Seq<Event>
    decreases nodes.len(),
{
    if nodes.len() == 0 {
        Seq::empty()
    } else {
        freed_events(nodes.drop_last(), time, ok, rts) + opt_seq(
            nodes.last().notify_step(time, false, ok, rts).1,
        )
    }
}

impl SimState {
    /// The event the next step takes.
    pub open spec fn next_event(self) -> Event {
        self.events[earliest_index(self.events)]
    }

    /// Whether the next step dispatches an event: one is pending, the run
    /// was not stopped, and the clock has not run out.
    pub open spec fn dispatches(self) -> bool {
        &&& self.events.len() > 0
        &&& !self.stop_stats
        &&& self.next_event().time <= TIME_HORIZON
    }

    /// Handling of event `e`, already taken out of the pending events.
    pub open spec fn dispatch(self, e: Event, draw: usize) -> SimState {
        let id = e.node_id as int;
        let node = self.nodes[id];
        let s = SimState { time: e.time, ..self };
        match e.event_type {
            EventType::DecrementBackoff => {
                let (n2, oe) = node.backoff_step(e.time);
                SimState {
                    nodes: s.nodes.update(id, n2),
                    events: s.events + opt_seq(oe),
                    violations: logged(s.violations, e.node_id, node.tick_violation()),
                    ..s
                }
            },
            EventType::StartTx => match node.tx_start_event(e.time, s.use_rts_cts) {
                Some(x) => SimState {
                    events: s.events.push(x),
                    nodes: occupied_all(s.nodes, e.time),
                    nodes_in_tx: (s.nodes_in_tx + 1) as usize,
                    tx_success: s.tx_success && s.nodes_in_tx == 0,
                    ..s
                },
                None => SimState {
                    violations: logged(s.violations, e.node_id, node.start_violation()),
                    ..s
                },
            },
            EventType::EndTx => {
                let ended = s.nodes.update(id, node.tx_end_step(s.tx_success, draw));
                let left = (s.nodes_in_tx - 1) as usize;
                let stop = s.stop_stats || samples(ended[id]) > NUM_STATISTICS;
                if left == 0 {
                    SimState {
                        nodes: freed_all(ended, e.time, s.tx_success, s.use_rts_cts),
                        events: s.events + freed_events(
                            ended,
                            e.time,
                            s.tx_success,
                            s.use_rts_cts,
                        ),
                        nodes_in_tx: 0,
                        tx_success: true,
                        stop_stats: stop,
                        ..s
                    }
                } else {
                    SimState { nodes: ended, nodes_in_tx: left, stop_stats: stop, ..s }
                }
            },
        }
    }

    /// One step: the new state, and whether the run goes on.
    pub open spec fn step(self, draw: usize) -> (SimState, bool) {
        if self.dispatches() {
            let i = earliest_index(self.events);
            (SimState { events: self.events.remove(i), ..self }.dispatch(self.events[i], draw), true)
        } else {
            (self, false)
        }
    }
}

/// Owns the stations and the pending events, and arbitrates the channel.
pub struct Scheduler {
    pub event_list: Vec<Event>,
    pub nodes_in_tx: usize,
    pub use_rts_cts: bool,
    pub tx_success: bool,
    pub node_list: Vec<Node>,
    pub stop_stats: bool,
    pub time: u64,
    pub violations: Vec<(usize, Violation)>,
    /// Transmissions started since the current busy period began.
    pub round_starts: Ghost<nat>,
    /// EndTx events handled so far, per station.
    pub ends_handled: Ghost<Seq<nat>>,
}

impl View for Scheduler {
    type V = SimState;

    open spec fn view(&self) -> SimState {
        SimState {
            events: self.event_list@,
            nodes: self.node_list@,
            nodes_in_tx: self.nodes_in_tx,
            use_rts_cts: self.use_rts_cts,
            tx_success: self.tx_success,
            stop_stats: self.stop_stats,
            time: self.time,
            violations: self.violations@,
        }
    }
}

impl Scheduler {
    /// The invariant, over an explicit list of pending events.
    pub open spec fn wf_with(self, ev: Seq<Event>) -> bool {
        let ns = self.node_list@;
        let n = ns.len();
        &&& self.ends_handled@.len() == n
        &&& forall|i: int|
            0 <= i < n ==> {
                &&& (#[trigger] ns[i]).wf()
                &&& ns[i].id == i
                &&& samples(ns[i]) == self.ends_handled@[i]
                &&& samples(ns[i]) <= NUM_STATISTICS + 1
                &&& !self.stop_stats ==> samples(ns[i]) <= NUM_STATISTICS
            }
        &&& forall|j: int|
            0 <= j < ev.len() ==> (#[trigger] ev[j]).node_id < n && ev[j].time >= self.time
        &&& forall|i: int|
            0 <= i < n ==> #[trigger] count_events(ev, EventFilter::TxFor(i)) == ind(
                ns[i].state == NodeStateType::InTx,
            )
        &&& self.nodes_in_tx == count_events(ev, EventFilter::OfKind(EventType::EndTx))
        &&& count_in_tx(ns) == count_events(ev, EventFilter::OfKind(EventType::StartTx))
            + self.nodes_in_tx
        &&& self.round_starts@ >= self.nodes_in_tx
        &&& (self.tx_success <==> self.round_starts@ <= 1)
        &&& (self.nodes_in_tx == 0 ==> self.round_starts@ == 0)
    }

    /// The scheduler's invariant: every pending event addresses an existing
    /// station at or after the clock; a station is transmitting exactly when
    /// one StartTx or EndTx event of its own is pending; the active count is
    /// the number of pending EndTx events; the round is collision-free exactly
    /// when at most one transmission started in it; and the sample counts
    /// agree with the EndTx events handled.
    pub open spec fn wf(self) -> bool {
        self.wf_with(self.event_list@)
    }
}

/// The state right after construction, with `draws` the raw random values
/// that pick the initial backoff counters.
pub open spec fn initial_state(
    num_nodes: usize,
    use_rts_cts: bool,
    cw_min: usize,
    cw_max: usize,
    draws: Seq<usize>,
) -> SimState {
    SimState {
        events: Seq::new(
            num_nodes as nat,
            |i: int|
                Event {
                    event_type: EventType::DecrementBackoff,
                    node_id: i as usize,
                    time: START_TIME,
                },
        ),
        nodes: Seq::new(
            num_nodes as nat,
            |i: int| Node::initial(i as usize, cw_min, cw_max, draws[i] % cw_min),
        ),
        nodes_in_tx: 0,
        use_rts_cts,
        tx_success: true,
        stop_stats: false,
        time: 0,
        violations: Seq::empty(),
    }
}

/// EndTx events handled per station after one step that returned `r`.
pub open spec fn ends_after(s: SimState, ends: Seq<nat>, r: bool) -> Seq<nat> {
    let id = s.next_event().node_id as int;
    if r && s.next_event().event_type == EventType::EndTx {
        ends.update(id, ends[id] + 1)
    } else {
        ends
    }
}

/// Transmissions started in the current round after one step from `s` to `t`.
pub open spec fn round_after(s: SimState, t: SimState, starts: nat) -> nat {
    if t.nodes_in_tx > s.nodes_in_tx {
        starts + 1
    } else if t.nodes_in_tx == 0 {
        0
    } else {
        starts
    }
}

proof fn lemma_freed_events(nodes: Seq<Node>, time: u64, ok: bool, rts: bool, bound: nat)
    requires
        forall|k: int| 0 <= k < nodes.len() ==> (#[trigger] nodes[k]).id < bound,
    ensures
        forall|j: int|
            0 <= j < freed_events(nodes, time, ok, rts).len() ==> {
                let x = #[trigger] freed_events(nodes, time, ok, rts)[j];
                &&& x.event_type == EventType::DecrementBackoff
                &&& x.node_id < bound
                &&& x.time == (time + free_delay(ok, rts)) as u64
            },
    decreases nodes.len(),
{
    if nodes.len() > 0 {
        lemma_freed_events(nodes.drop_last(), time, ok, rts, bound);
        assert(nodes.last() == nodes[nodes.len() - 1]);
    }
}

proof fn lemma_earliest_unique(events: Seq<Event>, i: int)
    requires
        is_earliest(events, i),
    ensures
        earliest_index(events) == i,
{
    let k = earliest_index(events);
    assert(is_earliest(events, k));
    if k < i {
        assert(events[i].time < events[k].time);
    } else if i < k {
        assert(events[k].time < events[i].time);
    }
}

/// Tells every station that the channel is occupied; no station asks for an
/// event then.
fn notify_occupied(nodes: &mut Vec<Node>, time: u64)
    requires
        time <= TIME_HORIZON,
    ensures
        final(nodes)@ == occupied_all(old(nodes)@, time),
{
    let n = nodes.len();
    let mut j: usize = 0;
    while j < n
        invariant
            n == nodes.len(),
            j <= n,
            time <= TIME_HORIZON,
            forall|k: int| 0 <= k < j ==> nodes@[k] == old(nodes)@[k].notify_step(time, true, false, false).0,
            forall|k: int| j <= k < n ==> nodes@[k] == old(nodes)@[k],
        decreases n - j,
    {
        let mut node = nodes[j];
        let _ = node.notify_channel(time, true, false, false);
        nodes.set(j, node);
        j = j + 1;
    }
    assert(nodes@ =~= occupied_all(old(nodes)@, time));
}

/// Tells every station that the channel is free, and collects the events
/// they ask for.
fn notify_free(nodes: &mut Vec<Node>, events: &mut Vec<Event>, time: u64, ok: bool, rts: bool)
    requires
        time <= TIME_HORIZON,
    ensures
        final(nodes)@ == freed_all(old(nodes)@, time, ok, rts),
        final(events)@ == old(events)@ + freed_events(old(nodes)@, time, ok, rts),
{
    let n = nodes.len();
    let mut j: usize = 0;
    let ghost pre = old(nodes)@;
    while j < n
        invariant
            n == nodes.len(),
            n == pre.len(),
            pre == old(nodes)@,
            j <= n,
            time <= TIME_HORIZON,
            forall|k: int| 0 <= k < j ==> nodes@[k] == pre[k].notify_step(time, false, ok, rts).0,
            forall|k: int| j <= k < n ==> nodes@[k] == pre[k],
            events@ == old(events)@ + freed_events(pre.take(j as int), time, ok, rts),
        decreases n - j,
    {
        let mut node = nodes[j];
        let r = node.notify_channel(time, false, ok, rts);
        nodes.set(j, node);
        assert(pre.take(j + 1).drop_last() =~= pre.take(j as int));
        assert(pre.take(j + 1).last() == pre[j as int]);
        match r {
            Some(x) => {
                events.push(x);
            },
            None => {},
        }
        assert(events@ =~= old(events)@ + freed_events(pre.take(j + 1), time, ok, rts));
        j = j + 1;
    }
    assert(pre.take(n as int) =~= pre);
    assert(nodes@ =~= freed_all(old(nodes)@, time, ok, rts));
}

impl Scheduler {
    /// The scheduler right after `e` was taken out of the pending events and
    /// the clock moved to its time.
    pub open spec fn popped(self, e: Event) -> bool {
        &&& self.wf_with(self.event_list@.push(e))
        &&& self.time == e.time
        &&& e.time <= TIME_HORIZON
        &&& !self.stop_stats
    }

    /// A scheduler with `num_nodes` stations, the initial backoff of station
    /// `i` being `draws[i]` reduced into `[0, cw_min)`, each with a first
    /// backoff tick pending.
    pub fn new_with_draws(
        num_nodes: usize,
        use_rts_cts: bool,
        cw_min: usize,
        cw_max: usize,
        draws: &Vec<usize>,
    ) -> (r: Scheduler)
        requires
            0 < cw_min <= cw_max,
            draws.len() == num_nodes,
        ensures
            r@ == initial_state(num_nodes, use_rts_cts, cw_min, cw_max, draws@),
            r.wf(),
            r.round_starts@ == 0,
            r.ends_handled@ == Seq::new(num_nodes as nat, |i: int| 0nat),
    {
        let mut node_list: Vec<Node> = Vec::new();
        let mut event_list: Vec<Event> = Vec::new();
        let ghost init = initial_state(num_nodes, use_rts_cts, cw_min, cw_max, draws@);
        let mut i: usize = 0;
        while i < num_nodes
            invariant
                i <= num_nodes,
                0 < cw_min <= cw_max,
                draws.len() == num_nodes,
                init == initial_state(num_nodes, use_rts_cts, cw_min, cw_max, draws@),
                node_list@ =~= init.nodes.take(i as int),
                event_list@ =~= init.events.take(i as int),
            decreases num_nodes - i,
        {
            let node = Node::new_with_draw(i, cw_min, cw_max, draws[i]);
            node_list.push(node);
            event_list.push(Event::new(EventType::DecrementBackoff, node.get_id(), START_TIME));
            i = i + 1;
        }
        let r = Scheduler {
            event_list,
            nodes_in_tx: 0,
            use_rts_cts,
            tx_success: true,
            node_list,
            stop_stats: false,
            time: 0,
            violations: Vec::new(),
            round_starts: Ghost(0),
            ends_handled: Ghost(Seq::new(num_nodes as nat, |i: int| 0nat)),
        };
        proof {
            assert(r.node_list@ =~= init.nodes);
            assert(r.event_list@ =~= init.events);
            let ev = r.event_list@;
            assert forall|f: EventFilter|
                f.holds_tx() implies count_events(ev, f) == 0 by {
                lemma_count_append_none(Seq::empty(), ev, f);
                assert(Seq::<Event>::empty() + ev =~= ev);
            }
            assert forall|i: int| 0 <= i < num_nodes implies #[trigger] count_events(
                ev,
                EventFilter::TxFor(i),
            ) == 0 by {
                assert(EventFilter::TxFor(i).holds_tx());
            }
            assert(EventFilter::OfKind(EventType::EndTx).holds_tx());
            assert(EventFilter::OfKind(EventType::StartTx).holds_tx());
            lemma_in_tx_none(r.node_list@);
        }
        r
    }

    /// A scheduler with `num_nodes` stations, each with a random initial
    /// backoff in `[0, cw_min)` and a first backoff tick pending.
    pub fn new(num_nodes: usize, use_rts_cts: bool, cw_min: usize, cw_max: usize) -> (r: Scheduler)
        requires
            0 < cw_min <= cw_max,
        ensures
            exists|draws: Seq<usize>|
                draws.len() == num_nodes && r@ == initial_state(
                    num_nodes,
                    use_rts_cts,
                    cw_min,
                    cw_max,
                    draws,
                ),
            r.wf(),
    {
        let mut draws: Vec<usize> = Vec::new();
        let mut i: usize = 0;
        while i < num_nodes
            invariant
                i <= num_nodes,
                draws.len() == i,
            decreases num_nodes - i,
        {
            draws.push(random_draw());
            i = i + 1;
        }
        Scheduler::new_with_draws(num_nodes, use_rts_cts, cw_min, cw_max, &draws)
    }
}

impl Scheduler {
    /// Handles a backoff-decrement tick: the station's follow-up event, if
    /// any, is scheduled.
    fn handle_decrement(&mut self, e: Event)
        requires
            old(self).popped(e),
            e.event_type == EventType::DecrementBackoff,
        ensures
            final(self).wf(),
            final(self)@ == old(self)@.dispatch(e, 0),
            final(self).round_starts == old(self).round_starts,
            final(self).ends_handled == old(self).ends_handled,
    {
        let ghost ev0 = self.event_list@.push(e);
        let ghost list0 = self.event_list@;
        let ghost ns0 = self.node_list@;
        let id = e.node_id;
        assert(ev0[ev0.len() - 1] == e);
        let mut node = self.node_list[id];
        match node.backoff_violation() {
            Some(v) => self.violations.push((id, v)),
            None => {},
        }
        let r = node.backoff(e.time);
        self.node_list.set(id, node);
        match r {
            Some(x) => {
                self.event_list.push(x);
            },
            None => {},
        }
        proof {
            let ev1 = self.event_list@;
            assert(ev1 =~= list0 + opt_seq(r));
            assert forall|f: EventFilter| #[trigger]
                count_events(ev1, f) == count_events(ev0, f) - ind(f.holds(e)) + ind(
                    r.is_some() && f.holds(r.unwrap()),
                ) by {
                lemma_count_push(list0, e, f);
                if r.is_some() {
                    lemma_count_push(list0, r.unwrap(), f);
                }
            }
            lemma_in_tx_update(ns0, id as int, node);
            let n = ns0.len();
            assert forall|i: int| 0 <= i < n implies #[trigger] count_events(
                ev1,
                EventFilter::TxFor(i),
            ) == ind(self.node_list@[i].state == NodeStateType::InTx) by {
                assert(count_events(ev0, EventFilter::TxFor(i)) == ind(
                    ns0[i].state == NodeStateType::InTx,
                ));
            }
            assert(count_events(ev1, EventFilter::OfKind(EventType::EndTx)) == count_events(
                ev0,
                EventFilter::OfKind(EventType::EndTx),
            ));
            assert(count_events(ev1, EventFilter::OfKind(EventType::StartTx)) == count_events(
                ev0,
                EventFilter::OfKind(EventType::StartTx),
            ) + ind(node.state == NodeStateType::InTx) - ind(
                ns0[id as int].state == NodeStateType::InTx,
            ));
            assert forall|j: int| 0 <= j < ev1.len() implies (#[trigger] ev1[j]).node_id < n
                && ev1[j].time >= self.time by {
                if j < list0.len() {
                    assert(ev1[j] == ev0[j]);
                }
            }
            assert forall|i: int| 0 <= i < n implies {
                &&& (#[trigger] self.node_list@[i]).wf()
                &&& self.node_list@[i].id == i
                &&& samples(self.node_list@[i]) == self.ends_handled@[i]
                &&& samples(self.node_list@[i]) <= NUM_STATISTICS + 1
                &&& !self.stop_stats ==> samples(self.node_list@[i]) <= NUM_STATISTICS
            } by {
                assert(ns0[i].wf());
            }
            assert(self.node_list@ =~= ns0.update(id as int, node));
        }
    }
}

impl Scheduler {
    /// Handles a transmission start: when the station accepts it, its end is
    /// scheduled, the round is marked collided if another station is already
    /// transmitting, and every station learns that the channel is occupied.
    fn handle_start(&mut self, e: Event)
        requires
            old(self).popped(e),
            e.event_type == EventType::StartTx,
        ensures
            final(self).wf(),
            final(self)@ == old(self)@.dispatch(e, 0),
            final(self).round_starts@ == round_after(old(self)@, final(self)@, old(self).round_starts@),
            final(self).ends_handled == old(self).ends_handled,
    {
        let ghost ev0 = self.event_list@.push(e);
        let ghost list0 = self.event_list@;
        let ghost ns0 = self.node_list@;
        let id = e.node_id;
        let n = self.node_list.len();
        let mut probe = self.node_list[id];
        proof {
            lemma_count_push(list0, e, EventFilter::TxFor(id as int));
            lemma_count_push(list0, e, EventFilter::OfKind(EventType::StartTx));
            lemma_count_le_len(list0, EventFilter::OfKind(EventType::StartTx));
            lemma_in_tx_le_len(ns0);
            assert(ns0[id as int].wf());
        }
        let r = probe.tx_start(e.time, self.use_rts_cts);
        match r {
            Some(x) => {
                self.event_list.push(x);
                if self.nodes_in_tx > 0 {
                    self.tx_success = false;
                }
                self.nodes_in_tx = self.nodes_in_tx + 1;
                self.round_starts = Ghost(self.round_starts@ + 1);
                notify_occupied(&mut self.node_list, e.time);
                proof {
                    let ev1 = self.event_list@;
                    let ns1 = self.node_list@;
                    assert forall|f: EventFilter| #[trigger]
                        count_events(ev1, f) == count_events(ev0, f) - ind(f.holds(e)) + ind(
                            f.holds(x),
                        ) by {
                        lemma_count_push(list0, e, f);
                        lemma_count_push(list0, x, f);
                    }
                    assert forall|j: int| 0 <= j < n implies (#[trigger] ns1[j].state
                        == NodeStateType::InTx) == (ns0[j].state == NodeStateType::InTx) by {}
                    lemma_in_tx_same(ns0, ns1);
                    assert forall|i: int| 0 <= i < n implies #[trigger] count_events(
                        ev1,
                        EventFilter::TxFor(i),
                    ) == ind(ns1[i].state == NodeStateType::InTx) by {
                        assert(count_events(ev0, EventFilter::TxFor(i)) == ind(
                            ns0[i].state == NodeStateType::InTx,
                        ));
                    }
                    assert(count_events(ev1, EventFilter::OfKind(EventType::EndTx)) == count_events(
                        ev0,
                        EventFilter::OfKind(EventType::EndTx),
                    ) + 1);
                    assert(count_events(ev1, EventFilter::OfKind(EventType::StartTx))
                        == count_events(ev0, EventFilter::OfKind(EventType::StartTx)) - 1);
                    assert forall|j: int| 0 <= j < ev1.len() implies (#[trigger] ev1[j]).node_id
                        < n && ev1[j].time >= self.time by {
                        if j < list0.len() {
                            assert(ev1[j] == ev0[j]);
                        }
                    }
                    assert forall|i: int| 0 <= i < n implies {
                        &&& (#[trigger] ns1[i]).wf()
                        &&& ns1[i].id == i
                        &&& samples(ns1[i]) == self.ends_handled@[i]
                        &&& samples(ns1[i]) <= NUM_STATISTICS + 1
                        &&& !self.stop_stats ==> samples(ns1[i]) <= NUM_STATISTICS
                    } by {
                        assert(ns0[i].wf());
                    }
                }
            },
            None => {
                match probe.tx_start_violation() {
                    Some(v) => self.violations.push((id, v)),
                    None => {},
                }
            },
        }
    }

    /// Handles a transmission end: the station records the round's outcome
    /// (its new backoff picked by `draw`); when it was the last transmitter,
    /// every station learns that the channel is free and the next round
    /// starts collision-free. The run stops once the station has more than
    /// `NUM_STATISTICS` samples.
    fn handle_end(&mut self, e: Event, draw: usize)
        requires
            old(self).popped(e),
            e.event_type == EventType::EndTx,
        ensures
            final(self).wf(),
            final(self)@ == old(self)@.dispatch(e, draw),
            final(self).round_starts@ == round_after(old(self)@, final(self)@, old(self).round_starts@),
            final(self).ends_handled@ == old(self).ends_handled@.update(
                e.node_id as int,
                old(self).ends_handled@[e.node_id as int] + 1,
            ),
    {
        let ghost ev0 = self.event_list@.push(e);
        let ghost list0 = self.event_list@;
        let ghost ns0 = self.node_list@;
        let id = e.node_id;
        let n = self.node_list.len();
        let mut node = self.node_list[id];
        proof {
            lemma_count_push(list0, e, EventFilter::TxFor(id as int));
            lemma_count_push(list0, e, EventFilter::OfKind(EventType::EndTx));
            assert(ns0[id as int].wf());
        }
        node.tx_end_with_draw(self.tx_success, draw);
        self.node_list.set(id, node);
        self.ends_handled = Ghost(self.ends_handled@.update(id as int, self.ends_handled@[id as int] + 1));
        self.nodes_in_tx = self.nodes_in_tx - 1;
        let ghost ns_mid = self.node_list@;
        proof {
            lemma_in_tx_update(ns0, id as int, node);
            assert forall|k: int| 0 <= k < n implies (#[trigger] ns_mid[k]).id < n by {
                assert(ns0[k].wf());
            }
            lemma_freed_events(ns_mid, e.time, self.tx_success, self.use_rts_cts, n as nat);
        }
        if self.nodes_in_tx == 0 {
            notify_free(
                &mut self.node_list,
                &mut self.event_list,
                e.time,
                self.tx_success,
                self.use_rts_cts,
            );
            self.tx_success = true;
            self.round_starts = Ghost(0);
        }
        let (suc, fail) = node.get_stats();
        if suc + fail > NUM_STATISTICS {
            self.stop_stats = true;
        }
        proof {
            let ev1 = self.event_list@;
            let ns1 = self.node_list@;
            let added = ev1.skip(list0.len() as int);
            assert(ev1 =~= list0 + added);
            assert forall|j: int| 0 <= j < added.len() implies (#[trigger] added[j]).event_type
                == EventType::DecrementBackoff && added[j].node_id < n && added[j].time >= e.time by {
                assert(added[j] == ev1[j + list0.len()]);
            }
            assert forall|f: EventFilter| f.holds_tx() implies #[trigger] count_events(ev1, f)
                == count_events(ev0, f) - ind(f.holds(e)) by {
                lemma_count_push(list0, e, f);
                lemma_count_append_none(list0, added, f);
            }
            assert forall|j: int| 0 <= j < n implies (#[trigger] ns1[j].state
                == NodeStateType::InTx) == (ns_mid[j].state == NodeStateType::InTx) by {}
            lemma_in_tx_same(ns_mid, ns1);
            assert forall|i: int| 0 <= i < n implies #[trigger] count_events(
                ev1,
                EventFilter::TxFor(i),
            ) == ind(ns1[i].state == NodeStateType::InTx) by {
                assert(EventFilter::TxFor(i).holds_tx());
                assert(count_events(ev0, EventFilter::TxFor(i)) == ind(
                    ns0[i].state == NodeStateType::InTx,
                ));
            }
            assert(EventFilter::OfKind(EventType::EndTx).holds_tx());
            assert(EventFilter::OfKind(EventType::StartTx).holds_tx());
            assert forall|j: int| 0 <= j < ev1.len() implies (#[trigger] ev1[j]).node_id < n
                && ev1[j].time >= self.time by {
                if j < list0.len() {
                    assert(ev1[j] == ev0[j]);
                } else {
                    assert(ev1[j] == added[j - list0.len()]);
                }
            }
            assert forall|i: int| 0 <= i < n implies {
                &&& (#[trigger] ns1[i]).wf()
                &&& ns1[i].id == i
                &&& samples(ns1[i]) == self.ends_handled@[i]
                &&& samples(ns1[i]) <= NUM_STATISTICS + 1
                &&& !self.stop_stats ==> samples(ns1[i]) <= NUM_STATISTICS
            } by {
                assert(ns0[i].wf());
                assert(ns_mid[i].wf());
            }
            assert(ns_mid =~= ns0.update(id as int, ns0[id as int].tx_end_step(old(self).tx_success, draw)));
        }
    }
}

impl Scheduler {
    /// One step with `draw` as the random value for a backoff redrawn in it:
    /// takes the pending event with the smallest time (the first such in
    /// insertion order), moves the clock to it and dispatches it. Returns
    /// false, changing nothing, when no event is pending, when the run was
    /// stopped, or when the clock would pass `TIME_HORIZON`.
    pub fn step(&mut self, draw: usize) -> (r: bool)
        requires
            old(self).wf(),
        ensures
            final(self).wf(),
            (final(self)@, r) == old(self)@.step(draw),
            final(self).ends_handled@ == ends_after(old(self)@, old(self).ends_handled@, r),
            final(self).round_starts@ == round_after(old(self)@, final(self)@, old(self).round_starts@),
    {
        let len = self.event_list.len();
        if len == 0 {
            return false;
        }
        if self.stop_stats {
            return false;
        }
        let mut min_index: usize = 0;
        let mut min_time: u64 = self.event_list[0].time;
        let mut pos: usize = 1;
        while pos < len
            invariant
                len == self.event_list.len(),
                1 <= pos <= len,
                min_index < pos,
                min_time == self.event_list@[min_index as int].time,
                forall|j: int| 0 <= j < pos ==> min_time <= #[trigger] self.event_list@[j].time,
                forall|j: int| 0 <= j < min_index ==> min_time < #[trigger] self.event_list@[j].time,
            decreases len - pos,
        {
            if self.event_list[pos].time < min_time {
                min_index = pos;
                min_time = self.event_list[pos].time;
            }
            pos = pos + 1;
        }
        proof {
            lemma_earliest_unique(self.event_list@, min_index as int);
        }
        if min_time > TIME_HORIZON {
            return false;
        }
        let ghost ev0 = self.event_list@;
        let event = self.event_list.remove(min_index);
        self.time = event.time;
        proof {
            let list0 = self.event_list@;
            assert forall|f: EventFilter| #[trigger] count_events(list0.push(event), f)
                == count_events(ev0, f) by {
                lemma_count_remove(ev0, min_index as int, f);
                lemma_count_push(list0, event, f);
            }
            assert forall|j: int| 0 <= j < list0.push(event).len() implies (#[trigger] list0.push(
                event,
            )[j]).node_id < self.node_list.len() && list0.push(event)[j].time >= self.time by {
                if j < min_index {
                    assert(list0.push(event)[j] == ev0[j]);
                } else if j < list0.len() {
                    assert(list0.push(event)[j] == ev0[j + 1]);
                }
            }
        }
        match event.event_type {
            EventType::DecrementBackoff => self.handle_decrement(event),
            EventType::StartTx => self.handle_start(event),
            EventType::EndTx => self.handle_end(event, draw),
        }
        true
    }

    /// One step with a random value for a backoff redrawn in it; see `step`.
    pub fn handle_next_event(&mut self) -> (r: bool)
        requires
            old(self).wf(),
        ensures
            final(self).wf(),
            exists|draw: usize| (final(self)@, r) == old(self)@.step(draw),
            final(self).ends_handled@ == ends_after(old(self)@, old(self).ends_handled@, r),
            final(self).round_starts@ == round_after(old(self)@, final(self)@, old(self).round_starts@),
    {
        let draw = random_draw();
        self.step(draw)
    }

    pub fn node_count(&self) -> (r: usize)
        ensures
            r == self.node_list@.len(),
    {
        self.node_list.len()
    }

    /// The station with identifier `i`.
    pub fn get_node(&self, i: usize) -> (r: Node)
        requires
            i < self.node_list@.len(),
        ensures
            r == self.node_list@[i as int],
    {
        self.node_list[i]
    }

    /// The simulated clock, in microseconds.
    pub fn get_time(&self) -> (r: u64)
        ensures
            r == self.time,
    {
        self.time
    }

    pub fn pending_events(&self) -> (r: usize)
        ensures
            r == self.event_list@.len(),
    {
        self.event_list.len()
    }

    pub fn get_nodes_in_tx(&self) -> (r: usize)
        ensures
            r == self.nodes_in_tx,
    {
        self.nodes_in_tx
    }

    /// Number of refused requests so far.
    pub fn violation_count(&self) -> (r: usize)
        ensures
            r == self.violations@.len(),
    {
        self.violations.len()
    }

    /// The `i`-th refused request: the station and what was wrong.
    pub fn get_violation(&self, i: usize) -> (r: (usize, Violation))
        requires
            i < self.violations@.len(),
        ensures
            r == self.violations@[i as int],
    {
        self.violations[i]
    }

    pub fn is_stopped(&self) -> (r: bool)
        ensures
            r == self.stop_stats,
    {
        self.stop_stats
    }
}

/// The state after stepping with each draw of `draws` in turn, until a step
/// returns false or the draws run out.
pub open spec fn run(s: SimState, draws: Seq<usize>) -> SimState
    decreases draws.len(),
{
    if draws.len() == 0 {
        s
    } else {
        let (t, go) = s.step(draws[0]);
        if go {
            run(t, draws.skip(1))
        } else {
            t
        }
    }
}

/// Sum of the transmitted bits of the stations.
pub open spec fn total_bits(nodes: Seq<Node>) -> int
    decreases nodes.len(),
{
    if nodes.len() == 0 {
        0
    } else {
        total_bits(nodes.drop_last()) + nodes.last().tx_bits
    }
}

impl Scheduler {
    /// Steps with each of `draws` in turn until a step returns false or the
    /// draws run out; returns the number of steps that went on. The outcome
    /// depends on the state and the draws alone.
    pub fn run_with_draws(&mut self, draws: &Vec<usize>) -> (r: usize)
        requires
            old(self).wf(),
        ensures
            final(self).wf(),
            final(self)@ == run(old(self)@, draws@),
            r <= draws@.len(),
    {
        let mut k: usize = 0;
        let ghost start = self@;
        assert(draws@.skip(0) =~= draws@);
        while k < draws.len()
            invariant
                self.wf(),
                k <= draws@.len(),
                start == old(self)@,
                run(start, draws@) == run(self@, draws@.skip(k as int)),
            decreases draws@.len() - k,
        {
            let ghost before = self@;
            let go = self.step(draws[k]);
            proof {
                assert(draws@.skip(k as int)[0] == draws@[k as int]);
                assert(draws@.skip(k as int).skip(1) =~= draws@.skip(k + 1));
            }
            if !go {
                assert(run(before, draws@.skip(k as int)) == self@);
                return k;
            }
            k = k + 1;
        }
        proof {
            assert(draws@.skip(k as int).len() == 0);
        }
        k
    }

    /// Sum of the stations' transmitted bits, for the aggregate throughput.
    pub fn total_tx_bits(&self) -> (r: u128)
        requires
            self.wf(),
        ensures
            r == total_bits(self.node_list@),
    {
        let n = self.node_list.len();
        let mut total: u128 = 0;
        let mut i: usize = 0;
        while i < n
            invariant
                n == self.node_list@.len(),
                self.wf(),
                i <= n,
                total == total_bits(self.node_list@.take(i as int)),
                total <= i * ((NUM_STATISTICS + 1) * PACKET_PAYLOAD),
            decreases n - i,
        {
            let node = self.node_list[i];
            proof {
                assert(self.node_list@.take(i + 1).drop_last() =~= self.node_list@.take(i as int));
                assert(node.wf());
                assert(node.num_success <= NUM_STATISTICS + 1);
                assert(node.tx_bits <= (NUM_STATISTICS + 1) * PACKET_PAYLOAD);
                assert((i + 1) * ((NUM_STATISTICS + 1) * PACKET_PAYLOAD) <= 0x1_0000_0000_0000_0000
                    * ((NUM_STATISTICS + 1) * PACKET_PAYLOAD)) by (nonlinear_arith)
                    requires
                        i < 0x1_0000_0000_0000_0000,
                ;
                assert(total + node.tx_bits <= (i + 1) * ((NUM_STATISTICS + 1) * PACKET_PAYLOAD))
                    by (nonlinear_arith)
                    requires
                        total <= i * ((NUM_STATISTICS + 1) * PACKET_PAYLOAD),
                        node.tx_bits <= (NUM_STATISTICS + 1) * PACKET_PAYLOAD,
                ;
            }
            total = total + node.tx_bits as u128;
            i = i + 1;
            proof {
                assert(total <= i * ((NUM_STATISTICS + 1) * PACKET_PAYLOAD)) by (nonlinear_arith)
                    requires
                        total <= (i - 1) * ((NUM_STATISTICS + 1) * PACKET_PAYLOAD) + (
                        NUM_STATISTICS + 1) * PACKET_PAYLOAD,
                ;
            }
        }
        proof {
            assert(self.node_list@.take(n as int) =~= self.node_list@);
        }
        total
    }
}

} // verus!
