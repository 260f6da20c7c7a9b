use vstd::prelude::*;
use crate::scheduler::{Event, EventType};

verus! {

/// Short inter-frame spacing, in microseconds.
pub const SIFS: u64 = 28;
/// Long (distributed) inter-frame spacing, in microseconds.
pub const DIFS: u64 = 128;
/// One backoff slot, in microseconds.
pub const SLOT_TIME: u64 = 50;
/// Payload bits carried by one data frame.
pub const PACKET_PAYLOAD: u64 = 8184;
pub const ACK_PAYLOAD: u64 = 112;
pub const MAC_HEADER: u64 = 272;
pub const PHY_HEADER: u64 = 128;
pub const PACKET_DURATION: u64 = PACKET_PAYLOAD + MAC_HEADER + PHY_HEADER;
pub const ACK_DURATION: u64 = ACK_PAYLOAD + PHY_HEADER;
/// Delay between the end of a backoff and the start of the transmission.
pub const PROP_DELAY: u64 = 1;
pub const RTS_DURATION: u64 = 160 + PHY_HEADER;
pub const CTS_DURATION: u64 = 112 + PHY_HEADER;

/// Channel occupation of one transmission attempt with RTS/CTS.
pub const COMMON_DURATION_RTS_CTS: u64 = RTS_DURATION;
/// Deferral after a successful round with RTS/CTS.
pub const SUCCESS_DURATION_RTS_CTS: u64 = 3 * SIFS + CTS_DURATION + PACKET_DURATION + ACK_DURATION
    + DIFS;
/// Deferral after a collided round with RTS/CTS.
pub const COLLISION_DURATION_RTS_CTS: u64 = DIFS;

/// Channel occupation of one transmission attempt with basic access.
pub const COMMON_DURATION_BASIC: u64 = PACKET_DURATION;
/// Deferral after a successful round with basic access.
pub const SUCCESS_DURATION_BASIC: u64 = SIFS + ACK_DURATION + DIFS;
/// Deferral after a collided round with basic access.
pub const COLLISION_DURATION_BASIC: u64 = DIFS;

/// Latest instant at which a station may be asked to act: every delay it adds
/// stays below this margin, so no scheduled time overflows.
pub const TIME_HORIZON: u64 = 0xffff_ffff_ffff_0000;

/// How long a transmission attempt occupies the channel.
pub open spec fn tx_duration(use_rts_cts: bool) -> u64 {
    if use_rts_cts {
        COMMON_DURATION_RTS_CTS
    } else {
        COMMON_DURATION_BASIC
    }
}

/// How long a station defers after the channel becomes free.
pub open spec fn free_delay(no_collision: bool, use_rts_cts: bool) -> u64 {
    if use_rts_cts {
        if no_collision {
            SUCCESS_DURATION_RTS_CTS
        } else {
            COLLISION_DURATION_RTS_CTS
        }
    } else {
        if no_collision {
            SUCCESS_DURATION_BASIC
        } else {
            COLLISION_DURATION_BASIC
        }
    }
}

/// The contention window after a failed attempt: doubled, clamped to the maximum.
pub open spec fn doubled_window(cw: usize, cw_max: usize) -> usize {
    if 2 * cw > cw_max {
        cw_max
    } else {
        (2 * cw) as usize
    }
}

/// Where a station is in its contention cycle.
#[derive(Clone, Copy, PartialEq, Eq, Structural, Debug, Hash)]
pub enum NodeStateType {
    InTx,
    WaitChannel,
    Backoff,
}

impl NodeStateType {
    /// Human-readable name of the state.
    pub fn as_str(&self) -> (r: &'static str)
        ensures
            r@ == self.label(),
    {
        match self {
            NodeStateType::InTx => "In Tx",
            NodeStateType::WaitChannel => "Wait Channel",
            NodeStateType::Backoff => "Backoff",
        }
    }

    pub open spec fn label(self) -> Seq<char> {
        match self {
            NodeStateType::InTx => "In Tx"@,
            NodeStateType::WaitChannel => "Wait Channel"@,
            NodeStateType::Backoff => "Backoff"@,
        }
    }
}

/// A request that a station refuses because it breaks the protocol's
/// invariants; the request then produces no event.
#[derive(Clone, Copy, PartialEq, Eq, Structural, Debug, Hash)]
pub enum Violation {
    /// A backoff tick delivered to a transmitting station.
    BackoffWhileInTx,
    /// A transmission start requested with backoff left.
    BackoffNotExhausted,
    /// A transmission start requested while not in state InTx.
    NotInTx,
}

/// One contending station.
#[derive(Clone, Copy, PartialEq, Eq, Structural, Debug, Hash)]
pub struct Node {
    pub id: usize,
    pub backoff: usize,
    pub state: NodeStateType,
    pub num_success: usize,
    pub num_fail: usize,
    pub cw: usize,
    pub cw_min: usize,
    pub cw_max: usize,
    pub tx_bits: u64,
}

/// Relies on rand::random: a usize drawn from the thread-local generator.
/// Nothing is promised of its value.
#[verifier::external_body]
pub(crate) fn random_draw() -> (r: usize) {
    rand::random::<usize>()
}

impl Node {
    /// The station's invariant: the window stays in its bounds, the backoff
    /// counter below the window, a transmitting station has exhausted its
    /// backoff, and every success carried one payload.
    pub open spec fn wf(self) -> bool {
        &&& 0 < self.cw_min <= self.cw <= self.cw_max
        &&& self.backoff < self.cw
        &&& (self.state == NodeStateType::InTx ==> self.backoff == 0)
        &&& self.tx_bits == self.num_success * PACKET_PAYLOAD
    }

    /// A fresh station in backoff with the given initial counter.
    pub open spec fn initial(id: usize, cw_min: usize, cw_max: usize, backoff: usize) -> Node {
        Node {
            id,
            backoff,
            state: NodeStateType::Backoff,
            num_success: 0,
            num_fail: 0,
            cw: cw_min,
            cw_min,
            cw_max,
            tx_bits: 0,
        }
    }

    /// Effect of a backoff-decrement tick at `time`.
    pub open spec fn backoff_step(self, time: u64) -> (Node, Option<Event>) {
        match self.state {
            NodeStateType::Backoff => if self.backoff > 0 {
                (
                    Node { backoff: (self.backoff - 1) as usize, ..self },
                    Some(
                        Event {
                            event_type: EventType::DecrementBackoff,
                            node_id: self.id,
                            time: (time + SLOT_TIME) as u64,
                        },
                    ),
                )
            } else {
                (
                    Node { state: NodeStateType::InTx, ..self },
                    Some(
                        Event {
                            event_type: EventType::StartTx,
                            node_id: self.id,
                            time: (time + PROP_DELAY) as u64,
                        },
                    ),
                )
            },
            _ => (self, None),
        }
    }

    /// The violation a backoff tick would report.
    pub open spec fn tick_violation(self) -> Option<Violation> {
        if self.state == NodeStateType::InTx {
            Some(Violation::BackoffWhileInTx)
        } else {
            None
        }
    }

    /// The violation a transmission start would report.
    pub open spec fn start_violation(self) -> Option<Violation> {
        if self.backoff != 0 {
            Some(Violation::BackoffNotExhausted)
        } else if self.state != NodeStateType::InTx {
            Some(Violation::NotInTx)
        } else {
            None
        }
    }

    /// Whether a transmission may start: backoff exhausted and state InTx.
    pub open spec fn can_start(self) -> bool {
        self.backoff == 0 && self.state == NodeStateType::InTx
    }

    /// The end-of-transmission event requested by a start at `time`.
    pub open spec fn tx_start_event(self, time: u64, use_rts_cts: bool) -> Option<Event> {
        if self.can_start() {
            Some(
                Event {
                    event_type: EventType::EndTx,
                    node_id: self.id,
                    time: (time + tx_duration(use_rts_cts)) as u64,
                },
            )
        } else {
            None
        }
    }

    /// Effect of a channel notification at `time`.
    pub open spec fn notify_step(
        self,
        time: u64,
        channel_occupied: bool,
        no_collision: bool,
        use_rts_cts: bool,
    ) -> (Node, Option<Event>) {
        if channel_occupied && self.state == NodeStateType::Backoff {
            (Node { state: NodeStateType::WaitChannel, ..self }, None)
        } else if !channel_occupied && self.state == NodeStateType::WaitChannel {
            (
                Node { state: NodeStateType::Backoff, ..self },
                Some(
                    Event {
                        event_type: EventType::DecrementBackoff,
                        node_id: self.id,
                        time: (time + free_delay(no_collision, use_rts_cts)) as u64,
                    },
                ),
            )
        } else {
            (self, None)
        }
    }

    /// The window after an attempt ends.
    pub open spec fn next_window(self, tx_success: bool) -> usize {
        if tx_success {
            self.cw_min
        } else {
            doubled_window(self.cw, self.cw_max)
        }
    }

    /// Effect of the end of a transmission, with `draw` the raw random value
    /// that picks the new backoff counter.
    pub open spec fn tx_end_step(self, tx_success: bool, draw: usize) -> Node {
        let cw = self.next_window(tx_success);
        Node {
            num_success: if tx_success { (self.num_success + 1) as usize } else { self.num_success },
            num_fail: if tx_success { self.num_fail } else { (self.num_fail + 1) as usize },
            tx_bits: if tx_success { (self.tx_bits + PACKET_PAYLOAD) as u64 } else { self.tx_bits },
            cw,
            backoff: draw % cw,
            state: NodeStateType::WaitChannel,
            ..self
        }
    }

    /// Whether the statistics can take one more sample without overflow.
    pub open spec fn can_record(self) -> bool {
        &&& self.num_success < usize::MAX
        &&& self.num_fail < usize::MAX
        &&& self.tx_bits + PACKET_PAYLOAD <= u64::MAX
    }

    /// A station whose initial backoff is `draw` reduced into `[0, cw_min)`.
    pub fn new_with_draw(id: usize, cw_min: usize, cw_max: usize, draw: usize) -> (r: Node)
        requires
            0 < cw_min <= cw_max,
        ensures
            r == Node::initial(id, cw_min, cw_max, draw % cw_min),
            r.wf(),
    {
        Node {
            id,
            backoff: draw % cw_min,
            state: NodeStateType::Backoff,
            num_success: 0,
            num_fail: 0,
            cw: cw_min,
            cw_min,
            cw_max,
            tx_bits: 0,
        }
    }

    /// A station with a random initial backoff in `[0, cw_min)`.
    pub fn new(id: usize, cw_min: usize, cw_max: usize) -> (r: Node)
        requires
            0 < cw_min <= cw_max,
        ensures
            r == Node::initial(id, cw_min, cw_max, r.backoff),
            r.backoff < cw_min,
            r.wf(),
    {
        Node::new_with_draw(id, cw_min, cw_max, random_draw())
    }

    pub fn get_id(&self) -> (r: usize)
        ensures
            r == self.id,
    {
        self.id
    }

    /// (successes, failures) so far.
    pub fn get_stats(&self) -> (r: (usize, usize))
        ensures
            r == (self.num_success, self.num_fail),
    {
        (self.num_success, self.num_fail)
    }

    pub fn get_tx_bits(&self) -> (r: u64)
        ensures
            r == self.tx_bits,
    {
        self.tx_bits
    }

    pub fn get_state(&self) -> (r: NodeStateType)
        ensures
            r == self.state,
    {
        self.state
    }

    pub fn get_backoff(&self) -> (r: usize)
        ensures
            r == self.backoff,
    {
        self.backoff
    }

    pub fn get_cw(&self) -> (r: usize)
        ensures
            r == self.cw,
    {
        self.cw
    }

    /// What a backoff tick now would be refused for, if anything.
    pub fn backoff_violation(&self) -> (r: Option<Violation>)
        ensures
            r == self.tick_violation(),
    {
        match self.state {
            NodeStateType::InTx => Some(Violation::BackoffWhileInTx),
            _ => None,
        }
    }

    /// What a transmission start now would be refused for, if anything.
    pub fn tx_start_violation(&self) -> (r: Option<Violation>)
        ensures
            r == self.start_violation(),
            r.is_none() == self.can_start(),
    {
        if self.backoff != 0 {
            Some(Violation::BackoffNotExhausted)
        } else if self.state != NodeStateType::InTx {
            Some(Violation::NotInTx)
        } else {
            None
        }
    }

    /// Handles a backoff-decrement tick. In Backoff the counter goes down by one
    /// (next tick one slot later) or, when exhausted, the station moves to InTx
    /// and asks to start after the propagation delay. A frozen (WaitChannel)
    /// station ignores the tick; a transmitting one rejects it.
    pub fn backoff(&mut self, time: u64) -> (r: Option<Event>)
        requires
            time <= TIME_HORIZON,
        ensures
            (*final(self), r) == old(self).backoff_step(time),
            old(self).wf() ==> final(self).wf(),
    {
        match self.state {
            NodeStateType::Backoff => {
                if self.backoff > 0 {
                    self.backoff = self.backoff - 1;
                    Some(Event::new(EventType::DecrementBackoff, self.id, time + SLOT_TIME))
                } else {
                    self.state = NodeStateType::InTx;
                    Some(Event::new(EventType::StartTx, self.id, time + PROP_DELAY))
                }
            },
            NodeStateType::WaitChannel => None,
            NodeStateType::InTx => None,
        }
    }

    /// Starts a transmission: when the backoff is exhausted and the station is
    /// InTx, asks for its end after the transmission duration; otherwise the
    /// request is rejected. The station itself does not change.
    pub fn tx_start(&mut self, time: u64, use_rts_cts: bool) -> (r: Option<Event>)
        requires
            time <= TIME_HORIZON,
        ensures
            *final(self) == *old(self),
            r == old(self).tx_start_event(time, use_rts_cts),
    {
        if self.backoff != 0 {
            return None;
        }
        if self.state != NodeStateType::InTx {
            return None;
        }
        if !use_rts_cts {
            Some(Event::new(EventType::EndTx, self.id, time + COMMON_DURATION_BASIC))
        } else {
            Some(Event::new(EventType::EndTx, self.id, time + COMMON_DURATION_RTS_CTS))
        }
    }

    /// Tells the station whether the channel is occupied. A backing-off
    /// station freezes when it becomes occupied; a waiting one resumes its
    /// backoff after a deferral that depends on the round's outcome and the
    /// access mode when it becomes free.
    pub fn notify_channel(
        &mut self,
        time: u64,
        channel_occupied: bool,
        no_collision: bool,
        use_rts_cts: bool,
    ) -> (r: Option<Event>)
        requires
            time <= TIME_HORIZON,
        ensures
            (*final(self), r) == old(self).notify_step(
                time,
                channel_occupied,
                no_collision,
                use_rts_cts,
            ),
            old(self).wf() ==> final(self).wf(),
    {
        if channel_occupied && self.state == NodeStateType::Backoff {
            self.state = NodeStateType::WaitChannel;
            None
        } else if !channel_occupied && self.state == NodeStateType::WaitChannel {
            self.state = NodeStateType::Backoff;
            let delay: u64 = if !use_rts_cts {
                if no_collision {
                    SUCCESS_DURATION_BASIC
                } else {
                    COLLISION_DURATION_BASIC
                }
            } else {
                if no_collision {
                    SUCCESS_DURATION_RTS_CTS
                } else {
                    COLLISION_DURATION_RTS_CTS
                }
            };
            Some(Event::new(EventType::DecrementBackoff, self.id, time + delay))
        } else {
            None
        }
    }

    /// Records the outcome of a transmission and redraws the backoff counter
    /// from `draw`: a success counts one payload and resets the window to its
    /// minimum, a failure doubles it up to the maximum. The station then waits
    /// for the channel.
    pub fn tx_end_with_draw(&mut self, tx_success: bool, draw: usize)
        requires
            old(self).wf(),
            old(self).can_record(),
        ensures
            *final(self) == old(self).tx_end_step(tx_success, draw),
            final(self).wf(),
    {
        if tx_success {
            self.num_success = self.num_success + 1;
            self.tx_bits = self.tx_bits + PACKET_PAYLOAD;
            self.cw = self.cw_min;
        } else {
            self.num_fail = self.num_fail + 1;
            if self.cw > self.cw_max / 2 {
                self.cw = self.cw_max;
            } else {
                self.cw = self.cw * 2;
            }
        }
        self.backoff = draw % self.cw;
        self.state = NodeStateType::WaitChannel;
    }

    /// Records the outcome of a transmission, drawing the new backoff counter
    /// at random in `[0, cw)`.
    pub fn tx_end(&mut self, tx_success: bool)
        requires
            old(self).wf(),
            old(self).can_record(),
        ensures
            *final(self) == old(self).tx_end_step(tx_success, final(self).backoff),
            final(self).backoff < final(self).cw,
            final(self).wf(),
    {
        let draw = random_draw();
        self.tx_end_with_draw(tx_success, draw);
        proof {
            vstd::arithmetic::div_mod::lemma_small_mod(self.backoff as nat, self.cw as nat);
        }
    }
}

} // verus!
