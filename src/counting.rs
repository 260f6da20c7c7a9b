use vstd::prelude::*;
use crate::node::{Node, NodeStateType};
use crate::scheduler::{Event, EventType};

verus! {

/// Which pending events a count takes in.
pub enum EventFilter {
    /// Every event of this kind.
    OfKind(EventType),
    /// Every StartTx or EndTx event addressed to this station.
    TxFor(int),
}

impl EventFilter {
    pub open spec fn holds(self, e: Event) -> bool {
        match self {
            EventFilter::OfKind(k) => e.event_type == k,
            EventFilter::TxFor(id) => e.node_id == id && e.event_type != EventType::DecrementBackoff,
        }
    }

    /// The filter takes in no DecrementBackoff event.
    pub open spec fn holds_tx(self) -> bool {
        match self {
            EventFilter::OfKind(k) => k != EventType::DecrementBackoff,
            EventFilter::TxFor(_) => true,
        }
    }
}

/// Number of events of `s` that `f` takes in.
pub open spec fn count_events(s: Seq<Event>, f: EventFilter) -> nat
    decreases s.len(),
{
    if s.len() == 0 {
        0
    } else {
        count_events(s.drop_last(), f) + if f.holds(s.last()) {
            1nat
        } else {
            0nat
        }
    }
}

/// Number of stations of `s` that are transmitting (state InTx).
pub open spec fn count_in_tx(s: Seq<Node>) -> nat
    decreases s.len(),
{
    if s.len() == 0 {
        0
    } else {
        count_in_tx(s.drop_last()) + if s.last().state == NodeStateType::InTx {
            1nat
        } else {
            0nat
        }
    }
}

pub open spec fn ind(b: bool) -> int {
    if b {
        1
    } else {
        0
    }
}

pub proof fn lemma_count_push(s: Seq<Event>, e: Event, f: EventFilter)
    ensures
        count_events(s.push(e), f) == count_events(s, f) + ind(f.holds(e)),
{
    assert(s.push(e).drop_last() =~= s);
}

pub proof fn lemma_count_remove(s: Seq<Event>, k: int, f: EventFilter)
    requires
        0 <= k < s.len(),
    ensures
        count_events(s.remove(k), f) == count_events(s, f) - ind(f.holds(s[k])),
    decreases s.len(),
{
    if k == s.len() - 1 {
        assert(s.remove(k) =~= s.drop_last());
    } else {
        lemma_count_remove(s.drop_last(), k, f);
        assert(s.remove(k).drop_last() =~= s.drop_last().remove(k));
        assert(s.remove(k).last() == s.last());
    }
}

pub proof fn lemma_count_le_len(s: Seq<Event>, f: EventFilter)
    ensures
        count_events(s, f) <= s.len(),
    decreases s.len(),
{
    if s.len() > 0 {
        lemma_count_le_len(s.drop_last(), f);
    }
}

/// Counts that no event of `t` enters stay the same when `t` is appended.
pub proof fn lemma_count_append_none(s: Seq<Event>, t: Seq<Event>, f: EventFilter)
    requires
        forall|j: int| 0 <= j < t.len() ==> !f.holds(#[trigger] t[j]),
    ensures
        count_events(s + t, f) == count_events(s, f),
    decreases t.len(),
{
    if t.len() > 0 {
        lemma_count_append_none(s, t.drop_last(), f);
        assert((s + t).drop_last() =~= s + t.drop_last());
        assert((s + t).last() == t.last());
    } else {
        assert(s + t =~= s);
    }
}

pub proof fn lemma_in_tx_update(s: Seq<Node>, k: int, n: Node)
    requires
        0 <= k < s.len(),
    ensures
        count_in_tx(s.update(k, n)) == count_in_tx(s) - ind(s[k].state == NodeStateType::InTx)
            + ind(n.state == NodeStateType::InTx),
    decreases s.len(),
{
    if k == s.len() - 1 {
        assert(s.update(k, n).drop_last() =~= s.drop_last());
    } else {
        lemma_in_tx_update(s.drop_last(), k, n);
        assert(s.update(k, n).drop_last() =~= s.drop_last().update(k, n));
    }
}

/// Two station lists that agree on who is transmitting count alike.
pub proof fn lemma_in_tx_same(s: Seq<Node>, t: Seq<Node>)
    requires
        s.len() == t.len(),
        forall|j: int|
            0 <= j < s.len() ==> (#[trigger] s[j].state == NodeStateType::InTx) == (t[j].state
                == NodeStateType::InTx),
    ensures
        count_in_tx(s) == count_in_tx(t),
    decreases s.len(),
{
    if s.len() > 0 {
        lemma_in_tx_same(s.drop_last(), t.drop_last());
    }
}

pub proof fn lemma_in_tx_none(s: Seq<Node>)
    requires
        forall|j: int| 0 <= j < s.len() ==> (#[trigger] s[j]).state != NodeStateType::InTx,
    ensures
        count_in_tx(s) == 0,
    decreases s.len(),
{
    if s.len() > 0 {
        lemma_in_tx_none(s.drop_last());
    }
}

pub proof fn lemma_in_tx_le_len(s: Seq<Node>)
    ensures
        count_in_tx(s) <= s.len(),
    decreases s.len(),
{
    if s.len() > 0 {
        lemma_in_tx_le_len(s.drop_last());
    }
}

} // verus!
