use dcf_simulator::node::{
    Node, NodeStateType, Violation, COLLISION_DURATION_BASIC, COLLISION_DURATION_RTS_CTS,
    COMMON_DURATION_BASIC, COMMON_DURATION_RTS_CTS, PACKET_PAYLOAD, PROP_DELAY, SLOT_TIME,
    SUCCESS_DURATION_BASIC, SUCCESS_DURATION_RTS_CTS,
};
use dcf_simulator::scheduler::{Event, EventType};

#[test]
fn timing_constants_have_expected_values() {
    assert_eq!(COMMON_DURATION_BASIC, 8584);
    assert_eq!(COMMON_DURATION_RTS_CTS, 288);
    assert_eq!(SUCCESS_DURATION_BASIC, 396);
    assert_eq!(SUCCESS_DURATION_RTS_CTS, 9276);
    assert_eq!(COLLISION_DURATION_BASIC, 128);
    assert_eq!(COLLISION_DURATION_RTS_CTS, 128);
}

#[test]
fn new_with_draw_reduces_draw_into_window() {
    let n = Node::new_with_draw(3, 32, 256, 77);
    assert_eq!(n.get_id(), 3);
    assert_eq!(n.get_backoff(), 13);
    assert_eq!(n.get_cw(), 32);
    assert_eq!(n.get_state(), NodeStateType::Backoff);
    assert_eq!(n.get_stats(), (0, 0));
    assert_eq!(n.get_tx_bits(), 0);
}

#[test]
fn new_draws_backoff_below_cw_min() {
    for i in 0..200 {
        let n = Node::new(i, 16, 128);
        assert!(n.get_backoff() < 16);
        assert_eq!(n.get_state(), NodeStateType::Backoff);
        assert_eq!(n.get_cw(), 16);
    }
}

#[test]
fn backoff_tick_decrements_and_asks_next_slot() {
    let mut n = Node::new_with_draw(1, 32, 256, 2);
    let e = n.backoff(100).unwrap();
    assert_eq!(n.get_backoff(), 1);
    assert_eq!(e, Event::new(EventType::DecrementBackoff, 1, 100 + SLOT_TIME));
}

#[test]
fn exhausted_backoff_moves_to_in_tx() {
    let mut n = Node::new_with_draw(4, 32, 256, 0);
    let e = n.backoff(500).unwrap();
    assert_eq!(n.get_state(), NodeStateType::InTx);
    assert_eq!(e.get_event_type(), EventType::StartTx);
    assert_eq!(e.get_node_id(), 4);
    assert_eq!(e.get_time(), 500 + PROP_DELAY);
    // A tick delivered while transmitting is rejected.
    let before = n;
    assert_eq!(n.backoff(600), None);
    assert_eq!(n, before);
}

#[test]
fn backoff_tick_ignored_while_waiting() {
    let mut n = Node::new_with_draw(0, 32, 256, 5);
    assert_eq!(n.notify_channel(10, true, false, false), None);
    assert_eq!(n.get_state(), NodeStateType::WaitChannel);
    assert_eq!(n.backoff(20), None);
    assert_eq!(n.get_backoff(), 5);
}

#[test]
fn tx_start_basic_and_rts_durations() {
    let mut n = Node::new_with_draw(2, 32, 256, 0);
    n.backoff(0);
    let e = n.tx_start(1, false).unwrap();
    assert_eq!(e, Event::new(EventType::EndTx, 2, 1 + 8584));
    let e = n.tx_start(1, true).unwrap();
    assert_eq!(e, Event::new(EventType::EndTx, 2, 1 + 288));
}

#[test]
fn tx_start_rejected_with_backoff_left_or_wrong_state() {
    let mut n = Node::new_with_draw(2, 32, 256, 3);
    assert_eq!(n.tx_start(1, false), None);
    let mut m = Node::new_with_draw(2, 32, 256, 0);
    // backoff is 0 but the station is still in Backoff.
    assert_eq!(m.tx_start(1, false), None);
    assert_eq!(m.get_state(), NodeStateType::Backoff);
}

#[test]
fn channel_free_resumes_backoff_with_outcome_delay() {
    let cases = [
        (true, false, SUCCESS_DURATION_BASIC),
        (false, false, COLLISION_DURATION_BASIC),
        (true, true, SUCCESS_DURATION_RTS_CTS),
        (false, true, COLLISION_DURATION_RTS_CTS),
    ];
    for (ok, rts, delay) in cases {
        let mut n = Node::new_with_draw(7, 32, 256, 9);
        n.notify_channel(0, true, false, false);
        let e = n.notify_channel(1000, false, ok, rts).unwrap();
        assert_eq!(n.get_state(), NodeStateType::Backoff);
        assert_eq!(e, Event::new(EventType::DecrementBackoff, 7, 1000 + delay));
        // A second free notification does nothing.
        assert_eq!(n.notify_channel(1000, false, ok, rts), None);
    }
}

#[test]
fn channel_notification_leaves_transmitter_alone() {
    let mut n = Node::new_with_draw(7, 32, 256, 0);
    n.backoff(0);
    assert_eq!(n.notify_channel(1, true, false, false), None);
    assert_eq!(n.notify_channel(1, false, true, false), None);
    assert_eq!(n.get_state(), NodeStateType::InTx);
}

#[test]
fn tx_end_success_counts_payload_and_resets_window() {
    let mut n = Node::new_with_draw(0, 32, 256, 0);
    n.tx_end_with_draw(false, 0);
    assert_eq!(n.get_cw(), 64);
    n.tx_end_with_draw(true, 100);
    assert_eq!(n.get_stats(), (1, 1));
    assert_eq!(n.get_tx_bits(), PACKET_PAYLOAD);
    assert_eq!(n.get_cw(), 32);
    assert_eq!(n.get_backoff(), 100 % 32);
    assert_eq!(n.get_state(), NodeStateType::WaitChannel);
}

#[test]
fn tx_end_failure_doubles_window_up_to_max() {
    let mut n = Node::new_with_draw(0, 32, 200, 0);
    n.tx_end_with_draw(false, 1000);
    assert_eq!(n.get_cw(), 64);
    assert_eq!(n.get_backoff(), 1000 % 64);
    n.tx_end_with_draw(false, 1000);
    assert_eq!(n.get_cw(), 128);
    n.tx_end_with_draw(false, 1000);
    assert_eq!(n.get_cw(), 200);
    assert_eq!(n.get_backoff(), 1000 % 200);
    n.tx_end_with_draw(false, 1000);
    assert_eq!(n.get_cw(), 200);
    assert_eq!(n.get_stats(), (0, 4));
    assert_eq!(n.get_tx_bits(), 0);
}

#[test]
fn tx_end_random_backoff_within_window() {
    let mut n = Node::new(0, 8, 64);
    for k in 0..100 {
        n.tx_end(k % 3 == 0);
        assert!(n.get_backoff() < n.get_cw());
        assert!(n.get_cw() >= 8 && n.get_cw() <= 64);
    }
}

#[test]
fn state_and_event_names() {
    assert_eq!(NodeStateType::InTx.as_str(), "In Tx");
    assert_eq!(NodeStateType::WaitChannel.as_str(), "Wait Channel");
    assert_eq!(NodeStateType::Backoff.as_str(), "Backoff");
    assert_eq!(EventType::DecrementBackoff.as_str(), "Decrement Backoff");
    assert_eq!(EventType::StartTx.as_str(), "Start TX");
    assert_eq!(EventType::EndTx.as_str(), "End TX");
}

#[test]
fn refused_requests_name_the_violation() {
    let mut n = Node::new_with_draw(1, 32, 256, 3);
    assert_eq!(n.backoff_violation(), None);
    assert_eq!(n.tx_start_violation(), Some(Violation::BackoffNotExhausted));
    let mut m = Node::new_with_draw(1, 32, 256, 0);
    assert_eq!(m.tx_start_violation(), Some(Violation::NotInTx));
    m.backoff(0);
    assert_eq!(m.tx_start_violation(), None);
    assert_eq!(m.backoff_violation(), Some(Violation::BackoffWhileInTx));
    n.notify_channel(0, true, false, false);
    assert_eq!(n.backoff_violation(), None);
}
