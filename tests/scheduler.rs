use dcf_simulator::node::PACKET_PAYLOAD;
use dcf_simulator::scheduler::{Event, EventType, Scheduler, NUM_STATISTICS};

/// A fixed pseudo-random sequence, so that runs are reproducible.
fn draws(seed: u64, len: usize) -> Vec<usize> {
    let mut x = seed;
    let mut v = Vec::new();
    for _ in 0..len {
        x = x.wrapping_mul(6364136223846793005).wrapping_add(1442695040888963407);
        v.push((x >> 33) as usize);
    }
    v
}

fn success_ratio(s: &Scheduler) -> f64 {
    let (mut suc, mut all) = (0usize, 0usize);
    for i in 0..s.node_count() {
        let (a, b) = s.get_node(i).get_stats();
        suc += a;
        all += a + b;
    }
    suc as f64 / all as f64
}

#[test]
fn event_new_and_getters() {
    let e = Event::new(EventType::StartTx, 5, 42);
    assert_eq!(e.get_node_id(), 5);
    assert_eq!(e.get_time(), 42);
    assert_eq!(e.get_event_type(), EventType::StartTx);
}

#[test]
fn new_builds_stations_and_first_ticks() {
    let s = Scheduler::new(7, false, 32, 256);
    assert_eq!(s.node_count(), 7);
    assert_eq!(s.pending_events(), 7);
    assert_eq!(s.get_nodes_in_tx(), 0);
    assert_eq!(s.get_time(), 0);
    assert!(!s.is_stopped());
    for i in 0..7 {
        assert_eq!(s.get_node(i).get_id(), i);
        assert!(s.get_node(i).get_backoff() < 32);
    }
}

#[test]
fn first_step_takes_first_earliest_event() {
    let mut s = Scheduler::new_with_draws(3, false, 32, 256, &vec![4, 0, 9]);
    assert!(s.step(0));
    assert_eq!(s.get_time(), 1);
    // Station 0 ticked first: its counter went from 4 to 3.
    assert_eq!(s.get_node(0).get_backoff(), 3);
    assert_eq!(s.get_node(1).get_backoff(), 0);
}

#[test]
fn empty_scheduler_is_exhausted() {
    let mut s = Scheduler::new_with_draws(0, false, 32, 256, &vec![]);
    assert!(!s.step(0));
    assert!(!s.handle_next_event());
}

#[test]
fn lone_transmitter_succeeds() {
    let mut s = Scheduler::new_with_draws(2, false, 16, 64, &vec![0, 5]);
    while s.get_node(0).get_stats() == (0, 0) {
        assert!(s.step(3));
    }
    assert_eq!(s.get_node(0).get_stats(), (1, 0));
    assert_eq!(s.get_node(0).get_tx_bits(), PACKET_PAYLOAD);
}

#[test]
fn simultaneous_transmitters_both_fail() {
    let mut s = Scheduler::new_with_draws(2, false, 16, 64, &vec![3, 3]);
    let mut saw_two = false;
    while s.get_node(0).get_stats() == (0, 0) || s.get_node(1).get_stats() == (0, 0) {
        assert!(s.step(7));
        if s.get_nodes_in_tx() == 2 {
            saw_two = true;
        }
    }
    assert!(saw_two);
    assert_eq!(s.violation_count(), 0);
    assert_eq!(s.get_node(0).get_stats(), (0, 1));
    assert_eq!(s.get_node(1).get_stats(), (0, 1));
    assert_eq!(s.get_node(0).get_cw(), 32);
    assert_eq!(s.get_node(1).get_cw(), 32);
}

#[test]
fn single_station_success_probability_is_one() {
    let mut s = Scheduler::new(1, false, 32, 256);
    while s.handle_next_event() {}
    assert!(s.is_stopped());
    let (suc, fail) = s.get_node(0).get_stats();
    assert_eq!(fail, 0);
    assert_eq!(suc, NUM_STATISTICS + 1);
    assert_eq!(success_ratio(&s), 1.0);
    assert_eq!(s.total_tx_bits(), (suc as u128) * (PACKET_PAYLOAD as u128));
}

#[test]
fn runs_with_same_draws_are_identical() {
    let init = draws(11, 8);
    let steps = draws(12, 100_000);
    let mut a = Scheduler::new_with_draws(8, true, 16, 128, &init);
    let mut b = Scheduler::new_with_draws(8, true, 16, 128, &init);
    let ra = a.run_with_draws(&steps);
    let rb = b.run_with_draws(&steps);
    assert_eq!(ra, rb);
    assert_eq!(a.get_time(), b.get_time());
    for i in 0..8 {
        assert_eq!(a.get_node(i), b.get_node(i));
    }
}

#[test]
fn statistics_consistent_after_run() {
    let mut s = Scheduler::new_with_draws(10, false, 32, 256, &draws(3, 10));
    s.run_with_draws(&draws(4, 200_000));
    let mut total: u128 = 0;
    let mut ends = 0;
    for i in 0..10 {
        let n = s.get_node(i);
        let (suc, fail) = n.get_stats();
        assert_eq!(n.get_tx_bits(), suc as u64 * PACKET_PAYLOAD);
        assert!(n.get_cw() >= 32 && n.get_cw() <= 256);
        total += n.get_tx_bits() as u128;
        ends += suc + fail;
    }
    assert!(ends > 0);
    assert_eq!(s.total_tx_bits(), total);
}

#[test]
fn more_stations_do_not_raise_success_probability() {
    let mut few = Scheduler::new_with_draws(10, false, 32, 256, &draws(5, 10));
    let mut many = Scheduler::new_with_draws(50, false, 32, 256, &draws(6, 50));
    few.run_with_draws(&draws(7, 400_000));
    many.run_with_draws(&draws(8, 400_000));
    assert!(success_ratio(&many) <= success_ratio(&few));
}

#[test]
fn active_count_never_exceeds_station_count() {
    let mut s = Scheduler::new_with_draws(5, false, 4, 16, &draws(9, 5));
    for d in draws(10, 50_000) {
        if !s.step(d) {
            break;
        }
        assert!(s.get_nodes_in_tx() <= 5);
        let mut in_tx = 0;
        for i in 0..5 {
            if s.get_node(i).get_state() == dcf_simulator::node::NodeStateType::InTx {
                in_tx += 1;
            }
        }
        assert!(s.get_nodes_in_tx() <= in_tx);
    }
}
