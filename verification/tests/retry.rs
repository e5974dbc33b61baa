//! Bounded retries.

use ferrosa_cluster::controller::metrics::{
    bootstrap_silent_failure_counts, BootstrapCounters, BootstrapFailure, ContentionMetrics,
};
use ferrosa_cluster::controller::retry::{
    after_invite_attempt, after_lane_check, after_leader_poll, after_promotion_check,
    formation_deadline_secs, is_prune_tick, maintenance_interval_ms, poll_backoff,
    promotion_timeout_secs, AddressWatch, DrainStep, ElectionStep, Next, QueueDrain, QueueLook,
    RepairStep, DRAIN_DEADLINE_MS, INVITE_ATTEMPTS, JOIN_POLLS,
};

#[test]
fn invites_are_tried_ten_times() {
    let mut attempts = 0;
    while let Next::RetryAfter { ms } = after_invite_attempt(attempts, false) {
        assert_eq!(ms, 500);
        attempts += 1;
    }
    assert_eq!(attempts + 1, INVITE_ATTEMPTS);
    assert_eq!(after_invite_attempt(attempts, false), Next::GiveUp);
    assert_eq!(after_invite_attempt(attempts, true), Next::Proceed);
}

#[test]
fn polls_slow_down() {
    assert_eq!(poll_backoff(0), 100);
    assert_eq!(poll_backoff(9), 100);
    assert_eq!(poll_backoff(10), 500);
    let total: u64 = (0..JOIN_POLLS).map(poll_backoff).sum();
    assert_eq!(total, 26_000);
}

#[test]
fn lanes_are_awaited_until_the_deadline() {
    assert_eq!(after_lane_check(true, 99, 10), Next::Proceed);
    assert_eq!(after_lane_check(false, 10, 10), Next::RetryAfter { ms: 100 });
    assert_eq!(after_lane_check(false, 11, 10), Next::GiveUp);
}

#[test]
fn elections_end() {
    assert_eq!(after_leader_poll(Some(3), 0, 99, 10), ElectionStep::Elected { leader: 3 });
    assert_eq!(after_leader_poll(None, 0, 9, 10), ElectionStep::AskAgainAfter { ms: 100 });
    assert_eq!(after_leader_poll(None, 10, 9, 10), ElectionStep::AskAgainAfter { ms: 500 });
    assert_eq!(after_leader_poll(None, 0, 10, 10), ElectionStep::TimedOut);
    assert_eq!(formation_deadline_secs(None), 30);
    assert_eq!(formation_deadline_secs(Some(7)), 7);
}

#[test]
fn promotions_are_awaited() {
    assert_eq!(after_promotion_check(2, 2, 99, 10), Next::Proceed);
    assert_eq!(after_promotion_check(1, 2, 9, 10), Next::RetryAfter { ms: 500 });
    assert_eq!(after_promotion_check(1, 2, 10, 10), Next::GiveUp);
    assert_eq!(promotion_timeout_secs(None), 20);
    assert_eq!(promotion_timeout_secs(Some(7)), 2);
    assert_eq!(promotion_timeout_secs(Some(90)), 30);
}

/// A change that arrives between two empty looks starts the count again.
#[test]
fn drain_needs_empty_looks_in_a_row() {
    let mut d = QueueDrain::start(1_000);
    assert_eq!(d.deadline, 1_000 + DRAIN_DEADLINE_MS);
    assert_eq!(d.record(QueueLook::Processed { ok: true }), DrainStep::LookAgain);
    assert_eq!(d.record(QueueLook::Empty), DrainStep::LookAgainAfter { ms: 50 });
    assert_eq!(d.record(QueueLook::Empty), DrainStep::LookAgainAfter { ms: 50 });
    assert_eq!(d.record(QueueLook::Processed { ok: false }), DrainStep::LookAgain);
    for _ in 0..2 {
        d.record(QueueLook::Empty);
        assert!(d.wants_look(1_100));
    }
    d.record(QueueLook::Empty);
    assert!(!d.wants_look(1_100));
    assert_eq!(d.replayed, 1, "a change that failed is not counted as replayed");
}

#[test]
fn drain_ends_with_its_senders_and_its_time() {
    let mut d = QueueDrain::start(0);
    assert!(d.wants_look(DRAIN_DEADLINE_MS - 1));
    assert!(!d.wants_look(DRAIN_DEADLINE_MS));
    assert_eq!(d.record(QueueLook::Disconnected), DrainStep::Done);
    assert!(!d.wants_look(0));
}

#[test]
fn addresses_are_right_twice() {
    let mut w = AddressWatch::start();
    assert_eq!(w.record(true, true), RepairStep::Repair);
    assert_eq!(w.record(true, false), RepairStep::Wait);
    assert_eq!(w.record(false, false), RepairStep::Wait);
    assert_eq!(w.record(true, false), RepairStep::Wait);
    assert_eq!(w.record(true, false), RepairStep::Done);
}

#[test]
fn maintenance_is_paced() {
    assert_eq!(maintenance_interval_ms(None), 100);
    assert_eq!(maintenance_interval_ms(Some("nonsense")), 100);
    assert_eq!(maintenance_interval_ms(Some("0")), 1);
    assert_eq!(maintenance_interval_ms(Some("250")), 250);
    assert!(is_prune_tick(0, 1_000));
    assert!(!is_prune_tick(59, 1_000));
    assert!(is_prune_tick(60, 1_000));
    assert!(is_prune_tick(7, 120_000), "an interval above a minute prunes at every tick");
}

#[test]
fn failures_are_counted_by_kind() {
    let mut c = BootstrapCounters::new();
    c.record(BootstrapFailure::NoSubscribers);
    c.record(BootstrapFailure::InitializeFailed);
    c.record(BootstrapFailure::InitializeFailed);
    c.record(BootstrapFailure::ElectionTimedOut);
    assert_eq!(bootstrap_silent_failure_counts(&c), (1, 2, 1));
    c.record(BootstrapFailure::ReducedDurability);
    assert_eq!(bootstrap_silent_failure_counts(&c), (1, 2, 1));
    assert_eq!(c.formation_reduced_durability, 1);

    let mut m = ContentionMetrics::default();
    m.record_guard_hold(40);
    m.record_guard_hold(2);
    assert_eq!(m.transition_guard_acquires, 2);
    assert_eq!(m.transition_guard_hold_ns, 42);
}
