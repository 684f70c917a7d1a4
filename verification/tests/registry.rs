use write_router::health::{evaluate, no_probes, record_probe, HealthStatus, ProbeStats};
use write_router::prober::{ready_for_traffic, HealthProber};
use write_router::registry::{EndpointRegistry, MembershipEvent};

fn s(x: &str) -> String {
    x.to_string()
}

#[test]
fn threshold_is_twenty_percent() {
    let one_in_ten = ProbeStats { successes: 1, attempts: 10, window_start: 0 };
    let two_in_ten = ProbeStats { successes: 2, attempts: 10, window_start: 0 };
    let three_in_ten = ProbeStats { successes: 3, attempts: 10, window_start: 0 };
    assert_eq!(evaluate(one_in_ten), HealthStatus::Unhealthy);
    assert_eq!(evaluate(two_in_ten), HealthStatus::Healthy);
    assert_eq!(evaluate(three_in_ten), HealthStatus::Healthy);
    assert_eq!(evaluate(no_probes()), HealthStatus::Unknown);
    assert_eq!(
        evaluate(ProbeStats { successes: 0, attempts: 1, window_start: 0 }),
        HealthStatus::Unhealthy
    );
    assert_eq!(
        evaluate(ProbeStats { successes: u64::MAX, attempts: u64::MAX, window_start: 0 }),
        HealthStatus::Healthy
    );
    assert_eq!(
        evaluate(ProbeStats { successes: 19, attempts: 100, window_start: 0 }),
        HealthStatus::Unhealthy
    );
}

#[test]
fn probes_are_counted_within_the_window() {
    let first = record_probe(no_probes(), true, 5000, 1000);
    assert_eq!(first, ProbeStats { successes: 1, attempts: 1, window_start: 5000 });
    let second = record_probe(first, false, 5999, 1000);
    assert_eq!(second, ProbeStats { successes: 1, attempts: 2, window_start: 5000 });
    let rolled = record_probe(second, false, 6000, 1000);
    assert_eq!(rolled, ProbeStats { successes: 0, attempts: 1, window_start: 6000 });
    let back = record_probe(rolled, true, 10, 1000);
    assert_eq!(back, ProbeStats { successes: 1, attempts: 1, window_start: 10 });
    let full = ProbeStats { successes: 7, attempts: u64::MAX, window_start: 0 };
    assert_eq!(
        record_probe(full, true, 1, 1000),
        ProbeStats { successes: 1, attempts: 1, window_start: 1 }
    );
    let odd = ProbeStats { successes: u64::MAX, attempts: 3, window_start: 0 };
    assert_eq!(
        record_probe(odd, false, 1, 1000),
        ProbeStats { successes: 0, attempts: 1, window_start: 1 }
    );
}

#[test]
fn added_endpoint_starts_unknown_at_the_end() {
    let mut r = EndpointRegistry::new(1000);
    r.apply_membership_event(MembershipEvent::Add(s("http://a:8083")));
    r.apply_membership_event(MembershipEvent::Add(s("http://b:8083")));
    let snap = r.snapshot();
    assert_eq!(snap.len(), 2);
    assert_eq!(snap[0].address, "http://a:8083");
    assert_eq!(snap[1].address, "http://b:8083");
    assert_eq!(snap[0].status, HealthStatus::Unknown);
    assert_eq!(snap[1].stats, no_probes());
    assert_eq!(r.len(), 2);
    assert!(r.contains(&s("http://a:8083")));
    assert!(!r.contains(&s("http://c:8083")));
}

#[test]
fn adding_twice_and_removing_unknown_change_nothing() {
    let mut r = EndpointRegistry::new(1000);
    r.apply_membership_event(MembershipEvent::Add(s("a")));
    assert!(r.record_probe_result(&s("a"), true, 1));
    r.apply_membership_event(MembershipEvent::Add(s("a")));
    r.apply_membership_event(MembershipEvent::Remove(s("zzz")));
    let snap = r.snapshot();
    assert_eq!(snap.len(), 1);
    assert_eq!(snap[0].status, HealthStatus::Healthy);
    assert_eq!(snap[0].stats.attempts, 1);
}

#[test]
fn removed_endpoint_is_gone_and_order_is_kept() {
    let mut r = EndpointRegistry::with_addresses(&vec![s("a"), s("b"), s("c"), s("b")], 1000);
    assert_eq!(r.len(), 3);
    r.apply_membership_event(MembershipEvent::Remove(s("b")));
    let snap = r.snapshot();
    assert_eq!(snap.len(), 2);
    assert_eq!(snap[0].address, "a");
    assert_eq!(snap[1].address, "c");
    assert!(!r.contains(&s("b")));
    r.apply_membership_event(MembershipEvent::Add(s("b")));
    let again = r.snapshot();
    assert_eq!(again[2].address, "b");
    assert_eq!(again[2].status, HealthStatus::Unknown);
}

#[test]
fn one_in_ten_is_unhealthy_and_three_in_ten_is_healthy() {
    let mut r = EndpointRegistry::with_addresses(&vec![s("bad"), s("good")], 1000);
    for i in 0..10u64 {
        assert!(r.record_probe_result(&s("bad"), i == 0, 100 + i));
        assert!(r.record_probe_result(&s("good"), i < 3, 100 + i));
    }
    let snap = r.snapshot();
    assert_eq!(snap[0].stats, ProbeStats { successes: 1, attempts: 10, window_start: 100 });
    assert_eq!(snap[0].status, HealthStatus::Unhealthy);
    assert_eq!(snap[1].stats, ProbeStats { successes: 3, attempts: 10, window_start: 100 });
    assert_eq!(snap[1].status, HealthStatus::Healthy);
}

#[test]
fn endpoint_recovers_in_a_new_window() {
    let mut r = EndpointRegistry::with_addresses(&vec![s("a")], 1000);
    for i in 0..10u64 {
        r.record_probe_result(&s("a"), false, i);
    }
    assert_eq!(r.snapshot()[0].status, HealthStatus::Unhealthy);
    r.record_probe_result(&s("a"), true, 1000);
    let snap = r.snapshot();
    assert_eq!(snap[0].status, HealthStatus::Healthy);
    assert_eq!(snap[0].stats, ProbeStats { successes: 1, attempts: 1, window_start: 1000 });
}

#[test]
fn probe_of_unknown_address_changes_nothing() {
    let mut r = EndpointRegistry::with_addresses(&vec![s("a")], 1000);
    assert!(!r.record_probe_result(&s("nobody"), true, 5));
    let snap = r.snapshot();
    assert_eq!(snap.len(), 1);
    assert_eq!(snap[0].status, HealthStatus::Unknown);
}

#[test]
fn snapshot_does_not_follow_later_changes() {
    let mut r = EndpointRegistry::with_addresses(&vec![s("a")], 1000);
    let before = r.snapshot();
    r.record_probe_result(&s("a"), false, 5);
    r.apply_membership_event(MembershipEvent::Add(s("b")));
    assert_eq!(before.len(), 1);
    assert_eq!(before[0].status, HealthStatus::Unknown);
    assert_eq!(r.snapshot().len(), 2);
}

#[test]
fn prober_keeps_to_its_budget_and_goes_round() {
    let mut p = HealthProber::new(3, 1000);
    assert_eq!(p.next_probe(2, 0), Some(0));
    assert_eq!(p.next_probe(2, 10), Some(1));
    assert_eq!(p.next_probe(2, 20), Some(0));
    assert_eq!(p.sent_this_second(), 3);
    assert_eq!(p.next_probe(2, 999), None);
    assert_eq!(p.next_probe(2, 1000), Some(1));
    assert_eq!(p.sent_this_second(), 1);
    assert_eq!(p.next_probe(0, 1001), None);
    assert_eq!(p.next_probe(5, 1002), Some(0));
    assert_eq!(p.next_probe(5, 1003), Some(1));
    assert_eq!(p.next_probe(5, 1004), None);
}

#[test]
fn prober_without_budget_never_probes() {
    let mut p = HealthProber::new(0, 1000);
    assert_eq!(p.next_probe(3, 0), None);
    assert_eq!(p.next_probe(3, 5000), None);
}

#[test]
fn prober_restarts_its_second_when_the_clock_goes_back() {
    let mut p = HealthProber::new(1, 1000);
    assert_eq!(p.next_probe(3, 5000), Some(0));
    assert_eq!(p.next_probe(3, 5001), None);
    assert_eq!(p.next_probe(3, 100), Some(1));
}

#[test]
fn startup_waits_for_one_answer_unless_told_not_to() {
    let mut r = EndpointRegistry::with_addresses(&vec![s("a"), s("b")], 1000);
    assert!(!ready_for_traffic(false, &r.snapshot()));
    assert!(ready_for_traffic(true, &r.snapshot()));
    r.record_probe_result(&s("a"), false, 1);
    assert!(!ready_for_traffic(false, &r.snapshot()));
    r.record_probe_result(&s("b"), true, 2);
    assert!(ready_for_traffic(false, &r.snapshot()));
    assert!(!ready_for_traffic(false, &Vec::new()));
    assert!(ready_for_traffic(true, &Vec::new()));
}
