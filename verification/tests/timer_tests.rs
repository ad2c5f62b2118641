use rcompute::components::timer::Deadline;

#[test]
fn check_expiration() {
    let start: u64 = 1_000;
    let deadline = Deadline::new(1, 100, start);
    assert!(!deadline.is_expired(start));
    assert!(deadline.is_expired(start + 110));
}

#[test]
fn deadline_passes_at_its_own_moment_and_stays_passed() {
    let deadline = Deadline::new(3, 100, 50);
    assert_eq!(deadline.task_id, 3);
    assert_eq!(deadline.when(), 150);
    assert!(!deadline.is_expired(149));
    assert!(deadline.is_expired(150));
    assert!(deadline.is_expired(10_000));
}

#[test]
fn earlier_deadline_outranks_later_one() {
    let early = Deadline::new(1, 10, 0);
    let late = Deadline::new(2, 20, 0);
    assert!(early.outranks(&late));
    assert!(!late.outranks(&early));
    assert!(!early.outranks(&early));
}

#[test]
fn check_values() {
    let deadline = Deadline::new(1, 1, 100);
    assert_eq!(deadline.task_id, 1);
    assert_eq!(deadline.when(), 101);
}

#[test]
fn deadline_past_the_last_moment_is_the_last_moment() {
    let deadline = Deadline::new(4, u64::MAX, 10);
    assert_eq!(deadline.task_id, 4);
    assert_eq!(deadline.when, u64::MAX);
    assert!(!deadline.is_expired(u64::MAX - 1));
    assert!(deadline.is_expired(u64::MAX));
}
