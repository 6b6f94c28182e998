use private_server::rotation::{Instant, TokenRotation, MAX_LIFETIME};

fn policy(minutes: Option<u8>, hours: Option<u8>, days: Option<u8>, weeks: Option<u8>) -> TokenRotation {
    TokenRotation { minutes, hours, days, weeks, remove_on_expiry: false }
}

#[test]
fn default_policy_is_one_day_without_removal() {
    let p = TokenRotation::default();
    assert_eq!(p.minutes, None);
    assert_eq!(p.hours, None);
    assert_eq!(p.days, Some(1));
    assert_eq!(p.weeks, None);
    assert!(!p.remove_on_expiry);
    assert_eq!(p.lifetime_secs(), 86400);
}

#[test]
fn lifetime_is_the_sum_of_the_set_components() {
    assert_eq!(policy(Some(1), None, None, None).lifetime_secs(), 60);
    assert_eq!(policy(None, Some(1), None, None).lifetime_secs(), 3600);
    assert_eq!(policy(None, None, Some(1), None).lifetime_secs(), 86400);
    assert_eq!(policy(None, None, None, Some(1)).lifetime_secs(), 604800);
    assert_eq!(policy(Some(1), Some(1), Some(1), Some(1)).lifetime_secs(), 694860);
    assert_eq!(policy(Some(30), Some(2), None, Some(3)).lifetime_secs(), 1800 + 7200 + 1814400);
}

#[test]
fn lifetime_without_components_is_zero() {
    assert_eq!(policy(None, None, None, None).lifetime_secs(), 0);
    assert_eq!(policy(Some(0), Some(0), Some(0), Some(0)).lifetime_secs(), 0);
}

#[test]
fn longest_lifetime() {
    assert_eq!(policy(Some(255), Some(255), Some(255), Some(255)).lifetime_secs(), 177189300);
    assert_eq!(MAX_LIFETIME, 177189300);
}

#[test]
fn expiry_at_moves_the_seconds_and_keeps_the_nanoseconds() {
    let now = Instant { secs: 1_000_000, nanos: 123 };
    let at = policy(Some(5), None, None, None).expiry_at(now);
    assert_eq!(at, Instant { secs: 1_000_300, nanos: 123 });
    let same = policy(None, None, None, None).expiry_at(now);
    assert_eq!(same, now);
    let early = Instant { secs: -10, nanos: 0 };
    assert_eq!(policy(Some(1), None, None, None).expiry_at(early), Instant { secs: 50, nanos: 0 });
}

#[test]
fn expiry_reads_the_clock() {
    let before = Instant::now();
    let at = policy(None, Some(1), None, None).expiry();
    let after = Instant::now();
    assert!(at.secs >= before.secs + 3600);
    assert!(at.secs <= after.secs + 3600);
    assert!(before.secs > 1_600_000_000);
}

#[test]
fn instants_are_ordered_by_seconds_then_nanoseconds() {
    let a = Instant { secs: 5, nanos: 10 };
    assert!(a.is_before(&Instant { secs: 6, nanos: 0 }));
    assert!(a.is_before(&Instant { secs: 5, nanos: 11 }));
    assert!(!a.is_before(&a));
    assert!(!a.is_before(&Instant { secs: 5, nanos: 9 }));
    assert!(!a.is_before(&Instant { secs: 4, nanos: 999 }));
    assert!(Instant { secs: -1, nanos: 0 }.is_before(&Instant { secs: 0, nanos: 0 }));
}
