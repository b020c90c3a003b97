use jrow_server::retention::select_expired;
use jrow_server::RetentionPolicy;
use std::time::Duration;

#[test]
fn test_unlimited_policy() {
    let policy = RetentionPolicy::unlimited();
    assert!(!policy.has_limits());
    assert!(policy.should_retain_by_age(0, u64::MAX));
    assert!(policy.should_retain_by_count(usize::MAX));
    assert!(policy.should_retain_by_size(usize::MAX));
}

#[test]
fn test_age_based_retention() {
    let policy = RetentionPolicy::by_age(Duration::from_secs(3600));

    let now = 10000;
    let one_hour_ago = now - 3600;
    let two_hours_ago = now - 7200;

    assert!(policy.should_retain_by_age(one_hour_ago, now));
    assert!(policy.should_retain_by_age(now, now));
    assert!(!policy.should_retain_by_age(two_hours_ago, now));
}

#[test]
fn test_count_based_retention() {
    let policy = RetentionPolicy::by_count(100);

    assert!(policy.should_retain_by_count(50));
    assert!(policy.should_retain_by_count(100));
    assert!(!policy.should_retain_by_count(101));
}

#[test]
fn test_size_based_retention() {
    let policy = RetentionPolicy::by_size(1024 * 1024);

    assert!(policy.should_retain_by_size(512 * 1024));
    assert!(policy.should_retain_by_size(1024 * 1024));
    assert!(!policy.should_retain_by_size(2 * 1024 * 1024));
}

#[test]
fn test_combined_policy() {
    let policy = RetentionPolicy {
        max_age: Some(Duration::from_secs(3600)),
        max_count: Some(1000),
        max_bytes: Some(10 * 1024 * 1024),
    };

    assert!(policy.has_limits());
}

#[test]
fn future_message_has_age_zero() {
    let policy = RetentionPolicy::by_age(Duration::from_secs(0));
    assert!(policy.should_retain_by_age(500, 100));
    assert!(!policy.should_retain_by_age(99, 100));
}

#[test]
fn default_policy_is_unlimited() {
    let p = RetentionPolicy::default();
    assert!(!p.has_limits());
}

#[test]
fn count_policy_deletes_the_oldest_beyond_the_limit() {
    let msgs = vec![(1u64, 10usize), (2, 10), (3, 10), (4, 10), (5, 10)];
    let sel = select_expired(&RetentionPolicy::by_count(3), 100, &msgs);
    assert_eq!(sel.delete, vec![true, true, false, false, false]);
    assert_eq!(sel.deleted_count, 2);
}

#[test]
fn size_policy_keeps_the_newest_that_fit() {
    let msgs = vec![(1u64, 40usize), (2, 30), (3, 20), (4, 10)];
    let sel = select_expired(&RetentionPolicy::by_size(35), 100, &msgs);
    assert_eq!(sel.delete, vec![true, true, false, false]);
    assert_eq!(sel.remaining_bytes, 30);
    assert_eq!(sel.deleted_count, 2);
}

#[test]
fn age_policy_deletes_old_messages_only() {
    let msgs = vec![(10u64, 1usize), (95, 1), (50, 1), (100, 1)];
    let sel = select_expired(&RetentionPolicy::by_age(Duration::from_secs(10)), 100, &msgs);
    assert_eq!(sel.delete, vec![true, false, true, false]);
}

#[test]
fn unlimited_policy_deletes_nothing() {
    let msgs = vec![(0u64, 1000usize), (1, 5)];
    let sel = select_expired(&RetentionPolicy::unlimited(), u64::MAX, &msgs);
    assert_eq!(sel.delete, vec![false, false]);
    assert_eq!(sel.deleted_count, 0);
    assert_eq!(sel.remaining_bytes, 1005);
}

#[test]
fn combined_age_and_count_counts_only_count_deletions() {
    // The first message is too old; the count limit still sees five messages.
    let msgs = vec![(0u64, 1usize), (95, 1), (96, 1), (97, 1), (98, 1)];
    let policy = RetentionPolicy {
        max_age: Some(Duration::from_secs(10)),
        max_count: Some(3),
        max_bytes: None,
    };
    let sel = select_expired(&policy, 100, &msgs);
    assert_eq!(sel.delete, vec![true, true, false, false, false]);
    assert_eq!(sel.deleted_count, 2);
}
