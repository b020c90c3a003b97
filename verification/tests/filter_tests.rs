use jrow_server::{FilterError, FilteredSubscriptionManager, TopicFilter};

#[test]
fn test_exact_filter() {
    let filter = TopicFilter::new("events.user.login").unwrap();
    assert!(filter.matches("events.user.login"));
    assert!(!filter.matches("events.user.logout"));
    assert!(!filter.matches("events.admin.login"));
}

#[test]
fn test_single_wildcard() {
    let filter = TopicFilter::new("events.user.*").unwrap();
    assert!(filter.matches("events.user.login"));
    assert!(filter.matches("events.user.logout"));
    assert!(filter.matches("events.user.anything"));
    assert!(!filter.matches("events.admin.login"));
    assert!(!filter.matches("events.user"));
    assert!(!filter.matches("events.user.login.success"));
}

#[test]
fn filter_test_multiple_single_wildcards() {
    let filter = TopicFilter::new("events.*.login").unwrap();
    assert!(filter.matches("events.user.login"));
    assert!(filter.matches("events.admin.login"));
    assert!(!filter.matches("events.user.logout"));
    assert!(!filter.matches("events.super.admin.login"));
}

#[test]
fn test_multi_wildcard() {
    let filter = TopicFilter::new("events.>").unwrap();
    assert!(filter.matches("events.user"));
    assert!(filter.matches("events.user.login"));
    assert!(filter.matches("events.user.login.success"));
    assert!(!filter.matches("events"));
    assert!(!filter.matches("other.event"));
}

#[test]
fn filter_test_multi_wildcard_with_prefix() {
    let filter = TopicFilter::new("orders.new.>").unwrap();
    assert!(filter.matches("orders.new.express"));
    assert!(filter.matches("orders.new.express.priority"));
    assert!(!filter.matches("orders.new"));
    assert!(!filter.matches("orders.shipped.express"));
}

#[test]
fn test_subscription_manager_exact() {
    let mut manager = FilteredSubscriptionManager::new();

    let filter = TopicFilter::new("topic1").unwrap();
    manager.subscribe(1, filter);

    assert_eq!(manager.get_subscribers("topic1"), vec![1]);
    assert_eq!(manager.get_subscribers("topic2"), Vec::<u64>::new());
}

#[test]
fn test_subscription_manager_pattern_single_wildcard() {
    let mut manager = FilteredSubscriptionManager::new();

    let filter = TopicFilter::new("orders.*").unwrap();
    manager.subscribe(1, filter);

    assert_eq!(manager.get_subscribers("orders.new"), vec![1]);
    assert_eq!(manager.get_subscribers("orders.shipped"), vec![1]);
    assert_eq!(manager.get_subscribers("orders.new.express"), Vec::<u64>::new());
    assert_eq!(manager.get_subscribers("orders"), Vec::<u64>::new());
}

#[test]
fn test_subscription_manager_pattern_multi_wildcard() {
    let mut manager = FilteredSubscriptionManager::new();

    let filter = TopicFilter::new("events.>").unwrap();
    manager.subscribe(1, filter);

    assert_eq!(manager.get_subscribers("events.user"), vec![1]);
    assert_eq!(manager.get_subscribers("events.user.login"), vec![1]);
    assert_eq!(manager.get_subscribers("events.user.login.success"), vec![1]);
    assert_eq!(manager.get_subscribers("events"), Vec::<u64>::new());
}

#[test]
fn test_subscription_manager_pattern() {
    let mut manager = FilteredSubscriptionManager::new();

    let filter1 = TopicFilter::new("events.*").unwrap();
    let filter2 = TopicFilter::new("logs.*").unwrap();

    manager.subscribe(1, filter1);
    manager.subscribe(2, filter2);

    assert_eq!(manager.get_subscribers("events.login"), vec![1]);
    assert_eq!(manager.get_subscribers("logs.error"), vec![2]);
    assert_eq!(manager.get_subscribers("other.topic"), Vec::<u64>::new());
}

#[test]
fn test_subscription_manager_multiple_patterns() {
    let mut manager = FilteredSubscriptionManager::new();

    let filter1 = TopicFilter::new("events.*").unwrap();
    let filter2 = TopicFilter::new("*.login").unwrap();

    manager.subscribe(1, filter1);
    manager.subscribe(1, filter2);

    assert_eq!(manager.get_subscribers("events.login"), vec![1]);
}

#[test]
fn filter_test_unsubscribe() {
    let mut manager = FilteredSubscriptionManager::new();

    let filter = TopicFilter::new("events.*").unwrap();
    manager.subscribe(1, filter);

    assert_eq!(manager.get_subscribers("events.login"), vec![1]);

    assert!(manager.unsubscribe(1, "events.*"));
    assert_eq!(manager.get_subscribers("events.login"), Vec::<u64>::new());

    assert!(!manager.unsubscribe(1, "events.*"));
}

#[test]
fn filter_test_remove_connection() {
    let mut manager = FilteredSubscriptionManager::new();

    let filter1 = TopicFilter::new("events.*").unwrap();
    let filter2 = TopicFilter::new("logs.*").unwrap();

    manager.subscribe(1, filter1);
    manager.subscribe(1, filter2);

    assert_eq!(manager.get_subscribers("events.login"), vec![1]);
    assert_eq!(manager.get_subscribers("logs.error"), vec![1]);

    manager.remove_connection(1);

    assert_eq!(manager.get_subscribers("events.login"), Vec::<u64>::new());
    assert_eq!(manager.get_subscribers("logs.error"), Vec::<u64>::new());
}

#[test]
fn test_get_patterns() {
    let mut manager = FilteredSubscriptionManager::new();

    let filter1 = TopicFilter::new("events.*").unwrap();
    let filter2 = TopicFilter::new("logs.*").unwrap();

    manager.subscribe(1, filter1);
    manager.subscribe(1, filter2);

    let patterns = manager.get_patterns(1);
    assert_eq!(patterns.len(), 2);
    assert!(patterns.contains(&"events.*".to_string()));
    assert!(patterns.contains(&"logs.*".to_string()));
}

#[test]
fn test_subscription_count() {
    let mut manager = FilteredSubscriptionManager::new();

    let filter1 = TopicFilter::new("events.*").unwrap();
    let filter2 = TopicFilter::new("logs.*").unwrap();
    let filter3 = TopicFilter::new("alerts.*").unwrap();

    manager.subscribe(1, filter1);
    manager.subscribe(1, filter2);
    manager.subscribe(2, filter3);

    assert_eq!(manager.subscription_count(), 3);
}

#[test]
fn test_complex_pattern() {
    let filter = TopicFilter::new("events.*.user.*.action").unwrap();
    assert!(filter.matches("events.app.user.123.action"));
    assert!(filter.matches("events.web.user.456.action"));
    assert!(!filter.matches("events.app.admin.123.action"));
}

#[test]
fn invalid_filter_reports_pattern_error() {
    let err = TopicFilter::new("orders.>.new").unwrap_err();
    assert_eq!(
        err,
        FilterError::InvalidPattern("Multi-token wildcard '>' must be the last token".to_string())
    );
    assert_eq!(
        err.to_string(),
        "Invalid NATS pattern: Multi-token wildcard '>' must be the last token"
    );
}

#[test]
fn exact_filter_accepts_any_text_without_wildcard() {
    let f = TopicFilter::new("a..b").unwrap();
    assert!(matches!(f, TopicFilter::Exact(_)));
    assert_eq!(f.as_str(), "a..b");
    assert!(f.matches("a..b"));
    let p = TopicFilter::new("a.*").unwrap();
    assert_eq!(p.as_str(), "a.*");
}

#[test]
fn subscribers_with_patterns_lists_each_matching_filter() {
    let mut manager = FilteredSubscriptionManager::default();
    manager.subscribe(1, TopicFilter::new("events.*").unwrap());
    manager.subscribe(1, TopicFilter::new("*.login").unwrap());
    manager.subscribe(2, TopicFilter::new("events.>").unwrap());
    let pairs = manager.get_subscribers_with_patterns("events.login");
    assert_eq!(
        pairs,
        vec![
            (1, "events.*".to_string()),
            (1, "*.login".to_string()),
            (2, "events.>".to_string())
        ]
    );
    assert_eq!(manager.get_subscribers("events.login"), vec![1, 2]);
}

#[test]
fn unsubscribe_removes_every_filter_with_that_text_and_keeps_entry() {
    let mut manager = FilteredSubscriptionManager::new();
    manager.subscribe(7, TopicFilter::new("a.*").unwrap());
    manager.subscribe(7, TopicFilter::new("a.*").unwrap());
    manager.subscribe(7, TopicFilter::new("b.*").unwrap());
    assert_eq!(manager.subscription_count(), 3);
    assert!(manager.unsubscribe(7, "a.*"));
    assert_eq!(manager.get_patterns(7), vec!["b.*".to_string()]);
    assert_eq!(manager.subscription_count(), 1);
    assert!(!manager.unsubscribe(8, "b.*"));
    assert!(manager.get_patterns(8).is_empty());
}

#[test]
fn unsubscribing_drops_every_filter_with_that_text_in_order() {
    let mut m = FilteredSubscriptionManager::new();
    m.subscribe(1, TopicFilter::new("a.*").unwrap());
    m.subscribe(1, TopicFilter::new("b.*").unwrap());
    m.subscribe(1, TopicFilter::new("a.*").unwrap());
    m.subscribe(1, TopicFilter::new("c.>").unwrap());
    m.subscribe(2, TopicFilter::new("a.*").unwrap());
    assert_eq!(m.subscription_count(), 5);
    assert!(m.unsubscribe(1, "a.*"));
    assert_eq!(m.get_patterns(1), vec!["b.*".to_string(), "c.>".to_string()]);
    assert_eq!(m.get_patterns(2), vec!["a.*".to_string()]);
    assert_eq!(m.subscription_count(), 3);
    assert!(!m.unsubscribe(1, "a.*"));
    assert_eq!(m.subscription_count(), 3);
}

#[test]
fn pattern_pairs_list_each_matching_filter_of_each_subscriber() {
    let mut m = FilteredSubscriptionManager::new();
    m.subscribe(1, TopicFilter::new("t").unwrap());
    m.subscribe(1, TopicFilter::new(">").unwrap());
    m.subscribe(2, TopicFilter::new("x").unwrap());
    m.subscribe(3, TopicFilter::new("*").unwrap());
    let pairs = m.get_subscribers_with_patterns("t");
    assert_eq!(
        pairs,
        vec![(1, "t".to_string()), (1, ">".to_string()), (3, "*".to_string())]
    );
    let mut firsts: Vec<u64> = pairs.iter().map(|(c, _)| *c).collect();
    firsts.dedup();
    assert_eq!(firsts, m.get_subscribers("t"));
}

#[test]
fn removing_a_connection_lowers_the_count_by_its_filters() {
    let mut m = FilteredSubscriptionManager::new();
    m.subscribe(1, TopicFilter::new("a.*").unwrap());
    m.subscribe(1, TopicFilter::new("b.>").unwrap());
    m.subscribe(2, TopicFilter::new("a.*").unwrap());
    assert_eq!(m.subscription_count(), 3);
    m.remove_connection(1);
    assert_eq!(m.subscription_count(), 1);
    assert!(m.get_patterns(1).is_empty());
    assert_eq!(m.get_patterns(2), vec!["a.*".to_string()]);
    assert_eq!(m.get_subscribers("a.x"), vec![2]);
}
