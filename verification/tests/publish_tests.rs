use jrow_server::publish::{count_notified, plan_publish, Delivery};
use jrow_server::{FilteredSubscriptionManager, SubscriptionManager, TopicFilter};

#[test]
fn publish_reaches_exact_then_pattern_subscribers() {
    let mut exact = SubscriptionManager::new();
    exact.subscribe(1, "events.login");
    let mut patterns = FilteredSubscriptionManager::new();
    patterns.subscribe(2, TopicFilter::new("events.*").unwrap());
    patterns.subscribe(3, TopicFilter::new("logs.*").unwrap());
    let plan = plan_publish("events.login", &exact, &patterns);
    assert_eq!(
        plan,
        vec![
            Delivery { connection_id: 1, method: "events.login".to_string(), with_topic: false },
            Delivery { connection_id: 2, method: "events.*".to_string(), with_topic: true }
        ]
    );
    assert!(plan_publish("nothing", &exact, &patterns).is_empty());
}

#[test]
fn a_connection_notified_twice_counts_once() {
    let mut exact = SubscriptionManager::new();
    exact.subscribe(1, "t");
    let mut patterns = FilteredSubscriptionManager::new();
    patterns.subscribe(1, TopicFilter::new("t").unwrap());
    patterns.subscribe(2, TopicFilter::new("*").unwrap());
    patterns.subscribe(2, TopicFilter::new(">").unwrap());
    let plan = plan_publish("t", &exact, &patterns);
    assert_eq!(plan.len(), 4);
    assert_eq!(count_notified(&plan, &vec![true, true, true, true]), 2);
    assert_eq!(count_notified(&plan, &vec![false, true, false, false]), 1);
    assert_eq!(count_notified(&plan, &vec![false, false, false, false]), 0);
    assert_eq!(count_notified(&vec![], &vec![]), 0);
}
