use jrow_server::SubscriptionManager;

#[test]
fn test_subscribe() {
    let mut manager = SubscriptionManager::new();
    let is_new = manager.subscribe(1, "topic1");
    assert!(is_new);
    let subscribers = manager.get_subscribers("topic1");
    assert_eq!(subscribers, vec![1]);
}

#[test]
fn test_multiple_subscribers() {
    let mut manager = SubscriptionManager::new();
    manager.subscribe(1, "topic1");
    manager.subscribe(2, "topic1");
    manager.subscribe(3, "topic1");
    let mut subscribers = manager.get_subscribers("topic1");
    subscribers.sort();
    assert_eq!(subscribers, vec![1, 2, 3]);
}

#[test]
fn subscription_test_unsubscribe() {
    let mut manager = SubscriptionManager::new();
    manager.subscribe(1, "topic1");
    manager.subscribe(2, "topic1");
    let removed = manager.unsubscribe(1, "topic1");
    assert!(removed);
    let subscribers = manager.get_subscribers("topic1");
    assert_eq!(subscribers, vec![2]);
}

#[test]
fn test_get_topics() {
    let mut manager = SubscriptionManager::new();
    manager.subscribe(1, "topic1");
    manager.subscribe(1, "topic2");
    manager.subscribe(1, "topic3");
    let mut topics = manager.get_topics(1);
    topics.sort();
    assert_eq!(topics, vec!["topic1", "topic2", "topic3"]);
}

#[test]
fn subscription_test_remove_connection() {
    let mut manager = SubscriptionManager::new();
    manager.subscribe(1, "topic1");
    manager.subscribe(1, "topic2");
    manager.subscribe(2, "topic1");
    manager.remove_connection(1);
    let subscribers = manager.get_subscribers("topic1");
    assert_eq!(subscribers, vec![2]);
    let topics = manager.get_topics(1);
    assert!(topics.is_empty());
}

#[test]
fn test_counts() {
    let mut manager = SubscriptionManager::new();
    manager.subscribe(1, "topic1");
    manager.subscribe(1, "topic2");
    manager.subscribe(2, "topic1");
    assert_eq!(manager.subscription_count(), 3);
    assert_eq!(manager.topic_count(), 2);
}

#[test]
fn subscribing_twice_is_not_new() {
    let mut manager = SubscriptionManager::default();
    assert!(manager.subscribe(4, "t"));
    assert!(!manager.subscribe(4, "t"));
    assert_eq!(manager.get_subscribers("t"), vec![4]);
    assert_eq!(manager.subscription_count(), 1);
}

#[test]
fn unsubscribing_the_last_subscriber_drops_the_topic() {
    let mut manager = SubscriptionManager::new();
    manager.subscribe(1, "t");
    assert_eq!(manager.topic_count(), 1);
    assert!(manager.unsubscribe(1, "t"));
    assert_eq!(manager.topic_count(), 0);
    assert!(!manager.unsubscribe(1, "t"));
    assert!(manager.get_topics(1).is_empty());
}

#[test]
fn removing_a_connection_drops_emptied_topics() {
    let mut manager = SubscriptionManager::new();
    manager.subscribe(1, "a");
    manager.subscribe(1, "b");
    manager.subscribe(2, "b");
    manager.remove_connection(1);
    assert_eq!(manager.topic_count(), 1);
    assert_eq!(manager.get_subscribers("a"), Vec::<u64>::new());
    assert_eq!(manager.get_subscribers("b"), vec![2]);
    assert_eq!(manager.subscription_count(), 1);
}

#[test]
fn unsubscribing_lowers_the_counts() {
    let mut manager = SubscriptionManager::new();
    manager.subscribe(1, "a");
    manager.subscribe(2, "a");
    manager.subscribe(1, "b");
    assert_eq!(manager.subscription_count(), 3);
    assert_eq!(manager.topic_count(), 2);
    assert!(manager.unsubscribe(1, "b"));
    assert_eq!(manager.subscription_count(), 2);
    assert_eq!(manager.topic_count(), 1);
    assert!(!manager.unsubscribe(1, "b"));
    assert_eq!(manager.subscription_count(), 2);
    assert!(manager.unsubscribe(2, "a"));
    assert_eq!(manager.subscription_count(), 1);
    assert_eq!(manager.topic_count(), 1);
    assert_eq!(manager.get_subscribers("a"), vec![1]);
}
