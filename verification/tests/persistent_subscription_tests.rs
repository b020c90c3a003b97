use jrow_server::persistent_subscription::PersistentSubscriptionManager;
use jrow_server::{ServerError, SubscriptionState};
use std::time::Duration;

fn state(id: &str, topic: &str, last_activity: u64) -> SubscriptionState {
    SubscriptionState {
        subscription_id: id.to_string(),
        topic: topic.to_string(),
        topic_pattern: None,
        last_ack_seq: 0,
        last_ack_topic: None,
        created_at: last_activity,
        last_activity,
    }
}

fn register(m: &mut PersistentSubscriptionManager, id: &str, topic: &str, conn: u64) -> Result<SubscriptionState, ServerError> {
    let pattern = m.check_registration(id, topic, conn)?;
    Ok(m.complete_registration(id.to_string(), topic, pattern, conn, state(id, topic, 0)))
}

#[test]
fn test_register_subscription() {
    let mut m = PersistentSubscriptionManager::new(None);
    let st = register(&mut m, "sub1", "topic1", 1).unwrap();
    assert_eq!(st.subscription_id, "sub1");
    assert_eq!(st.topic, "topic1");
    assert_eq!(st.topic_pattern, Some("topic1".to_string()));
    assert!(m.is_active("sub1"));
    assert_eq!(m.get_connection_id("sub1"), Some(1));
}

#[test]
fn persistent_subscription_test_exclusive_subscription() {
    let mut m = PersistentSubscriptionManager::new(None);
    register(&mut m, "sub1", "topic1", 1).unwrap();
    let result = register(&mut m, "sub1", "topic1", 2);
    assert_eq!(
        result.unwrap_err(),
        ServerError::InvalidRequest("Subscription 'sub1' is already active on another connection".to_string())
    );
    assert_eq!(m.get_connection_id("sub1"), Some(1));
}

#[test]
fn test_acknowledge_message() {
    let mut m = PersistentSubscriptionManager::new(None);
    register(&mut m, "sub1", "topic1", 1).unwrap();
    assert!(m.check_acknowledge("sub1", 1).is_ok());
    assert_eq!(
        m.check_acknowledge("sub1", 2).unwrap_err(),
        ServerError::InvalidRequest("Subscription 'sub1' is not active on this connection".to_string())
    );
    assert_eq!(
        m.check_acknowledge("nope", 1).unwrap_err(),
        ServerError::InvalidRequest("Subscription 'nope' is not active".to_string())
    );
}

#[test]
fn persistent_subscription_test_unsubscribe() {
    let mut m = PersistentSubscriptionManager::new(None);
    register(&mut m, "sub1", "topic1", 1).unwrap();
    assert_eq!(
        m.unsubscribe("sub1", 2).unwrap_err(),
        ServerError::InvalidRequest("Subscription 'sub1' belongs to another connection".to_string())
    );
    assert_eq!(m.unsubscribe("sub1", 1), Ok(true));
    assert!(!m.is_active("sub1"));
    assert_eq!(m.unsubscribe("sub1", 1), Ok(false));
    assert!(m.get_connection_subscriptions(1).is_empty());
}

#[test]
fn persistent_subscription_test_remove_connection() {
    let mut m = PersistentSubscriptionManager::new(None);
    register(&mut m, "sub1", "topic1", 1).unwrap();
    register(&mut m, "sub2", "topic2", 1).unwrap();
    register(&mut m, "sub3", "topic3", 2).unwrap();
    m.remove_connection(1);
    assert!(!m.is_active("sub1"));
    assert!(!m.is_active("sub2"));
    assert!(m.is_active("sub3"));
    assert_eq!(m.active_count(), 1);
}

#[test]
fn test_cleanup_inactive() {
    let mut m = PersistentSubscriptionManager::new(Some(Duration::from_secs(1)));
    register(&mut m, "sub1", "topic1", 1).unwrap();
    register(&mut m, "sub2", "topic2", 1).unwrap();
    m.unsubscribe("sub1", 1).unwrap();
    let all = vec![state("sub1", "topic1", 100), state("sub2", "topic2", 100), state("sub3", "t", 102)];
    let ids = m.inactive_candidates(&all, 102);
    assert_eq!(ids, vec!["sub1".to_string()]);
    let none = PersistentSubscriptionManager::new(None).inactive_candidates(&all, 10_000);
    assert!(none.is_empty());
}

#[test]
fn test_pattern_subscription_exact() {
    let mut m = PersistentSubscriptionManager::new(None);
    let st = register(&mut m, "sub1", "orders.new", 1).unwrap();
    assert_eq!(st.topic_pattern, Some("orders.new".to_string()));
    let matches = m.get_matching_subscriptions("orders.new");
    assert_eq!(matches, vec![("sub1".to_string(), 1)]);
    assert!(m.get_matching_subscriptions("orders.shipped").is_empty());
}

#[test]
fn test_pattern_subscription_single_wildcard() {
    let mut m = PersistentSubscriptionManager::new(None);
    register(&mut m, "sub1", "orders.*", 1).unwrap();
    assert_eq!(m.get_matching_subscriptions("orders.new").len(), 1);
    assert_eq!(m.get_matching_subscriptions("orders.shipped").len(), 1);
    assert_eq!(m.get_matching_subscriptions("orders").len(), 0);
    assert_eq!(m.get_matching_subscriptions("orders.new.fast").len(), 0);
    assert_eq!(m.get_matching_subscriptions("events.new").len(), 0);
}

#[test]
fn test_pattern_subscription_multi_wildcard() {
    let mut m = PersistentSubscriptionManager::new(None);
    register(&mut m, "sub1", "events.>", 1).unwrap();
    assert_eq!(m.get_matching_subscriptions("events.user").len(), 1);
    assert_eq!(m.get_matching_subscriptions("events.user.login").len(), 1);
    assert_eq!(m.get_matching_subscriptions("events").len(), 0);
}

#[test]
fn test_pattern_subscription_multiple_patterns() {
    let mut m = PersistentSubscriptionManager::new(None);
    register(&mut m, "exact", "orders.new", 1).unwrap();
    register(&mut m, "single", "orders.*", 2).unwrap();
    register(&mut m, "multi", "orders.>", 3).unwrap();

    let matches = m.get_matching_subscriptions("orders.new");
    assert_eq!(matches.len(), 3);
    let sub_ids: Vec<String> = matches.iter().map(|(id, _)| id.clone()).collect();
    assert!(sub_ids.contains(&"exact".to_string()));
    assert!(sub_ids.contains(&"single".to_string()));
    assert!(sub_ids.contains(&"multi".to_string()));

    let matches = m.get_matching_subscriptions("orders.shipped");
    assert_eq!(matches.len(), 2);
    let sub_ids: Vec<String> = matches.iter().map(|(id, _)| id.clone()).collect();
    assert!(sub_ids.contains(&"single".to_string()));
    assert!(sub_ids.contains(&"multi".to_string()));

    let matches = m.get_matching_subscriptions("orders.new.fast");
    assert_eq!(matches.len(), 1);
    assert_eq!(matches[0].0, "multi");

    let matches = m.get_matching_subscriptions("events.new");
    assert_eq!(matches.len(), 0);
}

#[test]
fn test_pattern_subscription_invalid_pattern() {
    let mut m = PersistentSubscriptionManager::new(None);
    let err = register(&mut m, "sub1", "orders.*.>", 1).unwrap_err();
    assert_eq!(
        err,
        ServerError::InvalidParams(
            "Invalid topic pattern: Pattern cannot contain both '*' and '>' wildcards".to_string()
        )
    );
    assert!(!m.is_active("sub1"));
}

#[test]
fn reregistering_on_same_connection_is_allowed() {
    let mut m = PersistentSubscriptionManager::new(None);
    register(&mut m, "s", "a.*", 3).unwrap();
    register(&mut m, "s", "b.*", 3).unwrap();
    assert_eq!(m.active_count(), 1);
    assert_eq!(m.get_matching_subscriptions("b.x"), vec![("s".to_string(), 3)]);
    assert!(m.get_matching_subscriptions("a.x").is_empty());
    assert_eq!(m.get_connection_subscriptions(3), vec!["s".to_string(), "s".to_string()]);
    assert_eq!(m.unsubscribe("s", 3), Ok(true));
    assert!(m.get_connection_subscriptions(3).is_empty());
}
