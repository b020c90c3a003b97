use jrow_server::dispatch::{
    ack_item_result, bad_params, classify_batch_method, classify_method, missing_params,
    not_configured, registration_failed, route_error, subscribe_item_result, subscribe_topic,
    unsubscribe_item_result, unsubscribe_topic, BuiltinMethod, SubscribeItemOutcome,
};
use jrow_server::{ServerError, FilteredSubscriptionManager, PatternError, SubscriptionManager};

#[test]
fn test_process_request_method_not_found() {
    let d = route_error(&ServerError::MethodNotFound("nope".to_string()));
    assert_eq!(d.code, -32601);
    assert_eq!(d.message, "Method not found: nope");
    let p = route_error(&ServerError::InvalidParams("bad".to_string()));
    assert_eq!((p.code, p.message.as_str()), (-32602, "bad"));
    let i = route_error(&ServerError::Internal("boom".to_string()));
    assert_eq!((i.code, i.message.as_str()), (-32603, "Internal error: boom"));
}

#[test]
fn builtin_methods_are_recognised() {
    assert_eq!(classify_method("rpc.subscribe"), Some(BuiltinMethod::Subscribe));
    assert_eq!(classify_method("rpc.ack_persistent_batch"), Some(BuiltinMethod::AckPersistentBatch));
    assert_eq!(classify_method("test"), None);
    assert_eq!(classify_batch_method("rpc.unsubscribe"), Some(BuiltinMethod::Unsubscribe));
    assert_eq!(classify_batch_method("rpc.subscribe_persistent"), None);
}

#[test]
fn test_subscribe_request() {
    let mut exact = SubscriptionManager::new();
    let mut patterns = FilteredSubscriptionManager::new();
    assert_eq!(subscribe_topic(1, "test_topic", &mut exact, &mut patterns), Ok(false));
    assert_eq!(exact.get_subscribers("test_topic"), vec![1]);
    assert_eq!(patterns.subscription_count(), 0);
}

#[test]
fn test_subscribe_pattern() {
    let mut exact = SubscriptionManager::new();
    let mut patterns = FilteredSubscriptionManager::new();
    assert_eq!(subscribe_topic(1, "events.*", &mut exact, &mut patterns), Ok(true));
    assert_eq!(patterns.get_subscribers("events.login"), vec![1]);
    assert_eq!(exact.topic_count(), 0);
    let err = subscribe_topic(1, "events.*.>", &mut exact, &mut patterns).unwrap_err();
    assert_eq!(err.code, -32602);
    assert_eq!(
        err.message,
        "Invalid pattern: Invalid NATS pattern: Pattern cannot contain both '*' and '>' wildcards"
    );
}

#[test]
fn test_unsubscribe_request() {
    let mut exact = SubscriptionManager::new();
    let mut patterns = FilteredSubscriptionManager::new();
    subscribe_topic(1, "test_topic", &mut exact, &mut patterns).unwrap();
    subscribe_topic(1, "events.*", &mut exact, &mut patterns).unwrap();
    assert!(unsubscribe_topic(1, "test_topic", &mut exact, &mut patterns));
    assert!(unsubscribe_topic(1, "events.*", &mut exact, &mut patterns));
    assert!(!unsubscribe_topic(1, "events.*", &mut exact, &mut patterns));
}

#[test]
fn parameter_errors() {
    assert_eq!(missing_params(BuiltinMethod::Subscribe).message, "Missing 'topic' parameter");
    assert_eq!(missing_params(BuiltinMethod::AckPersistentBatch).message, "Missing acknowledgments array");
    let e = bad_params(BuiltinMethod::SubscribePersistentBatch, "oops");
    assert_eq!((e.code, e.message.as_str()), (-32602, "Expected array of subscriptions: oops"));
    assert_eq!(bad_params(BuiltinMethod::AckPersistent, "x").message, "x");
    let n = not_configured();
    assert_eq!((n.code, n.message.as_str()), (-32603, "Persistent storage not configured"));
    let r = registration_failed(&ServerError::InvalidRequest("taken".to_string()));
    assert_eq!(r.message, "Failed to register subscription: Invalid request: taken");
}

#[test]
fn batch_item_results() {
    let ok = subscribe_item_result("s".to_string(), "t".to_string(), SubscribeItemOutcome::Delivered(4, 2));
    assert!(ok.success && ok.resumed_from_seq == 4 && ok.undelivered_count == 2 && ok.error.is_none());
    let bad = subscribe_item_result(
        "s".to_string(),
        "t".to_string(),
        SubscribeItemOutcome::InvalidPattern(3, PatternError::EmptyToken),
    );
    assert!(!bad.success);
    assert_eq!(bad.error.as_deref(), Some("Invalid topic pattern: Pattern contains empty token (consecutive dots)"));
    let ack = ack_item_result("s".to_string(), 9, Err(ServerError::Internal("x".to_string())));
    assert!(!ack.acknowledged);
    assert_eq!(ack.error.as_deref(), Some("Internal error: x"));
    let un = unsubscribe_item_result("s".to_string(), Ok(true));
    assert!(un.unsubscribed && un.error.is_none());
}
