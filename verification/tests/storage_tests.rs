use jrow_server::storage::{
    first_key_after, key_in_range, key_in_topic, message_key, metadata_for_registration, order_replay, plan_retention,
    prepare_store, replay_topics, sort_messages, subscription_on_ack, subscription_on_create,
    topic_prefix,
};
use jrow_server::{NatsPattern, PersistentMessage, RetentionPolicy, SubscriptionState, TopicMetadata};

fn msg(topic: &str, seq: u64, ts: u64, size: usize) -> PersistentMessage {
    PersistentMessage {
        sequence_id: seq,
        topic: topic.to_string(),
        data: "{}".to_string(),
        timestamp: ts,
        size_bytes: size,
    }
}

#[test]
fn message_keys_are_zero_padded() {
    assert_eq!(message_key("test", 1), "test:00000000000000000001");
    assert_eq!(message_key("a.b", 12345), "a.b:00000000000000012345");
    assert_eq!(message_key("t", u64::MAX), "t:18446744073709551615");
    assert_eq!(topic_prefix("events"), "events:");
    assert!(message_key("t", 9) < message_key("t", 10));
}

#[test]
fn replay_after_ack_starts_past_the_acknowledged_messages() {
    let start = first_key_after("resume_topic", 3);
    assert_eq!(start, message_key("resume_topic", 4));
    for seq in 1..=3 {
        assert!(message_key("resume_topic", seq) < start);
    }
    for seq in 4..=12 {
        assert!(message_key("resume_topic", seq) >= start);
    }
}

#[test]
fn keys_belong_to_their_topic_prefix() {
    assert!(key_in_topic(&message_key("t", 3), &topic_prefix("t")));
    assert!(!key_in_topic(&message_key("u", 3), &topic_prefix("t")));
    assert!(!key_in_topic("t", "t:"));
    assert!(!key_in_topic(&message_key("a:b", 1), &topic_prefix("a")));
    assert!(key_in_range(&message_key("a:b", 1), &topic_prefix("a")));
    assert!(!key_in_topic("t:0000000000000000000x", "t:"));
    assert!(!key_in_topic("t:000000000000000000001", "t:"));
}

#[test]
fn a_topic_read_skips_topics_that_extend_its_name() {
    let mut keys = vec![
        message_key("a", 1),
        message_key("a", 2),
        message_key("a:b", 1),
        message_key("a:0", 7),
        message_key("b", 1),
    ];
    keys.sort();
    let start = first_key_after("a", 0);
    let prefix = topic_prefix("a");
    let read: Vec<&String> = keys
        .iter()
        .filter(|k| **k >= start)
        .take_while(|k| key_in_range(k, &prefix))
        .filter(|k| key_in_topic(k, &prefix))
        .collect();
    assert_eq!(read, vec![&message_key("a", 1), &message_key("a", 2)]);
}

#[test]
fn storing_assigns_consecutive_sequence_numbers() {
    let first = prepare_store(None, "test", "{\"msg\":1}".to_string(), 100);
    assert_eq!(first.message.sequence_id, 1);
    assert_eq!(first.message.size_bytes, 9);
    assert_eq!(first.key, "test:00000000000000000001");
    assert_eq!(first.metadata.message_count, 1);
    assert_eq!(first.metadata.total_bytes, 9);
    assert!(!first.metadata.retention_policy.has_limits());
    let second = prepare_store(Some(first.metadata), "test", "{}".to_string(), 101);
    assert_eq!(second.message.sequence_id, 2);
    assert_eq!(second.metadata.max_sequence, 2);
    assert_eq!(second.metadata.message_count, 2);
    assert_eq!(second.metadata.total_bytes, 11);
}

#[test]
fn test_multiple_messages() {
    let mut metadata = None;
    let mut keys = Vec::new();
    for i in 1..=5u64 {
        let plan = prepare_store(metadata, "test", format!("{{\"msg\":{}}}", i), 0);
        assert_eq!(plan.message.sequence_id, i);
        keys.push(plan.key.clone());
        metadata = Some(plan.metadata);
    }
    keys.push(message_key("test2", 1));
    keys.sort();
    let start = first_key_after("test", 2);
    let prefix = topic_prefix("test");
    let read: Vec<&String> = keys
        .iter()
        .filter(|k| **k >= start)
        .take_while(|k| key_in_range(k, &prefix))
        .filter(|k| key_in_topic(k, &prefix))
        .collect();
    assert_eq!(read.len(), 3);
    assert_eq!(*read[0], message_key("test", 3));
    assert_eq!(*read[2], message_key("test", 5));
}

#[test]
fn size_counts_utf8_bytes() {
    let plan = prepare_store(None, "t", "\"é\"".to_string(), 0);
    assert_eq!(plan.message.size_bytes, 4);
}

#[test]
fn registration_keeps_counts_of_known_topic() {
    let fresh = metadata_for_registration(None, "t", RetentionPolicy::by_count(3));
    assert_eq!(fresh.max_sequence, 0);
    assert_eq!(fresh.retention_policy.max_count, Some(3));
    let known = TopicMetadata {
        topic: "t".to_string(),
        max_sequence: 7,
        retention_policy: RetentionPolicy::unlimited(),
        message_count: 5,
        total_bytes: 50,
    };
    let updated = metadata_for_registration(Some(known), "t", RetentionPolicy::by_size(10));
    assert_eq!(updated.max_sequence, 7);
    assert_eq!(updated.message_count, 5);
    assert_eq!(updated.total_bytes, 50);
    assert_eq!(updated.retention_policy.max_bytes, Some(10));
}

#[test]
fn test_subscription_state() {
    let state = subscription_on_create(None, "sub1", "topic1", 1000);
    assert_eq!(state.subscription_id, "sub1");
    assert_eq!(state.topic, "topic1");
    assert_eq!(state.last_ack_seq, 0);
    let updated = subscription_on_ack(Some(state), "sub1", 10, 1005);
    assert_eq!(updated.last_ack_seq, 10);
    assert_eq!(updated.last_activity, 1005);
    assert_eq!(updated.created_at, 1000);
    let again = subscription_on_create(Some(updated), "sub1", "other", 2000);
    assert_eq!(again.topic, "topic1");
    assert_eq!(again.last_ack_seq, 10);
    assert_eq!(again.last_activity, 2000);
}

#[test]
fn ack_of_unknown_subscription_creates_state() {
    let st: SubscriptionState = subscription_on_ack(None, "x", 4, 9);
    assert_eq!(st.topic, "");
    assert_eq!(st.last_ack_seq, 4);
    assert_eq!(st.created_at, 9);
}

#[test]
fn persistent_storage_test_retention_by_count() {
    let mut meta = metadata_for_registration(None, "test", RetentionPolicy::by_count(3));
    let mut stored = Vec::new();
    for i in 1..=5u64 {
        let plan = prepare_store(Some(meta), "test", format!("{{\"msg\":{}}}", i), 100 + i);
        meta = plan.metadata;
        stored.push(plan.message);
    }
    let plan = plan_retention(&meta, 200, &stored).unwrap();
    assert_eq!(plan.selection.deleted_count, 2);
    assert_eq!(plan.selection.delete, vec![true, true, false, false, false]);
    let after = plan.metadata.unwrap();
    assert_eq!(after.message_count, 3);
}

#[test]
fn retention_without_limits_is_skipped() {
    let meta = metadata_for_registration(None, "t", RetentionPolicy::unlimited());
    assert!(plan_retention(&meta, 0, &vec![msg("t", 1, 0, 1)]).is_none());
}

#[test]
fn retention_deleting_nothing_keeps_metadata() {
    let meta = metadata_for_registration(None, "t", RetentionPolicy::by_count(10));
    let plan = plan_retention(&meta, 0, &vec![msg("t", 1, 0, 1)]).unwrap();
    assert_eq!(plan.selection.deleted_count, 0);
    assert!(plan.metadata.is_none());
}

#[test]
fn messages_sort_by_topic_then_sequence() {
    let sorted = sort_messages(vec![
        msg("orders.b", 2, 0, 1),
        msg("orders.a", 3, 0, 1),
        msg("orders.b", 1, 0, 1),
        msg("orders.a", 1, 0, 1),
    ]);
    let keys: Vec<(String, u64)> = sorted.iter().map(|m| (m.topic.clone(), m.sequence_id)).collect();
    assert_eq!(
        keys,
        vec![
            ("orders.a".to_string(), 1),
            ("orders.a".to_string(), 3),
            ("orders.b".to_string(), 1),
            ("orders.b".to_string(), 2)
        ]
    );
}

#[test]
fn sorting_keeps_tied_messages_in_order() {
    let mut first = msg("t", 5, 0, 1);
    first.data = "1".to_string();
    let mut second = msg("t", 5, 0, 1);
    second.data = "2".to_string();
    let sorted = sort_messages(vec![msg("u", 1, 0, 1), first, msg("t", 9, 0, 1), second]);
    let order: Vec<(String, u64, String)> =
        sorted.iter().map(|m| (m.topic.clone(), m.sequence_id, m.data.clone())).collect();
    assert_eq!(
        order,
        vec![
            ("t".to_string(), 5, "1".to_string()),
            ("t".to_string(), 5, "2".to_string()),
            ("t".to_string(), 9, "{}".to_string()),
            ("u".to_string(), 1, "{}".to_string())
        ]
    );
}

#[test]
fn replay_reads_the_exact_topic_or_the_matching_ones() {
    let all = vec!["orders.a".to_string(), "events.x".to_string(), "orders.b".to_string()];
    let exact = NatsPattern::new("orders.a").unwrap();
    assert_eq!(replay_topics(&exact, &all), vec!["orders.a".to_string()]);
    let pattern = NatsPattern::new("orders.*").unwrap();
    assert_eq!(replay_topics(&pattern, &all), vec!["orders.a".to_string(), "orders.b".to_string()]);
    let unsorted = vec![msg("b", 1, 0, 1), msg("a", 2, 0, 1)];
    let kept = order_replay(&exact, unsorted.clone());
    assert_eq!(kept[0].topic, "b");
    let sorted = order_replay(&pattern, unsorted);
    assert_eq!(sorted[0].topic, "a");
}

#[test]
fn test_store_and_retrieve_message() {
    let plan = prepare_store(None, "test_topic", "{\"test\":\"data\"}".to_string(), 1);
    assert_eq!(plan.message.sequence_id, 1);
    let value = plan.message.data_as_value().unwrap();
    assert_eq!(value["test"], serde_json::Value::String("data".to_string()));
}

#[test]
fn invalid_data_is_an_internal_error() {
    let m = PersistentMessage {
        sequence_id: 1,
        topic: "t".to_string(),
        data: "not json".to_string(),
        timestamp: 0,
        size_bytes: 8,
    };
    match m.data_as_value() {
        Err(jrow_server::ServerError::Internal(msg)) => {
            assert!(msg.starts_with("Failed to parse message data: "));
            assert!(msg.len() > "Failed to parse message data: ".len());
        }
        other => panic!("unexpected {:?}", other.is_ok()),
    }
}
