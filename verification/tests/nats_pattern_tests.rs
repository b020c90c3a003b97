use jrow_server::{NatsPattern, PatternError, Token};

#[test]
fn test_exact_pattern() {
    let pattern = NatsPattern::new("orders").unwrap();
    assert!(matches!(pattern, NatsPattern::Exact(_)));
    assert!(!pattern.is_pattern());
    assert_eq!(pattern.as_str(), "orders");

    assert!(pattern.matches("orders"));
    assert!(!pattern.matches("orders.new"));
    assert!(!pattern.matches("order"));
}

#[test]
fn test_exact_multi_token() {
    let pattern = NatsPattern::new("orders.new.shipped").unwrap();
    assert!(matches!(pattern, NatsPattern::Exact(_)));

    assert!(pattern.matches("orders.new.shipped"));
    assert!(!pattern.matches("orders.new"));
    assert!(!pattern.matches("orders.old.shipped"));
}

#[test]
fn test_single_wildcard_one_token() {
    let pattern = NatsPattern::new("orders.*").unwrap();
    assert!(pattern.is_pattern());

    assert!(pattern.matches("orders.new"));
    assert!(pattern.matches("orders.old"));
    assert!(pattern.matches("orders.shipped"));
    assert!(!pattern.matches("orders"));
    assert!(!pattern.matches("orders.new.shipped"));
}

#[test]
fn test_single_wildcard_middle() {
    let pattern = NatsPattern::new("orders.*.shipped").unwrap();

    assert!(pattern.matches("orders.new.shipped"));
    assert!(pattern.matches("orders.old.shipped"));
    assert!(!pattern.matches("orders.shipped"));
    assert!(!pattern.matches("orders.new.pending.shipped"));
}

#[test]
fn test_single_wildcard_beginning() {
    let pattern = NatsPattern::new("*.new").unwrap();

    assert!(pattern.matches("orders.new"));
    assert!(pattern.matches("events.new"));
    assert!(!pattern.matches("orders.old"));
    assert!(!pattern.matches("orders.new.shipped"));
}

#[test]
fn nats_pattern_test_multiple_single_wildcards() {
    let pattern = NatsPattern::new("orders.*.*").unwrap();

    assert!(pattern.matches("orders.new.shipped"));
    assert!(pattern.matches("orders.old.pending"));
    assert!(!pattern.matches("orders.new"));
    assert!(!pattern.matches("orders.new.pending.shipped"));
}

#[test]
fn test_multi_wildcard_simple() {
    let pattern = NatsPattern::new("orders.>").unwrap();
    assert!(pattern.is_pattern());

    assert!(pattern.matches("orders.new"));
    assert!(pattern.matches("orders.new.shipped"));
    assert!(pattern.matches("orders.new.pending.shipped"));
    assert!(!pattern.matches("orders"));
    assert!(!pattern.matches("events.new"));
}

#[test]
fn nats_pattern_test_multi_wildcard_with_prefix() {
    let pattern = NatsPattern::new("orders.new.>").unwrap();

    assert!(pattern.matches("orders.new.shipped"));
    assert!(pattern.matches("orders.new.pending.shipped"));
    assert!(!pattern.matches("orders.new"));
    assert!(!pattern.matches("orders.old.shipped"));
}

#[test]
fn test_multi_wildcard_root() {
    let pattern = NatsPattern::new(">").unwrap();

    assert!(pattern.matches("orders"));
    assert!(pattern.matches("orders.new"));
    assert!(pattern.matches("orders.new.shipped"));
}

#[test]
fn test_empty_pattern() {
    let result = NatsPattern::new("");
    assert!(matches!(result, Err(PatternError::EmptyPattern)));
}

#[test]
fn test_empty_token() {
    let result = NatsPattern::new("orders..new");
    assert!(matches!(result, Err(PatternError::EmptyToken)));
}

#[test]
fn test_combined_wildcard() {
    let result = NatsPattern::new("ord*");
    assert!(matches!(result, Err(PatternError::CombinedWildcard)));

    let result = NatsPattern::new("orders.new*");
    assert!(matches!(result, Err(PatternError::CombinedWildcard)));
}

#[test]
fn test_multi_wildcard_not_last() {
    let result = NatsPattern::new("orders.>.new");
    assert!(matches!(result, Err(PatternError::MultiWildcardNotLast)));
}

#[test]
fn test_mixed_wildcards() {
    let result = NatsPattern::new("orders.*.>");
    assert!(matches!(result, Err(PatternError::MixedWildcards)));
}

#[test]
fn test_pattern_display() {
    let pattern = NatsPattern::new("orders.*.shipped").unwrap();
    assert_eq!(pattern.to_string(), "orders.*.shipped");
}

#[test]
fn test_complex_patterns() {
    let pattern = NatsPattern::new("*.*.*").unwrap();
    assert!(pattern.matches("orders.new.shipped"));
    assert!(!pattern.matches("orders.new"));

    let pattern = NatsPattern::new("orders.*.shipped.*").unwrap();
    assert!(pattern.matches("orders.new.shipped.fast"));
    assert!(!pattern.matches("orders.new.shipped"));
}

#[test]
fn test_edge_cases() {
    let pattern = NatsPattern::new("orders").unwrap();
    assert!(pattern.matches("orders"));
    assert!(!pattern.matches("orders.new"));

    let pattern = NatsPattern::new("*").unwrap();
    assert!(pattern.matches("orders"));
    assert!(pattern.matches("events"));
    assert!(!pattern.matches("orders.new"));
}

#[test]
fn pattern_error_messages() {
    assert_eq!(PatternError::EmptyPattern.to_string(), "Pattern cannot be empty");
    assert_eq!(
        PatternError::EmptyToken.to_string(),
        "Pattern contains empty token (consecutive dots)"
    );
    assert_eq!(
        PatternError::CombinedWildcard.to_string(),
        "Wildcard cannot be combined with text in the same token"
    );
    assert_eq!(
        PatternError::MultiWildcardNotLast.to_string(),
        "Multi-token wildcard '>' must be the last token"
    );
    assert_eq!(
        PatternError::MixedWildcards.to_string(),
        "Pattern cannot contain both '*' and '>' wildcards"
    );
}

#[test]
fn exact_pattern_refuses_double_dot_and_keeps_text() {
    assert!(matches!(NatsPattern::new("a..b"), Err(PatternError::EmptyToken)));
    let p = NatsPattern::new("a.b").unwrap();
    assert_eq!(p.as_str(), "a.b");
    assert!(p.matches("a.b"));
}

#[test]
fn pattern_matches_its_own_text() {
    for text in ["orders.*", "orders.>", "*.new.*", ">", "a.b.c"] {
        let p = NatsPattern::new(text).unwrap();
        assert!(p.matches(text));
    }
}

#[test]
fn multi_wildcard_keeps_matching_longer_topics() {
    let p = NatsPattern::new("logs.>").unwrap();
    assert!(p.matches("logs.a"));
    assert!(p.matches("logs.a.b"));
    assert!(p.matches("logs.a.b.c.d"));
    assert!(!p.matches("logs"));
}

#[test]
fn wildcard_helpers_on_tokens() {
    let tokens = vec![Token::Literal("a".to_string()), Token::SingleWild];
    assert!(NatsPattern::matches_single_wildcard(&tokens, "a.x"));
    assert!(!NatsPattern::matches_single_wildcard(&tokens, "a.x.y"));
    assert!(!NatsPattern::matches_single_wildcard(&tokens, "b.x"));
    let prefix = vec![Token::Literal("a".to_string())];
    assert!(NatsPattern::matches_multi_wildcard(&prefix, "a.x.y"));
    assert!(!NatsPattern::matches_multi_wildcard(&prefix, "a"));
}

#[test]
fn matching_goes_token_by_token() {
    let single = NatsPattern::new("orders.*.x").unwrap();
    assert!(single.matches("orders.a.x"));
    assert!(!single.matches("orders.a.y"));
    assert!(!single.matches("orders.a"));
    assert!(!single.matches("orders.a.x.y"));
    let multi = NatsPattern::new("a.b.>").unwrap();
    assert!(multi.matches("a.b.c"));
    assert!(multi.matches("a.b.c.d"));
    assert!(!multi.matches("a.b"));
    assert!(!multi.matches("a.c.d"));
    let exact = NatsPattern::new("a.b").unwrap();
    assert!(exact.matches("a.b"));
    assert!(!exact.matches("a.b.c"));
    assert!(!exact.matches("a"));
}
