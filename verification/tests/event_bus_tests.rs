use v_connect_im::event_bus::{matches_pattern, publish_keeps, subscriber_names, EventHistory, SubscriptionTable};
use v_connect_im::plugin_host::routing::SendOutcome;

#[test]
fn test_pattern_matching() {
    assert!(matches_pattern("user.login", "*"));
    assert!(matches_pattern("user.login", "user.login"));
    assert!(matches_pattern("user.login", "user.*"));
    assert!(!matches_pattern("user.login", "admin.*"));
    assert!(!matches_pattern("user.login.success", "user.*"));
}

#[test]
fn wildcard_needs_a_dot_after_the_prefix() {
    assert!(!matches_pattern("userlogin", "user.*"));
    assert!(!matches_pattern("user", "user.*"));
    assert!(matches_pattern("user.", "user.*"));
    assert!(matches_pattern("", "*"));
    assert!(!matches_pattern("", "user.*"));
}

#[test]
fn publish_targets_follow_priority_then_subscription_order() {
    let mut t = SubscriptionTable::new();
    t.subscribe("low", "user.*", 1);
    t.subscribe("high", "user.*", 9);
    t.subscribe("mid", "user.login", 5);
    t.subscribe("mid2", "user.login", 5);
    let targets = t.publish_targets("someone", "user.login");
    let names: Vec<String> = targets.iter().map(|s| s.subscriber.clone()).collect();
    // "user.login" (exact) comes after "user.*" in table order; the whole list
    // is then ordered by priority, stably.
    assert_eq!(names, vec!["high", "mid", "mid2", "low"]);
}

#[test]
fn publisher_is_skipped_on_wildcards_but_not_on_exact_patterns() {
    let mut t = SubscriptionTable::new();
    t.subscribe("p", "user.*", 1);
    t.subscribe("p", "user.login", 1);
    let targets = t.publish_targets("p", "user.login");
    assert_eq!(targets.len(), 1);
    assert_eq!(targets[0].event_pattern, "user.login");
}

#[test]
fn unsubscribe_and_clear_remove_subscriptions() {
    let mut t = SubscriptionTable::new();
    t.subscribe("a", "x.*", 1);
    t.subscribe("b", "x.*", 2);
    t.subscribe("a", "y", 1);
    assert_eq!(t.get_subscriptions("a"), vec!["x.*", "y"]);
    t.unsubscribe("a", "x.*");
    assert_eq!(t.get_subscribers("x.*"), vec!["b"]);
    t.clear_plugin_subscriptions("a");
    assert!(t.get_subscriptions("a").is_empty());
    assert_eq!(t.get_subscriptions("b"), vec!["x.*"]);
}

#[test]
fn history_records_only_when_enabled_and_returns_the_latest() {
    let mut h = EventHistory::new();
    h.record_at("e0", "p", vec![], 1);
    assert!(h.get_event_history(10).is_empty());
    h.enable_history(true);
    h.record_at("e1", "p", vec!["s".to_string()], 2);
    h.record_at("e2", "p", vec![], 3);
    h.record_at("e3", "p", vec![], 4);
    let last2 = h.get_event_history(2);
    assert_eq!(last2.len(), 2);
    assert_eq!(last2[0].event_type, "e2");
    assert_eq!(last2[1].event_type, "e3");
    h.record("e4", "p", vec![]);
    assert!(h.get_event_history(1)[0].timestamp > 0);
    h.clear_event_history();
    assert!(h.get_event_history(10).is_empty());
}

#[test]
fn publish_keeps_replies_and_records_every_subscriber() {
    let mut t = SubscriptionTable::new();
    t.subscribe("a", "user.*", 1);
    t.subscribe("b", "user.login", 5);
    let targets = t.publish_targets("p", "user.login");
    assert_eq!(subscriber_names(&targets), vec!["b".to_string(), "a".to_string()]);
    assert!(publish_keeps(&SendOutcome::Replied { flow: None }));
    assert!(!publish_keeps(&SendOutcome::NotConnected));
    assert!(!publish_keeps(&SendOutcome::Failed { error: "x".into() }));
}
