use v_connect_im::api::remote::{
    ack_event, get_config, heartbeat_plugin, list_plugins, reconnect_plugin, register_plugin, stop_plugin, AckPayload,
    ConfigQuery, HeartbeatPayload, ReconnectPayload, RegisterPayload, RemoteBody, StopPayload,
};
use v_connect_im::remote_plugins::{RemotePluginError, RemotePluginManager};

fn registered(m: &mut RemotePluginManager) -> (String, String) {
    let info = m.register("p".to_string(), "http://cb".to_string(), vec!["message".to_string()]);
    (info.plugin_id, info.token)
}

#[test]
fn register_gives_a_prefixed_uuid_id_and_an_alphanumeric_token() {
    let mut m = RemotePluginManager::new();
    let info = m.register("p".to_string(), "http://cb".to_string(), vec![]);
    assert!(info.plugin_id.starts_with("plg_"));
    assert_eq!(info.plugin_id.len(), 4 + 36);
    assert_eq!(info.plugin_id.matches('-').count(), 4);
    assert_eq!(info.token.len(), 32);
    assert!(info.token.chars().all(|c| c.is_ascii_alphanumeric()));
    assert!(info.last_heartbeat_ts > 0);
    let other = m.register("q".to_string(), "http://cb2".to_string(), vec![]);
    assert_ne!(other.plugin_id, info.plugin_id);
    assert_ne!(other.token, info.token);
}

#[test]
fn validate_checks_id_then_token() {
    let mut m = RemotePluginManager::new();
    let (id, token) = registered(&mut m);
    assert_eq!(m.validate(&id, &token), Ok(()));
    assert_eq!(m.validate(&id, "wrong"), Err(RemotePluginError::InvalidToken));
    assert_eq!(m.validate("nope", &token), Err(RemotePluginError::PluginNotFound));
    assert_eq!(RemotePluginError::InvalidToken.message(), "invalid token");
    assert_eq!(RemotePluginError::PluginNotFound.message(), "plugin not found");
}

#[test]
fn reconnect_replaces_callback_and_optionally_capabilities() {
    let mut m = RemotePluginManager::new();
    let (id, token) = registered(&mut m);
    let info = m.reconnect_at(&id, &token, "http://new".to_string(), None, 77, 7).unwrap();
    assert_eq!(info.callback_url, "http://new");
    assert_eq!(info.capabilities, vec!["message".to_string()]);
    assert_eq!(info.last_heartbeat_ts, 77);
    assert_eq!(info.last_seen_ms, 7);
    let info = m.reconnect_at(&id, &token, "http://n2".to_string(), Some(vec!["auth".to_string()]), 78, 8).unwrap();
    assert_eq!(info.capabilities, vec!["auth".to_string()]);
    assert!(m.reconnect(&id, "bad", "x".to_string(), None).is_err());
}

#[test]
fn ack_removes_the_event_once() {
    let mut m = RemotePluginManager::new();
    let (id, token) = registered(&mut m);
    let (id2, token2) = registered(&mut m);
    let ev = m.record_event(&id, "message.incoming");
    assert_eq!(ev.len(), 36);
    assert_eq!(m.ack_event(&id, &token, &ev), Ok("message.incoming".to_string()));
    assert_eq!(m.ack_event(&id, &token, &ev), Err(RemotePluginError::EventNotFound));
    let ev2 = m.record_event_with(&id, "t", "e2".to_string(), 5);
    assert_eq!(m.ack_event(&id2, &token2, &ev2), Err(RemotePluginError::EventNotOwned));
    assert_eq!(m.ack_event(&id, &token, &ev2), Err(RemotePluginError::EventNotFound));
    assert_eq!(RemotePluginError::EventNotOwned.message(), "event not owned by plugin");
    assert_eq!(RemotePluginError::EventNotFound.message(), "event not found");
}

#[test]
fn unregister_drops_the_plugin_and_its_pending_events() {
    let mut m = RemotePluginManager::new();
    let (id, token) = registered(&mut m);
    let (id2, token2) = registered(&mut m);
    m.record_event_with(&id, "t", "e1".to_string(), 1);
    m.record_event_with(&id2, "t", "e2".to_string(), 1);
    assert_eq!(m.unregister(&id, "bad"), Err(RemotePluginError::InvalidToken));
    assert_eq!(m.unregister(&id, &token), Ok(()));
    assert_eq!(m.validate(&id, &token), Err(RemotePluginError::PluginNotFound));
    assert_eq!(m.ack_event(&id2, &token2, "e2"), Ok("t".to_string()));
    assert_eq!(m.list().len(), 1);
}

#[test]
fn expiry_drops_stale_plugins_and_events() {
    let mut m = RemotePluginManager::new();
    // The wall-clock stamps disagree with the monotonic ones; expiry goes by
    // the monotonic clock.
    let a = m.register_with("a".into(), "u".into(), vec![], "A".into(), "ta".into(), 9000, 1000);
    let b = m.register_with("b".into(), "u".into(), vec![], "B".into(), "tb".into(), 100, 5000);
    m.record_event_with("A", "t", "old".into(), 1000);
    m.record_event_with("B", "t", "new".into(), 5000);
    m.remove_inactive_at(2000, 5000);
    assert_eq!(m.validate(&a.plugin_id, &a.token), Err(RemotePluginError::PluginNotFound));
    assert_eq!(m.validate(&b.plugin_id, &b.token), Ok(()));
    m.cleanup_pending_at(2000, 5000);
    assert_eq!(m.ack_event("B", "tb", "old"), Err(RemotePluginError::EventNotFound));
    assert_eq!(m.ack_event("B", "tb", "new"), Ok("t".to_string()));
    assert_eq!(m.heartbeat_at("B", "tb", 9000, 6000), Ok(()));
    assert_eq!(m.snapshot()[0].last_heartbeat_ts, 9000);
    assert_eq!(m.snapshot()[0].last_seen_ms, 6000);
    m.remove_inactive_at(2000, 8000);
    assert_eq!(m.validate(&b.plugin_id, &b.token), Ok(()));
    m.remove_inactive_at(2000, 8001);
    assert_eq!(m.validate(&b.plugin_id, &b.token), Err(RemotePluginError::PluginNotFound));
    let mut m2 = RemotePluginManager::new();
    m2.register_with("b".into(), "u".into(), vec![], "B".into(), "tb".into(), 100, 5000);
    let s = m2.snapshot()[0].summary();
    assert_eq!(s.plugin_id, "B");
}

#[test]
fn endpoints_answer_with_status_and_body() {
    let mut m = RemotePluginManager::new();
    let r = register_plugin(&mut m, RegisterPayload { name: "p".into(), callback_url: "http://cb".into(), capabilities: vec![] });
    assert_eq!(r.status, 200);
    let (id, token) = match r.body {
        RemoteBody::Registered { plugin_id, token, callback_url } => {
            assert_eq!(callback_url, "http://cb");
            (plugin_id, token)
        }
        _ => panic!("expected a registration"),
    };
    let r = heartbeat_plugin(&mut m, &id, &HeartbeatPayload { token: "bad".into() });
    assert_eq!(r.status, 400);
    assert!(matches!(r.body, RemoteBody::Error(ref e) if e == "invalid token"));
    let r = heartbeat_plugin(&mut m, &id, &HeartbeatPayload { token: token.clone() });
    assert_eq!(r.status, 200);
    let r = reconnect_plugin(&mut m, &id, ReconnectPayload { token: token.clone(), callback_url: "http://x".into(), capabilities: None });
    assert!(matches!(r.body, RemoteBody::Reconnected { ref callback_url, .. } if callback_url == "http://x"));
    let r = get_config(&m, &id, &ConfigQuery { token: "bad".into() });
    assert_eq!(r.status, 401);
    let r = get_config(&m, "missing", &ConfigQuery { token: token.clone() });
    assert!(matches!(r.body, RemoteBody::Error(ref e) if e == "plugin not found"));
    let r = list_plugins(&m);
    assert!(matches!(r.body, RemoteBody::Plugins(ref l) if l.len() == 1));
    let ev = m.record_event(&id, "message.outgoing");
    let r = ack_event(&mut m, &id, &AckPayload { token: token.clone(), event_id: ev });
    assert!(matches!(r.body, RemoteBody::Acked { ref event_type } if event_type == "message.outgoing"));
    let r = stop_plugin(&mut m, &id, &StopPayload { token: token.clone() });
    assert_eq!(r.status, 200);
    let r = stop_plugin(&mut m, &id, &StopPayload { token });
    assert_eq!(r.status, 400);
}

#[test]
fn dispatch_reaches_every_plugin_and_records_acks() {
    let mut m = RemotePluginManager::new();
    let a = m.register("a".into(), "http://a".into(), vec![]);
    let b = m.register("b".into(), "http://b".into(), vec![]);
    let targets = m.plan_dispatch("message.incoming", true);
    assert_eq!(targets.len(), 2);
    let mut ids: Vec<String> = targets.iter().map(|t| t.plugin.plugin_id.clone()).collect();
    ids.sort();
    let mut expected = vec![a.plugin_id.clone(), b.plugin_id.clone()];
    expected.sort();
    assert_eq!(ids, expected);
    for t in &targets {
        let id = t.event_id.clone().expect("an event id");
        assert_eq!(id.len(), 36);
        assert_eq!(m.ack_event(&t.plugin.plugin_id, &t.plugin.token, &id), Ok("message.incoming".to_string()));
    }
    let targets = m.plan_dispatch("control.stop", false);
    assert_eq!(targets.len(), 2);
    assert!(targets.iter().all(|t| t.event_id.is_none()));
    assert!(RemotePluginManager::new().plan_dispatch("x", true).is_empty());
}
