use v_connect_im::plugin_host::routing::{handshake_fields, message_step, storage_step, LoopStep, SendOutcome};
use v_connect_im::plugins::registry::hook_step;
use v_connect_im::api::plugins_api::{
    default_priority, message_reply, plugin_summary_to_view, test_message_parties, TestMessageRequest,
};
use v_connect_im::plugin_host::framing::{encode_frame, frame_length};
use v_connect_im::plugin_host::routing::{
    call_event_type, is_connection_broken, is_not_found, match_runtime_key, sender_not_connected,
};
use v_connect_im::plugin_host::runtime::{PluginRuntime, PluginRuntimeManager, PluginRuntimeSummary, PluginStatus, StartPlan};
use v_connect_im::plugins::events::{auth_event, custom_event_needs_ack, storage_event, unknown_event_message, AuthEvent, StorageEvent};
use v_connect_im::plugins::registry::{PluginContext, PluginFlow, PluginRegistry};
use v_connect_im::plugins::sensitive::SensitiveWordPlugin;

fn manager_with(plugins: &[(&str, i32, &[&str], bool)]) -> PluginRuntimeManager {
    let mut m = PluginRuntimeManager::new("./plugins".to_string(), "./sockets".to_string());
    for (name, prio, caps, running) in plugins {
        if *running {
            m.finish_start(name, format!("./plugins/{}", name), Some("1.0".to_string()), None, Ok(())).unwrap();
        } else {
            m.register_dev_plugin(name.to_string(), format!("./src/{}", name));
        }
        let caps: Vec<String> = caps.iter().map(|c| c.to_string()).collect();
        let found = m.apply_handshake(name, caps, *prio);
        assert!(found);
        if !*running {
            m.set_plugin_status(name, PluginStatus::Installed);
        }
    }
    m
}

#[test]
fn filter_replaces_words() {
    let plugin = SensitiveWordPlugin::new(vec!["bad".into()]);
    assert_eq!(plugin.apply_filter("bad text"), "*** text");
}

#[test]
fn filter_masks_every_occurrence_by_utf8_length() {
    let plugin = SensitiveWordPlugin::new(vec!["坏".into(), "".into(), "aa".into()]);
    assert_eq!(plugin.apply_filter("坏人"), "***人");
    assert_eq!(plugin.apply_filter("aaa aa"), "**a **");
    assert_eq!(plugin.apply_filter("clean"), "clean");
    assert_eq!(plugin.name(), "sensitive");
}

#[test]
fn config_update_takes_the_string_words() {
    let mut plugin = SensitiveWordPlugin::new(vec!["x".into()]);
    plugin.on_config_update(None);
    assert_eq!(plugin.apply_filter("x"), "*");
    plugin.on_config_update(Some(vec![Some("y".to_string()), None, Some("z".to_string())]));
    assert_eq!(plugin.apply_filter("xyz"), "x**");
}

#[test]
fn registry_orders_by_priority_then_registration() {
    let mut r: PluginRegistry<&str> = PluginRegistry::new();
    r.register("bridge", 10);
    r.register("sensitive", 100);
    r.register("trace", 1);
    r.register("test", 1);
    r.register("other", 100);
    let names: Vec<&str> = r.snapshot().iter().map(|e| e.1).collect();
    assert_eq!(names, vec!["trace", "test", "bridge", "sensitive", "other"]);
}

#[test]
fn contexts_carry_the_client() {
    let server = 5u8;
    let c = PluginContext::new(&server, "c1");
    assert_eq!(c.client_id, "c1");
    assert_eq!(c.server, Some(&5u8));
    let s: PluginContext<u8> = PluginContext::system("system");
    assert!(s.server.is_none());
    assert_ne!(PluginFlow::Continue, PluginFlow::Stop);
}

#[test]
fn test_unknown_event_type() {
    assert_eq!(storage_event("storage.unknown"), None);
    assert_eq!(unknown_event_message("storage.unknown"), "Unknown event type: storage.unknown");
}

#[test]
fn storage_and_auth_events_are_classified() {
    assert_eq!(storage_event("storage.message.save"), Some(StorageEvent::MessageSave));
    assert_eq!(storage_event("storage.room.list"), Some(StorageEvent::RoomList));
    assert_eq!(storage_event("storage.stats"), Some(StorageEvent::Stats));
    assert_eq!(auth_event("auth.banned"), Some(AuthEvent::Banned));
    assert_eq!(auth_event("auth.login"), Some(AuthEvent::Login));
    assert_eq!(auth_event("auth.unknown"), None);
    assert!(custom_event_needs_ack("message.incoming"));
    assert!(!custom_event_needs_ack("room.joined"));
}

#[test]
fn start_and_stop_follow_the_lifecycle() {
    let mut m = PluginRuntimeManager::new("./plugins".into(), "./sockets".into());
    m.set_debug_mode(true);
    m.set_log_level("info".into());
    match m.begin_start("p") {
        StartPlan::Launch { shared_socket, debug, log_level } => {
            assert!(shared_socket.is_none());
            assert!(debug);
            assert_eq!(log_level, Some("info".to_string()));
        }
        StartPlan::AlreadyRunning => panic!("not started yet"),
    }
    let e = m.finish_start("p", "./plugins/p/p".into(), None, Some("./sockets/p.sock".into()), Err("boom".into()));
    assert_eq!(e, Err("Failed to start plugin p: boom".to_string()));
    assert!(m.runtime_summaries().is_empty());
    m.finish_start("p", "./plugins/p/p".into(), Some("1.2".into()), Some("./sockets/p.sock".into()), Ok(())).unwrap();
    assert!(matches!(m.begin_start("p"), StartPlan::AlreadyRunning));
    let sums = m.runtime_summaries();
    assert_eq!(sums.len(), 1);
    assert_eq!(sums[0].name, "p");
    assert_eq!(sums[0].version, Some("1.2".to_string()));
    assert!(matches!(sums[0].status, PluginStatus::Running));
    assert_eq!(m.begin_stop("p"), Some(Some("./sockets/p.sock".to_string())));
    assert!(matches!(m.runtime_summaries()[0].status, PluginStatus::Stopping));
    m.finish_stop("p");
    assert!(m.runtime_summaries().is_empty());
    assert_eq!(m.begin_stop("p"), None);
    m.set_global_socket_path("/tmp/all.sock".into());
    assert!(matches!(m.begin_start("q"), StartPlan::Launch { shared_socket: Some(ref s), .. } if s == "/tmp/all.sock"));
}

#[test]
fn exits_and_handshakes_update_the_status() {
    let mut m = manager_with(&[("p", 3, &["message"], true)]);
    m.process_exited("p", true, "ok");
    assert!(matches!(m.runtime_summaries()[0].status, PluginStatus::Running));
    m.process_exited("p", false, "exit status: 1");
    match &m.runtime_summaries()[0].status {
        PluginStatus::Error(e) => assert_eq!(e, "Process exited: exit status: 1"),
        _ => panic!("expected an error status"),
    }
    assert!(!m.apply_handshake("ghost", vec![], 1));
    assert!(m.get_runtime("p").unwrap().capabilities() == vec!["message".to_string()]);
}

#[test]
fn message_events_go_to_message_plugins_by_descending_priority() {
    let m = manager_with(&[
        ("low", 1, &["message"], true),
        ("store", 50, &["storage"], true),
        ("high", 9, &["message", "auth"], true),
    ]);
    assert_eq!(m.message_event_targets(), vec!["high".to_string(), "low".to_string()]);
    assert_eq!(m.first_with_capability("auth"), Some("high".to_string()));
    assert_eq!(m.first_with_capability("nothing"), None);
    let listed = m.list_plugins();
    assert_eq!(listed.len(), 3);
}

#[test]
fn storage_events_skip_storage_plugins_that_are_not_running() {
    let m = manager_with(&[
        ("v-storage-a", 1, &["storage"], false),
        ("v-storage-b", 1, &["storage"], true),
        ("db", 1, &["storage"], false),
        ("misc", 1, &[], true),
    ]);
    let mut c = m.storage_candidates();
    c.sort();
    assert_eq!(c, vec!["db".to_string(), "v-storage-b".to_string()]);
}

#[test]
fn broadcasts_skip_the_sender_and_filter_by_capability() {
    let m = manager_with(&[("a", 1, &["storage"], true), ("b", 1, &["auth"], true)]);
    let connected = vec!["a".to_string(), "b".to_string(), "ghost".to_string(), "me".to_string()];
    assert_eq!(m.broadcast_targets(&connected, "me", &None), vec!["a", "b", "ghost"]);
    let f = Some(vec!["storage".to_string()]);
    assert_eq!(m.broadcast_targets(&connected, "me", &f), vec!["a", "ghost"]);
    assert_eq!(sender_not_connected("x"), "Sender plugin not connected: x");
    assert_eq!(call_event_type("ping"), "plugin.call.ping");
}

#[test]
fn handshake_names_find_their_runtime_key() {
    let cands = vec![
        ("v-connect-im-plugin-storage-sled".to_string(), None),
        ("gateway".to_string(), Some("v.plugin.gw".to_string())),
    ];
    assert_eq!(match_runtime_key("v.plugin.storage-sled", &cands), Some("v-connect-im-plugin-storage-sled".to_string()));
    assert_eq!(match_runtime_key("v.plugin.gw", &cands), Some("gateway".to_string()));
    assert_eq!(match_runtime_key("unknown", &cands), None);
}

#[test]
fn send_errors_are_classified() {
    assert!(is_connection_broken("write failed: Broken pipe (os error 32)"));
    assert!(is_connection_broken("Connection reset by peer"));
    assert!(!is_connection_broken("timeout"));
    assert!(is_not_found("Plugin x not found"));
    assert!(!is_not_found("ok"));
}

#[test]
fn frames_carry_a_big_endian_length() {
    let f = encode_frame(&vec![1, 2, 3]);
    assert_eq!(f, vec![0, 0, 0, 3, 1, 2, 3]);
    assert_eq!(frame_length(&[0, 0, 1, 2]), 258);
    let big = vec![0u8; 70000];
    let f = encode_frame(&big);
    assert_eq!(frame_length(&[f[0], f[1], f[2], f[3]]), 70000);
}

#[test]
fn runtime_views_show_the_debug_status() {
    let v = plugin_summary_to_view(PluginRuntimeSummary { name: "p".into(), version: None, status: PluginStatus::Running });
    assert_eq!(v.status, "Running");
    let v = plugin_summary_to_view(PluginRuntimeSummary {
        name: "p".into(),
        version: Some("1".into()),
        status: PluginStatus::Error("bad \"x\"".into()),
    });
    assert_eq!(v.status, "Error(\"bad \\\"x\\\"\")");
    assert_eq!(v.version, Some("1".to_string()));
    assert_eq!(default_priority(), 10);
    let (from, to) = test_message_parties(&TestMessageRequest { content: "c".into(), from_uid: None, to_uid: None });
    assert_eq!((from.as_str(), to.as_str()), ("test_user", ""));
    let (code, body) = message_reply(Err("down".into()));
    assert_eq!(code, 500);
    assert_eq!(body.error, Some("Failed to send message: down".to_string()));
    let (code, body) = message_reply(Ok(true));
    assert_eq!(code, 200);
    assert!(body.delivered);
}

#[test]
fn runtimes_start_installed() {
    let mut r = PluginRuntime::new("n".into(), "p".into(), None, None);
    assert!(matches!(r.status(), PluginStatus::Installed));
    assert_eq!(r.priority(), 0);
    r.set_priority(4);
    r.set_capabilities(vec!["a".into()]);
    r.set_status(PluginStatus::Stopped);
    assert_eq!(r.priority(), 4);
    assert_eq!(r.capabilities(), vec!["a".to_string()]);
    assert!(matches!(r.status(), PluginStatus::Stopped));
}

#[test]
fn send_loops_follow_their_step_rules() {
    let stop = SendOutcome::Replied { flow: Some("stop".into()) };
    let go = SendOutcome::Replied { flow: Some("continue".into()) };
    let none = SendOutcome::Replied { flow: None };
    let broken = SendOutcome::Failed { error: "write failed: Broken pipe".into() };
    let other = SendOutcome::Failed { error: "timeout".into() };
    assert_eq!(message_step(&stop), LoopStep::Finish);
    assert_eq!(message_step(&go), LoopStep::Next);
    assert_eq!(message_step(&none), LoopStep::Next);
    assert_eq!(message_step(&SendOutcome::NotConnected), LoopStep::Next);
    assert_eq!(message_step(&broken), LoopStep::DropAndNext);
    assert_eq!(message_step(&other), LoopStep::Next);
    assert_eq!(storage_step(&go), LoopStep::Finish);
    assert_eq!(storage_step(&SendOutcome::NotConnected), LoopStep::Next);
    assert_eq!(storage_step(&broken), LoopStep::DropAndNext);
    assert_eq!(storage_step(&other), LoopStep::Abort);
    assert_eq!(handshake_fields(None, None), ("unknown".to_string(), 0));
    assert_eq!(handshake_fields(Some("p"), Some(7)), ("p".to_string(), 7));
    assert_eq!(handshake_fields(Some("p"), Some(1i64 << 32 | 5)), ("p".to_string(), 5));
}

#[test]
fn hooks_stop_or_fail_the_loop() {
    assert_eq!(hook_step(Some(PluginFlow::Continue)), LoopStep::Next);
    assert_eq!(hook_step(Some(PluginFlow::Stop)), LoopStep::Finish);
    assert_eq!(hook_step(None), LoopStep::Abort);
}
