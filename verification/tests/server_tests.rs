use v_connect_im::plugins::auth::{AuthPlugin, DefaultAuthPlugin};
use v_connect_im::api::server_api::{
    is_ready, limit_or_default, members_response, room_list_response, ClientsByUidQuery, HasClientQuery, JoinRequest,
    StatusQuery,
};
use v_connect_im::cluster::directory::Directory;
use v_connect_im::server::delivery::{
    any_flow_stop, count_delivered, group_blocked_response, group_send_response, route_for, Route,
};
use v_connect_im::server::inbound::{message_kind, InboundAction, InboundKind, InboundMessage};
use v_connect_im::server::policy::{retry_step, split_peers, token_check, AuthConfigLite, RetryStep, TokenCheck};
use v_connect_im::server::state::ServerState;
use v_connect_im::text::decimal_string;

fn msg(t: &str) -> InboundMessage {
    InboundMessage { msg_type: t.to_string(), target_uid: None, room_id: None, message_id: None, token: String::new(), uid: None }
}

fn server_with(clients: &[(&str, Option<&str>)]) -> ServerState {
    let mut s = ServerState::new("node-A".to_string());
    for (cid, uid) in clients {
        s.add_connection(cid, "127.0.0.1:0".to_string(), 1000);
        if let Some(u) = uid {
            s.apply_auth(cid, u);
        }
    }
    s
}

#[test]
fn message_types_are_classified() {
    assert_eq!(message_kind("ping"), InboundKind::Ping);
    assert_eq!(message_kind("online_clients"), InboundKind::OnlineClients);
    assert_eq!(message_kind("auth"), InboundKind::Auth);
    assert_eq!(message_kind("message"), InboundKind::Message);
    assert_eq!(message_kind("private_message"), InboundKind::PrivateMessage);
    assert_eq!(message_kind("join_room"), InboundKind::JoinRoom);
    assert_eq!(message_kind("leave_room"), InboundKind::LeaveRoom);
    assert_eq!(message_kind("group_message"), InboundKind::GroupMessage);
    assert_eq!(message_kind("ack"), InboundKind::Ack);
    assert_eq!(message_kind("Ping"), InboundKind::Unknown);
}

#[test]
fn ping_pongs_and_refreshes_the_heartbeat() {
    let mut s = server_with(&[("c1", None)]);
    let d: Directory<u8> = Directory::new();
    let a = s.handle_inbound("c1", &msg("ping"), &None, &d, 5000);
    assert!(matches!(a, InboundAction::Pong));
    let online = s.online_clients_at(7500);
    assert_eq!(online.total_count, 1);
    assert_eq!(online.clients[0].last_heartbeat, 2);
    assert_eq!(online.clients[0].connected_at, 7500);
    assert_eq!(online.clients[0].addr, "127.0.0.1:0");
}

#[test]
fn unknown_types_get_an_error_naming_them() {
    let mut s = server_with(&[("c1", None)]);
    let d: Directory<u8> = Directory::new();
    match s.handle_inbound("c1", &msg("weird"), &None, &d, 1) {
        InboundAction::Error(e) => assert_eq!(e, "Unknown message type: weird"),
        _ => panic!("expected an error"),
    }
}

#[test]
fn private_messages_need_a_target_and_pass_the_gate() {
    let mut s = server_with(&[("c1", Some("u1"))]);
    let d: Directory<u8> = Directory::new();
    match s.handle_inbound("c1", &msg("private_message"), &None, &d, 1) {
        InboundAction::Error(e) => assert_eq!(e, "private_message requires target_id"),
        _ => panic!("expected an error"),
    }
    let mut m = msg("private_message");
    m.target_uid = Some("u2".to_string());
    assert!(matches!(s.handle_inbound("c1", &m, &None, &d, 1), InboundAction::Private { ref target_uid } if target_uid == "u2"));
    s.set_blocked("u2", true);
    match s.handle_inbound("c1", &m, &None, &d, 1) {
        InboundAction::Error(e) => assert_eq!(e, "target uid blocked or rate limited"),
        _ => panic!("expected an error"),
    }
    s.set_blocked("u2", false);
    s.set_rate_limit_at("u2", 1, 0);
    assert!(matches!(s.handle_inbound("c1", &m, &None, &d, 10), InboundAction::Private { .. }));
    assert!(matches!(s.handle_inbound("c1", &m, &None, &d, 20), InboundAction::Error(_)));
    assert!(matches!(s.handle_inbound("c1", &m, &None, &d, 1000), InboundAction::Private { .. }));
}

#[test]
fn messages_forward_with_a_target_and_echo_without() {
    let mut s = server_with(&[("c1", Some("u1"))]);
    let d: Directory<u8> = Directory::new();
    assert!(matches!(s.handle_inbound("c1", &msg("message"), &None, &d, 1), InboundAction::Echo));
    let mut m = msg("message");
    m.target_uid = Some("u9".to_string());
    assert!(matches!(s.handle_inbound("c1", &m, &None, &d, 1), InboundAction::Forward { ref target_uid } if target_uid == "u9"));
    let mut a = msg("auth");
    a.token = "tok".to_string();
    a.uid = Some("u1".to_string());
    assert!(matches!(s.handle_inbound("c1", &a, &None, &d, 1), InboundAction::Authenticate { ref token, uid: Some(ref u) } if token == "tok" && u == "u1"));
}

#[test]
fn rooms_need_an_authenticated_uid() {
    let mut s = server_with(&[("c1", None), ("c2", Some("u2"))]);
    let d: Directory<u8> = Directory::new();
    let mut j = msg("join_room");
    j.room_id = Some("r1".to_string());
    match s.handle_inbound("c1", &j, &None, &d, 1) {
        InboundAction::Error(e) => assert_eq!(e, "join_room requires auth uid"),
        _ => panic!("expected an error"),
    }
    assert!(matches!(s.handle_inbound("c2", &j, &None, &d, 1), InboundAction::JoinedRoom { ref room_id } if room_id == "r1"));
    assert_eq!(s.room_members("r1"), Some(vec!["u2".to_string()]));
    assert!(matches!(s.handle_inbound("c2", &msg("join_room"), &None, &d, 1), InboundAction::Nothing));
    let mut l = msg("leave_room");
    l.room_id = Some("r1".to_string());
    assert!(matches!(s.handle_inbound("c1", &l, &None, &d, 1), InboundAction::Nothing));
    assert!(matches!(s.handle_inbound("c2", &l, &None, &d, 1), InboundAction::LeftRoom { .. }));
    assert_eq!(s.room_members("r1"), Some(vec![]));
    match s.handle_inbound("c2", &msg("group_message"), &None, &d, 1) {
        InboundAction::Error(e) => assert_eq!(e, "group_message requires room_id"),
        _ => panic!("expected an error"),
    }
}

#[test]
fn group_plan_routes_members_and_gates_blocked_uids() {
    let mut s = server_with(&[("c1", Some("u1")), ("c2", Some("u2"))]);
    let mut d: Directory<u8> = Directory::new();
    d.register_client_location("c2", "node-B");
    d.register_server("node-B", 1);
    for u in ["u1", "u2", "u3"] {
        s.add_room_member(&JoinRequest { uid: u.to_string(), room_id: "10".to_string() });
    }
    let mut g = msg("group_message");
    g.room_id = Some("10".to_string());
    let plan = match s.handle_inbound("c1", &g, &None, &d, 1) {
        InboundAction::Group { room_id, plan } => {
            assert_eq!(room_id, "10");
            plan
        }
        _ => panic!("expected a group delivery"),
    };
    let mut uids: Vec<String> = plan.targets.iter().map(|t| t.uid.clone()).collect();
    uids.sort();
    assert_eq!(uids, vec!["u1", "u2"]);
    assert_eq!(plan.offline_uids, vec!["u3".to_string()]);
    for t in &plan.targets {
        assert_eq!(t.deliveries.len(), 1);
        let d0 = &t.deliveries[0];
        if t.uid == "u1" {
            assert_eq!(d0.client_id, "c1");
            assert!(matches!(d0.route, Route::Local));
        } else {
            assert_eq!(d0.client_id, "c2");
            assert!(matches!(d0.route, Route::Remote(ref n) if n == "node-B"));
        }
    }
    s.set_blocked("u3", true);
    let plan = match s.handle_inbound("c1", &g, &None, &d, 2) {
        InboundAction::Group { plan, .. } => plan,
        _ => panic!("expected a group delivery"),
    };
    assert!(plan.offline_uids.is_empty());
    let http_plan = s.plan_group_delivery("10", &None, &d, false, 3);
    assert_eq!(http_plan.offline_uids, vec!["u3".to_string()]);
    assert_eq!(count_delivered(&vec![true, false, true]), 2);
    let resp = group_send_response(2);
    assert!(resp.success);
    assert_eq!(resp.message, "Group message delivered to 2 clients");
    let none = group_send_response(0);
    assert!(!none.success);
    let blocked = group_blocked_response();
    assert_eq!(blocked.message, "Group message blocked by plugin");
}

#[test]
fn routes_follow_the_directory() {
    let mut d: Directory<u8> = Directory::new();
    d.register_client_location("here", "node-A");
    d.register_client_location("far", "node-B");
    d.register_client_location("lost", "node-C");
    d.register_server("node-B", 2);
    assert!(matches!(route_for(&d, "node-A", "here"), Route::Local));
    assert!(matches!(route_for(&d, "node-A", "unknown"), Route::Local));
    assert!(matches!(route_for(&d, "node-A", "far"), Route::Remote(ref n) if n == "node-B"));
    assert!(matches!(route_for(&d, "node-A", "lost"), Route::RemoteMissing));
}

#[test]
fn acks_are_recorded_per_uid() {
    let mut s = server_with(&[("c1", Some("u1")), ("c2", None)]);
    let d: Directory<u8> = Directory::new();
    let mut a = msg("ack");
    a.message_id = Some("m1".to_string());
    s.handle_inbound("c1", &a, &None, &d, 1);
    s.handle_inbound("c2", &a, &None, &d, 1);
    assert!(s.is_acked("u1", "m1"));
    let st = s.message_status(&StatusQuery { uid: "u1".into(), message_id: "m1".into() });
    assert!(st.acked);
    let st = s.message_status(&StatusQuery { uid: "u1".into(), message_id: "m2".into() });
    assert!(!st.acked);
}

#[test]
fn apply_sets_uid_and_mappings() {
    let mut s = ServerState::new("n".to_string());
    s.add_connection("c1", "127.0.0.1:9000".to_string(), 0);
    let plugin = DefaultAuthPlugin::new();
    assert_eq!(plugin.name(), "builtin-auth");
    plugin.apply(&mut s, "c1", "u1");
    assert_eq!(s.uid_of("c1"), Some("u1".to_string()));
    assert_eq!(s.clients_of_uid("u1"), Some(vec!["c1".to_string()]));
    assert!(!s.uid_has_no_clients("u1"));
    assert!(s.uid_has_no_clients("u2"));
    let r = s.clients_by_uid(&ClientsByUidQuery { uid: "u1".into() });
    assert_eq!(r.client_ids, vec!["c1".to_string()]);
    assert!(s.has_client(&HasClientQuery { client_id: "c1".into() }));
    assert_eq!(s.connections_of_uid("u1"), vec!["c1".to_string()]);
}

#[test]
fn timed_out_connections_are_swept() {
    let mut s = ServerState::new("n".to_string());
    s.add_connection("old", "a".to_string(), 0);
    s.add_connection("fresh", "b".to_string(), 900);
    let gone = s.cleanup_timeout_connections_at(500, 1000);
    assert_eq!(gone, vec!["old".to_string()]);
    assert!(!s.connection_exists("old"));
    assert!(s.connection_exists("fresh"));
    let gone = s.cleanup_timeout_connections_at(100, 1000);
    assert!(gone.is_empty());
}

#[test]
fn broadcast_forgets_failed_clients() {
    let mut s = server_with(&[("c1", None), ("c2", None)]);
    let r = s.finish_broadcast(1, &vec!["c2".to_string()]);
    assert!(r.success);
    assert_eq!(r.delivered_count, 1);
    assert_eq!(r.message, "Broadcast delivered to 1 clients");
    assert!(!s.connection_exists("c2"));
    let r = s.finish_broadcast(0, &vec![]);
    assert!(!r.success);
    assert_eq!(r.message, "Broadcast delivered to 0 clients");
}

#[test]
fn rooms_can_be_created_with_or_without_an_id() {
    let mut s = ServerState::new("n".to_string());
    assert_eq!(s.create_room(Some("r1".to_string())), "r1");
    assert_eq!(s.room_members("r1"), Some(vec![]));
    let rid = s.create_room(None);
    assert_eq!(rid.len(), 36);
    assert!(s.room_members(&rid).is_some());
    s.add_room_member(&JoinRequest { uid: "u".into(), room_id: "r1".into() });
    s.create_room(Some("r1".to_string()));
    assert_eq!(s.room_members("r1"), Some(vec!["u".to_string()]));
    let l = room_list_response(vec!["a".into(), "b".into()]);
    assert_eq!(l.count, 2);
    let m = members_response("r".into(), vec!["u".into()]);
    assert_eq!(m.count, 1);
    assert_eq!(limit_or_default(None), 100);
    assert_eq!(limit_or_default(Some(7)), 7);
    assert!(is_ready(9999));
    assert!(!is_ready(10000));
}

#[test]
fn validate_without_config_returns_true() {
    let plugin = DefaultAuthPlugin::new();
    assert!(matches!(plugin.validate(&None, "token"), TokenCheck::Accept));
    assert!(matches!(token_check("token", &None), TokenCheck::Accept));
}

#[test]
fn tokens_are_checked_by_the_settings() {
    assert!(matches!(token_check("", &None), TokenCheck::Reject));
    let off = Some(AuthConfigLite { enabled: false, center_url: "http://c".into(), timeout_ms: 5 });
    assert!(matches!(token_check("t", &off), TokenCheck::Accept));
    let on = Some(AuthConfigLite { enabled: true, center_url: "http://c".into(), timeout_ms: 5 });
    match token_check("t", &on) {
        TokenCheck::AskCenter { url, timeout_ms } => {
            assert_eq!(url, "http://c/v1/sso/auth");
            assert_eq!(timeout_ms, 5);
        }
        _ => panic!("expected a remote check"),
    }
    assert!(matches!(token_check("", &on), TokenCheck::Reject));
}

#[test]
fn retries_back_off_linearly_then_give_up() {
    assert_eq!(retry_step(true, 0, 2, 10), RetryStep::Done);
    assert_eq!(retry_step(false, 0, 2, 10), RetryStep::Wait(10));
    assert_eq!(retry_step(false, 1, 2, 10), RetryStep::Wait(20));
    assert_eq!(retry_step(false, 2, 2, 10), RetryStep::GiveUp);
    assert_eq!(retry_step(false, 0, 0, 10), RetryStep::GiveUp);
}

#[test]
fn peers_are_split_trimmed_and_filtered() {
    assert_eq!(split_peers(" http://a , ,http://b,"), vec!["http://a".to_string(), "http://b".to_string()]);
    assert!(split_peers("").is_empty());
    assert_eq!(split_peers("\u{3000}x\t"), vec!["x".to_string()]);
}

#[test]
fn plugin_flows_stop_on_stop() {
    assert!(!any_flow_stop(&vec![None, Some("continue".to_string())]));
    assert!(any_flow_stop(&vec![None, Some("stop".to_string())]));
    assert!(!any_flow_stop(&vec![Some("STOP".to_string())]));
}

#[test]
fn decimals_have_no_leading_zero() {
    assert_eq!(decimal_string(0), "0");
    assert_eq!(decimal_string(7), "7");
    assert_eq!(decimal_string(10), "10");
    assert_eq!(decimal_string(1234567890), "1234567890");
    assert_eq!(decimal_string(u64::MAX), u64::MAX.to_string());
}

#[test]
fn test_group_message_and_offline_store() {
    let mut s = ServerState::new("node-A".to_string());
    let mut d: Directory<u8> = Directory::new();
    d.register_server("node-A", 0);
    s.add_connection("A", "127.0.0.1:0".to_string(), 0);
    s.apply_auth("A", "uA");
    d.register_client_location("A", "node-A");
    s.add_room_member(&JoinRequest { uid: "uA".into(), room_id: "r1".into() });
    s.add_room_member(&JoinRequest { uid: "uB".into(), room_id: "r1".into() });
    let mut g = msg("group_message");
    g.room_id = Some("r1".to_string());
    match s.handle_inbound("A", &g, &None, &d, 1) {
        InboundAction::Group { room_id, plan } => {
            assert_eq!(room_id, "r1");
            assert_eq!(plan.targets.len(), 1);
            assert_eq!(plan.targets[0].uid, "uA");
            assert_eq!(plan.targets[0].deliveries.len(), 1);
            assert_eq!(plan.targets[0].deliveries[0].client_id, "A");
            assert!(matches!(plan.targets[0].deliveries[0].route, Route::Local));
            assert_eq!(plan.offline_uids, vec!["uB".to_string()]);
        }
        _ => panic!("expected a group delivery"),
    }
}

#[test]
fn test_group_message_fallback_persist_members() {
    let mut s = ServerState::new("node-A".to_string());
    let mut d: Directory<u8> = Directory::new();
    d.register_server("node-A", 0);
    s.add_connection("X", "127.0.0.1:0".to_string(), 0);
    s.apply_auth("X", "uX");
    d.register_client_location("X", "node-A");
    assert_eq!(s.room_members("rP"), None);
    let mut g = msg("group_message");
    g.room_id = Some("rP".to_string());
    let stored = Some(vec!["uX".to_string(), "uX".to_string()]);
    match s.handle_inbound("X", &g, &stored, &d, 1) {
        InboundAction::Group { room_id, plan } => {
            assert_eq!(room_id, "rP");
            assert_eq!(plan.targets.len(), 1);
            assert_eq!(plan.targets[0].uid, "uX");
            assert_eq!(plan.targets[0].deliveries[0].client_id, "X");
            assert!(matches!(plan.targets[0].deliveries[0].route, Route::Local));
            assert!(plan.offline_uids.is_empty());
        }
        _ => panic!("expected a group delivery"),
    }
    // A room held in memory ignores the stored list.
    s.add_room_member(&JoinRequest { uid: "uY".into(), room_id: "rP".into() });
    let plan = s.plan_group_delivery("rP", &stored, &d, false, 2);
    assert!(plan.targets.is_empty());
    assert_eq!(plan.offline_uids, vec!["uY".to_string()]);
}

#[test]
fn test_load_rooms_from_storage() {
    let mut s = ServerState::new("node-A".to_string());
    let stored = vec![
        ("r1".to_string(), vec!["uA".to_string(), "uB".to_string()]),
        ("r2".to_string(), vec!["uC".to_string()]),
    ];
    let total = s.load_rooms(stored);
    assert!(total >= 3);
    let mut r1 = s.room_members("r1").unwrap();
    r1.sort();
    assert_eq!(r1, vec!["uA".to_string(), "uB".to_string()]);
    assert_eq!(s.room_members("r2"), Some(vec!["uC".to_string()]));
    assert_eq!(s.load_rooms(vec![("r3".to_string(), vec![])]), 0);
    assert_eq!(s.room_members("r3"), Some(vec![]));
}
