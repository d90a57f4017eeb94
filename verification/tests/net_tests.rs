use v_connect_im::net::{outgoing_channel, stream_action, QuicChannel, QuicStreamAction};
use v_connect_im::server::state::ServerState;

#[test]
fn chat_messages_go_on_a_stream() {
    for t in ["message", "private_message", "group_message", "message_sent", "pong"] {
        assert_eq!(outgoing_channel(Some(t)), QuicChannel::Stream);
    }
    assert_eq!(outgoing_channel(Some("ack")), QuicChannel::Datagram);
    assert_eq!(outgoing_channel(Some("")), QuicChannel::Datagram);
    assert_eq!(outgoing_channel(None), QuicChannel::Datagram);
}

#[test]
fn stream_messages_authenticate_or_dispatch() {
    match stream_action(Some("auth"), Some("u1")) {
        QuicStreamAction::Authenticate { uid } => assert_eq!(uid, "u1"),
        other => panic!("unexpected {:?}", other),
    }
    assert!(matches!(stream_action(Some("auth"), None), QuicStreamAction::Ignore));
    assert!(matches!(stream_action(Some("ping"), None), QuicStreamAction::Dispatch));
    assert!(matches!(stream_action(None, Some("u1")), QuicStreamAction::Ignore));
}

#[test]
fn unauthenticated_connections_are_dropped() {
    let mut s = ServerState::new("n".to_string());
    s.add_connection("c1", "a".to_string(), 0);
    s.add_connection("c2", "b".to_string(), 0);
    s.apply_auth("c2", "u2");
    assert!(s.drop_if_unauthenticated("c1"));
    assert!(!s.connection_exists("c1"));
    assert!(!s.drop_if_unauthenticated("c2"));
    assert!(s.connection_exists("c2"));
    assert!(!s.drop_if_unauthenticated("c3"));
}
