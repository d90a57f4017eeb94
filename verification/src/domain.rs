//! Request and response bodies of the IM server, as plain values.
use vstd::prelude::*;

use crate::storage::opt_view;

verus! {

/// A connect request: the uid and its token.
pub struct ConnectRequest {
    pub uid: String,
    pub token: String,
}

/// A connect response: a status word and a message.
pub struct ConnectResponse {
    pub status: String,
    pub message: String,
}

/// One online client as listed to operators.
pub struct OnlineClientInfo {
    pub uid: Option<String>,
    pub addr: String,
    pub connected_at: i64,
    pub last_heartbeat: i64,
}

/// An online client as plain values: `(uid, addr, connected_at, last_heartbeat)`.
pub type OnlineClientView = (Option<Seq<char>>, Seq<char>, i64, i64);

impl View for OnlineClientInfo {
    type V = OnlineClientView;

    open spec fn view(&self) -> OnlineClientView {
        (opt_view(self.uid), self.addr@, self.connected_at, self.last_heartbeat)
    }
}

/// The online clients and their number.
pub struct OnlineClientsResponse {
    pub clients: Vec<OnlineClientInfo>,
    pub total_count: usize,
}

/// Online clients as plain values.
pub open spec fn clients_view(v: Seq<OnlineClientInfo>) -> Seq<OnlineClientView> {
    v.map_values(|c: OnlineClientInfo| c@)
}

/// The outcome of a message sent over HTTP.
pub struct HttpSendMessageResponse {
    pub success: bool,
    pub message: String,
    pub message_id: Option<String>,
    pub delivered_at: Option<i64>,
}

/// The outcome of a broadcast or a group send: whether anything was
/// delivered, a message, and the number of deliveries.
pub struct HttpBroadcastResponse {
    pub success: bool,
    pub message: String,
    pub delivered_count: usize,
}

/// The kinds of webhook events.
#[derive(Clone, Copy, Debug, PartialEq, Eq, Structural)]
pub enum WebhookEventType {
    ClientOnline,
    ClientOffline,
    MessageSent,
    MessageDelivered,
    MessageFailed,
}

/// A client's status change as reported to webhooks.
pub struct WebhookClientStatusData {
    pub client_id: String,
    pub uid: Option<String>,
    pub addr: String,
    pub connected_at: Option<i64>,
    pub disconnected_at: Option<i64>,
    pub online_duration_ms: Option<u64>,
}

} // verus!
