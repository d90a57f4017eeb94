//! What the server does with one message from a client: the kind of the
//! message, the changes it makes to the server's state, and the action left
//! to the connection handler (a reply, a delivery, an authentication).
use vstd::prelude::*;

use crate::cluster::directory::Directory;
use crate::domain::OnlineClientsResponse;
use crate::server::delivery::{gated_room, group_plan_ok, opt_strings_view, GroupPlan};
use crate::server::state::{clients_view_of, set_with, set_without, ConnectionView, ServerState};
use crate::text::{concat_str, str_eq};
use crate::uid_gate::gate_step;

verus! {

/// The kinds of client messages.
#[derive(Clone, Copy, Debug, PartialEq, Eq, Structural)]
pub enum InboundKind {
    Ping,
    OnlineClients,
    Auth,
    Message,
    PrivateMessage,
    JoinRoom,
    LeaveRoom,
    GroupMessage,
    Ack,
    Unknown,
}

/// The kind named by a message's `type` field.
pub open spec fn kind_of(t: Seq<char>) -> InboundKind {
    if t == "ping"@ {
        InboundKind::Ping
    } else if t == "online_clients"@ {
        InboundKind::OnlineClients
    } else if t == "auth"@ {
        InboundKind::Auth
    } else if t == "message"@ {
        InboundKind::Message
    } else if t == "private_message"@ {
        InboundKind::PrivateMessage
    } else if t == "join_room"@ {
        InboundKind::JoinRoom
    } else if t == "leave_room"@ {
        InboundKind::LeaveRoom
    } else if t == "group_message"@ {
        InboundKind::GroupMessage
    } else if t == "ack"@ {
        InboundKind::Ack
    } else {
        InboundKind::Unknown
    }
}

/// The kind named by a message's `type` field.
pub fn message_kind(t: &str) -> (k: InboundKind)
    ensures
        k == kind_of(t@),
{
    if str_eq(t, "ping") {
        InboundKind::Ping
    } else if str_eq(t, "online_clients") {
        InboundKind::OnlineClients
    } else if str_eq(t, "auth") {
        InboundKind::Auth
    } else if str_eq(t, "message") {
        InboundKind::Message
    } else if str_eq(t, "private_message") {
        InboundKind::PrivateMessage
    } else if str_eq(t, "join_room") {
        InboundKind::JoinRoom
    } else if str_eq(t, "leave_room") {
        InboundKind::LeaveRoom
    } else if str_eq(t, "group_message") {
        InboundKind::GroupMessage
    } else if str_eq(t, "ack") {
        InboundKind::Ack
    } else {
        InboundKind::Unknown
    }
}

/// The fields of a client message that the server reads: its type, its
/// target uid, and the `room_id`, `message_id`, `token` and `uid` string
/// fields of its data (`token` is empty when absent).
pub struct InboundMessage {
    pub msg_type: String,
    pub target_uid: Option<String>,
    pub room_id: Option<String>,
    pub message_id: Option<String>,
    pub token: String,
    pub uid: Option<String>,
}

/// What is left to do after a client message was taken into account.
pub enum InboundAction {
    /// Answer with a pong.
    Pong,
    /// Answer with the online clients.
    OnlineClients(OnlineClientsResponse),
    /// Check `token`; when it is valid, bind `uid` (if given) to the client.
    Authenticate { token: String, uid: Option<String> },
    /// Send the message back to its sender.
    Echo,
    /// Deliver the message to the clients of `target_uid`.
    Forward { target_uid: String },
    /// Deliver the private message to the clients of `target_uid`.
    Private { target_uid: String },
    /// Confirm that the client joined `room_id`.
    JoinedRoom { room_id: String },
    /// Confirm that the client left `room_id`.
    LeftRoom { room_id: String },
    /// Deliver the message to room `room_id` as `plan` says.
    Group { room_id: String, plan: GroupPlan },
    /// Answer with an error carrying this text.
    Error(String),
    /// Nothing to answer.
    Nothing,
}

/// `a` is an error reply with text `text`.
pub open spec fn is_error(a: InboundAction, text: Seq<char>) -> bool {
    match a {
        InboundAction::Error(s) => s@ == text,
        _ => false,
    }
}

/// `client`'s connection seen at `now` (unchanged when untracked).
pub open spec fn heartbeat(m: Map<Seq<char>, ConnectionView>, client: Seq<char>, now: i64) -> Map<Seq<char>, ConnectionView> {
    if m.contains_key(client) {
        m.insert(client, (m[client].0, m[client].1, now))
    } else {
        m
    }
}

/// An optional string as plain values.
pub open spec fn view_opt(o: Option<String>) -> Option<Seq<char>> {
    match o {
        Some(s) => Some(s@),
        None => None,
    }
}

fn copy_opt(o: &Option<String>) -> (r: Option<String>)
    ensures
        view_opt(r) == view_opt(*o),
{
    match o {
        Some(s) => Some(s.clone()),
        None => None,
    }
}

impl ServerState {
    /// Takes a message from `client_id` into account at `now_ms`: records the
    /// heartbeat, applies what the message changes (room membership,
    /// acknowledgements, the delivery gate) and says what is left to do.
    /// `persisted` is the stored member list of the message's room, when the
    /// caller fetched one; a group message falls back to it when the room is
    /// not held in memory.
    pub fn handle_inbound<S>(
        &mut self,
        client_id: &str,
        msg: &InboundMessage,
        persisted: &Option<Vec<String>>,
        dir: &Directory<S>,
        now_ms: i64,
    ) -> (a: InboundAction)
        ensures
            ({
                let k = kind_of(msg.msg_type@);
                let uid = old(self).uid_spec(client_id@);
                let conns = heartbeat(old(self).connections(), client_id@, now_ms);
                &&& final(self).connections() == conns
                &&& final(self).uid_clients() == old(self).uid_clients()
                &&& final(self).node() == old(self).node()
                &&& final(self).blocked() == old(self).blocked()
                &&& final(self).rooms() == if k == InboundKind::JoinRoom && msg.room_id is Some && uid is Some {
                        set_with(old(self).rooms(), msg.room_id->0@, uid->0)
                    } else if k == InboundKind::LeaveRoom && msg.room_id is Some && uid is Some {
                        set_without(old(self).rooms(), msg.room_id->0@, uid->0)
                    } else {
                        old(self).rooms()
                    }
                &&& final(self).acked() == if k == InboundKind::Ack && msg.message_id is Some && uid is Some && uid->0.len() > 0 {
                        set_with(old(self).acked(), uid->0, msg.message_id->0@)
                    } else {
                        old(self).acked()
                    }
                &&& final(self).limits() == if k == InboundKind::PrivateMessage && msg.target_uid is Some {
                        gate_step(old(self).blocked(), old(self).limits(), msg.target_uid->0@, now_ms).1
                    } else if k == InboundKind::GroupMessage && msg.room_id is Some {
                        gated_room(old(self).rooms(), old(self).blocked(), old(self).limits(), msg.room_id->0@,
                            opt_strings_view(*persisted), true, now_ms)
                    } else {
                        old(self).limits()
                    }
                &&& match k {
                    InboundKind::Ping => a is Pong,
                    InboundKind::OnlineClients => a matches InboundAction::OnlineClients(r)
                        && r.total_count == r.clients@.len() && clients_view_of(r.clients@, conns, now_ms),
                    InboundKind::Auth => a matches InboundAction::Authenticate { token, uid: u }
                        && token@ == msg.token@ && view_opt(u) == view_opt(msg.uid),
                    InboundKind::Message => match msg.target_uid {
                        Some(t) => a matches InboundAction::Forward { target_uid } && target_uid@ == t@,
                        None => a is Echo,
                    },
                    InboundKind::PrivateMessage => match msg.target_uid {
                        Some(t) => if gate_step(old(self).blocked(), old(self).limits(), t@, now_ms).0 {
                            a matches InboundAction::Private { target_uid } && target_uid@ == t@
                        } else {
                            is_error(a, "target uid blocked or rate limited"@)
                        },
                        None => is_error(a, "private_message requires target_id"@),
                    },
                    InboundKind::JoinRoom => match msg.room_id {
                        Some(r) => if uid is Some {
                            a matches InboundAction::JoinedRoom { room_id } && room_id@ == r@
                        } else {
                            is_error(a, "join_room requires auth uid"@)
                        },
                        None => a is Nothing,
                    },
                    InboundKind::LeaveRoom => match msg.room_id {
                        Some(r) => if uid is Some {
                            a matches InboundAction::LeftRoom { room_id } && room_id@ == r@
                        } else {
                            a is Nothing
                        },
                        None => a is Nothing,
                    },
                    InboundKind::GroupMessage => match msg.room_id {
                        Some(r) => a matches InboundAction::Group { room_id, plan } && room_id@ == r@
                            && group_plan_ok(plan, old(self).rooms(), old(self).uid_clients(), old(self).blocked(),
                                old(self).limits(), old(self).node(), dir.clients(), dir.servers().dom(), r@, opt_strings_view(*persisted), true, now_ms),
                        None => is_error(a, "group_message requires room_id"@),
                    },
                    InboundKind::Ack => a is Nothing,
                    InboundKind::Unknown => is_error(a, "Unknown message type: "@ + msg.msg_type@),
                }
            }),
    {
        self.update_heartbeat_at(client_id, now_ms);
        let k = message_kind(msg.msg_type.as_str());
        match k {
            InboundKind::Ping => InboundAction::Pong,
            InboundKind::OnlineClients => InboundAction::OnlineClients(self.online_clients_at(now_ms)),
            InboundKind::Auth => InboundAction::Authenticate { token: msg.token.clone(), uid: copy_opt(&msg.uid) },
            InboundKind::Message => match &msg.target_uid {
                Some(t) => InboundAction::Forward { target_uid: t.clone() },
                None => InboundAction::Echo,
            },
            InboundKind::PrivateMessage => match &msg.target_uid {
                Some(t) => {
                    if self.allow_send_to_uid_at(t.as_str(), now_ms) {
                        InboundAction::Private { target_uid: t.clone() }
                    } else {
                        InboundAction::Error("target uid blocked or rate limited".to_string())
                    }
                },
                None => InboundAction::Error("private_message requires target_id".to_string()),
            },
            InboundKind::JoinRoom => match &msg.room_id {
                Some(r) => {
                    if self.join_room(client_id, r.as_str()) {
                        InboundAction::JoinedRoom { room_id: r.clone() }
                    } else {
                        InboundAction::Error("join_room requires auth uid".to_string())
                    }
                },
                None => InboundAction::Nothing,
            },
            InboundKind::LeaveRoom => match &msg.room_id {
                Some(r) => {
                    if self.leave_room(client_id, r.as_str()) {
                        InboundAction::LeftRoom { room_id: r.clone() }
                    } else {
                        InboundAction::Nothing
                    }
                },
                None => InboundAction::Nothing,
            },
            InboundKind::GroupMessage => match &msg.room_id {
                Some(r) => {
                    let plan = self.plan_group_delivery(r.as_str(), persisted, dir, true, now_ms);
                    InboundAction::Group { room_id: r.clone(), plan }
                },
                None => InboundAction::Error("group_message requires room_id".to_string()),
            },
            InboundKind::Ack => {
                match &msg.message_id {
                    Some(m) => self.record_ack(client_id, m.as_str()),
                    None => {},
                }
                InboundAction::Nothing
            },
            InboundKind::Unknown => InboundAction::Error(concat_str("Unknown message type: ", msg.msg_type.as_str())),
        }
    }
}

} // verus!
