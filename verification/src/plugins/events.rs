//! The storage and authentication events that plugins handle, by name.
use vstd::prelude::*;

use crate::text::{concat_str, str_eq};

verus! {

/// The storage events.
#[derive(Clone, Copy, Debug, PartialEq, Eq, Structural)]
pub enum StorageEvent {
    MessageSave,
    OfflineSave,
    OfflinePull,
    OfflineAck,
    OfflineCount,
    RoomAddMember,
    RoomRemoveMember,
    RoomListMembers,
    RoomList,
    ReadRecord,
    MessageHistory,
    Stats,
}

/// The storage event named `t`, if any.
pub open spec fn storage_event_of(t: Seq<char>) -> Option<StorageEvent> {
    if t == "storage.message.save"@ {
        Some(StorageEvent::MessageSave)
    } else if t == "storage.offline.save"@ {
        Some(StorageEvent::OfflineSave)
    } else if t == "storage.offline.pull"@ {
        Some(StorageEvent::OfflinePull)
    } else if t == "storage.offline.ack"@ {
        Some(StorageEvent::OfflineAck)
    } else if t == "storage.offline.count"@ {
        Some(StorageEvent::OfflineCount)
    } else if t == "storage.room.add_member"@ {
        Some(StorageEvent::RoomAddMember)
    } else if t == "storage.room.remove_member"@ {
        Some(StorageEvent::RoomRemoveMember)
    } else if t == "storage.room.list_members"@ {
        Some(StorageEvent::RoomListMembers)
    } else if t == "storage.room.list"@ {
        Some(StorageEvent::RoomList)
    } else if t == "storage.read.record"@ {
        Some(StorageEvent::ReadRecord)
    } else if t == "storage.message.history"@ {
        Some(StorageEvent::MessageHistory)
    } else if t == "storage.stats"@ {
        Some(StorageEvent::Stats)
    } else {
        None
    }
}

/// The storage event named `t`, if any.
pub fn storage_event(t: &str) -> (r: Option<StorageEvent>)
    ensures
        r == storage_event_of(t@),
{
    if str_eq(t, "storage.message.save") {
        Some(StorageEvent::MessageSave)
    } else if str_eq(t, "storage.offline.save") {
        Some(StorageEvent::OfflineSave)
    } else if str_eq(t, "storage.offline.pull") {
        Some(StorageEvent::OfflinePull)
    } else if str_eq(t, "storage.offline.ack") {
        Some(StorageEvent::OfflineAck)
    } else if str_eq(t, "storage.offline.count") {
        Some(StorageEvent::OfflineCount)
    } else if str_eq(t, "storage.room.add_member") {
        Some(StorageEvent::RoomAddMember)
    } else if str_eq(t, "storage.room.remove_member") {
        Some(StorageEvent::RoomRemoveMember)
    } else if str_eq(t, "storage.room.list_members") {
        Some(StorageEvent::RoomListMembers)
    } else if str_eq(t, "storage.room.list") {
        Some(StorageEvent::RoomList)
    } else if str_eq(t, "storage.read.record") {
        Some(StorageEvent::ReadRecord)
    } else if str_eq(t, "storage.message.history") {
        Some(StorageEvent::MessageHistory)
    } else if str_eq(t, "storage.stats") {
        Some(StorageEvent::Stats)
    } else {
        None
    }
}

/// The authentication events.
#[derive(Clone, Copy, Debug, PartialEq, Eq, Structural)]
pub enum AuthEvent {
    Login,
    Logout,
    KickOut,
    RenewTimeout,
    Replaced,
    Banned,
}

/// The authentication event named `t`, if any.
pub open spec fn auth_event_of(t: Seq<char>) -> Option<AuthEvent> {
    if t == "auth.login"@ {
        Some(AuthEvent::Login)
    } else if t == "auth.logout"@ {
        Some(AuthEvent::Logout)
    } else if t == "auth.kick_out"@ {
        Some(AuthEvent::KickOut)
    } else if t == "auth.renew_timeout"@ {
        Some(AuthEvent::RenewTimeout)
    } else if t == "auth.replaced"@ {
        Some(AuthEvent::Replaced)
    } else if t == "auth.banned"@ {
        Some(AuthEvent::Banned)
    } else {
        None
    }
}

/// The authentication event named `t`, if any.
pub fn auth_event(t: &str) -> (r: Option<AuthEvent>)
    ensures
        r == auth_event_of(t@),
{
    if str_eq(t, "auth.login") {
        Some(AuthEvent::Login)
    } else if str_eq(t, "auth.logout") {
        Some(AuthEvent::Logout)
    } else if str_eq(t, "auth.kick_out") {
        Some(AuthEvent::KickOut)
    } else if str_eq(t, "auth.renew_timeout") {
        Some(AuthEvent::RenewTimeout)
    } else if str_eq(t, "auth.replaced") {
        Some(AuthEvent::Replaced)
    } else if str_eq(t, "auth.banned") {
        Some(AuthEvent::Banned)
    } else {
        None
    }
}

/// The error text of an event of unknown type `t`.
pub fn unknown_event_message(t: &str) -> (r: String)
    ensures
        r@ == "Unknown event type: "@ + t@,
{
    concat_str("Unknown event type: ", t)
}

/// Custom events whose type starts with `message.` wait for the remote
/// plugins' acknowledgement.
pub fn custom_event_needs_ack(event_type: &str) -> (r: bool)
    ensures
        r == crate::text::seq_starts_with(event_type@, "message."@),
{
    let a = crate::text::chars_of(event_type);
    let b = crate::text::chars_of("message.");
    crate::text::chars_starts_with(&a, &b)
}

/// The event type that each storage handler is dispatched for.
pub open spec fn storage_event_name(e: StorageEvent) -> Seq<char> {
    match e {
        StorageEvent::MessageSave => "storage.message.save"@,
        StorageEvent::OfflineSave => "storage.offline.save"@,
        StorageEvent::OfflinePull => "storage.offline.pull"@,
        StorageEvent::OfflineAck => "storage.offline.ack"@,
        StorageEvent::OfflineCount => "storage.offline.count"@,
        StorageEvent::RoomAddMember => "storage.room.add_member"@,
        StorageEvent::RoomRemoveMember => "storage.room.remove_member"@,
        StorageEvent::RoomListMembers => "storage.room.list_members"@,
        StorageEvent::RoomList => "storage.room.list"@,
        StorageEvent::ReadRecord => "storage.read.record"@,
        StorageEvent::MessageHistory => "storage.message.history"@,
        StorageEvent::Stats => "storage.stats"@,
    }
}

/// A storage event reaches a handler exactly when its type is that handler's
/// name: `t` is dispatched to `e` if and only if `t` is `e`'s event type.
/// So no two handlers share a type, each handler is reached by its own type
/// only, and a type that names no handler reaches none.
pub proof fn lemma_storage_event_dispatch(t: Seq<char>, e: StorageEvent)
    ensures
        storage_event_of(t) == Some(e) <==> t == storage_event_name(e),
{
    reveal_strlit("storage.message.save");
    assert("storage.message.save"@.len() == 20 && "storage.message.save"@[8] == 'm' && "storage.message.save"@[16] == 's');
    reveal_strlit("storage.offline.save");
    assert("storage.offline.save"@.len() == 20 && "storage.offline.save"@[8] == 'o' && "storage.offline.save"@[16] == 's');
    reveal_strlit("storage.offline.pull");
    assert("storage.offline.pull"@.len() == 20 && "storage.offline.pull"@[8] == 'o' && "storage.offline.pull"@[16] == 'p');
    reveal_strlit("storage.offline.ack");
    assert("storage.offline.ack"@.len() == 19 && "storage.offline.ack"@[8] == 'o' && "storage.offline.ack"@[16] == 'a');
    reveal_strlit("storage.offline.count");
    assert("storage.offline.count"@.len() == 21 && "storage.offline.count"@[8] == 'o' && "storage.offline.count"@[16] == 'c');
    reveal_strlit("storage.room.add_member");
    assert("storage.room.add_member"@.len() == 23 && "storage.room.add_member"@[8] == 'r' && "storage.room.add_member"@[16] == '_');
    reveal_strlit("storage.room.remove_member");
    assert("storage.room.remove_member"@.len() == 26 && "storage.room.remove_member"@[8] == 'r' && "storage.room.remove_member"@[16] == 'o');
    reveal_strlit("storage.room.list_members");
    assert("storage.room.list_members"@.len() == 25 && "storage.room.list_members"@[8] == 'r' && "storage.room.list_members"@[16] == 't');
    reveal_strlit("storage.room.list");
    assert("storage.room.list"@.len() == 17 && "storage.room.list"@[8] == 'r' && "storage.room.list"@[16] == 't');
    reveal_strlit("storage.read.record");
    assert("storage.read.record"@.len() == 19 && "storage.read.record"@[8] == 'r' && "storage.read.record"@[16] == 'o');
    reveal_strlit("storage.message.history");
    assert("storage.message.history"@.len() == 23 && "storage.message.history"@[8] == 'm' && "storage.message.history"@[16] == 'h');
    reveal_strlit("storage.stats");
    assert("storage.stats"@.len() == 13 && "storage.stats"@[8] == 's');
}

/// The event type that each authentication handler is dispatched for.
pub open spec fn auth_event_name(e: AuthEvent) -> Seq<char> {
    match e {
        AuthEvent::Login => "auth.login"@,
        AuthEvent::Logout => "auth.logout"@,
        AuthEvent::KickOut => "auth.kick_out"@,
        AuthEvent::RenewTimeout => "auth.renew_timeout"@,
        AuthEvent::Replaced => "auth.replaced"@,
        AuthEvent::Banned => "auth.banned"@,
    }
}

/// An authentication event reaches a handler exactly when its type is that
/// handler's name: `t` is dispatched to `e` if and only if `t` is `e`'s event
/// type.
pub proof fn lemma_auth_event_dispatch(t: Seq<char>, e: AuthEvent)
    ensures
        auth_event_of(t) == Some(e) <==> t == auth_event_name(e),
{
    reveal_strlit("auth.login");
    assert("auth.login"@.len() == 10 && "auth.login"@[5] == 'l' && "auth.login"@[6] == 'o');
    reveal_strlit("auth.logout");
    assert("auth.logout"@.len() == 11 && "auth.logout"@[5] == 'l' && "auth.logout"@[6] == 'o');
    reveal_strlit("auth.kick_out");
    assert("auth.kick_out"@.len() == 13 && "auth.kick_out"@[5] == 'k' && "auth.kick_out"@[6] == 'i');
    reveal_strlit("auth.renew_timeout");
    assert("auth.renew_timeout"@.len() == 18 && "auth.renew_timeout"@[5] == 'r' && "auth.renew_timeout"@[6] == 'e');
    reveal_strlit("auth.replaced");
    assert("auth.replaced"@.len() == 13 && "auth.replaced"@[5] == 'r' && "auth.replaced"@[6] == 'e');
    reveal_strlit("auth.banned");
    assert("auth.banned"@.len() == 11 && "auth.banned"@[5] == 'b' && "auth.banned"@[6] == 'a');
}

} // verus!
