//! The endpoints that read or change the server's own state: uid blocking
//! and rate limits, rooms, client lookups, acknowledgement status, readiness.
use vstd::prelude::*;

use crate::ids::{is_hyphenated_uuid, random_uuid};
use crate::server::state::{set_with, ServerState};
use crate::storage::{MessageRecord, OfflineRecord};
use crate::text::strings_view;

verus! {

/// Blocks or unblocks a uid.
pub struct BlockRequest {
    pub uid: String,
    pub block: bool,
}

/// Sets the per-second delivery limit of a uid (zero removes it).
pub struct RateLimitRequest {
    pub uid: String,
    pub limit_per_sec: usize,
}

/// Asks for the connections of a uid, with an optional token to check.
pub struct QueryUid {
    pub uid: String,
    pub token: Option<String>,
}

/// Asks for the client ids bound to a uid.
pub struct ClientsByUidQuery {
    pub uid: String,
}

/// The client ids bound to a uid.
pub struct ClientsByUidResponse {
    pub client_ids: Vec<String>,
}

/// Text to forward to a client of this node.
pub struct ForwardClientRequest {
    pub client_id: String,
    pub text: String,
}

/// Asks whether this node holds a client's connection.
pub struct HasClientQuery {
    pub client_id: String,
}

/// Asks whether a uid acknowledged a message.
pub struct StatusQuery {
    pub uid: String,
    pub message_id: String,
}

/// Whether a uid acknowledged a message.
pub struct StatusResponse {
    pub uid: String,
    pub message_id: String,
    pub acked: bool,
}

/// Creates a room, under the given id or a fresh one.
pub struct CreateRequest {
    pub room_id: Option<String>,
}

/// Adds a uid to a room.
pub struct JoinRequest {
    pub uid: String,
    pub room_id: String,
}

/// The rooms and their number.
pub struct RoomListResponse {
    pub rooms: Vec<String>,
    pub count: usize,
}

/// Filters of a room listing.
pub struct RoomListQuery {
    pub prefix: Option<String>,
    pub limit: Option<usize>,
}

/// Asks for the members of a room.
pub struct MembersQuery {
    pub room_id: String,
}

/// The members of a room and their number.
pub struct MembersResponse {
    pub room_id: String,
    pub members: Vec<String>,
    pub count: usize,
}

/// Asks for a page of a room's members.
pub struct MembersPageQuery {
    pub room_id: String,
    pub uid_prefix: Option<String>,
    pub limit: Option<usize>,
    pub cursor: Option<String>,
}

/// A page of a room's members.
pub struct MembersPageResponse {
    pub room_id: String,
    pub members: Vec<String>,
    pub next_cursor: Option<String>,
}

/// Asks for a uid's unread count in a room.
pub struct UnreadQuery {
    pub uid: String,
    pub room_id: String,
}

/// A uid's unread count in a room.
pub struct UnreadResponse {
    pub uid: String,
    pub room_id: String,
    pub count: usize,
}

/// Asks for a uid's message history.
pub struct HistoryQuery {
    pub uid: String,
    pub peer: Option<String>,
    pub since_ts: Option<i64>,
    pub until_ts: Option<i64>,
    pub limit: Option<usize>,
}

/// A message history.
pub struct HistoryResponse {
    pub items: Vec<MessageRecord>,
}

/// Marks a message as read by a uid.
pub struct ReadRequest {
    pub uid: String,
    pub message_id: String,
}

/// Asks for the read receipts of a uid.
pub struct ReadListQuery {
    pub uid: String,
    pub limit: Option<usize>,
}

/// Acknowledges offline messages of a uid.
pub struct AckRequest {
    pub uid: String,
    pub message_ids: Vec<String>,
}

/// Removes a uid's offline messages older than a time.
pub struct CleanupRequest {
    pub uid: String,
    pub before_ts: i64,
    pub limit: Option<usize>,
}

/// Asks for a uid's offline messages.
pub struct PullQuery {
    pub uid: String,
    pub limit: Option<usize>,
    pub cursor: Option<String>,
    pub since_ts: Option<i64>,
    pub until_ts: Option<i64>,
}

/// A page of offline messages.
pub struct PullResponse {
    pub items: Vec<OfflineRecord>,
    pub next_cursor: Option<String>,
}

/// The page size used when a request names none.
pub const DEFAULT_PAGE_LIMIT: usize = 100;

/// The requested page size, or 100.
pub fn limit_or_default(limit: Option<usize>) -> (n: usize)
    ensures
        n == match limit {
            Some(l) => l,
            None => 100usize,
        },
{
    match limit {
        Some(l) => l,
        None => DEFAULT_PAGE_LIMIT,
    }
}

/// The most online clients with which the server still reports ready.
pub const MAX_SUPPORTED_CLIENTS: usize = 10000;

/// The server is ready while it has fewer than 10000 online clients.
pub fn is_ready(online_clients: usize) -> (r: bool)
    ensures
        r == (online_clients < 10000),
{
    online_clients < MAX_SUPPORTED_CLIENTS
}

/// A room listing of `rooms`.
pub fn room_list_response(rooms: Vec<String>) -> (r: RoomListResponse)
    ensures
        strings_view(r.rooms@) == strings_view(rooms@),
        r.count == rooms@.len(),
{
    let count = rooms.len();
    RoomListResponse { rooms, count }
}

/// The members listing of `room_id`.
pub fn members_response(room_id: String, members: Vec<String>) -> (r: MembersResponse)
    ensures
        r.room_id@ == room_id@,
        strings_view(r.members@) == strings_view(members@),
        r.count == members@.len(),
{
    let count = members.len();
    MembersResponse { room_id, members, count }
}

impl ServerState {
    /// The client ids bound to the uid (none when it has no entry).
    pub fn clients_by_uid(&self, query: &ClientsByUidQuery) -> (r: ClientsByUidResponse)
        ensures
            !self.uid_clients().contains_key(query.uid@) ==> r.client_ids@.len() == 0,
            self.uid_clients().contains_key(query.uid@) ==> r.client_ids@.len() == self.uid_clients()[query.uid@].len()
                && (forall|i: int| 0 <= i < r.client_ids@.len() ==> #[trigger] self.uid_clients()[query.uid@].contains(r.client_ids@[i]@))
                && (forall|i: int, j: int| 0 <= i < r.client_ids@.len() && 0 <= j < r.client_ids@.len() && i != j
                    ==> #[trigger] r.client_ids@[i]@ != #[trigger] r.client_ids@[j]@),
    {
        match self.clients_of_uid(query.uid.as_str()) {
            Some(v) => ClientsByUidResponse { client_ids: v },
            None => ClientsByUidResponse { client_ids: Vec::new() },
        }
    }

    /// Whether this node holds the client's connection.
    pub fn has_client(&self, query: &HasClientQuery) -> (r: bool)
        ensures
            r == self.connections().contains_key(query.client_id@),
    {
        self.connection_exists(query.client_id.as_str())
    }

    /// Whether the uid acknowledged the message.
    pub fn message_status(&self, query: &StatusQuery) -> (r: StatusResponse)
        ensures
            r.uid@ == query.uid@,
            r.message_id@ == query.message_id@,
            r.acked == (self.acked().contains_key(query.uid@) && self.acked()[query.uid@].contains(query.message_id@)),
    {
        let acked = self.is_acked(query.uid.as_str(), query.message_id.as_str());
        StatusResponse { uid: query.uid.clone(), message_id: query.message_id.clone(), acked }
    }

    /// Creates the room `room_id`, or a room with a fresh random id when none
    /// is given, and returns its id. An existing room keeps its members.
    pub fn create_room(&mut self, room_id: Option<String>) -> (rid: String)
        ensures
            match room_id {
                Some(r) => rid@ == r@,
                None => is_hyphenated_uuid(rid@),
            },
            final(self).rooms() == if old(self).rooms().contains_key(rid@) {
                old(self).rooms()
            } else {
                old(self).rooms().insert(rid@, Set::<Seq<char>>::empty())
            },
            final(self).connections() == old(self).connections(),
            final(self).uid_clients() == old(self).uid_clients(),
            final(self).acked() == old(self).acked(),
            final(self).node() == old(self).node(),
            final(self).blocked() == old(self).blocked() && final(self).limits() == old(self).limits(),
    {
        let rid = match room_id {
            Some(r) => r,
            None => random_uuid(),
        };
        self.ensure_room(rid.as_str());
        rid
    }

    /// Adds `uid` to room `room_id` (creating the room when needed).
    pub fn add_room_member(&mut self, req: &JoinRequest)
        ensures
            final(self).rooms() == set_with(old(self).rooms(), req.room_id@, req.uid@),
            final(self).connections() == old(self).connections(),
            final(self).uid_clients() == old(self).uid_clients(),
            final(self).acked() == old(self).acked(),
            final(self).node() == old(self).node(),
            final(self).blocked() == old(self).blocked() && final(self).limits() == old(self).limits(),
    {
        self.join_room_as(req.room_id.as_str(), req.uid.clone());
    }
}

} // verus!
