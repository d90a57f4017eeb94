//! Connections, uid bindings, rooms and acknowledged message ids.
use vstd::prelude::*;

use crate::collections::{lists_keys, StrMap, StrSet};
use crate::storage::opt_view;
use crate::text::chars_of;
use crate::domain::{clients_view, HttpBroadcastResponse, OnlineClientInfo, OnlineClientView, OnlineClientsResponse};
use crate::text::{concat_str, decimal, decimal_string, strings_view};
use crate::uid_gate::{gate_step, RateWindow, UidGate};

verus! {

/// A client connection as the server tracks it.
pub struct Connection {
    pub uid: Option<String>,
    pub addr: String,
    pub last_heartbeat_ms: i64,
}

/// A connection as plain values: `(uid, addr, last heartbeat)`.
pub type ConnectionView = (Option<Seq<char>>, Seq<char>, i64);

impl View for Connection {
    type V = ConnectionView;

    open spec fn view(&self) -> ConnectionView {
        (opt_view(self.uid), self.addr@, self.last_heartbeat_ms)
    }
}

/// A table of string sets as plain values.
pub open spec fn sets_view(m: Map<Seq<char>, StrSet>) -> Map<Seq<char>, Set<Seq<char>>> {
    m.map_values(|s: StrSet| s@)
}

/// `e` added to the set under `key`, which starts empty when absent.
pub open spec fn set_with(m: Map<Seq<char>, Set<Seq<char>>>, key: Seq<char>, e: Seq<char>) -> Map<
    Seq<char>,
    Set<Seq<char>>,
> {
    m.insert(key, if m.contains_key(key) { m[key].insert(e) } else { set![e] })
}

/// `e` taken out of the set under `key`, when there is one.
pub open spec fn set_without(m: Map<Seq<char>, Set<Seq<char>>>, key: Seq<char>, e: Seq<char>) -> Map<
    Seq<char>,
    Set<Seq<char>>,
> {
    if m.contains_key(key) {
        m.insert(key, m[key].remove(e))
    } else {
        m
    }
}

/// Adds `e` to the set under `key`.
pub fn add_to_set(m: &mut StrMap<StrSet>, key: &str, e: String)
    ensures
        sets_view(final(m)@) == set_with(sets_view(old(m)@), key@, e@),
{
    let ghost ev = e@;
    match m.remove(key) {
        Some(mut s) => {
            s.insert(e);
            m.insert(key.to_string(), s);
        },
        None => {
            let mut s = StrSet::new();
            s.insert(e);
            assert(s@ =~= set![ev]);
            m.insert(key.to_string(), s);
        },
    }
    assert(sets_view(m@) =~= set_with(sets_view(old(m)@), key@, ev));
}

/// Takes `e` out of the set under `key`.
pub fn remove_from_set(m: &mut StrMap<StrSet>, key: &str, e: &str)
    ensures
        sets_view(final(m)@) == set_without(sets_view(old(m)@), key@, e@),
{
    match m.remove(key) {
        Some(mut s) => {
            s.remove(e);
            m.insert(key.to_string(), s);
            assert(sets_view(m@) =~= set_without(sets_view(old(m)@), key@, e@));
        },
        None => {
            assert(m@ =~= old(m)@);
        },
    }
}

/// Whole seconds since `last_ms` at `now_ms` (zero when `last_ms` is later).
pub open spec fn age_secs(last_ms: i64, now_ms: i64) -> i64 {
    if now_ms > last_ms { ((now_ms - last_ms) / 1000) as i64 } else { 0 }
}

/// How a connection is listed at `now_ms`: its uid and address, `now_ms` as
/// the connection time, and the seconds since its last heartbeat.
pub open spec fn listed(c: ConnectionView, now_ms: i64) -> OnlineClientView {
    (c.0, c.1, now_ms, age_secs(c.2, now_ms))
}

/// The connection has not been seen for more than `timeout_ms` at `now_ms`.
pub open spec fn timed_out(c: ConnectionView, timeout_ms: u64, now_ms: i64) -> bool {
    now_ms - c.2 > timeout_ms
}

/// The connections that have not timed out.
pub open spec fn live_only(m: Map<Seq<char>, ConnectionView>, timeout_ms: u64, now_ms: i64) -> Map<Seq<char>, ConnectionView> {
    Map::new(|k: Seq<char>| m.contains_key(k) && !timed_out(m[k], timeout_ms, now_ms), |k: Seq<char>| m[k])
}

/// `clients` lists each connection of `conns` once, as listed at `now_ms`.
pub open spec fn clients_view_of(clients: Seq<OnlineClientInfo>, conns: Map<Seq<char>, ConnectionView>, now_ms: i64) -> bool {
    exists|ks: Seq<Seq<char>>| #[trigger] lists_keys(ks, conns.dom())
        && clients_view(clients) == ks.map_values(|k: Seq<char>| listed(conns[k], now_ms))
}

/// The reply to a broadcast that reached `n` clients.
pub open spec fn broadcast_message(n: nat) -> Seq<char> {
    "Broadcast delivered to "@ + decimal(n) + " clients"@
}

/// `m` with room `room` present and holding, besides its members, every uid
/// of `uids`.
pub open spec fn room_with_all(m: Map<Seq<char>, Set<Seq<char>>>, room: Seq<char>, uids: Seq<Seq<char>>) -> Map<
    Seq<char>,
    Set<Seq<char>>,
> {
    m.insert(room, if m.contains_key(room) { m[room].union(uids.to_set()) } else { uids.to_set() })
}

/// Stored rooms with their members, as plain values.
pub open spec fn stored_rooms_view(l: Seq<(String, Vec<String>)>) -> Seq<(Seq<char>, Seq<Seq<char>>)> {
    l.map_values(|p: (String, Vec<String>)| (p.0@, strings_view(p.1@)))
}

/// `m` after loading each stored room of `l` with its members, in order.
pub open spec fn rooms_loaded(m: Map<Seq<char>, Set<Seq<char>>>, l: Seq<(Seq<char>, Seq<Seq<char>>)>) -> Map<
    Seq<char>,
    Set<Seq<char>>,
>
    decreases l.len(),
{
    if l.len() == 0 {
        m
    } else {
        room_with_all(rooms_loaded(m, l.drop_last()), l.last().0, l.last().1)
    }
}

/// The number of memberships listed in `l`.
pub open spec fn memberships(l: Seq<(Seq<char>, Seq<Seq<char>>)>) -> nat
    decreases l.len(),
{
    if l.len() == 0 {
        0
    } else {
        memberships(l.drop_last()) + l.last().1.len()
    }
}

/// The connections, uid bindings, rooms, acknowledgements and delivery gate
/// of one server node.
pub struct ServerState {
    node_id: String,
    connections: StrMap<Connection>,
    uid_clients: StrMap<StrSet>,
    rooms: StrMap<StrSet>,
    acked_ids: StrMap<StrSet>,
    gate: UidGate,
}

/// `after` is `before` with `uid` bound to `client_id`: the connection (when
/// tracked) carries the uid, the client is one of the uid's clients, and
/// nothing else changed.
pub open spec fn auth_applied(before: ServerState, after: ServerState, client_id: Seq<char>, uid: Seq<char>) -> bool {
    &&& before.connections().contains_key(client_id) ==> after.connections() == before.connections().insert(
        client_id,
        (Some(uid), before.connections()[client_id].1, before.connections()[client_id].2),
    )
    &&& !before.connections().contains_key(client_id) ==> after.connections() == before.connections()
    &&& after.uid_clients() == set_with(before.uid_clients(), uid, client_id)
    &&& after.rooms() == before.rooms()
    &&& after.acked() == before.acked()
    &&& after.node() == before.node()
    &&& after.blocked() == before.blocked() && after.limits() == before.limits()
}

impl ServerState {
    /// This node's id.
    pub closed spec fn node(&self) -> Seq<char> {
        self.node_id@
    }

    /// The connections, by client id.
    pub closed spec fn connections(&self) -> Map<Seq<char>, ConnectionView> {
        self.connections@.map_values(|c: Connection| c@)
    }

    /// The client ids bound to each uid.
    pub closed spec fn uid_clients(&self) -> Map<Seq<char>, Set<Seq<char>>> {
        sets_view(self.uid_clients@)
    }

    /// The member uids of each room.
    pub closed spec fn rooms(&self) -> Map<Seq<char>, Set<Seq<char>>> {
        sets_view(self.rooms@)
    }

    /// The message ids each uid has acknowledged.
    pub closed spec fn acked(&self) -> Map<Seq<char>, Set<Seq<char>>> {
        sets_view(self.acked_ids@)
    }

    /// The uids that are never delivered to.
    pub closed spec fn blocked(&self) -> Set<Seq<char>> {
        self.gate.blocked()
    }

    /// The rate window of each rate-limited uid.
    pub closed spec fn limits(&self) -> Map<Seq<char>, RateWindow> {
        self.gate.limits()
    }

    /// The uid bound to `client_id`'s connection, if any.
    pub open spec fn uid_spec(&self, client_id: Seq<char>) -> Option<Seq<char>> {
        if self.connections().contains_key(client_id) {
            self.connections()[client_id].0
        } else {
            None
        }
    }

    /// A node `node_id` with no connection, binding, room or acknowledgement.
    pub fn new(node_id: String) -> (s: Self)
        ensures
            s.node() == node_id@,
            s.connections() == Map::<Seq<char>, ConnectionView>::empty(),
            s.uid_clients() == Map::<Seq<char>, Set<Seq<char>>>::empty(),
            s.rooms() == Map::<Seq<char>, Set<Seq<char>>>::empty(),
            s.acked() == Map::<Seq<char>, Set<Seq<char>>>::empty(),
            s.blocked() == Set::<Seq<char>>::empty(),
            s.limits() == Map::<Seq<char>, RateWindow>::empty(),
    {
        let s = ServerState {
            node_id,
            connections: StrMap::new(),
            uid_clients: StrMap::new(),
            rooms: StrMap::new(),
            acked_ids: StrMap::new(),
            gate: UidGate::new(),
        };
        assert(s.connections() =~= Map::<Seq<char>, ConnectionView>::empty());
        assert(s.uid_clients() =~= Map::<Seq<char>, Set<Seq<char>>>::empty());
        assert(s.rooms() =~= Map::<Seq<char>, Set<Seq<char>>>::empty());
        assert(s.acked() =~= Map::<Seq<char>, Set<Seq<char>>>::empty());
        s
    }

    /// This node's id.
    pub fn node_id(&self) -> (r: String)
        ensures
            r@ == self.node(),
    {
        self.node_id.clone()
    }

    /// Tracks a new connection from `addr`, with no uid, seen at `now_ms`.
    pub fn add_connection(&mut self, client_id: &str, addr: String, now_ms: i64)
        ensures
            final(self).connections() == old(self).connections().insert(client_id@, (None, addr@, now_ms)),
            final(self).uid_clients() == old(self).uid_clients(),
            final(self).rooms() == old(self).rooms(),
            final(self).acked() == old(self).acked(),
            final(self).node() == old(self).node(),
            final(self).blocked() == old(self).blocked() && final(self).limits() == old(self).limits(),
    {
        let c = Connection { uid: None, addr, last_heartbeat_ms: now_ms };
        self.connections.insert(client_id.to_string(), c);
        assert(self.connections() =~= old(self).connections().insert(client_id@, (None, c.addr@, now_ms)));
    }

    /// Forgets `client_id`'s connection.
    pub fn remove_connection(&mut self, client_id: &str)
        ensures
            final(self).connections() == old(self).connections().remove(client_id@),
            final(self).uid_clients() == old(self).uid_clients(),
            final(self).rooms() == old(self).rooms(),
            final(self).acked() == old(self).acked(),
            final(self).node() == old(self).node(),
            final(self).blocked() == old(self).blocked() && final(self).limits() == old(self).limits(),
    {
        self.connections.remove(client_id);
        assert(self.connections() =~= old(self).connections().remove(client_id@));
    }

    /// Binds `uid` to `client_id`'s connection, when it is tracked.
    pub fn set_connection_uid(&mut self, client_id: &str, uid: String)
        ensures
            old(self).connections().contains_key(client_id@) ==> final(self).connections()
                == old(self).connections().insert(
                client_id@,
                (Some(uid@), old(self).connections()[client_id@].1, old(self).connections()[client_id@].2),
            ),
            !old(self).connections().contains_key(client_id@) ==> final(self).connections()
                == old(self).connections(),
            final(self).uid_clients() == old(self).uid_clients(),
            final(self).rooms() == old(self).rooms(),
            final(self).acked() == old(self).acked(),
            final(self).node() == old(self).node(),
            final(self).blocked() == old(self).blocked() && final(self).limits() == old(self).limits(),
    {
        let ghost u = uid@;
        match self.connections.remove(client_id) {
            Some(mut c) => {
                c.uid = Some(uid);
                self.connections.insert(client_id.to_string(), c);
                assert(self.connections() =~= old(self).connections().insert(
                    client_id@,
                    (Some(u), old(self).connections()[client_id@].1, old(self).connections()[client_id@].2),
                ));
            },
            None => {
                assert(self.connections() =~= old(self).connections());
            },
        }
    }

    /// Records that `client_id` is one of `uid`'s clients.
    pub fn bind_uid_client(&mut self, uid: &str, client_id: String)
        ensures
            final(self).uid_clients() == set_with(old(self).uid_clients(), uid@, client_id@),
            final(self).connections() == old(self).connections(),
            final(self).rooms() == old(self).rooms(),
            final(self).acked() == old(self).acked(),
            final(self).node() == old(self).node(),
            final(self).blocked() == old(self).blocked() && final(self).limits() == old(self).limits(),
    {
        add_to_set(&mut self.uid_clients, uid, client_id);
    }

    /// Records that `client_id` is no longer one of `uid`'s clients.
    pub fn unbind_uid_client(&mut self, uid: &str, client_id: &str)
        ensures
            final(self).uid_clients() == set_without(old(self).uid_clients(), uid@, client_id@),
            final(self).connections() == old(self).connections(),
            final(self).rooms() == old(self).rooms(),
            final(self).acked() == old(self).acked(),
            final(self).node() == old(self).node(),
            final(self).blocked() == old(self).blocked() && final(self).limits() == old(self).limits(),
    {
        remove_from_set(&mut self.uid_clients, uid, client_id);
    }

    /// The uid bound to `client_id`'s connection.
    pub fn uid_of(&self, client_id: &str) -> (r: Option<String>)
        ensures
            opt_view(r) == self.uid_spec(client_id@),
    {
        match self.connections.get(client_id) {
            Some(c) => match &c.uid {
                Some(u) => Some(u.clone()),
                None => None,
            },
            None => None,
        }
    }

    /// Marks `client_id`'s connection as seen at `now_ms`.
    pub fn update_heartbeat_at(&mut self, client_id: &str, now_ms: i64)
        ensures
            old(self).connections().contains_key(client_id@) ==> final(self).connections()
                == old(self).connections().insert(
                client_id@,
                (old(self).connections()[client_id@].0, old(self).connections()[client_id@].1, now_ms),
            ),
            !old(self).connections().contains_key(client_id@) ==> final(self).connections()
                == old(self).connections(),
            final(self).uid_clients() == old(self).uid_clients(),
            final(self).rooms() == old(self).rooms(),
            final(self).acked() == old(self).acked(),
            final(self).node() == old(self).node(),
            final(self).blocked() == old(self).blocked() && final(self).limits() == old(self).limits(),
    {
        match self.connections.remove(client_id) {
            Some(mut c) => {
                c.last_heartbeat_ms = now_ms;
                self.connections.insert(client_id.to_string(), c);
                assert(self.connections() =~= old(self).connections().insert(
                    client_id@,
                    (old(self).connections()[client_id@].0, old(self).connections()[client_id@].1, now_ms),
                ));
            },
            None => {
                assert(self.connections() =~= old(self).connections());
            },
        }
    }

    /// Adds the uid of `client_id` to room `room_id`. Refused (`false`, nothing
    /// changes) when the connection has no uid.
    pub fn join_room(&mut self, client_id: &str, room_id: &str) -> (joined: bool)
        ensures
            joined == (old(self).uid_spec(client_id@) is Some),
            joined ==> final(self).rooms() == set_with(old(self).rooms(), room_id@, old(self).uid_spec(client_id@)->0),
            !joined ==> final(self).rooms() == old(self).rooms(),
            final(self).connections() == old(self).connections(),
            final(self).uid_clients() == old(self).uid_clients(),
            final(self).acked() == old(self).acked(),
            final(self).node() == old(self).node(),
            final(self).blocked() == old(self).blocked() && final(self).limits() == old(self).limits(),
    {
        match self.uid_of(client_id) {
            Some(uid) => {
                add_to_set(&mut self.rooms, room_id, uid);
                true
            },
            None => false,
        }
    }

    /// Takes the uid of `client_id` out of room `room_id`. Returns whether the
    /// connection has a uid (nothing changes otherwise).
    pub fn leave_room(&mut self, client_id: &str, room_id: &str) -> (had_uid: bool)
        ensures
            had_uid == (old(self).uid_spec(client_id@) is Some),
            had_uid ==> final(self).rooms() == set_without(old(self).rooms(), room_id@, old(self).uid_spec(client_id@)->0),
            !had_uid ==> final(self).rooms() == old(self).rooms(),
            final(self).connections() == old(self).connections(),
            final(self).uid_clients() == old(self).uid_clients(),
            final(self).acked() == old(self).acked(),
            final(self).node() == old(self).node(),
            final(self).blocked() == old(self).blocked() && final(self).limits() == old(self).limits(),
    {
        match self.uid_of(client_id) {
            Some(uid) => {
                remove_from_set(&mut self.rooms, room_id, uid.as_str());
                true
            },
            None => false,
        }
    }

    /// Records that the uid of `client_id` acknowledged `message_id`; nothing
    /// happens when the connection has no uid or an empty one.
    pub fn record_ack(&mut self, client_id: &str, message_id: &str)
        ensures
            (old(self).uid_spec(client_id@) matches Some(u) && u.len() > 0) ==> final(self).acked()
                == set_with(old(self).acked(), old(self).uid_spec(client_id@)->0, message_id@),
            !(old(self).uid_spec(client_id@) matches Some(u) && u.len() > 0) ==> final(self).acked()
                == old(self).acked(),
            final(self).connections() == old(self).connections(),
            final(self).uid_clients() == old(self).uid_clients(),
            final(self).rooms() == old(self).rooms(),
            final(self).node() == old(self).node(),
            final(self).blocked() == old(self).blocked() && final(self).limits() == old(self).limits(),
    {
        match self.uid_of(client_id) {
            Some(uid) => {
                if chars_of(uid.as_str()).len() > 0 {
                    add_to_set(&mut self.acked_ids, uid.as_str(), message_id.to_string());
                }
            },
            None => {},
        }
    }

    /// Whether `uid` acknowledged `message_id`.
    pub fn is_acked(&self, uid: &str, message_id: &str) -> (r: bool)
        ensures
            r == (self.acked().contains_key(uid@) && self.acked()[uid@].contains(message_id@)),
    {
        match self.acked_ids.get(uid) {
            Some(s) => s.contains(message_id),
            None => false,
        }
    }

    /// The client ids bound to `uid`, each once, when `uid` has an entry.
    pub fn clients_of_uid(&self, uid: &str) -> (r: Option<Vec<String>>)
        ensures
            match r {
                Some(v) => self.uid_clients().contains_key(uid@) && v@.len() == self.uid_clients()[uid@].len()
                    && (forall|i: int| 0 <= i < v@.len() ==> #[trigger] self.uid_clients()[uid@].contains(v@[i]@))
                    && (forall|i: int, j: int| 0 <= i < v@.len() && 0 <= j < v@.len() && i != j ==> #[trigger] v@[i]@ != #[trigger] v@[j]@),
                None => !self.uid_clients().contains_key(uid@),
            },
    {
        match self.uid_clients.get(uid) {
            Some(s) => Some(s.to_vec()),
            None => None,
        }
    }

    /// The member uids of `room_id`, each once, when the room exists.
    pub fn room_members(&self, room_id: &str) -> (r: Option<Vec<String>>)
        ensures
            match r {
                Some(v) => self.rooms().contains_key(room_id@) && v@.len() == self.rooms()[room_id@].len()
                    && (forall|i: int| 0 <= i < v@.len() ==> #[trigger] self.rooms()[room_id@].contains(v@[i]@))
                    && (forall|k: Seq<char>| #[trigger] self.rooms()[room_id@].contains(k) ==> exists|i: int| 0 <= i < v@.len() && #[trigger] v@[i]@ == k)
                    && (forall|i: int, j: int| 0 <= i < v@.len() && 0 <= j < v@.len() && i != j ==> #[trigger] v@[i]@ != #[trigger] v@[j]@),
                None => !self.rooms().contains_key(room_id@),
            },
    {
        match self.rooms.get(room_id) {
            Some(s) => Some(s.to_vec()),
            None => None,
        }
    }

    /// One delivery attempt to `uid` at `now_ms` against the blocked uids and
    /// rate windows, as [`UidGate::allow_send_to_uid_at`].
    pub fn allow_send_to_uid_at(&mut self, uid: &str, now_ms: i64) -> (ok: bool)
        ensures
            (ok, final(self).limits()) == gate_step(old(self).blocked(), old(self).limits(), uid@, now_ms),
            final(self).blocked() == old(self).blocked(),
            final(self).connections() == old(self).connections(),
            final(self).uid_clients() == old(self).uid_clients(),
            final(self).rooms() == old(self).rooms(),
            final(self).acked() == old(self).acked(),
            final(self).node() == old(self).node(),
    {
        self.gate.allow_send_to_uid_at(uid, now_ms)
    }

    /// Blocks or unblocks `uid`.
    pub fn set_blocked(&mut self, uid: &str, block: bool)
        ensures
            final(self).blocked() == if block { old(self).blocked().insert(uid@) } else { old(self).blocked().remove(uid@) },
            final(self).limits() == old(self).limits(),
            final(self).connections() == old(self).connections(),
            final(self).uid_clients() == old(self).uid_clients(),
            final(self).rooms() == old(self).rooms(),
            final(self).acked() == old(self).acked(),
            final(self).node() == old(self).node(),
    {
        self.gate.set_blocked(uid, block);
    }

    /// Limits `uid` to `limit_per_sec` deliveries per window, starting a new
    /// window at `now_ms`; a limit of zero removes the limit.
    pub fn set_rate_limit_at(&mut self, uid: &str, limit_per_sec: usize, now_ms: i64)
        ensures
            final(self).limits() == if limit_per_sec == 0 {
                old(self).limits().remove(uid@)
            } else {
                old(self).limits().insert(uid@, (limit_per_sec, 0usize, now_ms))
            },
            final(self).blocked() == old(self).blocked(),
            final(self).connections() == old(self).connections(),
            final(self).uid_clients() == old(self).uid_clients(),
            final(self).rooms() == old(self).rooms(),
            final(self).acked() == old(self).acked(),
            final(self).node() == old(self).node(),
    {
        self.gate.set_rate_limit_at(uid, limit_per_sec, now_ms);
    }

    /// The connections as listed at `now_ms`, in no promised order.
    pub fn online_clients_at(&self, now_ms: i64) -> (r: OnlineClientsResponse)
        ensures
            r.total_count == r.clients@.len(),
            clients_view_of(r.clients@, self.connections(), now_ms),
    {
        let es = self.connections.entries();
        let mut out: Vec<OnlineClientInfo> = Vec::new();
        let mut i: usize = 0;
        while i < es.len()
            invariant
                i <= es@.len(),
                out@.len() == i,
                forall|j: int| 0 <= j < i ==> #[trigger] out@[j]@ == listed(es@[j].1@, now_ms),
            decreases es.len() - i,
        {
            let c = &es[i].1;
            let age: i64 = if now_ms > c.last_heartbeat_ms {
                ((now_ms as i128 - c.last_heartbeat_ms as i128) / 1000) as i64
            } else {
                0
            };
            let uid = match &c.uid {
                Some(u) => Some(u.clone()),
                None => None,
            };
            out.push(OnlineClientInfo { uid, addr: c.addr.clone(), connected_at: now_ms, last_heartbeat: age });
            i += 1;
        }
        proof {
            let ks = es@.map_values(|e: (String, Connection)| e.0@);
            assert(ks.no_duplicates()) by {
                assert forall|a: int, b: int| 0 <= a < ks.len() && 0 <= b < ks.len() && a != b implies ks[a] != ks[b] by {
                    assert(es@[a].0@ != es@[b].0@);
                }
            }
            assert forall|k: Seq<char>| #[trigger] self.connections().dom().contains(k) <==> ks.contains(k) by {
                if self.connections().dom().contains(k) {
                    assert(self.connections@.contains_key(k));
                    let j = choose|j: int| 0 <= j < es@.len() && #[trigger] es@[j].0@ == k;
                    assert(ks[j] == k);
                }
                if ks.contains(k) {
                    let j = choose|j: int| 0 <= j < ks.len() && ks[j] == k;
                    assert(self.connections@.contains_key(es@[j].0@));
                }
            }
            assert(lists_keys(ks, self.connections().dom()));
            assert forall|j: int| 0 <= j < ks.len() implies clients_view(out@)[j] == ks.map_values(|k: Seq<char>| listed(self.connections()[k], now_ms))[j] by {
                assert(self.connections@.contains_key(es@[j].0@));
            }
            assert(clients_view(out@) =~= ks.map_values(|k: Seq<char>| listed(self.connections()[k], now_ms)));
            assert(clients_view_of(out@, self.connections(), now_ms));
        }
        let n = out.len();
        OnlineClientsResponse { clients: out, total_count: n }
    }

    /// Forgets the connections not seen for more than `timeout_ms` at
    /// `now_ms`, and returns their client ids, each once.
    pub fn cleanup_timeout_connections_at(&mut self, timeout_ms: u64, now_ms: i64) -> (gone: Vec<String>)
        ensures
            final(self).connections() == live_only(old(self).connections(), timeout_ms, now_ms),
            forall|i: int| 0 <= i < gone@.len() ==> #[trigger] old(self).connections().contains_key(gone@[i]@)
                && timed_out(old(self).connections()[gone@[i]@], timeout_ms, now_ms),
            forall|k: Seq<char>| #[trigger] old(self).connections().contains_key(k) && timed_out(old(self).connections()[k], timeout_ms, now_ms)
                ==> exists|i: int| 0 <= i < gone@.len() && #[trigger] gone@[i]@ == k,
            forall|i: int, j: int| 0 <= i < gone@.len() && 0 <= j < gone@.len() && i != j ==> #[trigger] gone@[i]@ != #[trigger] gone@[j]@,
            final(self).uid_clients() == old(self).uid_clients(),
            final(self).rooms() == old(self).rooms(),
            final(self).acked() == old(self).acked(),
            final(self).node() == old(self).node(),
            final(self).blocked() == old(self).blocked() && final(self).limits() == old(self).limits(),
    {
        let es = self.connections.entries();
        let mut gone: Vec<String> = Vec::new();
        let ghost mut idx: Seq<int> = Seq::empty();
        let mut i: usize = 0;
        while i < es.len()
            invariant
                i <= es@.len(),
                gone@.len() == idx.len(),
                forall|j: int| 0 <= j < idx.len() ==> 0 <= #[trigger] idx[j] < i && gone@[j]@ == es@[idx[j]].0@
                    && timed_out(es@[idx[j]].1@, timeout_ms, now_ms),
                forall|j: int, l: int| 0 <= j < l < idx.len() ==> #[trigger] idx[j] < #[trigger] idx[l],
                forall|a: int| 0 <= a < i && #[trigger] timed_out(es@[a].1@, timeout_ms, now_ms) ==> exists|j: int| 0 <= j < idx.len() && idx[j] == a,
            decreases es.len() - i,
        {
            let ghost prev = idx;
            let c = &es[i].1;
            if (now_ms as i128) - (c.last_heartbeat_ms as i128) > timeout_ms as i128 {
                gone.push(es[i].0.clone());
                proof {
                    idx = idx.push(i as int);
                }
            }
            proof {
                assert forall|a: int| 0 <= a < i + 1 && #[trigger] timed_out(es@[a].1@, timeout_ms, now_ms)
                    implies exists|j: int| 0 <= j < idx.len() && idx[j] == a by {
                    if a == i {
                        assert(idx[idx.len() - 1] == a);
                    } else {
                        let j = choose|j: int| 0 <= j < prev.len() && prev[j] == a;
                        assert(idx[j] == a);
                    }
                }
            }
            i += 1;
        }
        let ghost old_conns = self.connections@;
        proof {
            assert forall|a: int, b: int| 0 <= a < gone@.len() && 0 <= b < gone@.len() && a != b implies #[trigger] gone@[a]@ != #[trigger] gone@[b]@ by {
                if a < b { assert(idx[a] < idx[b]); } else { assert(idx[b] < idx[a]); }
                assert(es@[idx[a]].0@ != es@[idx[b]].0@);
            }
            assert forall|j: int| 0 <= j < gone@.len() implies #[trigger] old(self).connections().contains_key(gone@[j]@)
                && timed_out(old(self).connections()[gone@[j]@], timeout_ms, now_ms) by {
                assert(old_conns.contains_key(es@[idx[j]].0@));
            }
            assert forall|k: Seq<char>| #[trigger] old(self).connections().contains_key(k) && timed_out(old(self).connections()[k], timeout_ms, now_ms)
                implies exists|i: int| 0 <= i < gone@.len() && #[trigger] gone@[i]@ == k by {
                assert(old_conns.contains_key(k));
                let a = choose|a: int| 0 <= a < es@.len() && #[trigger] es@[a].0@ == k;
                assert(old_conns[es@[a].0@] == es@[a].1);
                assert(timed_out(es@[a].1@, timeout_ms, now_ms));
                let j = choose|j: int| 0 <= j < idx.len() && idx[j] == a;
                assert(gone@[j]@ == k);
            }
        }
        self.connections.remove_all(&gone);
        proof {
            let gv = gone@.map_values(|s: String| s@);
            let gs = gv.to_set();
            assert forall|k: Seq<char>| gs.contains(k) <==> (old_conns.contains_key(k) && timed_out(old_conns[k]@, timeout_ms, now_ms)) by {
                if gs.contains(k) {
                    let j = choose|j: int| 0 <= j < gv.len() && #[trigger] gv[j] == k;
                    assert(gone@[j]@ == k);
                    assert(old(self).connections().contains_key(gone@[j]@));
                }
                if old_conns.contains_key(k) && timed_out(old_conns[k]@, timeout_ms, now_ms) {
                    assert(old(self).connections().contains_key(k));
                    let j = choose|j: int| 0 <= j < gone@.len() && #[trigger] gone@[j]@ == k;
                    assert(gv[j] == k);
                }
            }
            assert(self.connections() =~= live_only(old(self).connections(), timeout_ms, now_ms));
        }
        gone
    }

    /// Forgets the connections of `failed` (the clients a broadcast could not
    /// reach) and reports a broadcast that reached `delivered` clients.
    pub fn finish_broadcast(&mut self, delivered: usize, failed: &Vec<String>) -> (r: HttpBroadcastResponse)
        ensures
            final(self).connections() == old(self).connections().remove_keys(failed@.map_values(|s: String| s@).to_set()),
            r.success == (delivered > 0),
            r.delivered_count == delivered,
            r.message@ == broadcast_message(delivered as nat),
            final(self).uid_clients() == old(self).uid_clients(),
            final(self).rooms() == old(self).rooms(),
            final(self).acked() == old(self).acked(),
            final(self).node() == old(self).node(),
            final(self).blocked() == old(self).blocked() && final(self).limits() == old(self).limits(),
    {
        self.connections.remove_all(failed);
        assert(self.connections() =~= old(self).connections().remove_keys(failed@.map_values(|s: String| s@).to_set()));
        let head = concat_str("Broadcast delivered to ", decimal_string(delivered as u64).as_str());
        let message = concat_str(head.as_str(), " clients");
        HttpBroadcastResponse { success: delivered > 0, message, delivered_count: delivered }
    }

    /// Whether `client_id`'s connection is tracked.
    pub fn connection_exists(&self, client_id: &str) -> (r: bool)
        ensures
            r == self.connections().contains_key(client_id@),
    {
        self.connections.contains_key(client_id)
    }

    /// Whether `uid` has no client bound (no entry, or an empty one).
    pub fn uid_has_no_clients(&self, uid: &str) -> (r: bool)
        ensures
            r == (!self.uid_clients().contains_key(uid@) || self.uid_clients()[uid@].len() == 0),
    {
        match self.uid_clients.get(uid) {
            Some(s) => s.len() == 0,
            None => true,
        }
    }

    /// Binds `uid` to `client_id`: the connection (when tracked) carries the
    /// uid and the client is one of the uid's clients.
    pub fn apply_auth(&mut self, client_id: &str, uid: &str)
        ensures
            auth_applied(*old(self), *final(self), client_id@, uid@),
    {
        self.set_connection_uid(client_id, uid.to_string());
        self.bind_uid_client(uid, client_id.to_string());
    }

    /// Drops `client_id`'s connection when it is still not bound to a uid
    /// once its time to authenticate is over; `true` when it was dropped.
    pub fn drop_if_unauthenticated(&mut self, client_id: &str) -> (dropped: bool)
        ensures
            dropped == (old(self).connections().contains_key(client_id@)
                && old(self).connections()[client_id@].0 is None),
            final(self).connections() == if dropped {
                old(self).connections().remove(client_id@)
            } else {
                old(self).connections()
            },
            final(self).uid_clients() == old(self).uid_clients(),
            final(self).rooms() == old(self).rooms(),
            final(self).acked() == old(self).acked(),
            final(self).node() == old(self).node(),
            final(self).blocked() == old(self).blocked() && final(self).limits() == old(self).limits(),
    {
        if self.connection_exists(client_id) && self.uid_of(client_id).is_none() {
            self.remove_connection(client_id);
            true
        } else {
            false
        }
    }

    /// Makes sure room `room_id` exists (an existing room keeps its members).
    pub fn ensure_room(&mut self, room_id: &str)
        ensures
            final(self).rooms() == if old(self).rooms().contains_key(room_id@) {
                old(self).rooms()
            } else {
                old(self).rooms().insert(room_id@, Set::<Seq<char>>::empty())
            },
            final(self).connections() == old(self).connections(),
            final(self).uid_clients() == old(self).uid_clients(),
            final(self).acked() == old(self).acked(),
            final(self).node() == old(self).node(),
            final(self).blocked() == old(self).blocked() && final(self).limits() == old(self).limits(),
    {
        if !self.rooms.contains_key(room_id) {
            let s = StrSet::new();
            self.rooms.insert(room_id.to_string(), s);
            assert(self.rooms() =~= old(self).rooms().insert(room_id@, Set::<Seq<char>>::empty()));
        }
    }

    /// Adds `uid` to room `room_id` (creating the room when needed).
    pub fn join_room_as(&mut self, room_id: &str, uid: String)
        ensures
            final(self).rooms() == set_with(old(self).rooms(), room_id@, uid@),
            final(self).connections() == old(self).connections(),
            final(self).uid_clients() == old(self).uid_clients(),
            final(self).acked() == old(self).acked(),
            final(self).node() == old(self).node(),
            final(self).blocked() == old(self).blocked() && final(self).limits() == old(self).limits(),
    {
        add_to_set(&mut self.rooms, room_id, uid);
    }

    /// Loads rooms read from storage: each listed room exists afterwards and
    /// holds, besides the members it had, the listed ones. Returns the number
    /// of memberships read (at most `usize::MAX`).
    pub fn load_rooms(&mut self, rooms: Vec<(String, Vec<String>)>) -> (total: usize)
        ensures
            final(self).rooms() == rooms_loaded(old(self).rooms(), stored_rooms_view(rooms@)),
            total == if memberships(stored_rooms_view(rooms@)) <= usize::MAX {
                memberships(stored_rooms_view(rooms@))
            } else {
                usize::MAX as nat
            },
            final(self).connections() == old(self).connections(),
            final(self).uid_clients() == old(self).uid_clients(),
            final(self).acked() == old(self).acked(),
            final(self).node() == old(self).node(),
            final(self).blocked() == old(self).blocked() && final(self).limits() == old(self).limits(),
    {
        let ghost sv = stored_rooms_view(rooms@);
        let mut total: usize = 0;
        let mut i: usize = 0;
        proof {
            assert(sv.take(0) =~= Seq::<(Seq<char>, Seq<Seq<char>>)>::empty());
        }
        while i < rooms.len()
            invariant
                i <= rooms@.len(),
                sv == stored_rooms_view(rooms@),
                self.rooms() == rooms_loaded(old(self).rooms(), sv.take(i as int)),
                total == if memberships(sv.take(i as int)) <= usize::MAX {
                    memberships(sv.take(i as int))
                } else {
                    usize::MAX as nat
                },
                self.connections() == old(self).connections(),
                self.uid_clients() == old(self).uid_clients(),
                self.acked() == old(self).acked(),
                self.node() == old(self).node(),
                self.blocked() == old(self).blocked() && self.limits() == old(self).limits(),
            decreases rooms.len() - i,
        {
            let room = &rooms[i].0;
            let uids = &rooms[i].1;
            let ghost base = self.rooms();
            let ghost us = strings_view(uids@);
            self.ensure_room(room.as_str());
            proof {
                assert(us.take(0) =~= Seq::<Seq<char>>::empty());
                assert(us.take(0).to_set() =~= Set::<Seq<char>>::empty());
                if base.contains_key(room@) {
                    assert(base[room@].union(Set::<Seq<char>>::empty()) =~= base[room@]);
                    assert(room_with_all(base, room@, us.take(0)) =~= base);
                } else {
                    assert(room_with_all(base, room@, us.take(0)) =~= base.insert(room@, Set::<Seq<char>>::empty()));
                }
            }
            let mut j: usize = 0;
            while j < uids.len()
                invariant
                    j <= uids@.len(),
                    us == strings_view(uids@),
                    self.rooms() == room_with_all(base, room@, us.take(j as int)),
                    self.connections() == old(self).connections(),
                    self.uid_clients() == old(self).uid_clients(),
                    self.acked() == old(self).acked(),
                    self.node() == old(self).node(),
                    self.blocked() == old(self).blocked() && self.limits() == old(self).limits(),
                decreases uids.len() - j,
            {
                let ghost before = self.rooms();
                self.join_room_as(room.as_str(), uids[j].clone());
                proof {
                    let u = uids@[j as int]@;
                    assert(us.take(j + 1) =~= us.take(j as int).push(u));
                    assert(us.take(j + 1).to_set() =~= us.take(j as int).to_set().insert(u)) by {
                        assert forall|k: Seq<char>| us.take(j + 1).to_set().contains(k) <==> us.take(
                            j as int,
                        ).to_set().insert(u).contains(k) by {
                            if us.take(j + 1).contains(k) {
                                let a = choose|a: int| 0 <= a < us.take(j + 1).len() && #[trigger] us.take(j + 1)[a] == k;
                                if a < j {
                                    assert(us.take(j as int)[a] == k);
                                }
                            }
                            if us.take(j as int).contains(k) {
                                let a = choose|a: int| 0 <= a < us.take(j as int).len() && #[trigger] us.take(j as int)[a] == k;
                                assert(us.take(j + 1)[a] == k);
                            }
                            if k == u {
                                assert(us.take(j + 1)[j as int] == k);
                            }
                        }
                    }
                    assert(before.contains_key(room@));
                    let t0 = us.take(j as int).to_set();
                    let t1 = us.take(j + 1).to_set();
                    if base.contains_key(room@) {
                        assert(base[room@].union(t0).insert(u) =~= base[room@].union(t1));
                    } else {
                        assert(t0.insert(u) =~= t1);
                    }
                    assert(self.rooms() =~= room_with_all(base, room@, us.take(j + 1)));
                }
                j += 1;
            }
            total = total.saturating_add(uids.len());
            proof {
                assert(us.take(uids@.len() as int) =~= us);
                assert(sv.take(i + 1).drop_last() =~= sv.take(i as int));
                assert(sv.take(i + 1).last() == sv[i as int]);
                assert(sv[i as int] == (room@, us));
            }
            i += 1;
        }
        proof {
            assert(sv.take(rooms@.len() as int) =~= sv);
        }
        total
    }

    /// The client ids whose connection carries `uid`, each once, in no
    /// promised order.
    #[verifier::spinoff_prover]
    pub fn connections_of_uid(&self, uid: &str) -> (r: Vec<String>)
        ensures
            forall|i: int| 0 <= i < r@.len() ==> #[trigger] self.connections().contains_key(r@[i]@)
                && self.connections()[r@[i]@].0 == Some(uid@),
            forall|k: Seq<char>| #[trigger] self.connections().contains_key(k) && self.connections()[k].0 == Some(uid@)
                ==> exists|i: int| 0 <= i < r@.len() && #[trigger] r@[i]@ == k,
            forall|i: int, j: int| 0 <= i < r@.len() && 0 <= j < r@.len() && i != j ==> #[trigger] r@[i]@ != #[trigger] r@[j]@,
    {
        let es = self.connections.entries();
        let mut r: Vec<String> = Vec::new();
        let ghost mut idx: Seq<int> = Seq::empty();
        let mut i: usize = 0;
        while i < es.len()
            invariant
                i <= es@.len(),
                r@.len() == idx.len(),
                forall|j: int| 0 <= j < idx.len() ==> 0 <= #[trigger] idx[j] < i && r@[j]@ == es@[idx[j]].0@
                    && es@[idx[j]].1@.0 == Some(uid@),
                forall|j: int, l: int| 0 <= j < l < idx.len() ==> #[trigger] idx[j] < #[trigger] idx[l],
                forall|a: int| 0 <= a < i && (#[trigger] es@[a]).1@.0 == Some(uid@) ==> exists|j: int| 0 <= j < idx.len() && idx[j] == a,
            decreases es.len() - i,
        {
            let ghost prev = idx;
            let hit = match &es[i].1.uid {
                Some(u) => crate::text::str_eq(u.as_str(), uid),
                None => false,
            };
            if hit {
                r.push(es[i].0.clone());
                proof {
                    idx = idx.push(i as int);
                }
            }
            proof {
                assert forall|a: int| 0 <= a < i + 1 && (#[trigger] es@[a]).1@.0 == Some(uid@)
                    implies exists|j: int| 0 <= j < idx.len() && idx[j] == a by {
                    if a == i {
                        assert(idx[idx.len() - 1] == a);
                    } else {
                        let j = choose|j: int| 0 <= j < prev.len() && prev[j] == a;
                        assert(idx[j] == a);
                    }
                }
            }
            i += 1;
        }
        proof {
            assert forall|a: int, b: int| 0 <= a < r@.len() && 0 <= b < r@.len() && a != b implies #[trigger] r@[a]@ != #[trigger] r@[b]@ by {
                if a < b { assert(idx[a] < idx[b]); } else { assert(idx[b] < idx[a]); }
                assert(es@[idx[a]].0@ != es@[idx[b]].0@);
            }
            assert forall|j: int| 0 <= j < r@.len() implies #[trigger] self.connections().contains_key(r@[j]@)
                && self.connections()[r@[j]@].0 == Some(uid@) by {
                assert(self.connections@.contains_key(es@[idx[j]].0@));
            }
            assert forall|k: Seq<char>| #[trigger] self.connections().contains_key(k) && self.connections()[k].0 == Some(uid@)
                implies exists|i: int| 0 <= i < r@.len() && #[trigger] r@[i]@ == k by {
                assert(self.connections@.contains_key(k));
                let a = choose|a: int| 0 <= a < es@.len() && #[trigger] es@[a].0@ == k;
                assert(self.connections@[es@[a].0@] == es@[a].1);
                let j = choose|j: int| 0 <= j < idx.len() && idx[j] == a;
                assert(r@[j]@ == k);
            }
        }
        r
    }
}

} // verus!

verus! {

/// After a uid joins a room it is a member; after it leaves, it is not, and
/// the other members stay.
pub proof fn lemma_join_then_leave(rooms: Map<Seq<char>, Set<Seq<char>>>, room: Seq<char>, uid: Seq<char>)
    ensures
        set_with(rooms, room, uid)[room].contains(uid),
        !set_without(set_with(rooms, room, uid), room, uid)[room].contains(uid),
        forall|u: Seq<char>| u != uid ==> (#[trigger] set_without(set_with(rooms, room, uid), room, uid)[room].contains(u)
            <==> rooms.contains_key(room) && rooms[room].contains(u)),
{
}

/// The timeout sweep keeps exactly the connections seen within the timeout.
pub proof fn lemma_sweep_keeps_live(m: Map<Seq<char>, ConnectionView>, timeout_ms: u64, now_ms: i64)
    ensures
        forall|k: Seq<char>| #[trigger] live_only(m, timeout_ms, now_ms).contains_key(k)
            <==> (m.contains_key(k) && now_ms - m[k].2 <= timeout_ms),
{
}

} // verus!
