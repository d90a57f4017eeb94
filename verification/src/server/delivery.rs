//! Where each message goes: the route to a client (this node or another), the
//! plan of a group delivery, and the count of what was delivered.
use vstd::prelude::*;

use crate::cluster::directory::Directory;
use crate::collections::StrSet;
use crate::domain::HttpBroadcastResponse;
use crate::server::state::ServerState;
use crate::text::{concat_str, decimal, decimal_string, str_eq, strings_view};
use crate::uid_gate::{gate_step, RateWindow};

verus! {

/// How a client is reached.
#[derive(Debug)]
pub enum Route {
    /// Through this node's own connection.
    Local,
    /// Through the server of another node.
    Remote(String),
    /// The client sits on another node whose server is not known here.
    RemoteMissing,
}

/// A route as plain values.
pub enum RouteView {
    Local,
    Remote(Seq<char>),
    RemoteMissing,
}

impl View for Route {
    type V = RouteView;

    open spec fn view(&self) -> RouteView {
        match self {
            Route::Local => RouteView::Local,
            Route::Remote(n) => RouteView::Remote(n@),
            Route::RemoteMissing => RouteView::RemoteMissing,
        }
    }
}

/// The route to `client` from node `node`, given where clients are connected
/// and which nodes have a known server.
pub open spec fn route_to(
    locations: Map<Seq<char>, Seq<char>>,
    servers: Set<Seq<char>>,
    node: Seq<char>,
    client: Seq<char>,
) -> RouteView {
    if locations.contains_key(client) && locations[client] != node {
        if servers.contains(locations[client]) {
            RouteView::Remote(locations[client])
        } else {
            RouteView::RemoteMissing
        }
    } else {
        RouteView::Local
    }
}

/// The route to `client_id` from node `node_id`.
pub fn route_for<S>(dir: &Directory<S>, node_id: &str, client_id: &str) -> (r: Route)
    ensures
        r@ == route_to(dir.clients(), dir.servers().dom(), node_id@, client_id@),
{
    match dir.locate_client(client_id) {
        Some(loc) => {
            if str_eq(loc.as_str(), node_id) {
                Route::Local
            } else {
                match dir.get_server(loc.as_str()) {
                    Some(_) => Route::Remote(loc),
                    None => Route::RemoteMissing,
                }
            }
        },
        None => Route::Local,
    }
}

/// One client to send to, and how.
pub struct Delivery {
    pub client_id: String,
    pub route: Route,
}

/// The clients of one uid to send to.
pub struct UidTargets {
    pub uid: String,
    pub deliveries: Vec<Delivery>,
}

/// A group delivery: the online members' clients, and the members with no
/// client here, whose copies are kept for later.
pub struct GroupPlan {
    pub targets: Vec<UidTargets>,
    pub offline_uids: Vec<String>,
}

/// The rate windows after one delivery attempt to each uid of `members`
/// (each uid's window only depends on its own attempt).
pub open spec fn gated(
    blocked: Set<Seq<char>>,
    limits: Map<Seq<char>, RateWindow>,
    members: Set<Seq<char>>,
    now: i64,
) -> Map<Seq<char>, RateWindow> {
    Map::new(
        |k: Seq<char>| limits.contains_key(k),
        |k: Seq<char>| if members.contains(k) { gate_step(blocked, limits, k, now).1[k] } else { limits[k] },
    )
}

/// Number of `true` entries.
pub open spec fn count_true(s: Seq<bool>) -> nat
    decreases s.len(),
{
    if s.len() == 0 {
        0
    } else {
        count_true(s.drop_last()) + if s.last() { 1nat } else { 0nat }
    }
}

/// The number of successful sends is the number of `true` results: as many
/// as the results that remain when only the successes are kept. So one more
/// success counts one more, one more failure counts nothing, the count of two
/// runs of sends is the sum of their counts, and it never exceeds the number
/// of sends.
pub proof fn lemma_count_true_counts_successes(s: Seq<bool>, t: Seq<bool>, b: bool)
    ensures
        count_true(s) == s.filter(|x: bool| x).len(),
        count_true(s.push(b)) == count_true(s) + if b { 1nat } else { 0nat },
        count_true(s + t) == count_true(s) + count_true(t),
        count_true(s) <= s.len(),
    decreases t.len(),
{
    lemma_count_is_filter_len(s);
    assert(s.push(b).drop_last() =~= s);
    lemma_count_at_most_len(s);
    if t.len() > 0 {
        lemma_count_true_counts_successes(s, t.drop_last(), b);
        assert((s + t).drop_last() =~= s + t.drop_last());
        assert((s + t).last() == t.last());
    } else {
        assert(s + t =~= s);
    }
}

proof fn lemma_count_is_filter_len(s: Seq<bool>)
    ensures
        count_true(s) == s.filter(|x: bool| x).len(),
    decreases s.len(),
{
    if s.len() > 0 {
        lemma_count_is_filter_len(s.drop_last());
        s.drop_last().lemma_filter_len_push(|x: bool| x, s.last());
        assert(s.drop_last().push(s.last()) =~= s);
    }
}

proof fn lemma_count_at_most_len(s: Seq<bool>)
    ensures
        count_true(s) <= s.len(),
    decreases s.len(),
{
    if s.len() > 0 {
        lemma_count_at_most_len(s.drop_last());
    }
}

/// The number of successful sends.
pub fn count_delivered(results: &Vec<bool>) -> (n: usize)
    ensures
        n == count_true(results@),
{
    let mut n: usize = 0;
    let mut i: usize = 0;
    while i < results.len()
        invariant
            i <= results@.len(),
            n == count_true(results@.take(i as int)),
            n <= i,
        decreases results.len() - i,
    {
        assert(results@.take(i + 1).drop_last() == results@.take(i as int));
        if results[i] {
            n = n + 1;
        }
        i += 1;
    }
    assert(results@.take(results@.len() as int) == results@);
    n
}

/// A plugin's `flow` field asks to stop the message.
pub open spec fn is_stop(flow: Option<String>) -> bool {
    match flow {
        Some(f) => f@ == "stop"@,
        None => false,
    }
}

/// One of the plugins' replies asks to stop the message.
pub open spec fn any_stop(flows: Seq<Option<String>>) -> bool {
    exists|i: int| 0 <= i < flows.len() && #[trigger] is_stop(flows[i])
}

/// Whether one of the plugins' replies (their `flow` fields, in order) asks
/// to stop the message.
pub fn any_flow_stop(flows: &Vec<Option<String>>) -> (r: bool)
    ensures
        r == any_stop(flows@),
{
    let mut i: usize = 0;
    while i < flows.len()
        invariant
            i <= flows@.len(),
            forall|j: int| 0 <= j < i ==> !#[trigger] is_stop(flows@[j]),
        decreases flows.len() - i,
    {
        match &flows[i] {
            Some(f) => {
                if str_eq(f.as_str(), "stop") {
                    assert(is_stop(flows@[i as int]));
                    return true;
                }
            },
            None => {},
        }
        i += 1;
    }
    false
}

/// The reply to a group send that reached `n` clients.
pub open spec fn group_message(n: nat) -> Seq<char> {
    "Group message delivered to "@ + decimal(n) + " clients"@
}

/// The reply to a group send: successful when something was delivered.
pub fn group_send_response(delivered: usize) -> (r: HttpBroadcastResponse)
    ensures
        r.success == (delivered > 0),
        r.delivered_count == delivered,
        r.message@ == group_message(delivered as nat),
{
    let head = concat_str("Group message delivered to ", decimal_string(delivered as u64).as_str());
    let message = concat_str(head.as_str(), " clients");
    HttpBroadcastResponse { success: delivered > 0, message, delivered_count: delivered }
}

/// The reply to a group send that a plugin stopped.
pub fn group_blocked_response() -> (r: HttpBroadcastResponse)
    ensures
        !r.success,
        r.delivered_count == 0,
        r.message@ == "Group message blocked by plugin"@,
{
    HttpBroadcastResponse { success: false, message: "Group message blocked by plugin".to_string(), delivered_count: 0 }
}

/// The uids of `v[0..i]`.
pub open spec fn prefix_set(v: Seq<String>, i: int) -> Set<Seq<char>> {
    Set::new(|u: Seq<char>| exists|a: int| 0 <= a < i && #[trigger] v[a]@ == u)
}

/// A delivery to `uid` at `now` passes the uid check (always, when the uid check is
/// not checked).
pub open spec fn passes(check: bool, blocked: Set<Seq<char>>, limits: Map<Seq<char>, RateWindow>, uid: Seq<char>, now: i64) -> bool {
    !check || gate_step(blocked, limits, uid, now).0
}

/// `u` is the uid of one of `targets`.
pub open spec fn in_targets(targets: Seq<UidTargets>, u: Seq<char>) -> bool {
    exists|t: int| 0 <= t < targets.len() && #[trigger] targets[t].uid@ == u
}

/// `u` is one of `offline`.
pub open spec fn in_offline(offline: Seq<String>, u: Seq<char>) -> bool {
    exists|o: int| 0 <= o < offline.len() && #[trigger] offline[o]@ == u
}

/// The plan names each uid of `wanted` exactly once, with its clients or as
/// offline, and nothing else.
pub open spec fn plan_covers(targets: Seq<UidTargets>, offline: Seq<String>, wanted: Set<Seq<char>>) -> bool {
    &&& forall|a: int, c: int| 0 <= a < targets.len() && 0 <= c < targets.len() && a != c
        ==> #[trigger] targets[a].uid@ != #[trigger] targets[c].uid@
    &&& forall|a: int, c: int| 0 <= a < offline.len() && 0 <= c < offline.len() && a != c
        ==> #[trigger] offline[a]@ != #[trigger] offline[c]@
    &&& forall|a: int, c: int| 0 <= a < targets.len() && 0 <= c < offline.len()
        ==> #[trigger] targets[a].uid@ != #[trigger] offline[c]@
    &&& forall|u: Seq<char>| in_targets(targets, u) || in_offline(offline, u) <==> #[trigger] wanted.contains(u)
}

/// `t` lists each client of its uid once, with the client's route.
pub open spec fn targets_ok(
    t: UidTargets,
    clients: Map<Seq<char>, Set<Seq<char>>>,
    locations: Map<Seq<char>, Seq<char>>,
    servers: Set<Seq<char>>,
    node: Seq<char>,
) -> bool {
    &&& clients.contains_key(t.uid@)
    &&& t.deliveries@.len() == clients[t.uid@].len()
    &&& forall|j: int| 0 <= j < t.deliveries@.len() ==> #[trigger] clients[t.uid@].contains(t.deliveries@[j].client_id@)
        && t.deliveries@[j].route@ == route_to(locations, servers, node, t.deliveries@[j].client_id@)
    &&& forall|j: int, l: int| 0 <= j < t.deliveries@.len() && 0 <= l < t.deliveries@.len() && j != l
        ==> #[trigger] t.deliveries@[j].client_id@ != #[trigger] t.deliveries@[l].client_id@
}

/// Gating one more uid, not gated before, gives the same answer as gating it
/// alone, and the windows of one more gated uid.
pub proof fn lemma_gated_step(blocked: Set<Seq<char>>, limits: Map<Seq<char>, RateWindow>, done: Set<Seq<char>>, u: Seq<char>, now: i64)
    requires
        !done.contains(u),
    ensures
        gate_step(blocked, gated(blocked, limits, done, now), u, now)
            == (gate_step(blocked, limits, u, now).0, gated(blocked, limits, done.insert(u), now)),
{
    let g = gated(blocked, limits, done, now);
    let r = gate_step(blocked, g, u, now);
    let r0 = gate_step(blocked, limits, u, now);
    if limits.contains_key(u) {
        assert(g[u] == limits[u]);
    }
    assert(r.0 == r0.0);
    assert(r.1 =~= gated(blocked, limits, done.insert(u), now));
}

/// A list of strings that may be absent, as plain values.
pub open spec fn opt_strings_view(o: Option<Vec<String>>) -> Option<Seq<Seq<char>>> {
    match o {
        Some(v) => Some(strings_view(v@)),
        None => None,
    }
}

/// The member uids of `room`: those held in memory when the room is there;
/// otherwise those of `persisted`, the room's stored member list (none when
/// no list was fetched).
pub open spec fn members_of(rooms: Map<Seq<char>, Set<Seq<char>>>, room: Seq<char>, persisted: Option<Seq<Seq<char>>>) -> Set<Seq<char>> {
    if rooms.contains_key(room) {
        rooms[room]
    } else {
        match persisted {
            Some(p) => p.to_set(),
            None => Set::<Seq<char>>::empty(),
        }
    }
}

/// The rate windows after a group delivery to `room` (unchanged when the uid check
/// is not checked).
pub open spec fn gated_room(
    rooms: Map<Seq<char>, Set<Seq<char>>>,
    blocked: Set<Seq<char>>,
    limits: Map<Seq<char>, RateWindow>,
    room: Seq<char>,
    persisted: Option<Seq<Seq<char>>>,
    check: bool,
    now: i64,
) -> Map<Seq<char>, RateWindow> {
    if check { gated(blocked, limits, members_of(rooms, room, persisted), now) } else { limits }
}

/// `plan` is the group delivery to `room` (members as `members_of` gives
/// them): each member uid that passes the uid check is named once, with all its clients and their routes, or as offline
/// when it has no clients here.
pub open spec fn group_plan_ok(
    plan: GroupPlan,
    rooms: Map<Seq<char>, Set<Seq<char>>>,
    uid_clients: Map<Seq<char>, Set<Seq<char>>>,
    blocked: Set<Seq<char>>,
    limits: Map<Seq<char>, RateWindow>,
    node: Seq<char>,
    locations: Map<Seq<char>, Seq<char>>,
    servers: Set<Seq<char>>,
    room: Seq<char>,
    persisted: Option<Seq<Seq<char>>>,
    check: bool,
    now: i64,
) -> bool {
    &&& plan_covers(plan.targets@, plan.offline_uids@,
        Set::new(|u: Seq<char>| members_of(rooms, room, persisted).contains(u) && passes(check, blocked, limits, u, now)))
    &&& forall|i: int| 0 <= i < plan.targets@.len() ==> #[trigger] targets_ok(plan.targets@[i], uid_clients, locations, servers, node)
    &&& forall|i: int| 0 <= i < plan.offline_uids@.len() ==> !uid_clients.contains_key(#[trigger] plan.offline_uids@[i]@)
}

impl ServerState {
    /// Plans a message to room `room_id`: for each member uid (each once, in
    /// no promised order) that passes the uid check (when `check_gate`), the uid's
    /// clients with their routes, or, when it has none here, the uid itself as
    /// offline. The members are those held in memory; when the room is not
    /// held, those of `persisted`, the room's stored member list. Only the
    /// uids' rate windows change.
    pub fn plan_group_delivery<S>(
        &mut self,
        room_id: &str,
        persisted: &Option<Vec<String>>,
        dir: &Directory<S>,
        check_gate: bool,
        now_ms: i64,
    ) -> (plan: GroupPlan)
        ensures
            group_plan_ok(plan, old(self).rooms(), old(self).uid_clients(), old(self).blocked(), old(self).limits(),
                old(self).node(), dir.clients(), dir.servers().dom(), room_id@, opt_strings_view(*persisted), check_gate, now_ms),
            final(self).limits() == gated_room(old(self).rooms(), old(self).blocked(), old(self).limits(), room_id@,
                opt_strings_view(*persisted), check_gate, now_ms),
            final(self).blocked() == old(self).blocked(),
            final(self).connections() == old(self).connections(),
            final(self).uid_clients() == old(self).uid_clients(),
            final(self).rooms() == old(self).rooms(),
            final(self).acked() == old(self).acked(),
            final(self).node() == old(self).node(),
    {
        let mut targets: Vec<UidTargets> = Vec::new();
        let mut offline: Vec<String> = Vec::new();
        let node_id = self.node_id();
        let mv = match self.room_members(room_id) {
            Some(v) => v,
            None => match persisted {
                Some(p) => StrSet::from_list(p).to_vec(),
                None => Vec::new(),
            },
        };
        let ghost members = members_of(old(self).rooms(), room_id@, opt_strings_view(*persisted));
        let ghost b0 = old(self).blocked();
        let ghost l0 = old(self).limits();
        let ghost wanted = Set::new(|u: Seq<char>| members.contains(u) && passes(check_gate, b0, l0, u, now_ms));
        proof {
            if !old(self).rooms().contains_key(room_id@) && persisted.is_none() {
                assert(members =~= Set::<Seq<char>>::empty());
            }
            assert(prefix_set(mv@, 0) =~= Set::<Seq<char>>::empty());
            assert(gated(b0, l0, Set::<Seq<char>>::empty(), now_ms) =~= l0);
        }
        let mut i: usize = 0;
        while i < mv.len()
            invariant
                i <= mv@.len(),
                forall|a: int| 0 <= a < mv@.len() ==> #[trigger] members.contains(mv@[a]@),
                forall|k: Seq<char>| #[trigger] members.contains(k) ==> exists|a: int| 0 <= a < mv@.len() && #[trigger] mv@[a]@ == k,
                forall|a: int, c: int| 0 <= a < mv@.len() && 0 <= c < mv@.len() && a != c ==> #[trigger] mv@[a]@ != #[trigger] mv@[c]@,
                wanted == Set::new(|u: Seq<char>| members.contains(u) && passes(check_gate, b0, l0, u, now_ms)),
                node_id@ == old(self).node(),
                self.blocked() == b0,
                self.limits() == if check_gate { gated(b0, l0, prefix_set(mv@, i as int), now_ms) } else { l0 },
                self.connections() == old(self).connections(),
                self.uid_clients() == old(self).uid_clients(),
                self.rooms() == old(self).rooms(),
                self.acked() == old(self).acked(),
                self.node() == old(self).node(),
                plan_covers(targets@, offline@, Set::new(|u: Seq<char>| prefix_set(mv@, i as int).contains(u) && wanted.contains(u))),
                forall|t: int| 0 <= t < targets@.len() ==> #[trigger] prefix_set(mv@, i as int).contains(targets@[t].uid@),
                forall|t: int| 0 <= t < offline@.len() ==> #[trigger] prefix_set(mv@, i as int).contains(offline@[t]@),
                forall|t: int| 0 <= t < targets@.len() ==> #[trigger] targets_ok(targets@[t], old(self).uid_clients(), dir.clients(), dir.servers().dom(), old(self).node()),
                forall|t: int| 0 <= t < offline@.len() ==> !old(self).uid_clients().contains_key(#[trigger] offline@[t]@),
            decreases mv.len() - i,
        {
            let uid = &mv[i];
            let ghost u = uid@;
            let ghost t0 = targets@;
            let ghost o0 = offline@;
            proof {
                assert(!prefix_set(mv@, i as int).contains(u)) by {
                    if prefix_set(mv@, i as int).contains(u) {
                        let a = choose|a: int| 0 <= a < i && #[trigger] mv@[a]@ == u;
                        assert(mv@[a]@ != mv@[i as int]@);
                    }
                }
                assert(prefix_set(mv@, i + 1) =~= prefix_set(mv@, i as int).insert(u)) by {
                    assert(mv@[i as int]@ == u);
                }
                if check_gate {
                    lemma_gated_step(b0, l0, prefix_set(mv@, i as int), u, now_ms);
                }
                assert(members.contains(u));
            }
            let ok = if check_gate { self.allow_send_to_uid_at(uid.as_str(), now_ms) } else { true };
            assert(ok == passes(check_gate, b0, l0, u, now_ms));
            if ok {
                match self.clients_of_uid(uid.as_str()) {
                    Some(cids) => {
                        let mut ds: Vec<Delivery> = Vec::new();
                        let mut j: usize = 0;
                        while j < cids.len()
                            invariant
                                j <= cids@.len(),
                                ds@.len() == j,
                                forall|l: int| 0 <= l < j ==> #[trigger] ds@[l].client_id@ == cids@[l]@
                                    && ds@[l].route@ == route_to(dir.clients(), dir.servers().dom(), node_id@, cids@[l]@),
                            decreases cids.len() - j,
                        {
                            let r = route_for(dir, node_id.as_str(), cids[j].as_str());
                            ds.push(Delivery { client_id: cids[j].clone(), route: r });
                            j += 1;
                        }
                        let t = UidTargets { uid: uid.clone(), deliveries: ds };
                        proof {
                            assert forall|a: int, c: int| 0 <= a < t.deliveries@.len() && 0 <= c < t.deliveries@.len() && a != c
                                implies #[trigger] t.deliveries@[a].client_id@ != #[trigger] t.deliveries@[c].client_id@ by {
                                assert(cids@[a]@ != cids@[c]@);
                            }
                            assert forall|a: int| 0 <= a < t.deliveries@.len() implies #[trigger] old(self).uid_clients()[t.uid@].contains(t.deliveries@[a].client_id@)
                                && t.deliveries@[a].route@ == route_to(dir.clients(), dir.servers().dom(), old(self).node(), t.deliveries@[a].client_id@) by {
                                assert(ds@[a].client_id@ == cids@[a]@);
                            }
                            assert(targets_ok(t, old(self).uid_clients(), dir.clients(), dir.servers().dom(), old(self).node()));
                        }
                        targets.push(t);
                    },
                    None => {
                        offline.push(uid.clone());
                    },
                }
            }
            proof {
                let p0 = prefix_set(mv@, i as int);
                let p1 = prefix_set(mv@, i + 1);
                assert forall|q: int| 0 <= q < targets@.len() implies #[trigger] p1.contains(targets@[q].uid@) by {
                    if q < t0.len() {
                        assert(targets@[q] == t0[q]);
                        assert(p0.contains(t0[q].uid@));
                    }
                }
                assert forall|q: int| 0 <= q < offline@.len() implies #[trigger] p1.contains(offline@[q]@) by {
                    if q < o0.len() {
                        assert(offline@[q] == o0[q]);
                        assert(p0.contains(o0[q]@));
                    }
                }
                assert forall|q: int| 0 <= q < targets@.len() implies #[trigger] targets_ok(targets@[q], old(self).uid_clients(), dir.clients(), dir.servers().dom(), old(self).node()) by {
                    if q < t0.len() {
                        assert(targets@[q] == t0[q]);
                    }
                }
                assert forall|q: int| 0 <= q < offline@.len() implies !old(self).uid_clients().contains_key(#[trigger] offline@[q]@) by {
                    if q < o0.len() {
                        assert(offline@[q] == o0[q]);
                    }
                }
                let w0 = Set::new(|x: Seq<char>| p0.contains(x) && wanted.contains(x));
                let w1 = Set::new(|x: Seq<char>| p1.contains(x) && wanted.contains(x));
                assert forall|a: int, c: int| 0 <= a < targets@.len() && 0 <= c < targets@.len() && a != c
                    implies #[trigger] targets@[a].uid@ != #[trigger] targets@[c].uid@ by {
                    if a < t0.len() && c < t0.len() {
                        assert(targets@[a] == t0[a] && targets@[c] == t0[c]);
                    } else if a < t0.len() {
                        assert(targets@[a] == t0[a]);
                        assert(p0.contains(t0[a].uid@));
                    } else if c < t0.len() {
                        assert(targets@[c] == t0[c]);
                        assert(p0.contains(t0[c].uid@));
                    }
                }
                assert forall|a: int, c: int| 0 <= a < offline@.len() && 0 <= c < offline@.len() && a != c
                    implies #[trigger] offline@[a]@ != #[trigger] offline@[c]@ by {
                    if a < o0.len() && c < o0.len() {
                        assert(offline@[a] == o0[a] && offline@[c] == o0[c]);
                    } else if a < o0.len() {
                        assert(offline@[a] == o0[a]);
                        assert(p0.contains(o0[a]@));
                    } else if c < o0.len() {
                        assert(offline@[c] == o0[c]);
                        assert(p0.contains(o0[c]@));
                    }
                }
                assert forall|a: int, c: int| 0 <= a < targets@.len() && 0 <= c < offline@.len()
                    implies #[trigger] targets@[a].uid@ != #[trigger] offline@[c]@ by {
                    if a < t0.len() && c < o0.len() {
                        assert(targets@[a] == t0[a] && offline@[c] == o0[c]);
                    } else if a < t0.len() {
                        assert(targets@[a] == t0[a]);
                        assert(p0.contains(t0[a].uid@));
                    } else if c < o0.len() {
                        assert(offline@[c] == o0[c]);
                        assert(p0.contains(o0[c]@));
                    }
                }
                assert forall|x: Seq<char>| in_targets(targets@, x) || in_offline(offline@, x) <==> #[trigger] w1.contains(x) by {
                    if in_targets(targets@, x) {
                        let q = choose|q: int| 0 <= q < targets@.len() && #[trigger] targets@[q].uid@ == x;
                        if q < t0.len() {
                            assert(targets@[q] == t0[q]);
                            assert(in_targets(t0, x));
                            assert(w0.contains(x));
                        } else {
                            assert(x == u);
                        }
                    }
                    if in_offline(offline@, x) {
                        let q = choose|q: int| 0 <= q < offline@.len() && #[trigger] offline@[q]@ == x;
                        if q < o0.len() {
                            assert(offline@[q] == o0[q]);
                            assert(in_offline(o0, x));
                            assert(w0.contains(x));
                        } else {
                            assert(x == u);
                        }
                    }
                    if w1.contains(x) {
                        if x == u {
                            if targets@.len() > t0.len() {
                                assert(targets@[t0.len() as int].uid@ == x);
                            } else {
                                assert(offline@[o0.len() as int]@ == x);
                            }
                        } else {
                            assert(p0.contains(x));
                            assert(w0.contains(x));
                            if in_targets(t0, x) {
                                let q = choose|q: int| 0 <= q < t0.len() && #[trigger] t0[q].uid@ == x;
                                assert(targets@[q] == t0[q]);
                            } else {
                                let q = choose|q: int| 0 <= q < o0.len() && #[trigger] o0[q]@ == x;
                                assert(offline@[q] == o0[q]);
                            }
                        }
                    }
                }
            }
            i += 1;
        }
        proof {
            assert(prefix_set(mv@, mv@.len() as int) =~= members) by {
                assert forall|k: Seq<char>| members.contains(k) implies prefix_set(mv@, mv@.len() as int).contains(k) by {
                    let a = choose|a: int| 0 <= a < mv@.len() && #[trigger] mv@[a]@ == k;
                }
            }
            let pn = prefix_set(mv@, mv@.len() as int);
            assert(Set::new(|x: Seq<char>| pn.contains(x) && wanted.contains(x)) =~= wanted);
        }
        GroupPlan { targets, offline_uids: offline }
    }
}

} // verus!

verus! {

/// A blocked uid is never planned for a group delivery made with the uid check:
/// it gets no client and is not kept as offline either.
pub proof fn lemma_blocked_uid_not_planned(
    plan: GroupPlan,
    rooms: Map<Seq<char>, Set<Seq<char>>>,
    uid_clients: Map<Seq<char>, Set<Seq<char>>>,
    blocked: Set<Seq<char>>,
    limits: Map<Seq<char>, RateWindow>,
    node: Seq<char>,
    locations: Map<Seq<char>, Seq<char>>,
    servers: Set<Seq<char>>,
    room: Seq<char>,
    persisted: Option<Seq<Seq<char>>>,
    now: i64,
    u: Seq<char>,
)
    requires
        group_plan_ok(plan, rooms, uid_clients, blocked, limits, node, locations, servers, room, persisted, true, now),
        blocked.contains(u),
    ensures
        !in_targets(plan.targets@, u),
        !in_offline(plan.offline_uids@, u),
{
    let wanted = Set::new(|x: Seq<char>| members_of(rooms, room, persisted).contains(x) && passes(true, blocked, limits, x, now));
    assert(!wanted.contains(u));
}

/// Every member that passes the uid check is planned exactly once: with all its
/// clients when it has some here, as offline otherwise.
pub proof fn lemma_members_planned_once(
    plan: GroupPlan,
    rooms: Map<Seq<char>, Set<Seq<char>>>,
    uid_clients: Map<Seq<char>, Set<Seq<char>>>,
    blocked: Set<Seq<char>>,
    limits: Map<Seq<char>, RateWindow>,
    node: Seq<char>,
    locations: Map<Seq<char>, Seq<char>>,
    servers: Set<Seq<char>>,
    room: Seq<char>,
    persisted: Option<Seq<Seq<char>>>,
    check: bool,
    now: i64,
    u: Seq<char>,
)
    requires
        group_plan_ok(plan, rooms, uid_clients, blocked, limits, node, locations, servers, room, persisted, check, now),
        members_of(rooms, room, persisted).contains(u),
        passes(check, blocked, limits, u, now),
    ensures
        uid_clients.contains_key(u) ==> in_targets(plan.targets@, u) && !in_offline(plan.offline_uids@, u),
        !uid_clients.contains_key(u) ==> in_offline(plan.offline_uids@, u) && !in_targets(plan.targets@, u),
{
    let wanted = Set::new(|x: Seq<char>| members_of(rooms, room, persisted).contains(x) && passes(check, blocked, limits, x, now));
    assert(wanted.contains(u));
    if in_targets(plan.targets@, u) {
        let t = choose|t: int| 0 <= t < plan.targets@.len() && #[trigger] plan.targets@[t].uid@ == u;
        assert(targets_ok(plan.targets@[t], uid_clients, locations, servers, node));
        if in_offline(plan.offline_uids@, u) {
            let o = choose|o: int| 0 <= o < plan.offline_uids@.len() && #[trigger] plan.offline_uids@[o]@ == u;
            assert(plan.targets@[t].uid@ != plan.offline_uids@[o]@);
        }
    } else {
        let o = choose|o: int| 0 <= o < plan.offline_uids@.len() && #[trigger] plan.offline_uids@[o]@ == u;
        assert(!uid_clients.contains_key(plan.offline_uids@[o]@));
    }
}

} // verus!
