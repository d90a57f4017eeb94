//! Registry of remote (HTTP) plugins: registration with a secret token,
//! heartbeats, reconnects, and events that wait for the plugin's acknowledgement.
use vstd::prelude::*;

use std::time::Instant;

use crate::clock::{millis_since, monotonic_now, wall_clock_millis};
use crate::collections::StrMap;
use crate::ids::{is_ascii_alphanumeric, is_hyphenated_uuid, random_token, random_uuid};
use crate::storage::opt_view;
use crate::text::{copy_strings, str_eq, strings_view};

verus! {

/// Summary of a remote plugin, without its token.
pub struct RemotePluginSummary {
    pub plugin_id: String,
    pub name: String,
    pub callback_url: String,
    pub capabilities: Vec<String>,
    pub last_heartbeat_ts: i64,
}

/// A summary as plain values: `(id, name, callback, capabilities, last heartbeat)`.
pub type SummaryView = (Seq<char>, Seq<char>, Seq<char>, Seq<Seq<char>>, i64);

impl View for RemotePluginSummary {
    type V = SummaryView;

    open spec fn view(&self) -> SummaryView {
        (
            self.plugin_id@,
            self.name@,
            self.callback_url@,
            strings_view(self.capabilities@),
            self.last_heartbeat_ts,
        )
    }
}

/// A registered remote plugin.
pub struct RemotePluginInfo {
    pub plugin_id: String,
    pub name: String,
    pub callback_url: String,
    pub token: String,
    pub capabilities: Vec<String>,
    /// Time of the last heartbeat, in milliseconds since the Unix epoch.
    pub last_heartbeat_ts: i64,
    /// Time of the last heartbeat on the monotonic clock, in milliseconds
    /// since the manager was created; the inactivity time-out goes by it.
    pub last_seen_ms: i64,
}

/// A plugin as plain values: `(id, name, callback, token, capabilities,
/// last heartbeat, last heartbeat on the monotonic clock)`.
pub type PluginInfoView = (Seq<char>, Seq<char>, Seq<char>, Seq<char>, Seq<Seq<char>>, i64, i64);

impl View for RemotePluginInfo {
    type V = PluginInfoView;

    open spec fn view(&self) -> PluginInfoView {
        (
            self.plugin_id@,
            self.name@,
            self.callback_url@,
            self.token@,
            strings_view(self.capabilities@),
            self.last_heartbeat_ts,
            self.last_seen_ms,
        )
    }
}

/// The summary of a plugin: everything but its token.
pub open spec fn summary_of(v: PluginInfoView) -> SummaryView {
    (v.0, v.1, v.2, v.4, v.5)
}

impl RemotePluginInfo {
    /// This plugin's summary.
    pub fn summary(&self) -> (s: RemotePluginSummary)
        ensures
            s@ == summary_of(self@),
    {
        RemotePluginSummary {
            plugin_id: self.plugin_id.clone(),
            name: self.name.clone(),
            callback_url: self.callback_url.clone(),
            capabilities: copy_strings(&self.capabilities),
            last_heartbeat_ts: self.last_heartbeat_ts,
        }
    }

    /// A copy of this record.
    pub fn duplicate(&self) -> (r: Self)
        ensures
            r@ == self@,
    {
        RemotePluginInfo {
            plugin_id: self.plugin_id.clone(),
            name: self.name.clone(),
            callback_url: self.callback_url.clone(),
            token: self.token.clone(),
            capabilities: copy_strings(&self.capabilities),
            last_heartbeat_ts: self.last_heartbeat_ts,
            last_seen_ms: self.last_seen_ms,
        }
    }
}

/// An event sent to a plugin that awaits its acknowledgement.
pub struct PendingEvent {
    pub plugin_id: String,
    pub event_type: String,
    /// Time the event was sent on the monotonic clock, in milliseconds since
    /// the manager was created; the time-out of pending events goes by it.
    pub created_at: i64,
}

/// A pending event as plain values: `(plugin id, event type, sent at)`.
pub type PendingView = (Seq<char>, Seq<char>, i64);

impl View for PendingEvent {
    type V = PendingView;

    open spec fn view(&self) -> PendingView {
        (self.plugin_id@, self.event_type@, self.created_at)
    }
}

/// Why a request about a remote plugin was refused.
#[derive(Debug, Clone, Copy, PartialEq, Eq, Structural)]
pub enum RemotePluginError {
    InvalidToken,
    PluginNotFound,
    EventNotOwned,
    EventNotFound,
}

impl RemotePluginError {
    /// The error's text.
    pub fn message(&self) -> (s: String)
        ensures
            s@ == match self {
                RemotePluginError::InvalidToken => "invalid token"@,
                RemotePluginError::PluginNotFound => "plugin not found"@,
                RemotePluginError::EventNotOwned => "event not owned by plugin"@,
                RemotePluginError::EventNotFound => "event not found"@,
            },
    {
        match self {
            RemotePluginError::InvalidToken => "invalid token".to_string(),
            RemotePluginError::PluginNotFound => "plugin not found".to_string(),
            RemotePluginError::EventNotOwned => "event not owned by plugin".to_string(),
            RemotePluginError::EventNotFound => "event not found".to_string(),
        }
    }
}

/// The outcome of presenting `token` for the plugin `id`.
pub open spec fn token_check(
    plugins: Map<Seq<char>, PluginInfoView>,
    id: Seq<char>,
    token: Seq<char>,
) -> Result<(), RemotePluginError> {
    if !plugins.contains_key(id) {
        Err(RemotePluginError::PluginNotFound)
    } else if plugins[id].3 != token {
        Err(RemotePluginError::InvalidToken)
    } else {
        Ok(())
    }
}

/// A plugin after it reconnects with a new callback (and perhaps new
/// capabilities) at time `now` (`seen` on the monotonic clock).
pub open spec fn reconnected(
    v: PluginInfoView,
    callback: Seq<char>,
    caps: Option<Seq<Seq<char>>>,
    now: i64,
    seen: i64,
) -> PluginInfoView {
    (
        v.0,
        v.1,
        callback,
        v.3,
        match caps {
            Some(c) => c,
            None => v.4,
        },
        now,
        seen,
    )
}

/// The entries of `m` whose age at `now` does not exceed `ttl`, the age of a
/// value being `now - stamp(value)`.
pub open spec fn keep_fresh<T>(m: Map<Seq<char>, T>, stamp: spec_fn(T) -> i64, ttl: u64, now: i64) -> Map<
    Seq<char>,
    T,
> {
    Map::new(|k: Seq<char>| m.contains_key(k) && !(now - stamp(m[k]) > ttl), |k: Seq<char>| m[k])
}

/// Stamp of a plugin: its last heartbeat on the monotonic clock.
pub open spec fn heartbeat_stamp() -> spec_fn(PluginInfoView) -> i64 {
    |v: PluginInfoView| v.6
}

/// Stamp of a pending event: when it was sent.
pub open spec fn sent_stamp() -> spec_fn(PendingView) -> i64 {
    |p: PendingView| p.2
}

/// The pending events that do not belong to plugin `id`.
pub open spec fn pending_not_of(m: Map<Seq<char>, PendingView>, id: Seq<char>) -> Map<
    Seq<char>,
    PendingView,
> {
    Map::new(|k: Seq<char>| m.contains_key(k) && m[k].0 != id, |k: Seq<char>| m[k])
}

/// Registered remote plugins and the events that await their acknowledgement.
pub struct RemotePluginManager {
    entries: StrMap<RemotePluginInfo>,
    pending_events: StrMap<PendingEvent>,
    /// The monotonic clock when the manager was created.
    origin: Instant,
}

impl RemotePluginManager {
    #[verifier::type_invariant]
    spec fn inv(self) -> bool {
        forall|k: Seq<char>|
            #[trigger] self.entries@.contains_key(k) ==> self.entries@[k].plugin_id@ == k
    }

    /// Stores `info` under its own id.
    fn put_entry(&mut self, info: RemotePluginInfo)
        ensures
            final(self).entries@ == old(self).entries@.insert(info.plugin_id@, info),
            final(self).pending_events@ == old(self).pending_events@,
    {
        proof {
            use_type_invariant(&*self);
        }
        let mut m: StrMap<RemotePluginInfo> = StrMap::new();
        std::mem::swap(&mut m, &mut self.entries);
        let key = info.plugin_id.clone();
        m.insert(key, info);
        self.entries = m;
    }

    /// Removes the plugin `key`.
    fn drop_entry(&mut self, key: &str)
        ensures
            final(self).entries@ == old(self).entries@.remove(key@),
            final(self).pending_events@ == old(self).pending_events@,
    {
        proof {
            use_type_invariant(&*self);
        }
        let mut m: StrMap<RemotePluginInfo> = StrMap::new();
        std::mem::swap(&mut m, &mut self.entries);
        m.remove(key);
        self.entries = m;
    }

    /// The registered plugins, by id.
    pub closed spec fn plugins(&self) -> Map<Seq<char>, PluginInfoView> {
        self.entries@.map_values(|i: RemotePluginInfo| i@)
    }

    /// The events awaiting acknowledgement, by event id.
    pub closed spec fn pending(&self) -> Map<Seq<char>, PendingView> {
        self.pending_events@.map_values(|p: PendingEvent| p@)
    }

    /// A manager with no plugins and no pending events.
    pub fn new() -> (m: Self)
        ensures
            m.plugins() == Map::<Seq<char>, PluginInfoView>::empty(),
            m.pending() == Map::<Seq<char>, PendingView>::empty(),
    {
        let m = RemotePluginManager { entries: StrMap::new(), pending_events: StrMap::new(), origin: monotonic_now() };
        assert(m.plugins() =~= Map::<Seq<char>, PluginInfoView>::empty());
        assert(m.pending() =~= Map::<Seq<char>, PendingView>::empty());
        m
    }

    /// Registers a plugin under the given id and token, heartbeat at `now_ts`.
    pub fn register_with(
        &mut self,
        name: String,
        callback_url: String,
        capabilities: Vec<String>,
        plugin_id: String,
        token: String,
        now_ts: i64,
        seen_ms: i64,
    ) -> (info: RemotePluginInfo)
        ensures
            info@ == (plugin_id@, name@, callback_url@, token@, strings_view(capabilities@), now_ts, seen_ms),
            final(self).plugins() == old(self).plugins().insert(plugin_id@, info@),
            final(self).pending() == old(self).pending(),
    {
        let info = RemotePluginInfo {
            plugin_id,
            name,
            callback_url,
            token,
            capabilities,
            last_heartbeat_ts: now_ts,
            last_seen_ms: seen_ms,
        };
        let stored = info.duplicate();
        self.put_entry(stored);
        assert(self.plugins() =~= old(self).plugins().insert(info@.0, info@));
        info
    }

    /// Registers a plugin under a fresh id `plg_<uuid>` with a fresh random
    /// token of 32 letters and digits; its heartbeat is now (by the wall clock
    /// and by the monotonic clock).
    pub fn register(&mut self, name: String, callback_url: String, capabilities: Vec<String>) -> (info:
        RemotePluginInfo)
        ensures
            exists|u: Seq<char>| is_hyphenated_uuid(u) && info@.0 == "plg_"@ + u,
            info@.1 == name@,
            info@.2 == callback_url@,
            info@.3.len() == 32,
            forall|i: int| 0 <= i < 32 ==> is_ascii_alphanumeric(#[trigger] info@.3[i]),
            info@.4 == strings_view(capabilities@),
            final(self).plugins() == old(self).plugins().insert(info@.0, info@),
            final(self).pending() == old(self).pending(),
    {
        let uuid = random_uuid();
        let mut plugin_id = "plg_".to_string();
        plugin_id.append(uuid.as_str());
        let token = random_token();
        let now = wall_clock_millis();
        let seen = millis_since(&self.origin);
        self.register_with(name, callback_url, capabilities, plugin_id, token, now, seen)
    }

    /// Checks that `plugin_id` is registered with `token`.
    pub fn validate(&self, plugin_id: &str, token: &str) -> (r: Result<(), RemotePluginError>)
        ensures
            r == token_check(self.plugins(), plugin_id@, token@),
    {
        match self.entries.get(plugin_id) {
            Some(info) => {
                if str_eq(info.token.as_str(), token) {
                    Ok(())
                } else {
                    Err(RemotePluginError::InvalidToken)
                }
            },
            None => Err(RemotePluginError::PluginNotFound),
        }
    }

    /// Reconnects a plugin at time `now_ts` (`seen_ms` on the monotonic
    /// clock): with the right token its callback (and, if given, its
    /// capabilities) are replaced and its heartbeat renewed.
    pub fn reconnect_at(
        &mut self,
        plugin_id: &str,
        token: &str,
        callback_url: String,
        capabilities: Option<Vec<String>>,
        now_ts: i64,
        seen_ms: i64,
    ) -> (r: Result<RemotePluginInfo, RemotePluginError>)
        ensures
            final(self).pending() == old(self).pending(),
            match token_check(old(self).plugins(), plugin_id@, token@) {
                Err(e) => r == Err::<RemotePluginInfo, RemotePluginError>(e) && final(self).plugins()
                    == old(self).plugins(),
                Ok(_) => r is Ok && r->Ok_0@ == reconnected(
                    old(self).plugins()[plugin_id@],
                    callback_url@,
                    caps_view(capabilities),
                    now_ts,
                    seen_ms,
                ) && final(self).plugins() == old(self).plugins().insert(plugin_id@, r->Ok_0@),
            },
    {
        proof {
            use_type_invariant(&*self);
        }
        match self.validate(plugin_id, token) {
            Err(e) => return Err(e),
            Ok(()) => {},
        }
        let current = self.entries.get(plugin_id).unwrap();
        let caps = match capabilities {
            Some(c) => c,
            None => copy_strings(&current.capabilities),
        };
        let updated = RemotePluginInfo {
            plugin_id: current.plugin_id.clone(),
            name: current.name.clone(),
            callback_url,
            token: current.token.clone(),
            capabilities: caps,
            last_heartbeat_ts: now_ts,
            last_seen_ms: seen_ms,
        };
        let result = updated.duplicate();
        self.put_entry(updated);
        assert(self.plugins() =~= old(self).plugins().insert(plugin_id@, result@));
        Ok(result)
    }

    /// Reconnects a plugin now (by both clocks); see [`Self::reconnect_at`].
    pub fn reconnect(
        &mut self,
        plugin_id: &str,
        token: &str,
        callback_url: String,
        capabilities: Option<Vec<String>>,
    ) -> (r: Result<RemotePluginInfo, RemotePluginError>)
        ensures
            final(self).pending() == old(self).pending(),
            match token_check(old(self).plugins(), plugin_id@, token@) {
                Err(e) => r == Err::<RemotePluginInfo, RemotePluginError>(e) && final(self).plugins()
                    == old(self).plugins(),
                Ok(_) => r is Ok && (exists|now: i64, seen: i64|
                    r->Ok_0@ == #[trigger] reconnected(
                        old(self).plugins()[plugin_id@],
                        callback_url@,
                        caps_view(capabilities),
                        now,
                        seen,
                    )) && final(self).plugins() == old(self).plugins().insert(plugin_id@, r->Ok_0@),
            },
    {
        let ghost cv = caps_view(capabilities);
        let now = wall_clock_millis();
        let seen = millis_since(&self.origin);
        let r = self.reconnect_at(plugin_id, token, callback_url, capabilities, now, seen);
        assert(r is Ok ==> r->Ok_0@ == reconnected(old(self).plugins()[plugin_id@], callback_url@, cv, now, seen));
        r
    }

    /// Records a heartbeat of the plugin at time `now_ts` (`seen_ms` on the
    /// monotonic clock).
    pub fn heartbeat_at(&mut self, plugin_id: &str, token: &str, now_ts: i64, seen_ms: i64) -> (r: Result<
        (),
        RemotePluginError,
    >)
        ensures
            r == token_check(old(self).plugins(), plugin_id@, token@),
            final(self).pending() == old(self).pending(),
            r is Err ==> final(self).plugins() == old(self).plugins(),
            r is Ok ==> final(self).plugins() == old(self).plugins().insert(
                plugin_id@,
                ({
                    let v = old(self).plugins()[plugin_id@];
                    (v.0, v.1, v.2, v.3, v.4, now_ts, seen_ms)
                }),
            ),
    {
        proof {
            use_type_invariant(&*self);
        }
        match self.validate(plugin_id, token) {
            Err(e) => return Err(e),
            Ok(()) => {},
        }
        let current = self.entries.get(plugin_id).unwrap();
        let updated = RemotePluginInfo {
            plugin_id: current.plugin_id.clone(),
            name: current.name.clone(),
            callback_url: current.callback_url.clone(),
            token: current.token.clone(),
            capabilities: copy_strings(&current.capabilities),
            last_heartbeat_ts: now_ts,
            last_seen_ms: seen_ms,
        };
        let ghost uv = updated@;
        self.put_entry(updated);
        assert(self.plugins() =~= old(self).plugins().insert(plugin_id@, uv));
        Ok(())
    }

    /// Records a heartbeat of the plugin now (by both clocks).
    pub fn heartbeat(&mut self, plugin_id: &str, token: &str) -> (r: Result<(), RemotePluginError>)
        ensures
            r == token_check(old(self).plugins(), plugin_id@, token@),
            final(self).pending() == old(self).pending(),
            r is Err ==> final(self).plugins() == old(self).plugins(),
            r is Ok ==> exists|now: i64, seen: i64|
                final(self).plugins() == old(self).plugins().insert(
                    plugin_id@,
                    #[trigger] with_heartbeat(old(self).plugins()[plugin_id@], now, seen),
                ),
    {
        let now = wall_clock_millis();
        let seen = millis_since(&self.origin);
        let r = self.heartbeat_at(plugin_id, token, now, seen);
        assert(r is Ok ==> self.plugins() == old(self).plugins().insert(
            plugin_id@,
            with_heartbeat(old(self).plugins()[plugin_id@], now, seen),
        ));
        r
    }

    /// Summaries of all plugins, each once, in no promised order.
    pub fn list(&self) -> (r: Vec<RemotePluginSummary>)
        ensures
            r@.len() == self.plugins().len(),
            forall|i: int|
                0 <= i < r@.len() ==> self.plugins().contains_key(#[trigger] r@[i]@.0) && r@[i]@
                    == summary_of(self.plugins()[r@[i]@.0]),
            forall|k: Seq<char>|
                #[trigger] self.plugins().contains_key(k) ==> exists|i: int|
                    0 <= i < r@.len() && #[trigger] r@[i]@.0 == k,
    {
        proof {
            use_type_invariant(self);
            assert(self.plugins().dom() =~= self.entries@.dom());
        }
        let es = self.entries.entries();
        let mut r: Vec<RemotePluginSummary> = Vec::new();
        let mut k: usize = 0;
        while k < es.len()
            invariant
                k <= es@.len(),
                r@.len() == k,
                forall|j: int| 0 <= j < k ==> #[trigger] r@[j]@ == summary_of(es@[j].1@),
            decreases es.len() - k,
        {
            r.push(es[k].1.summary());
            k += 1;
        }
        proof {
            assert forall|i: int|
                0 <= i < r@.len() implies self.plugins().contains_key(#[trigger] r@[i]@.0) && r@[i]@
                    == summary_of(self.plugins()[r@[i]@.0]) by {
                assert(self.entries@.contains_key(es@[i].0@));
                assert(es@[i].1.plugin_id@ == es@[i].0@);
            }
            assert forall|key: Seq<char>| #[trigger] self.plugins().contains_key(key) implies exists|i: int|
                0 <= i < r@.len() && #[trigger] r@[i]@.0 == key by {
                assert(self.entries@.contains_key(key));
                let i = choose|i: int| 0 <= i < es@.len() && es@[i].0@ == key;
                assert(self.entries@.contains_key(es@[i].0@));
                assert(r@[i]@.0 == key);
            }
        }
        r
    }

    /// Copies of all plugins, each once, in no promised order.
    pub fn snapshot(&self) -> (r: Vec<RemotePluginInfo>)
        ensures
            r@.len() == self.plugins().len(),
            forall|i: int|
                0 <= i < r@.len() ==> self.plugins().contains_key(#[trigger] r@[i]@.0) && r@[i]@
                    == self.plugins()[r@[i]@.0],
            forall|k: Seq<char>|
                #[trigger] self.plugins().contains_key(k) ==> exists|i: int|
                    0 <= i < r@.len() && #[trigger] r@[i]@.0 == k,
    {
        proof {
            use_type_invariant(self);
            assert(self.plugins().dom() =~= self.entries@.dom());
        }
        let es = self.entries.entries();
        let mut r: Vec<RemotePluginInfo> = Vec::new();
        let mut k: usize = 0;
        while k < es.len()
            invariant
                k <= es@.len(),
                r@.len() == k,
                forall|j: int| 0 <= j < k ==> #[trigger] r@[j]@ == es@[j].1@,
            decreases es.len() - k,
        {
            r.push(es[k].1.duplicate());
            k += 1;
        }
        proof {
            assert forall|i: int|
                0 <= i < r@.len() implies self.plugins().contains_key(#[trigger] r@[i]@.0) && r@[i]@
                    == self.plugins()[r@[i]@.0] by {
                assert(self.entries@.contains_key(es@[i].0@));
            }
            assert forall|key: Seq<char>| #[trigger] self.plugins().contains_key(key) implies exists|i: int|
                0 <= i < r@.len() && #[trigger] r@[i]@.0 == key by {
                assert(self.entries@.contains_key(key));
                let i = choose|i: int| 0 <= i < es@.len() && es@[i].0@ == key;
                assert(self.entries@.contains_key(es@[i].0@));
                assert(r@[i]@.0 == key);
            }
        }
        r
    }

    /// The ids of all plugins, each once.
    fn plugin_ids(&self) -> (r: Vec<String>)
        ensures
            forall|key: Seq<char>| #[trigger] self.plugins().contains_key(key) ==> exists|i: int|
                0 <= i < r@.len() && #[trigger] r@[i]@ == key,
    {
        let es = self.entries.entries();
        let mut r: Vec<String> = Vec::new();
        let mut k: usize = 0;
        while k < es.len()
            invariant
                k <= es@.len(),
                r@.len() == k,
                forall|j: int| 0 <= j < k ==> #[trigger] r@[j]@ == es@[j].0@,
            decreases es.len() - k,
        {
            r.push(es[k].0.clone());
            k += 1;
        }
        proof {
            assert forall|key: Seq<char>| #[trigger] self.plugins().contains_key(key) implies exists|i: int|
                0 <= i < r@.len() && #[trigger] r@[i]@ == key by {
                assert(self.entries@.contains_key(key));
                let i = choose|i: int| 0 <= i < es@.len() && es@[i].0@ == key;
                assert(r@[i]@ == key);
            }
        }
        r
    }

    /// Removes the plugins whose last heartbeat is more than `ttl_ms` before
    /// `now_ts`, both on the monotonic clock.
    pub fn remove_inactive_at(&mut self, ttl_ms: u64, now_ts: i64)
        ensures
            final(self).plugins() == keep_fresh(old(self).plugins(), heartbeat_stamp(), ttl_ms, now_ts),
            final(self).pending() == old(self).pending(),
    {
        let ids = self.plugin_ids();
        let ghost old_p = self.plugins();
        let mut k: usize = 0;
        while k < ids.len()
            invariant
                k <= ids@.len(),
                self.pending() == old(self).pending(),
                old_p == old(self).plugins(),
                forall|key: Seq<char>| #[trigger] old_p.contains_key(key) ==> exists|i: int|
                    0 <= i < ids@.len() && #[trigger] ids@[i]@ == key,
                self.plugins() == Map::new(
                    |key: Seq<char>| old_p.contains_key(key) && !(strings_view(ids@).take(k as int).contains(key) && now_ts - old_p[key].6 > ttl_ms),
                    |key: Seq<char>| old_p[key],
                ),
            decreases ids.len() - k,
        {
            let ghost before = self.plugins();
            let expired = match self.entries.get(ids[k].as_str()) {
                Some(info) => (now_ts as i128) - (info.last_seen_ms as i128) > ttl_ms as i128,
                None => false,
            };
            if expired {
                self.drop_entry(ids[k].as_str());
                assert(self.plugins() =~= before.remove(ids@[k as int]@));
            }
            proof {
                broadcast use vstd::seq_lib::group_seq_properties;
                let idv = strings_view(ids@);
                assert(idv.take(k + 1) =~= idv.take(k as int).push(idv[k as int]));
                assert(idv[k as int] == ids@[k as int]@);
                if before.contains_key(idv[k as int]) {
                    assert(old_p.contains_key(idv[k as int]));
                    assert(before[idv[k as int]] == old_p[idv[k as int]]);
                }
                assert forall|key: Seq<char>| key != idv[k as int] implies (idv.take(k + 1).contains(key) == idv.take(k as int).contains(key)) by {
                    if idv.take(k + 1).contains(key) {
                        let t1 = idv.take(k + 1);
                        let i = choose|i: int| 0 <= i < k + 1 && #[trigger] t1[i] == key;
                        assert(idv.take(k as int)[i] == key);
                    }
                    if idv.take(k as int).contains(key) {
                        let t0 = idv.take(k as int);
                        let i = choose|i: int| 0 <= i < k && #[trigger] t0[i] == key;
                        assert(idv.take(k + 1)[i] == key);
                    }
                }
                assert(idv.take(k + 1).contains(idv[k as int])) by {
                    assert(idv.take(k + 1)[k as int] == idv[k as int]);
                }
                assert(self.plugins() =~= Map::new(
                    |key: Seq<char>| old_p.contains_key(key) && !(idv.take(k + 1).contains(key) && now_ts - old_p[key].6 > ttl_ms),
                    |key: Seq<char>| old_p[key],
                ));
            }
            k += 1;
        }
        proof {
            let idv = strings_view(ids@);
            assert(idv.take(ids@.len() as int) =~= idv);
            assert forall|key: Seq<char>| old_p.contains_key(key) implies idv.contains(key) by {
                let i = choose|i: int| 0 <= i < ids@.len() && #[trigger] ids@[i]@ == key;
                assert(idv[i] == key);
            }
            assert(self.plugins() =~= keep_fresh(old_p, heartbeat_stamp(), ttl_ms, now_ts));
        }
    }

    /// Stores a pending event under `key`.
    fn put_pending(&mut self, key: String, ev: PendingEvent)
        ensures
            final(self).pending_events@ == old(self).pending_events@.insert(key@, ev),
            final(self).entries@ == old(self).entries@,
    {
        proof {
            use_type_invariant(&*self);
        }
        let mut m: StrMap<PendingEvent> = StrMap::new();
        std::mem::swap(&mut m, &mut self.pending_events);
        m.insert(key, ev);
        self.pending_events = m;
    }

    /// Removes the pending event `key`, returning it.
    fn drop_pending(&mut self, key: &str) -> (r: Option<PendingEvent>)
        ensures
            final(self).pending_events@ == old(self).pending_events@.remove(key@),
            final(self).entries@ == old(self).entries@,
            match r {
                Some(ev) => old(self).pending_events@.contains_key(key@) && old(self).pending_events@[key@] == ev,
                None => !old(self).pending_events@.contains_key(key@),
            },
    {
        proof {
            use_type_invariant(&*self);
        }
        let mut m: StrMap<PendingEvent> = StrMap::new();
        std::mem::swap(&mut m, &mut self.pending_events);
        let r = m.remove(key);
        self.pending_events = m;
        r
    }

    /// The ids of all pending events, each once.
    fn pending_ids(&self) -> (r: Vec<String>)
        ensures
            forall|key: Seq<char>| #[trigger] self.pending().contains_key(key) ==> exists|i: int|
                0 <= i < r@.len() && #[trigger] r@[i]@ == key,
    {
        let es = self.pending_events.entries();
        let mut r: Vec<String> = Vec::new();
        let mut k: usize = 0;
        while k < es.len()
            invariant
                k <= es@.len(),
                r@.len() == k,
                forall|j: int| 0 <= j < k ==> #[trigger] r@[j]@ == es@[j].0@,
            decreases es.len() - k,
        {
            r.push(es[k].0.clone());
            k += 1;
        }
        proof {
            assert forall|key: Seq<char>| #[trigger] self.pending().contains_key(key) implies exists|i: int|
                0 <= i < r@.len() && #[trigger] r@[i]@ == key by {
                assert(self.pending_events@.contains_key(key));
                let i = choose|i: int| 0 <= i < es@.len() && es@[i].0@ == key;
                assert(r@[i]@ == key);
            }
        }
        r
    }

    /// Removes the pending events for which `doomed` holds, visiting the ids in `ids`
    /// (which must list every pending event).
    fn drop_pending_where(&mut self, ids: &Vec<String>, ttl_ms: u64, now_ts: i64, owner: &str, by_owner: bool)
        requires
            forall|key: Seq<char>| #[trigger] old(self).pending().contains_key(key) ==> exists|i: int|
                0 <= i < ids@.len() && #[trigger] ids@[i]@ == key,
        ensures
            final(self).plugins() == old(self).plugins(),
            final(self).pending() == Map::new(
                |key: Seq<char>| old(self).pending().contains_key(key) && !doomed(old(self).pending()[key], ttl_ms, now_ts, owner@, by_owner),
                |key: Seq<char>| old(self).pending()[key],
            ),
    {
        let ghost old_p = self.pending();
        let mut k: usize = 0;
        while k < ids.len()
            invariant
                k <= ids@.len(),
                self.plugins() == old(self).plugins(),
                old_p == old(self).pending(),
                forall|key: Seq<char>| #[trigger] old_p.contains_key(key) ==> exists|i: int|
                    0 <= i < ids@.len() && #[trigger] ids@[i]@ == key,
                self.pending() == Map::new(
                    |key: Seq<char>| old_p.contains_key(key) && !(strings_view(ids@).take(k as int).contains(key) && doomed(old_p[key], ttl_ms, now_ts, owner@, by_owner)),
                    |key: Seq<char>| old_p[key],
                ),
            decreases ids.len() - k,
        {
            let ghost before = self.pending();
            let hit = match self.pending_events.get(ids[k].as_str()) {
                Some(ev) => if by_owner {
                    str_eq(ev.plugin_id.as_str(), owner)
                } else {
                    (now_ts as i128) - (ev.created_at as i128) > ttl_ms as i128
                },
                None => false,
            };
            if hit {
                self.drop_pending(ids[k].as_str());
                assert(self.pending() =~= before.remove(ids@[k as int]@));
                assert(self.plugins() =~= old(self).plugins());
            }
            proof {
                let idv = strings_view(ids@);
                assert(idv.take(k + 1) =~= idv.take(k as int).push(idv[k as int]));
                assert(idv[k as int] == ids@[k as int]@);
                if before.contains_key(idv[k as int]) {
                    assert(old_p.contains_key(idv[k as int]));
                    assert(before[idv[k as int]] == old_p[idv[k as int]]);
                }
                assert forall|key: Seq<char>| key != idv[k as int] implies (idv.take(k + 1).contains(key) == idv.take(k as int).contains(key)) by {
                    if idv.take(k + 1).contains(key) {
                        let t1 = idv.take(k + 1);
                        let i = choose|i: int| 0 <= i < k + 1 && #[trigger] t1[i] == key;
                        assert(idv.take(k as int)[i] == key);
                    }
                    if idv.take(k as int).contains(key) {
                        let t0 = idv.take(k as int);
                        let i = choose|i: int| 0 <= i < k && #[trigger] t0[i] == key;
                        assert(idv.take(k + 1)[i] == key);
                    }
                }
                assert(idv.take(k + 1).contains(idv[k as int])) by {
                    assert(idv.take(k + 1)[k as int] == idv[k as int]);
                }
                assert(self.pending() =~= Map::new(
                    |key: Seq<char>| old_p.contains_key(key) && !(idv.take(k + 1).contains(key) && doomed(old_p[key], ttl_ms, now_ts, owner@, by_owner)),
                    |key: Seq<char>| old_p[key],
                ));
            }
            k += 1;
        }
        proof {
            let idv = strings_view(ids@);
            assert(idv.take(ids@.len() as int) =~= idv);
            assert forall|key: Seq<char>| old_p.contains_key(key) implies idv.contains(key) by {
                let i = choose|i: int| 0 <= i < ids@.len() && #[trigger] ids@[i]@ == key;
                assert(idv[i] == key);
            }
            assert(self.pending() =~= Map::new(
                |key: Seq<char>| old_p.contains_key(key) && !doomed(old_p[key], ttl_ms, now_ts, owner@, by_owner),
                |key: Seq<char>| old_p[key],
            ));
        }
    }

    /// Records that an event of `event_type` was sent to `plugin_id` at
    /// `now_ts` (on the monotonic clock) under the id `event_id`, and returns that id.
    pub fn record_event_with(&mut self, plugin_id: &str, event_type: &str, event_id: String, now_ts: i64) -> (r: String)
        ensures
            r@ == event_id@,
            final(self).pending() == old(self).pending().insert(event_id@, (plugin_id@, event_type@, now_ts)),
            final(self).plugins() == old(self).plugins(),
    {
        let ev = PendingEvent { plugin_id: plugin_id.to_string(), event_type: event_type.to_string(), created_at: now_ts };
        let r = event_id.clone();
        self.put_pending(event_id, ev);
        assert(self.pending() =~= old(self).pending().insert(r@, (plugin_id@, event_type@, now_ts)));
        assert(self.plugins() =~= old(self).plugins());
        r
    }

    /// Records that an event of `event_type` was sent to `plugin_id` now (by
    /// the monotonic clock), under a fresh random UUID, and returns that id.
    pub fn record_event(&mut self, plugin_id: &str, event_type: &str) -> (r: String)
        ensures
            is_hyphenated_uuid(r@),
            exists|t: i64| final(self).pending() == old(self).pending().insert(r@, #[trigger] pending_entry(plugin_id@, event_type@, t)),
            final(self).plugins() == old(self).plugins(),
    {
        let id = random_uuid();
        let now = millis_since(&self.origin);
        let r = self.record_event_with(plugin_id, event_type, id, now);
        assert(self.pending() == old(self).pending().insert(r@, pending_entry(plugin_id@, event_type@, now)));
        r
    }

    /// The plugins an event of `event_type` goes to: every registered plugin
    /// once, in no promised order. When `require_ack`, each gets a fresh
    /// event id under which the event is recorded as pending for it;
    /// otherwise none does and nothing is recorded.
    pub fn plan_dispatch(&mut self, event_type: &str, require_ack: bool) -> (r: Vec<DispatchTarget>)
        ensures
            final(self).plugins() == old(self).plugins(),
            r@.len() == old(self).plugins().len(),
            forall|i: int|
                0 <= i < r@.len() ==> old(self).plugins().contains_key(#[trigger] r@[i].plugin@.0)
                    && r@[i].plugin@ == old(self).plugins()[r@[i].plugin@.0],
            forall|k: Seq<char>|
                #[trigger] old(self).plugins().contains_key(k) ==> exists|i: int|
                    0 <= i < r@.len() && #[trigger] r@[i].plugin@.0 == k,
            forall|i: int|
                0 <= i < r@.len() ==> (#[trigger] r@[i].event_id is Some <==> require_ack) && (r@[i].event_id is Some
                    ==> is_hyphenated_uuid(r@[i].event_id->0@)),
            !require_ack ==> final(self).pending() == old(self).pending(),
            recorded_in_order(old(self).pending(), final(self).pending(), event_ids(r@), target_owners(r@), event_type@),
    {
        let plugins = self.snapshot();
        let ghost before = self.pending();
        let mut out: Vec<DispatchTarget> = Vec::new();
        let mut i: usize = 0;
        while i < plugins.len()
            invariant
                i <= plugins@.len(),
                out@.len() == i,
                forall|j: int| 0 <= j < i ==> #[trigger] out@[j].plugin@ == plugins@[j]@,
                forall|j: int|
                    0 <= j < i ==> (#[trigger] out@[j].event_id is Some <==> require_ack) && (out@[j].event_id is Some
                        ==> is_hyphenated_uuid(out@[j].event_id->0@)),
                self.plugins() == old(self).plugins(),
                before == old(self).pending(),
                !require_ack ==> self.pending() == before,
                recorded_in_order(before, self.pending(), event_ids(out@), target_owners(out@), event_type@),
            decreases plugins.len() - i,
        {
            let p = plugins[i].duplicate();
            let ghost mid = self.pending();
            let ghost ids = event_ids(out@);
            let ghost owners = target_owners(out@);
            let event_id = if require_ack {
                Some(self.record_event(p.plugin_id.as_str(), event_type))
            } else {
                None
            };
            let ghost owner = p.plugin_id@;
            let ghost evg = opt_view(event_id);
            out.push(DispatchTarget { plugin: p, event_id });
            proof {
                let ids2 = event_ids(out@);
                let owners2 = target_owners(out@);
                assert(ids2 =~= ids.push(evg));
                assert(owners2 =~= owners.push(owner));
                let after = self.pending();
                match evg {
                    None => {
                        assert(after == mid);
                        assert forall|k: Seq<char>| #[trigger] after.contains_key(k) <==> (before.contains_key(k)
                            || ids2.contains(Some(k))) by {
                            if ids2.contains(Some(k)) {
                                let j = choose|j: int| 0 <= j < ids2.len() && ids2[j] == Some(k);
                                assert(j < ids.len());
                                assert(ids.contains(Some(k)));
                            }
                            if ids.contains(Some(k)) {
                                let j = choose|j: int| 0 <= j < ids.len() && ids[j] == Some(k);
                                assert(ids2[j] == Some(k));
                            }
                        }
                        assert forall|k: Seq<char>| before.contains_key(k) && !ids2.contains(Some(k)) implies #[trigger] after[k]
                            == before[k] by {
                            if ids.contains(Some(k)) {
                                let j = choose|j: int| 0 <= j < ids.len() && ids[j] == Some(k);
                                assert(ids2[j] == Some(k));
                            }
                        }
                        assert forall|a: int|
                            0 <= a < ids2.len() && #[trigger] ids2[a] is Some && (forall|j: int| a < j < ids2.len() ==> ids2[j] != ids2[a])
                                implies after[ids2[a]->0].0 == owners2[a] && after[ids2[a]->0].1 == event_type@ by {
                            assert(a < ids.len());
                            assert(ids[a] is Some);
                            assert forall|j: int| a < j < ids.len() implies ids[j] != ids[a] by {
                                assert(ids2[j] != ids2[a]);
                            }
                        }
                    },
                    Some(xv) => {
                        assert(exists|t: i64| after == mid.insert(xv, #[trigger] pending_entry(owner, event_type@, t)));
                        assert forall|k: Seq<char>| #[trigger] after.contains_key(k) <==> (before.contains_key(k)
                            || ids2.contains(Some(k))) by {
                            if ids2.contains(Some(k)) {
                                let j = choose|j: int| 0 <= j < ids2.len() && ids2[j] == Some(k);
                                if j < ids.len() {
                                    assert(ids.contains(Some(k)));
                                }
                            }
                            if ids.contains(Some(k)) {
                                let j = choose|j: int| 0 <= j < ids.len() && ids[j] == Some(k);
                                assert(ids2[j] == Some(k));
                            }
                            if k == xv {
                                assert(ids2[ids.len() as int] == Some(k));
                            }
                        }
                        assert forall|k: Seq<char>| before.contains_key(k) && !ids2.contains(Some(k)) implies #[trigger] after[k]
                            == before[k] by {
                            if ids.contains(Some(k)) {
                                let j = choose|j: int| 0 <= j < ids.len() && ids[j] == Some(k);
                                assert(ids2[j] == Some(k));
                            }
                            assert(ids2[ids.len() as int] == Some(xv));
                        }
                        assert forall|a: int|
                            0 <= a < ids2.len() && #[trigger] ids2[a] is Some && (forall|j: int| a < j < ids2.len() ==> ids2[j] != ids2[a])
                                implies after[ids2[a]->0].0 == owners2[a] && after[ids2[a]->0].1 == event_type@ by {
                            if a < ids.len() {
                                assert(ids2[ids.len() as int] != ids2[a]);
                                assert forall|j: int| a < j < ids.len() implies ids[j] != ids[a] by {
                                    assert(ids2[j] != ids2[a]);
                                }
                            }
                        }
                    },
                }
            }
            i += 1;
        }
        proof {
            assert forall|k: Seq<char>| #[trigger] old(self).plugins().contains_key(k) implies exists|j: int|
                0 <= j < out@.len() && #[trigger] out@[j].plugin@.0 == k by {
                let j = choose|j: int| 0 <= j < plugins@.len() && #[trigger] plugins@[j]@.0 == k;
                assert(out@[j].plugin@ == plugins@[j]@);
            }
        }
        out
    }

    /// Acknowledges the event `event_id` on behalf of `plugin_id`. With a valid
    /// token the event leaves the pending set; its type is returned when it
    /// belonged to that plugin.
    pub fn ack_event(&mut self, plugin_id: &str, token: &str, event_id: &str) -> (r: Result<String, RemotePluginError>)
        ensures
            final(self).plugins() == old(self).plugins(),
            match token_check(old(self).plugins(), plugin_id@, token@) {
                Err(e) => r == Err::<String, RemotePluginError>(e) && final(self).pending() == old(self).pending(),
                Ok(_) => if !old(self).pending().contains_key(event_id@) {
                    r == Err::<String, RemotePluginError>(RemotePluginError::EventNotFound) && final(self).pending() == old(self).pending()
                } else {
                    final(self).pending() == old(self).pending().remove(event_id@) && if old(self).pending()[event_id@].0 != plugin_id@ {
                        r == Err::<String, RemotePluginError>(RemotePluginError::EventNotOwned)
                    } else {
                        r is Ok && r->Ok_0@ == old(self).pending()[event_id@].1
                    }
                },
            },
    {
        match self.validate(plugin_id, token) {
            Err(e) => return Err(e),
            Ok(()) => {},
        }
        match self.drop_pending(event_id) {
            Some(pending) => {
                assert(self.pending() =~= old(self).pending().remove(event_id@));
                assert(self.plugins() =~= old(self).plugins());
                if !str_eq(pending.plugin_id.as_str(), plugin_id) {
                    return Err(RemotePluginError::EventNotOwned);
                }
                Ok(pending.event_type)
            },
            None => {
                assert(self.pending() =~= old(self).pending());
                assert(self.plugins() =~= old(self).plugins());
                Err(RemotePluginError::EventNotFound)
            },
        }
    }

    /// Unregisters a plugin: with a valid token the plugin and every event
    /// pending for it are removed.
    pub fn unregister(&mut self, plugin_id: &str, token: &str) -> (r: Result<(), RemotePluginError>)
        ensures
            r == token_check(old(self).plugins(), plugin_id@, token@),
            r is Err ==> final(self).plugins() == old(self).plugins() && final(self).pending() == old(self).pending(),
            r is Ok ==> final(self).plugins() == old(self).plugins().remove(plugin_id@) && final(self).pending() == pending_not_of(old(self).pending(), plugin_id@),
    {
        match self.validate(plugin_id, token) {
            Err(e) => return Err(e),
            Ok(()) => {},
        }
        self.drop_entry(plugin_id);
        assert(self.plugins() =~= old(self).plugins().remove(plugin_id@));
        assert(self.pending() =~= old(self).pending());
        let ids = self.pending_ids();
        self.drop_pending_where(&ids, 0, 0, plugin_id, true);
        assert(self.pending() =~= pending_not_of(old(self).pending(), plugin_id@));
        Ok(())
    }

    /// Removes the pending events sent more than `ttl_ms` before `now_ts`, both
    /// on the monotonic clock.
    pub fn cleanup_pending_at(&mut self, ttl_ms: u64, now_ts: i64)
        ensures
            final(self).pending() == keep_fresh(old(self).pending(), sent_stamp(), ttl_ms, now_ts),
            final(self).plugins() == old(self).plugins(),
    {
        let ids = self.pending_ids();
        self.drop_pending_where(&ids, ttl_ms, now_ts, "", false);
        assert(self.pending() =~= keep_fresh(old(self).pending(), sent_stamp(), ttl_ms, now_ts));
    }

    /// Removes the pending events sent more than `ttl_ms` ago (by the
    /// monotonic clock).
    pub fn cleanup_pending(&mut self, ttl_ms: u64)
        ensures
            exists|now: i64| final(self).pending() == #[trigger] keep_fresh(old(self).pending(), sent_stamp(), ttl_ms, now),
            final(self).plugins() == old(self).plugins(),
    {
        let now = millis_since(&self.origin);
        self.cleanup_pending_at(ttl_ms, now);
    }

    /// Removes the plugins whose last heartbeat is more than `ttl_ms` ago (by
    /// the monotonic clock).
    pub fn remove_inactive(&mut self, ttl_ms: u64)
        ensures
            exists|now: i64|
                final(self).plugins() == #[trigger] keep_fresh(old(self).plugins(), heartbeat_stamp(), ttl_ms, now),
            final(self).pending() == old(self).pending(),
    {
        let now = millis_since(&self.origin);
        self.remove_inactive_at(ttl_ms, now);
    }
}

/// Optional capabilities as plain values.
pub open spec fn caps_view(c: Option<Vec<String>>) -> Option<Seq<Seq<char>>> {
    match c {
        Some(v) => Some(strings_view(v@)),
        None => None,
    }
}

/// A plugin that an event goes to, with the id under which its
/// acknowledgement is awaited, if one is.
pub struct DispatchTarget {
    pub plugin: RemotePluginInfo,
    pub event_id: Option<String>,
}

/// The event ids of `targets`, as plain values.
pub open spec fn event_ids(targets: Seq<DispatchTarget>) -> Seq<Option<Seq<char>>> {
    targets.map_values(|t: DispatchTarget| opt_view(t.event_id))
}

/// The plugin ids of `targets`.
pub open spec fn target_owners(targets: Seq<DispatchTarget>) -> Seq<Seq<char>> {
    targets.map_values(|t: DispatchTarget| t.plugin.plugin_id@)
}

/// `after` is `before` with an event of `event_type` recorded, in order, for
/// each of `ids` that is present: no other entry changes, and each recorded id
/// that no later one repeats belongs to the plugin `owners` gives for it.
pub open spec fn recorded_in_order(
    before: Map<Seq<char>, PendingView>,
    after: Map<Seq<char>, PendingView>,
    ids: Seq<Option<Seq<char>>>,
    owners: Seq<Seq<char>>,
    event_type: Seq<char>,
) -> bool {
    &&& forall|k: Seq<char>| #[trigger] after.contains_key(k) <==> (before.contains_key(k) || ids.contains(Some(k)))
    &&& forall|k: Seq<char>| before.contains_key(k) && !ids.contains(Some(k)) ==> #[trigger] after[k] == before[k]
    &&& forall|i: int|
        0 <= i < ids.len() && #[trigger] ids[i] is Some && (forall|j: int| i < j < ids.len() ==> ids[j] != ids[i])
            ==> after[ids[i]->0].0 == owners[i] && after[ids[i]->0].1 == event_type
}

/// A pending event as plain values.
pub open spec fn pending_entry(plugin_id: Seq<char>, event_type: Seq<char>, t: i64) -> PendingView {
    (plugin_id, event_type, t)
}

/// Whether a pending event goes: when `by_owner`, because it belongs to
/// `owner`; otherwise because it was sent more than `ttl` before `now`.
pub open spec fn doomed(p: PendingView, ttl: u64, now: i64, owner: Seq<char>, by_owner: bool) -> bool {
    if by_owner {
        p.0 == owner
    } else {
        now - p.2 > ttl
    }
}

/// A plugin with its heartbeat renewed at `now`.
pub open spec fn with_heartbeat(v: PluginInfoView, now: i64, seen: i64) -> PluginInfoView {
    (v.0, v.1, v.2, v.3, v.4, now, seen)
}

} // verus!

verus! {

/// A freshly registered plugin passes the check with its own token, and no
/// other token passes.
pub proof fn lemma_registered_token_validates(plugins: Map<Seq<char>, PluginInfoView>, info: PluginInfoView, token: Seq<char>)
    ensures
        token_check(plugins.insert(info.0, info), info.0, info.3) == Ok::<(), RemotePluginError>(()),
        token != info.3 ==> token_check(plugins.insert(info.0, info), info.0, token) == Err::<(), RemotePluginError>(RemotePluginError::InvalidToken),
{
}

/// Once an event is acknowledged it is no longer pending, so a second
/// acknowledgement finds nothing.
pub proof fn lemma_ack_once(pending: Map<Seq<char>, PendingView>, event_id: Seq<char>)
    ensures
        !pending.remove(event_id).contains_key(event_id),
{
}

/// After a plugin is unregistered no pending event belongs to it, and every
/// other plugin's pending events remain.
pub proof fn lemma_unregister_clears_pending(pending: Map<Seq<char>, PendingView>, plugin_id: Seq<char>)
    ensures
        forall|k: Seq<char>| #[trigger] pending_not_of(pending, plugin_id).contains_key(k)
            ==> pending_not_of(pending, plugin_id)[k].0 != plugin_id,
        forall|k: Seq<char>| #[trigger] pending.contains_key(k) && pending[k].0 != plugin_id
            ==> pending_not_of(pending, plugin_id).contains_key(k) && pending_not_of(pending, plugin_id)[k] == pending[k],
{
}

/// Expiry keeps exactly the entries whose age does not exceed the TTL.
pub proof fn lemma_expiry_keeps_fresh<T>(m: Map<Seq<char>, T>, stamp: spec_fn(T) -> i64, ttl: u64, now: i64)
    ensures
        forall|k: Seq<char>| #[trigger] keep_fresh(m, stamp, ttl, now).contains_key(k)
            <==> (m.contains_key(k) && now - stamp(m[k]) <= ttl),
        forall|k: Seq<char>| #[trigger] keep_fresh(m, stamp, ttl, now).contains_key(k)
            ==> keep_fresh(m, stamp, ttl, now)[k] == m[k],
{
}

} // verus!
