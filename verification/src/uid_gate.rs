//! Per-uid delivery gate: blocked uids and fixed one-second rate windows.
use vstd::prelude::*;

use crate::clock::wall_clock_millis;
use crate::collections::{StrMap, StrSet};

verus! {

/// Length of a rate window, in milliseconds.
pub const WINDOW_MS: i64 = 1000;

/// A rate window `(limit, count, window_start_ms)`: at most `limit` sends are
/// allowed in the second that starts at `window_start_ms`; `count` were made.
pub type RateWindow = (usize, usize, i64);

/// One send attempt against a rate window at time `now`: whether it is allowed
/// and the window afterwards.
pub open spec fn rate_step(w: RateWindow, now: i64) -> (bool, RateWindow) {
    let (limit, count, start) = w;
    if now - start >= WINDOW_MS {
        (true, (limit, 1, now))
    } else if count < limit {
        (true, (limit, (count + 1) as usize, start))
    } else {
        (false, w)
    }
}

/// One send attempt to `uid` at time `now` against the blocked set and the
/// rate windows: whether it is allowed and the rate windows afterwards.
pub open spec fn gate_step(
    blocked: Set<Seq<char>>,
    limits: Map<Seq<char>, RateWindow>,
    uid: Seq<char>,
    now: i64,
) -> (bool, Map<Seq<char>, RateWindow>) {
    if blocked.contains(uid) {
        (false, limits)
    } else if limits.contains_key(uid) {
        let (ok, w) = rate_step(limits[uid], now);
        if ok {
            (true, limits.insert(uid, w))
        } else {
            (false, limits)
        }
    } else {
        (true, limits)
    }
}

/// Blocked uids and per-uid rate windows.
pub struct UidGate {
    blocked: StrSet,
    limits: StrMap<RateWindow>,
}

impl UidGate {
    /// The blocked uids.
    pub closed spec fn blocked(&self) -> Set<Seq<char>> {
        self.blocked@
    }

    /// The rate windows, by uid.
    pub closed spec fn limits(&self) -> Map<Seq<char>, RateWindow> {
        self.limits@
    }

    /// A gate with nothing blocked and no limits.
    pub fn new() -> (g: Self)
        ensures
            g.blocked() == Set::<Seq<char>>::empty(),
            g.limits() == Map::<Seq<char>, RateWindow>::empty(),
    {
        UidGate { blocked: StrSet::new(), limits: StrMap::new() }
    }

    /// Whether a send to `uid` at time `now_ms` is allowed; counts it in the
    /// uid's rate window when it is.
    pub fn allow_send_to_uid_at(&mut self, uid: &str, now_ms: i64) -> (ok: bool)
        ensures
            (ok, final(self).limits()) == gate_step(old(self).blocked(), old(self).limits(), uid@, now_ms),
            final(self).blocked() == old(self).blocked(),
    {
        if self.blocked.contains(uid) {
            return false;
        }
        let entry = self.limits.get(uid);
        match entry {
            Some(w) => {
                let (limit, count, window_start) = *w;
                if (now_ms as i128) - (window_start as i128) >= WINDOW_MS as i128 {
                    self.limits.insert(uid.to_string(), (limit, 1, now_ms));
                    true
                } else if count < limit {
                    self.limits.insert(uid.to_string(), (limit, count + 1, window_start));
                    true
                } else {
                    false
                }
            },
            None => true,
        }
    }

    /// Whether a send to `uid` is allowed now (by the wall clock); counts it in
    /// the uid's rate window when it is.
    pub fn allow_send_to_uid(&mut self, uid: &str) -> (ok: bool)
        ensures
            exists|now: i64|
                (ok, final(self).limits()) == gate_step(old(self).blocked(), old(self).limits(), uid@, now),
            final(self).blocked() == old(self).blocked(),
    {
        let now = wall_clock_millis();
        self.allow_send_to_uid_at(uid, now)
    }

    /// Blocks or unblocks `uid`.
    pub fn set_blocked(&mut self, uid: &str, block: bool)
        ensures
            final(self).blocked() == if block {
                old(self).blocked().insert(uid@)
            } else {
                old(self).blocked().remove(uid@)
            },
            final(self).limits() == old(self).limits(),
    {
        if block {
            self.blocked.insert(uid.to_string());
        } else {
            self.blocked.remove(uid);
        }
    }

    /// Sets the per-second limit of `uid` with a fresh window starting at
    /// `now_ms`; a limit of zero removes the limit.
    pub fn set_rate_limit_at(&mut self, uid: &str, limit_per_sec: usize, now_ms: i64)
        ensures
            final(self).limits() == if limit_per_sec == 0 {
                old(self).limits().remove(uid@)
            } else {
                old(self).limits().insert(uid@, (limit_per_sec, 0usize, now_ms))
            },
            final(self).blocked() == old(self).blocked(),
    {
        if limit_per_sec == 0 {
            self.limits.remove(uid);
        } else {
            self.limits.insert(uid.to_string(), (limit_per_sec, 0, now_ms));
        }
    }

    /// Sets the per-second limit of `uid` with a fresh window starting now
    /// (by the wall clock); a limit of zero removes the limit.
    pub fn set_rate_limit(&mut self, uid: &str, limit_per_sec: usize)
        ensures
            limit_per_sec == 0 ==> final(self).limits() == old(self).limits().remove(uid@),
            limit_per_sec != 0 ==> exists|now: i64|
                final(self).limits() == old(self).limits().insert(uid@, (limit_per_sec, 0usize, now)),
            final(self).blocked() == old(self).blocked(),
    {
        let now = wall_clock_millis();
        self.set_rate_limit_at(uid, limit_per_sec, now);
    }

    /// `uid` is blocked.
    pub fn is_blocked(&self, uid: &str) -> (r: bool)
        ensures
            r == self.blocked().contains(uid@),
    {
        self.blocked.contains(uid)
    }

    /// The rate window of `uid`, if it has a limit.
    pub fn rate_window(&self, uid: &str) -> (r: Option<RateWindow>)
        ensures
            r == if self.limits().contains_key(uid@) {
                Some(self.limits()[uid@])
            } else {
                None::<RateWindow>
            },
    {
        match self.limits.get(uid) {
            Some(w) => Some(*w),
            None => None,
        }
    }
}

/// The outcomes of a run of send attempts to one uid at the times `ts`,
/// starting from the rate windows `limits`.
pub open spec fn gate_run(
    blocked: Set<Seq<char>>,
    limits: Map<Seq<char>, RateWindow>,
    uid: Seq<char>,
    ts: Seq<i64>,
) -> Seq<bool>
    decreases ts.len(),
{
    if ts.len() == 0 {
        Seq::empty()
    } else {
        let (ok, next) = gate_step(blocked, limits, uid, ts[0]);
        seq![ok].add(gate_run(blocked, next, uid, ts.drop_first()))
    }
}

/// Number of allowed attempts in a run.
pub open spec fn count_allowed(oks: Seq<bool>) -> nat
    decreases oks.len(),
{
    if oks.len() == 0 {
        0
    } else {
        (if oks[0] { 1nat } else { 0nat }) + count_allowed(oks.drop_first())
    }
}

/// A blocked uid is never allowed, and its rate window is left as it was.
pub proof fn lemma_blocked_never_allowed(
    blocked: Set<Seq<char>>,
    limits: Map<Seq<char>, RateWindow>,
    uid: Seq<char>,
    now: i64,
)
    requires
        blocked.contains(uid),
    ensures
        gate_step(blocked, limits, uid, now) == (false, limits),
{
}

/// A uid that is neither blocked nor limited is always allowed.
pub proof fn lemma_unlimited_always_allowed(
    blocked: Set<Seq<char>>,
    limits: Map<Seq<char>, RateWindow>,
    uid: Seq<char>,
    now: i64,
)
    requires
        !blocked.contains(uid),
        !limits.contains_key(uid),
    ensures
        gate_step(blocked, limits, uid, now) == (true, limits),
{
}

/// Once a second has passed since the window started, a limited, unblocked uid
/// is allowed again and a new window starts with one send counted.
pub proof fn lemma_window_resets(
    blocked: Set<Seq<char>>,
    limits: Map<Seq<char>, RateWindow>,
    uid: Seq<char>,
    now: i64,
)
    requires
        !blocked.contains(uid),
        limits.contains_key(uid),
        now - limits[uid].2 >= WINDOW_MS,
    ensures
        gate_step(blocked, limits, uid, now) == (true, limits.insert(uid, (limits[uid].0, 1usize, now))),
{
}

/// Within one window, a limited uid that has made `count` sends is allowed at
/// most `limit - count` more, however many attempts come in that second.
pub proof fn lemma_at_most_limit_per_window(
    blocked: Set<Seq<char>>,
    limits: Map<Seq<char>, RateWindow>,
    uid: Seq<char>,
    ts: Seq<i64>,
)
    requires
        limits.contains_key(uid),
        limits[uid].1 <= limits[uid].0,
        forall|i: int| 0 <= i < ts.len() ==> #[trigger] ts[i] - limits[uid].2 < WINDOW_MS,
    ensures
        count_allowed(gate_run(blocked, limits, uid, ts)) <= limits[uid].0 - limits[uid].1,
    decreases ts.len(),
{
    if ts.len() > 0 {
        let (ok, next) = gate_step(blocked, limits, uid, ts[0]);
        let rest = ts.drop_first();
        assert forall|i: int| 0 <= i < rest.len() implies #[trigger] rest[i] - next[uid].2 < WINDOW_MS by {
            assert(rest[i] == ts[i + 1]);
        }
        lemma_at_most_limit_per_window(blocked, next, uid, rest);
        let run = gate_run(blocked, limits, uid, ts);
        assert(run[0] == ok);
        assert(run.drop_first() == gate_run(blocked, next, uid, rest));
    }
}

} // verus!
