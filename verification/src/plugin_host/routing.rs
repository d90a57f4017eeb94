//! Which local plugins receive an event: by capability, by priority, by the
//! name a connecting plugin announces.
use vstd::prelude::*;

use crate::collections::lists_keys;
use crate::ordering::{sort_by_priority, stable_priority_order};
use crate::plugin_host::runtime::{PluginRuntimeManager, RuntimeView, StatusView};
use crate::text::{
    chars_of, chars_slice, chars_starts_with, concat_str, has_string, seq_contains_sub, seq_ends_with,
    seq_starts_with, str_contains, str_eq, string_from_chars, strings_view,
};

verus! {

/// The plugin has capability `cap`.
pub open spec fn has_cap(r: RuntimeView, cap: Seq<char>) -> bool {
    r.5.contains(cap)
}

/// The plugin's priority, as used to order plugins.
pub open spec fn prio_of(r: RuntimeView) -> i64 {
    r.6 as i64
}

/// A plugin named after storage that is not running yet.
pub open spec fn storage_not_ready(name: Seq<char>, r: RuntimeView) -> bool {
    seq_contains_sub(name, "storage"@) && !(r.3 is Running)
}

/// The characters of a list of strings.
pub open spec fn names_view(v: Seq<String>) -> Seq<Seq<char>> {
    v.map_values(|s: String| s@)
}

fn has_cap_of(m: &PluginRuntimeManager, name: &str, cap: &str) -> (r: bool)
    requires
        m.plugins().contains_key(name@),
    ensures
        r == has_cap(m.plugins()[name@], cap@),
{
    match m.get_runtime(name) {
        Some(rt) => has_string(&rt.capabilities, cap),
        None => false,
    }
}

impl PluginRuntimeManager {
    /// Each plugin with its capabilities, in no promised order.
    pub fn list_plugins(&self) -> (r: Vec<(String, Vec<String>)>)
        ensures
            exists|ks: Seq<Seq<char>>| #[trigger] lists_keys(ks, self.plugins().dom())
                && r@.map_values(|e: (String, Vec<String>)| (e.0@, strings_view(e.1@)))
                    == ks.map_values(|k: Seq<char>| (k, self.plugins()[k].5)),
    {
        let keys = self.names();
        let ghost ks = names_view(keys@);
        let mut r: Vec<(String, Vec<String>)> = Vec::new();
        let mut i: usize = 0;
        while i < keys.len()
            invariant
                i <= keys@.len(),
                ks == names_view(keys@),
                lists_keys(ks, self.plugins().dom()),
                r@.len() == i,
                forall|j: int| 0 <= j < i ==> (#[trigger] r@[j]).0@ == ks[j] && strings_view(r@[j].1@) == self.plugins()[ks[j]].5,
            decreases keys.len() - i,
        {
            assert(self.plugins().dom().contains(ks[i as int]));
            match self.get_runtime(keys[i].as_str()) {
                Some(rt) => {
                    r.push((keys[i].clone(), rt.capabilities()));
                },
                None => {},
            }
            i += 1;
        }
        assert(r@.map_values(|e: (String, Vec<String>)| (e.0@, strings_view(e.1@)))
            =~= ks.map_values(|k: Seq<char>| (k, self.plugins()[k].5)));
        r
    }

    /// The plugins that take message events, stably ordered by descending
    /// priority (from an order of the plugins that is not promised).
    pub fn message_event_targets(&self) -> (r: Vec<String>)
        ensures
            exists|ks: Seq<Seq<char>>| #[trigger] lists_keys(ks, self.plugins().dom())
                && names_view(r@) == sort_by_priority(ks, ks.map_values(|k: Seq<char>| prio_of(self.plugins()[k])))
                    .filter(|k: Seq<char>| has_cap(self.plugins()[k], "message"@)),
    {
        let keys = self.names();
        let ghost ks = names_view(keys@);
        let mut prios: Vec<i64> = Vec::new();
        let mut i: usize = 0;
        while i < keys.len()
            invariant
                i <= keys@.len(),
                ks == names_view(keys@),
                lists_keys(ks, self.plugins().dom()),
                prios@.len() == i,
                forall|j: int| 0 <= j < i ==> #[trigger] prios@[j] == prio_of(self.plugins()[ks[j]]),
            decreases keys.len() - i,
        {
            assert(self.plugins().dom().contains(ks[i as int]));
            let p: i64 = match self.get_runtime(keys[i].as_str()) {
                Some(rt) => rt.priority() as i64,
                None => 0,
            };
            prios.push(p);
            i += 1;
        }
        let ghost pv = ks.map_values(|k: Seq<char>| prio_of(self.plugins()[k]));
        assert(prios@ =~= pv);
        let order = stable_priority_order(&prios);
        let ghost sorted = sort_by_priority(ks, pv);
        let ghost pred = |k: Seq<char>| has_cap(self.plugins()[k], "message"@);
        let mut r: Vec<String> = Vec::new();
        let mut k: usize = 0;
        while k < order.len()
            invariant
                k <= order@.len(),
                order@.len() == keys@.len(),
                forall|j: int| 0 <= j < order@.len() ==> order@[j] < keys@.len(),
                order@.map_values(|x: usize| x as int) == crate::ordering::priority_order(pv, ks.len()),
                ks == names_view(keys@),
                lists_keys(ks, self.plugins().dom()),
                sorted == sort_by_priority(ks, pv),
                pred == (|k: Seq<char>| has_cap(self.plugins()[k], "message"@)),
                names_view(r@) == sorted.take(k as int).filter(pred),
            decreases order.len() - k,
        {
            let idx = order[k];
            proof {
                assert(sorted[k as int] == ks[idx as int]);
                assert(sorted.take(k + 1).drop_last() =~= sorted.take(k as int));
                assert(sorted.take(k + 1).last() == ks[idx as int]);
                assert(self.plugins().dom().contains(ks[idx as int]));
                reveal(Seq::filter);
            }
            if has_cap_of(self, keys[idx].as_str(), "message") {
                r.push(keys[idx].clone());
                assert(names_view(r@) =~= sorted.take(k as int).filter(pred).push(ks[idx as int]));
            } else {
                assert(names_view(r@) =~= sorted.take(k + 1).filter(pred));
            }
            k += 1;
        }
        assert(sorted.take(order@.len() as int) =~= sorted);
        r
    }

    /// The plugins to try, in order, for a storage event: those with the
    /// `storage` capability, except plugins named after storage that are not
    /// running (from an order of the plugins that is not promised).
    pub fn storage_candidates(&self) -> (r: Vec<String>)
        ensures
            exists|ks: Seq<Seq<char>>| #[trigger] lists_keys(ks, self.plugins().dom())
                && names_view(r@) == ks.filter(|k: Seq<char>| !storage_not_ready(k, self.plugins()[k]) && has_cap(self.plugins()[k], "storage"@)),
    {
        let keys = self.names();
        let ghost ks = names_view(keys@);
        let ghost pred = |k: Seq<char>| !storage_not_ready(k, self.plugins()[k]) && has_cap(self.plugins()[k], "storage"@);
        let mut r: Vec<String> = Vec::new();
        let mut i: usize = 0;
        while i < keys.len()
            invariant
                i <= keys@.len(),
                ks == names_view(keys@),
                lists_keys(ks, self.plugins().dom()),
                pred == (|k: Seq<char>| !storage_not_ready(k, self.plugins()[k]) && has_cap(self.plugins()[k], "storage"@)),
                names_view(r@) == ks.take(i as int).filter(pred),
            decreases keys.len() - i,
        {
            proof {
                assert(ks.take(i + 1).drop_last() =~= ks.take(i as int));
                assert(ks.take(i + 1).last() == ks[i as int]);
                assert(self.plugins().dom().contains(ks[i as int]));
                reveal(Seq::filter);
            }
            let name = keys[i].as_str();
            let running = match self.get_runtime(name) {
                Some(rt) => match rt.status {
                    crate::plugin_host::runtime::PluginStatus::Running => true,
                    _ => false,
                },
                None => false,
            };
            let skip = str_contains(name, "storage") && !running;
            if !skip && has_cap_of(self, name, "storage") {
                r.push(keys[i].clone());
                assert(names_view(r@) =~= ks.take(i as int).filter(pred).push(ks[i as int]));
            } else {
                assert(names_view(r@) =~= ks.take(i + 1).filter(pred));
            }
            i += 1;
        }
        assert(ks.take(keys@.len() as int) =~= ks);
        r
    }

    /// The first plugin with capability `cap` (from an order of the plugins
    /// that is not promised), if any.
    pub fn first_with_capability(&self, cap: &str) -> (r: Option<String>)
        ensures
            exists|ks: Seq<Seq<char>>| #[trigger] lists_keys(ks, self.plugins().dom())
                && ({
                    let f = ks.filter(|k: Seq<char>| has_cap(self.plugins()[k], cap@));
                    match r {
                        Some(n) => f.len() > 0 && n@ == f[0],
                        None => f.len() == 0,
                    }
                }),
    {
        let keys = self.names();
        let ghost ks = names_view(keys@);
        let ghost pred = |k: Seq<char>| has_cap(self.plugins()[k], cap@);
        let mut i: usize = 0;
        while i < keys.len()
            invariant
                i <= keys@.len(),
                ks == names_view(keys@),
                lists_keys(ks, self.plugins().dom()),
                pred == (|k: Seq<char>| has_cap(self.plugins()[k], cap@)),
                ks.take(i as int).filter(pred).len() == 0,
            decreases keys.len() - i,
        {
            proof {
                assert(ks.take(i + 1).drop_last() =~= ks.take(i as int));
                assert(ks.take(i + 1).last() == ks[i as int]);
                assert(self.plugins().dom().contains(ks[i as int]));
                reveal(Seq::filter);
            }
            if has_cap_of(self, keys[i].as_str(), cap) {
                proof {
                    lemma_filter_first(ks, pred, i as int);
                }
                return Some(keys[i].clone());
            }
            i += 1;
        }
        assert(ks.take(keys@.len() as int) =~= ks);
        None
    }
}

/// A broadcast from `from` reaches `c`: not the sender itself and, with a
/// capability filter, a plugin that has one of the capabilities (a connection
/// with no known plugin passes the filter).
pub open spec fn broadcast_reaches(
    plugins: Map<Seq<char>, RuntimeView>,
    from: Seq<char>,
    filter: Option<Seq<Seq<char>>>,
    c: Seq<char>,
) -> bool {
    &&& c != from
    &&& match filter {
        None => true,
        Some(caps) => !plugins.contains_key(c) || exists|j: int| 0 <= j < caps.len() && #[trigger] plugins[c].5.contains(caps[j]),
    }
}

/// The capability filter as plain values.
pub open spec fn filter_view(f: Option<Vec<String>>) -> Option<Seq<Seq<char>>> {
    match f {
        Some(v) => Some(strings_view(v@)),
        None => None,
    }
}

fn any_cap(caps: &Vec<String>, plugin_caps: &Vec<String>) -> (r: bool)
    ensures
        r == exists|j: int| 0 <= j < caps@.len() && #[trigger] strings_view(plugin_caps@).contains(strings_view(caps@)[j]),
{
    let mut i: usize = 0;
    while i < caps.len()
        invariant
            i <= caps@.len(),
            forall|j: int| 0 <= j < i ==> !#[trigger] strings_view(plugin_caps@).contains(strings_view(caps@)[j]),
        decreases caps.len() - i,
    {
        if has_string(plugin_caps, caps[i].as_str()) {
            assert(strings_view(plugin_caps@).contains(strings_view(caps@)[i as int]));
            return true;
        }
        i += 1;
    }
    false
}

impl PluginRuntimeManager {
    /// The connected plugins (in the order given) that a broadcast from
    /// `from` reaches under the optional capability filter.
    pub fn broadcast_targets(&self, connected: &Vec<String>, from: &str, filter: &Option<Vec<String>>) -> (r: Vec<String>)
        ensures
            names_view(r@) == names_view(connected@).filter(|c: Seq<char>| broadcast_reaches(self.plugins(), from@, filter_view(*filter), c)),
    {
        let ghost cv = names_view(connected@);
        let ghost pred = |c: Seq<char>| broadcast_reaches(self.plugins(), from@, filter_view(*filter), c);
        let mut r: Vec<String> = Vec::new();
        let mut i: usize = 0;
        while i < connected.len()
            invariant
                i <= connected@.len(),
                cv == names_view(connected@),
                pred == (|c: Seq<char>| broadcast_reaches(self.plugins(), from@, filter_view(*filter), c)),
                names_view(r@) == cv.take(i as int).filter(pred),
            decreases connected.len() - i,
        {
            proof {
                assert(cv.take(i + 1).drop_last() =~= cv.take(i as int));
                assert(cv.take(i + 1).last() == cv[i as int]);
                reveal(Seq::filter);
            }
            let c = connected[i].as_str();
            let mut ok = !str_eq(c, from);
            if ok {
                match filter {
                    Some(caps) => {
                        assert(filter_view(*filter) == Some(strings_view(caps@)));
                        match self.get_runtime(c) {
                            Some(rt) => {
                                ok = any_cap(caps, &rt.capabilities);
                                assert(self.plugins()[c@].5 == strings_view(rt.capabilities@));
                                assert(ok == pred(cv[i as int])) by {
                                    if ok {
                                        let j = choose|j: int| 0 <= j < caps@.len() && #[trigger] strings_view(rt.capabilities@).contains(strings_view(caps@)[j]);
                                        assert(self.plugins()[c@].5.contains(strings_view(caps@)[j]));
                                    }
                                    if pred(cv[i as int]) {
                                        let j = choose|j: int| 0 <= j < strings_view(caps@).len() && #[trigger] self.plugins()[c@].5.contains(strings_view(caps@)[j]);
                                        assert(strings_view(rt.capabilities@).contains(strings_view(caps@)[j]));
                                    }
                                }
                            },
                            None => {},
                        }
                    },
                    None => {},
                }
            }
            assert(ok == pred(cv[i as int]));
            if ok {
                r.push(connected[i].clone());
                assert(names_view(r@) =~= cv.take(i as int).filter(pred).push(cv[i as int]));
            } else {
                assert(names_view(r@) =~= cv.take(i + 1).filter(pred));
            }
            i += 1;
        }
        assert(cv.take(connected@.len() as int) =~= cv);
        r
    }
}

/// The name a plugin announces, without its `v.plugin.` prefix.
pub open spec fn short_name(name: Seq<char>) -> Seq<char> {
    if seq_starts_with(name, "v.plugin."@) { name.skip(9) } else { name }
}

/// The runtime key `c.0` (whose manifest gives plugin number `c.1`) belongs
/// to a plugin that announced `name`: by its plugin number, or by a key that
/// is the name, its short form, holds it or ends with it.
pub open spec fn key_matches(c: (Seq<char>, Option<Seq<char>>), name: Seq<char>) -> bool {
    ||| c.1 == Some(name)
    ||| c.0 == name
    ||| c.0 == short_name(name)
    ||| seq_contains_sub(c.0, short_name(name))
    ||| seq_ends_with(c.0, short_name(name))
}

/// The candidates as plain values.
pub open spec fn candidates_view(v: Seq<(String, Option<String>)>) -> Seq<(Seq<char>, Option<Seq<char>>)> {
    v.map_values(|c: (String, Option<String>)| (c.0@, crate::storage::opt_view(c.1)))
}

/// The first candidate key that belongs to `name`, from position `i` on.
pub open spec fn first_match(cands: Seq<(Seq<char>, Option<Seq<char>>)>, name: Seq<char>, i: int) -> Option<Seq<char>>
    decreases cands.len() - i,
{
    if i >= cands.len() || i < 0 {
        None
    } else if key_matches(cands[i], name) {
        Some(cands[i].0)
    } else {
        first_match(cands, name, i + 1)
    }
}

fn strip_plugin_prefix(name: &str) -> (r: String)
    ensures
        r@ == short_name(name@),
{
    let cs = chars_of(name);
    let prefix = chars_of("v.plugin.");
    proof {
        reveal_strlit("v.plugin.");
    }
    if chars_starts_with(&cs, &prefix) {
        let rest = chars_slice(&cs, 9, cs.len());
        assert(rest@ =~= name@.skip(9));
        string_from_chars(&rest)
    } else {
        name.to_string()
    }
}

fn ends_with_str(s: &str, p: &str) -> (r: bool)
    ensures
        r == seq_ends_with(s@, p@),
{
    let a = chars_of(s);
    let b = chars_of(p);
    crate::text::chars_ends_with(&a, &b)
}

/// The runtime key that a connecting plugin announcing `name` belongs to:
/// the first of `candidates` (each a key and the plugin number its manifest
/// gives) that matches, in the order given.
pub fn match_runtime_key(name: &str, candidates: &Vec<(String, Option<String>)>) -> (r: Option<String>)
    ensures
        crate::storage::opt_view(r) == first_match(candidates_view(candidates@), name@, 0),
{
    let short = strip_plugin_prefix(name);
    let ghost cv = candidates_view(candidates@);
    let mut i: usize = 0;
    while i < candidates.len()
        invariant
            i <= candidates@.len(),
            cv == candidates_view(candidates@),
            short@ == short_name(name@),
            first_match(cv, name@, 0) == first_match(cv, name@, i as int),
        decreases candidates.len() - i,
    {
        let key = candidates[i].0.as_str();
        let by_no = match &candidates[i].1 {
            Some(no) => str_eq(no.as_str(), name),
            None => false,
        };
        let hit = by_no || str_eq(key, name) || str_eq(key, short.as_str()) || str_contains(key, short.as_str())
            || ends_with_str(key, short.as_str());
        assert(hit == key_matches(cv[i as int], name@));
        if hit {
            return Some(candidates[i].0.clone());
        }
        i += 1;
    }
    None
}

/// A send error that means the plugin's connection is gone.
pub open spec fn connection_broken(msg: Seq<char>) -> bool {
    seq_contains_sub(msg, "Broken pipe"@) || seq_contains_sub(msg, "Connection reset"@)
}

/// Whether the error text `msg` says the plugin's connection is gone.
pub fn is_connection_broken(msg: &str) -> (r: bool)
    ensures
        r == connection_broken(msg@),
{
    str_contains(msg, "Broken pipe") || str_contains(msg, "Connection reset")
}

/// Whether the error text `msg` says the plugin is not connected.
pub fn is_not_found(msg: &str) -> (r: bool)
    ensures
        r == seq_contains_sub(msg@, "not found"@),
{
    str_contains(msg, "not found")
}

/// The error of a plugin-to-plugin request whose sender is not connected.
pub fn sender_not_connected(from: &str) -> (r: String)
    ensures
        r@ == "Sender plugin not connected: "@ + from@,
{
    concat_str("Sender plugin not connected: ", from)
}

/// The event type of a call of `method` on another plugin.
pub fn call_event_type(method: &str) -> (r: String)
    ensures
        r@ == "plugin.call."@ + method@,
{
    concat_str("plugin.call.", method)
}

/// When `s[i]` is the first element of `s` that passes `p`, it heads the
/// filtered sequence.
pub proof fn lemma_filter_first<A>(s: Seq<A>, p: spec_fn(A) -> bool, i: int)
    requires
        0 <= i < s.len(),
        s.take(i).filter(p).len() == 0,
        p(s[i]),
    ensures
        s.filter(p).len() > 0,
        s.filter(p)[0] == s[i],
    decreases s.len() - i,
{
    reveal(Seq::filter);
    lemma_filter_prefix(s, p, i + 1);
    assert(s.take(i + 1).drop_last() =~= s.take(i));
    assert(s.take(i + 1).filter(p) =~= seq![s[i]]);
}

/// Filtering a prefix gives a prefix of the filtered sequence.
pub proof fn lemma_filter_prefix<A>(s: Seq<A>, p: spec_fn(A) -> bool, n: int)
    requires
        0 <= n <= s.len(),
    ensures
        s.take(n).filter(p).len() <= s.filter(p).len(),
        forall|j: int| 0 <= j < s.take(n).filter(p).len() ==> #[trigger] s.filter(p)[j] == s.take(n).filter(p)[j],
    decreases s.len() - n,
{
    reveal(Seq::filter);
    if n < s.len() {
        lemma_filter_prefix(s, p, n + 1);
        assert(s.take(n + 1).drop_last() =~= s.take(n));
    } else {
        assert(s.take(n) =~= s);
    }
}

/// What a send to one plugin came back with.
pub enum SendOutcome {
    /// The plugin answered; `flow` is the reply's `flow` field when it is a
    /// string.
    Replied { flow: Option<String> },
    /// The plugin is not connected.
    NotConnected,
    /// The send failed with the error text `error`.
    Failed { error: String },
}

/// What a loop over plugins does after one step.
#[derive(Clone, Copy, Debug, PartialEq, Eq, Structural)]
pub enum LoopStep {
    /// Go on with the next plugin.
    Next,
    /// Forget this plugin's broken connection, then go on.
    DropAndNext,
    /// Stop the loop with what this step gave.
    Finish,
    /// Stop the loop with this step's error.
    Abort,
}

/// The reply's `flow` asks to stop the message.
pub open spec fn flow_is_stop(flow: Option<String>) -> bool {
    match flow {
        Some(f) => f@ == "stop"@,
        None => false,
    }
}

/// The step of a message broadcast to the plugins that take messages (each
/// reply is kept): a reply whose flow is `stop` ends it; a broken connection
/// is forgotten; anything else goes on.
pub open spec fn message_step_spec(o: SendOutcome) -> LoopStep {
    match o {
        SendOutcome::Replied { flow } => if flow_is_stop(flow) { LoopStep::Finish } else { LoopStep::Next },
        SendOutcome::NotConnected => LoopStep::Next,
        SendOutcome::Failed { error } => if connection_broken(error@) { LoopStep::DropAndNext } else { LoopStep::Next },
    }
}

/// The step of a storage event sent to the storage plugins in turn: the first
/// reply is the answer; a plugin that is not connected is skipped; a broken
/// connection is forgotten and the next plugin tried; any other error ends the
/// loop with that error.
pub open spec fn storage_step_spec(o: SendOutcome) -> LoopStep {
    match o {
        SendOutcome::Replied { .. } => LoopStep::Finish,
        SendOutcome::NotConnected => LoopStep::Next,
        SendOutcome::Failed { error } => if connection_broken(error@) { LoopStep::DropAndNext } else { LoopStep::Abort },
    }
}

/// The next step of a message broadcast after the outcome `o`.
pub fn message_step(o: &SendOutcome) -> (s: LoopStep)
    ensures
        s == message_step_spec(*o),
{
    match o {
        SendOutcome::Replied { flow } => match flow {
            Some(f) => if str_eq(f.as_str(), "stop") {
                LoopStep::Finish
            } else {
                LoopStep::Next
            },
            None => LoopStep::Next,
        },
        SendOutcome::NotConnected => LoopStep::Next,
        SendOutcome::Failed { error } => if is_connection_broken(error.as_str()) {
            LoopStep::DropAndNext
        } else {
            LoopStep::Next
        },
    }
}

/// The next step of a storage event after the outcome `o`.
pub fn storage_step(o: &SendOutcome) -> (s: LoopStep)
    ensures
        s == storage_step_spec(*o),
{
    match o {
        SendOutcome::Replied { .. } => LoopStep::Finish,
        SendOutcome::NotConnected => LoopStep::Next,
        SendOutcome::Failed { error } => if is_connection_broken(error.as_str()) {
            LoopStep::DropAndNext
        } else {
            LoopStep::Abort
        },
    }
}

/// What a plugin's handshake announced, with the defaults for what it left
/// out: the name `unknown` and priority 0; a priority is kept to its low 32
/// bits, as a cast to `i32` does.
pub fn handshake_fields(name: Option<&str>, priority: Option<i64>) -> (r: (String, i32))
    ensures
        r.0@ == match name {
            Some(n) => n@,
            None => "unknown"@,
        },
        r.1 == match priority {
            Some(p) => p as i32,
            None => 0i32,
        },
{
    let n = match name {
        Some(n) => n.to_string(),
        None => "unknown".to_string(),
    };
    let p = match priority {
        Some(p) => p as i32,
        None => 0,
    };
    (n, p)
}

} // verus!
