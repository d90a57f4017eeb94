//! Plugin event bus: event patterns, the subscription table, the choice of
//! subscribers for a published event, and the event history.
use vstd::prelude::*;

use crate::clock::wall_clock_millis;
use crate::ordering::{insert_by_priority, lemma_insert_split, priority_order, sort_by_priority, stable_priority_order};
use crate::text::{chars_eq, chars_ends_with, chars_has, chars_of, chars_slice, chars_starts_with,
    seq_ends_with, seq_starts_with, str_eq, strings_view};
use crate::plugin_host::routing::SendOutcome;

verus! {

/// Whether the event type `e` matches the pattern `p`: `*` matches every
/// event, a pattern matches itself, and `prefix.*` matches `prefix.name`
/// where `name` holds no further `.`.
pub open spec fn pattern_matches(e: Seq<char>, p: Seq<char>) -> bool {
    ||| p == seq!['*']
    ||| p == e
    ||| {
        &&& seq_ends_with(p, seq!['.', '*'])
        &&& {
            let prefix = p.take(p.len() - 2);
            &&& seq_starts_with(e, prefix)
            &&& e.len() > prefix.len()
            &&& e[prefix.len() as int] == '.'
            &&& !e.skip(prefix.len() + 1int).contains('.')
        }
    }
}

/// Whether the event type `event_type` matches the subscription pattern `pattern`.
pub fn matches_pattern(event_type: &str, pattern: &str) -> (r: bool)
    ensures
        r == pattern_matches(event_type@, pattern@),
{
    let e = chars_of(event_type);
    let p = chars_of(pattern);
    if p.len() == 1 && p[0] == '*' {
        assert(p@ =~= seq!['*']);
        return true;
    }
    if chars_eq(&p, &e) {
        return true;
    }
    let mut wild: Vec<char> = Vec::new();
    wild.push('.');
    wild.push('*');
    assert(wild@ =~= seq!['.', '*']);
    if chars_ends_with(&p, &wild) {
        let prefix = chars_slice(&p, 0, p.len() - 2);
        assert(prefix@ =~= p@.take(p@.len() - 2));
        if chars_starts_with(&e, &prefix) && e.len() > prefix.len() {
            if e[prefix.len()] != '.' {
                return false;
            }
            let rest = chars_slice(&e, prefix.len() + 1, e.len());
            assert(rest@ =~= e@.skip(prefix@.len() + 1int));
            return !chars_has(&rest, '.');
        }
    }
    proof {
        if p@ == seq!['*'] {
            assert(p@.len() == 1 && p@[0] == '*');
        }
    }
    false
}

/// A subscription: who subscribed, to which pattern, at which priority.
pub struct EventSubscription {
    pub subscriber: String,
    pub event_pattern: String,
    pub priority: i32,
}

/// A subscription as plain values: `(subscriber, pattern, priority)`.
pub type SubscriptionView = (Seq<char>, Seq<char>, i32);

impl View for EventSubscription {
    type V = SubscriptionView;

    open spec fn view(&self) -> SubscriptionView {
        (self.subscriber@, self.event_pattern@, self.priority)
    }
}

impl EventSubscription {
    /// A copy of this subscription.
    pub fn duplicate(&self) -> (r: Self)
        ensures
            r@ == self@,
    {
        EventSubscription {
            subscriber: self.subscriber.clone(),
            event_pattern: self.event_pattern.clone(),
            priority: self.priority,
        }
    }
}

/// The priorities of a list of subscriptions.
pub open spec fn sub_priorities(l: Seq<SubscriptionView>) -> Seq<i64> {
    l.map_values(|s: SubscriptionView| s.2 as i64)
}

/// A list of subscriptions stably ordered by descending priority.
pub open spec fn by_priority(l: Seq<SubscriptionView>) -> Seq<SubscriptionView> {
    sort_by_priority(l, sub_priorities(l))
}

/// `l` without the subscriptions of `name`, in order.
pub open spec fn without_subscriber(l: Seq<SubscriptionView>, name: Seq<char>) -> Seq<
    SubscriptionView,
>
    decreases l.len(),
{
    if l.len() == 0 {
        l
    } else {
        let r = without_subscriber(l.drop_last(), name);
        if l.last().0 == name {
            r
        } else {
            r.push(l.last())
        }
    }
}

/// The subscription table as plain values: each pattern with its
/// subscriptions, patterns in the order they were first subscribed.
pub type TableView = Seq<(Seq<char>, Seq<SubscriptionView>)>;

/// Index of the pattern `p` in the table, or the table's length if absent.
pub open spec fn pattern_index(t: TableView, p: Seq<char>) -> int
    decreases t.len(),
{
    if t.len() == 0 {
        0
    } else if t[0].0 == p {
        0
    } else {
        1 + pattern_index(t.drop_first(), p)
    }
}

/// The table after `x` subscribes to its pattern: the pattern's list gets `x`
/// appended and is then stably ordered by descending priority; a new pattern
/// is added at the end.
pub open spec fn table_subscribe(t: TableView, x: SubscriptionView) -> TableView {
    let i = pattern_index(t, x.1);
    if i < t.len() {
        t.update(i, (t[i].0, by_priority(t[i].1.push(x))))
    } else {
        t.push((x.1, seq![x]))
    }
}

/// The table after `name` unsubscribes from pattern `p`: that pattern's list
/// loses every subscription of `name`, in order; nothing else changes.
pub open spec fn table_unsubscribe(t: TableView, name: Seq<char>, p: Seq<char>) -> TableView {
    let i = pattern_index(t, p);
    if i < t.len() {
        t.update(i, (t[i].0, without_subscriber(t[i].1, name)))
    } else {
        t
    }
}

/// The subscribers chosen for an event of type `e` published by `publisher`,
/// before ordering: for each matching pattern in table order, its
/// subscriptions, except the publisher's own unless it subscribed to exactly `e`.
pub open spec fn matching_subscriptions(t: TableView, e: Seq<char>, publisher: Seq<char>) -> Seq<
    SubscriptionView,
>
    decreases t.len(),
{
    if t.len() == 0 {
        Seq::empty()
    } else {
        let before = matching_subscriptions(t.drop_last(), e, publisher);
        let (p, l) = t.last();
        if pattern_matches(e, p) {
            before + (if p != e {
                without_subscriber(l, publisher)
            } else {
                l
            })
        } else {
            before
        }
    }
}

/// The patterns, in table order, to which `name` holds a subscription.
pub open spec fn patterns_of(t: TableView, name: Seq<char>) -> Seq<Seq<char>>
    decreases t.len(),
{
    if t.len() == 0 {
        Seq::empty()
    } else {
        let before = patterns_of(t.drop_last(), name);
        if exists|j: int| 0 <= j < t.last().1.len() && #[trigger] t.last().1[j].0 == name {
            before.push(t.last().0)
        } else {
            before
        }
    }
}

/// The subscription table of the event bus.
pub struct SubscriptionTable {
    patterns: Vec<(String, Vec<EventSubscription>)>,
}

/// A table's entries as plain values.
pub open spec fn table_view(e: Seq<(String, Vec<EventSubscription>)>) -> TableView {
    e.map_values(|x: (String, Vec<EventSubscription>)| (x.0@, x.1@.map_values(|s: EventSubscription| s@)))
}

/// A list of subscriptions as plain values.
pub open spec fn subs_view(l: Seq<EventSubscription>) -> Seq<SubscriptionView> {
    l.map_values(|s: EventSubscription| s@)
}

/// Copies of the subscriptions at the given positions, in that order.
fn pick(l: &Vec<EventSubscription>, order: &Vec<usize>) -> (r: Vec<EventSubscription>)
    requires
        forall|j: int| 0 <= j < order@.len() ==> order@[j] < l@.len(),
    ensures
        subs_view(r@) == order@.map_values(|i: usize| l@[i as int]@),
{
    let mut r: Vec<EventSubscription> = Vec::new();
    let mut k: usize = 0;
    while k < order.len()
        invariant
            k <= order@.len(),
            forall|j: int| 0 <= j < order@.len() ==> order@[j] < l@.len(),
            r@.len() == k,
            forall|j: int| 0 <= j < k ==> #[trigger] r@[j]@ == l@[order@[j] as int]@,
        decreases order.len() - k,
    {
        r.push(l[order[k]].duplicate());
        k += 1;
    }
    assert(subs_view(r@) =~= order@.map_values(|i: usize| l@[i as int]@));
    r
}

/// `l` stably ordered by descending priority.
fn sorted_by_priority(l: &Vec<EventSubscription>) -> (r: Vec<EventSubscription>)
    ensures
        subs_view(r@) == by_priority(subs_view(l@)),
{
    let mut prios: Vec<i64> = Vec::new();
    let mut k: usize = 0;
    while k < l.len()
        invariant
            k <= l@.len(),
            prios@ == sub_priorities(subs_view(l@)).take(k as int),
        decreases l.len() - k,
    {
        prios.push(l[k].priority as i64);
        assert(sub_priorities(subs_view(l@)).take(k + 1) =~= sub_priorities(subs_view(l@)).take(
            k as int,
        ).push(l@[k as int].priority as i64));
        k += 1;
    }
    assert(prios@ =~= sub_priorities(subs_view(l@)));
    let order = stable_priority_order(&prios);
    let r = pick(l, &order);
    proof {
        let ord = priority_order(prios@, prios@.len());
        assert(order@.map_values(|i: usize| l@[i as int]@) =~= ord.map_values(
            |i: int| subs_view(l@)[i],
        )) by {
            assert forall|j: int| #![trigger order@[j]] 0 <= j < order@.len() implies order@.map_values(
                |i: usize| l@[i as int]@,
            )[j] == ord.map_values(|i: int| subs_view(l@)[i])[j] by {
                assert(ord[j] == order@[j] as int);
            }
        }
    }
    r
}

/// `l` without the subscriptions of `name`.
fn filter_out(l: &Vec<EventSubscription>, name: &str) -> (r: Vec<EventSubscription>)
    ensures
        subs_view(r@) == without_subscriber(subs_view(l@), name@),
{
    let mut r: Vec<EventSubscription> = Vec::new();
    let mut k: usize = 0;
    while k < l.len()
        invariant
            k <= l@.len(),
            subs_view(r@) == without_subscriber(subs_view(l@).take(k as int), name@),
        decreases l.len() - k,
    {
        let ghost prefix = subs_view(l@).take(k + 1);
        assert(prefix.drop_last() =~= subs_view(l@).take(k as int));
        if !str_eq(l[k].subscriber.as_str(), name) {
            r.push(l[k].duplicate());
            assert(subs_view(r@) =~= without_subscriber(subs_view(l@).take(k as int), name@).push(
                l@[k as int]@,
            ));
        }
        k += 1;
    }
    assert(subs_view(l@).take(l@.len() as int) =~= subs_view(l@));
    r
}

impl SubscriptionTable {
    #[verifier::type_invariant]
    spec fn inv(self) -> bool {
        forall|i: int, j: int|
            0 <= i < j < self.patterns@.len() ==> #[trigger] self.patterns@[i].0@
                != #[trigger] self.patterns@[j].0@
    }

    /// The table as plain values.
    pub closed spec fn view(&self) -> TableView {
        table_view(self.patterns@)
    }

    /// An empty table.
    pub fn new() -> (t: Self)
        ensures
            t@ == Seq::<(Seq<char>, Seq<SubscriptionView>)>::empty(),
    {
        let t = SubscriptionTable { patterns: Vec::new() };
        assert(t@ =~= Seq::<(Seq<char>, Seq<SubscriptionView>)>::empty());
        t
    }

    fn find(&self, pattern: &str) -> (r: usize)
        ensures
            r as int == pattern_index(self@, pattern@),
            r <= self@.len(),
    {
        proof {
            use_type_invariant(self);
        }
        let mut i: usize = 0;
        while i < self.patterns.len()
            invariant
                i <= self.patterns@.len(),
                forall|j: int| 0 <= j < i ==> self.patterns@[j].0@ != pattern@,
            decreases self.patterns.len() - i,
        {
            if str_eq(self.patterns[i].0.as_str(), pattern) {
                proof {
                    lemma_pattern_index_at(self@, pattern@, i as int);
                }
                return i;
            }
            i += 1;
        }
        proof {
            lemma_pattern_index_absent(self@, pattern@);
        }
        i
    }

    /// Subscribes `subscriber` to `event_pattern` at `priority`.
    pub fn subscribe(&mut self, subscriber: &str, event_pattern: &str, priority: i32)
        ensures
            final(self)@ == table_subscribe(
                old(self)@,
                (subscriber@, event_pattern@, priority),
            ),
    {
        proof {
            use_type_invariant(&*self);
        }
        let sub = EventSubscription {
            subscriber: subscriber.to_string(),
            event_pattern: event_pattern.to_string(),
            priority,
        };
        let i = self.find(event_pattern);
        let ghost old_t = self@;
        let mut patterns: Vec<(String, Vec<EventSubscription>)> = Vec::new();
        std::mem::swap(&mut patterns, &mut self.patterns);
        let ghost old_p = patterns@;
        if i < patterns.len() {
            let (p, mut l) = patterns.remove(i);
            l.push(sub);
            let sorted = sorted_by_priority(&l);
            patterns.insert(i, (p, sorted));
            proof {
                assert(subs_view(l@) =~= old_t[i as int].1.push(sub@));
                assert forall|a: int, b: int|
                    0 <= a < b < patterns@.len() implies #[trigger] patterns@[a].0@
                        != #[trigger] patterns@[b].0@ by {
                    assert(old_p[a].0@ != old_p[b].0@);
                }
                assert(table_view(patterns@) =~= table_subscribe(
                    old_t,
                    (subscriber@, event_pattern@, priority),
                ));
            }
        } else {
            let mut l: Vec<EventSubscription> = Vec::new();
            l.push(sub);
            patterns.push((event_pattern.to_string(), l));
            proof {
                assert(subs_view(l@) =~= seq![sub@]);
                assert forall|a: int, b: int|
                    0 <= a < b < patterns@.len() implies #[trigger] patterns@[a].0@
                        != #[trigger] patterns@[b].0@ by {
                    if b == patterns@.len() - 1 {
                        lemma_pattern_index_absent_all(old_t, event_pattern@, a);
                    }
                }
                assert(table_view(patterns@) =~= table_subscribe(
                    old_t,
                    (subscriber@, event_pattern@, priority),
                ));
            }
        }
        self.patterns = patterns;
    }

    /// Removes the subscriptions of `subscriber` to `event_pattern`.
    pub fn unsubscribe(&mut self, subscriber: &str, event_pattern: &str)
        ensures
            final(self)@ == table_unsubscribe(old(self)@, subscriber@, event_pattern@),
    {
        proof {
            use_type_invariant(&*self);
        }
        let i = self.find(event_pattern);
        let ghost old_t = self@;
        if i < self.patterns.len() {
            let mut patterns: Vec<(String, Vec<EventSubscription>)> = Vec::new();
            std::mem::swap(&mut patterns, &mut self.patterns);
            let ghost old_p = patterns@;
            let (p, l) = patterns.remove(i);
            let kept = filter_out(&l, subscriber);
            patterns.insert(i, (p, kept));
            proof {
                assert forall|a: int, b: int|
                    0 <= a < b < patterns@.len() implies #[trigger] patterns@[a].0@
                        != #[trigger] patterns@[b].0@ by {
                    assert(old_p[a].0@ != old_p[b].0@);
                }
                assert(table_view(patterns@) =~= old_t.update(
                    i as int,
                    (old_t[i as int].0, without_subscriber(old_t[i as int].1, subscriber@)),
                ));
            }
            self.patterns = patterns;
        }
    }

    /// Removes every subscription of `plugin_name`.
    pub fn clear_plugin_subscriptions(&mut self, plugin_name: &str)
        ensures
            final(self)@.len() == old(self)@.len(),
            forall|i: int|
                0 <= i < old(self)@.len() ==> #[trigger] final(self)@[i] == (
                    old(self)@[i].0,
                    without_subscriber(old(self)@[i].1, plugin_name@),
                ),
    {
        proof {
            use_type_invariant(&*self);
        }
        let ghost old_t = self@;
        let mut patterns: Vec<(String, Vec<EventSubscription>)> = Vec::new();
        std::mem::swap(&mut patterns, &mut self.patterns);
        let ghost old_p = patterns@;
        let mut k: usize = 0;
        while k < patterns.len()
            invariant
                k <= patterns@.len(),
                patterns@.len() == old_p.len(),
                old_t == table_view(old_p),
                forall|a: int| 0 <= a < patterns@.len() ==> #[trigger] patterns@[a].0 == old_p[a].0,
                forall|a: int|
                    0 <= a < k ==> subs_view(#[trigger] patterns@[a].1@) == without_subscriber(
                        old_t[a].1,
                        plugin_name@,
                    ),
                forall|a: int| k <= a < patterns@.len() ==> #[trigger] patterns@[a] == old_p[a],
            decreases patterns.len() - k,
        {
            let (p, l) = patterns.remove(k);
            let kept = filter_out(&l, plugin_name);
            patterns.insert(k, (p, kept));
            k += 1;
        }
        proof {
            assert forall|i: int| 0 <= i < old_t.len() implies #[trigger] table_view(patterns@)[i] == (
                old_t[i].0,
                without_subscriber(old_t[i].1, plugin_name@),
            ) by {}
        }
        self.patterns = patterns;
    }

    /// The subscribers of exactly `event_pattern`, in list order.
    pub fn get_subscribers(&self, event_pattern: &str) -> (r: Vec<String>)
        ensures
            ({
                let t = self@;
                let i = pattern_index(t, event_pattern@);
                r@.map_values(|s: String| s@) == if i < t.len() {
                    t[i].1.map_values(|s: SubscriptionView| s.0)
                } else {
                    Seq::empty()
                }
            }),
    {
        let i = self.find(event_pattern);
        let mut r: Vec<String> = Vec::new();
        if i < self.patterns.len() {
            let l = &self.patterns[i].1;
            let mut k: usize = 0;
            while k < l.len()
                invariant
                    k <= l@.len(),
                    r@.len() == k,
                    forall|j: int| 0 <= j < k ==> #[trigger] r@[j]@ == l@[j].subscriber@,
                decreases l.len() - k,
            {
                r.push(l[k].subscriber.clone());
                k += 1;
            }
            assert(r@.map_values(|s: String| s@) =~= subs_view(l@).map_values(
                |s: SubscriptionView| s.0,
            ));
        } else {
            assert(r@.map_values(|s: String| s@) =~= Seq::<Seq<char>>::empty());
        }
        r
    }

    /// The patterns, in table order, to which `plugin_name` holds a subscription.
    pub fn get_subscriptions(&self, plugin_name: &str) -> (r: Vec<String>)
        ensures
            r@.map_values(|s: String| s@) == patterns_of(self@, plugin_name@),
    {
        let mut r: Vec<String> = Vec::new();
        let mut k: usize = 0;
        while k < self.patterns.len()
            invariant
                k <= self.patterns@.len(),
                r@.map_values(|s: String| s@) == patterns_of(self@.take(k as int), plugin_name@),
            decreases self.patterns.len() - k,
        {
            let l = &self.patterns[k].1;
            let mut found = false;
            let mut j: usize = 0;
            while j < l.len()
                invariant
                    j <= l@.len(),
                    found == exists|a: int| 0 <= a < j && #[trigger] l@[a].subscriber@ == plugin_name@,
                decreases l.len() - j,
            {
                if str_eq(l[j].subscriber.as_str(), plugin_name) {
                    found = true;
                }
                j += 1;
            }
            proof {
                let t = self@.take(k + 1);
                assert(t.drop_last() =~= self@.take(k as int));
                assert(t.last() == self@[k as int]);
                assert(found == exists|a: int| 0 <= a < t.last().1.len() && #[trigger] t.last().1[a].0
                    == plugin_name@) by {
                    if found {
                        let a = choose|a: int| 0 <= a < j && #[trigger] l@[a].subscriber@ == plugin_name@;
                        assert(t.last().1[a].0 == plugin_name@);
                    }
                    if exists|a: int| 0 <= a < t.last().1.len() && #[trigger] t.last().1[a].0 == plugin_name@ {
                        let a = choose|a: int| 0 <= a < t.last().1.len() && #[trigger] t.last().1[a].0 == plugin_name@;
                        assert(l@[a].subscriber@ == plugin_name@);
                    }
                }
            }
            if found {
                r.push(self.patterns[k].0.clone());
                assert(r@.map_values(|s: String| s@) =~= patterns_of(self@.take(k as int), plugin_name@).push(
                    self@[k as int].0,
                ));
            }
            k += 1;
        }
        assert(self@.take(self@.len() as int) =~= self@);
        r
    }

    /// The subscriptions that receive an event of type `event_type` published
    /// by `publisher`, stably ordered by descending priority.
    pub fn publish_targets(&self, publisher: &str, event_type: &str) -> (r: Vec<EventSubscription>)
        ensures
            subs_view(r@) == by_priority(matching_subscriptions(self@, event_type@, publisher@)),
    {
        let mut all: Vec<EventSubscription> = Vec::new();
        let mut k: usize = 0;
        while k < self.patterns.len()
            invariant
                k <= self.patterns@.len(),
                subs_view(all@) == matching_subscriptions(self@.take(k as int), event_type@, publisher@),
            decreases self.patterns.len() - k,
        {
            let p = &self.patterns[k].0;
            let l = &self.patterns[k].1;
            proof {
                let t = self@.take(k + 1);
                assert(t.drop_last() =~= self@.take(k as int));
                assert(t.last() == self@[k as int]);
            }
            if matches_pattern(event_type, p.as_str()) {
                let chosen = if !str_eq(p.as_str(), event_type) {
                    filter_out(l, publisher)
                } else {
                    pick(l, &identity_order(l.len()))
                };
                let mut j: usize = 0;
                let ghost base = all@;
                while j < chosen.len()
                    invariant
                        j <= chosen@.len(),
                        all@.len() == base.len() + j,
                        forall|a: int| 0 <= a < base.len() ==> #[trigger] all@[a] == base[a],
                        forall|a: int|
                            0 <= a < j ==> #[trigger] all@[base.len() + a]@ == chosen@[a]@,
                    decreases chosen.len() - j,
                {
                    all.push(chosen[j].duplicate());
                    j += 1;
                }
                assert(subs_view(all@) =~= subs_view(base) + subs_view(chosen@)) by {
                    assert forall|a: int| 0 <= a < all@.len() implies #[trigger] subs_view(all@)[a]
                        == (subs_view(base) + subs_view(chosen@))[a] by {
                        if a >= base.len() {
                            assert(all@[base.len() + (a - base.len())]@ == chosen@[a - base.len()]@);
                        }
                    }
                }
                proof {
                    if str_eq_spec(p@, event_type@) {
                        assert(subs_view(chosen@) =~= subs_view(l@));
                    }
                }
            }
            k += 1;
        }
        assert(self@.take(self@.len() as int) =~= self@);
        sorted_by_priority(&all)
    }
}

/// Spec equality of two character sequences (named for readability in proofs).
spec fn str_eq_spec(a: Seq<char>, b: Seq<char>) -> bool {
    a == b
}

/// The positions `0..n` in order.
fn identity_order(n: usize) -> (r: Vec<usize>)
    ensures
        r@.len() == n,
        forall|j: int| 0 <= j < n ==> r@[j] == j,
{
    let mut r: Vec<usize> = Vec::new();
    let mut k: usize = 0;
    while k < n
        invariant
            k <= n,
            r@.len() == k,
            forall|j: int| 0 <= j < k ==> r@[j] == j,
        decreases n - k,
    {
        r.push(k);
        k += 1;
    }
    r
}

proof fn lemma_pattern_index_at(t: TableView, p: Seq<char>, i: int)
    requires
        0 <= i < t.len(),
        t[i].0 == p,
        forall|j: int| 0 <= j < i ==> t[j].0 != p,
    ensures
        pattern_index(t, p) == i,
    decreases i,
{
    if i > 0 {
        let rest = t.drop_first();
        assert forall|j: int| 0 <= j < i - 1 implies rest[j].0 != p by {
            assert(rest[j] == t[j + 1]);
        }
        lemma_pattern_index_at(rest, p, i - 1);
    }
}

proof fn lemma_pattern_index_absent(t: TableView, p: Seq<char>)
    requires
        forall|j: int| 0 <= j < t.len() ==> t[j].0 != p,
    ensures
        pattern_index(t, p) == t.len(),
    decreases t.len(),
{
    if t.len() > 0 {
        let rest = t.drop_first();
        assert forall|j: int| 0 <= j < rest.len() implies rest[j].0 != p by {
            assert(rest[j] == t[j + 1]);
        }
        lemma_pattern_index_absent(rest, p);
    }
}

proof fn lemma_pattern_index_absent_all(t: TableView, p: Seq<char>, a: int)
    requires
        pattern_index(t, p) >= t.len(),
        0 <= a < t.len(),
    ensures
        t[a].0 != p,
    decreases t.len(),
{
    if t[0].0 != p && a > 0 {
        lemma_pattern_index_absent_all(t.drop_first(), p, a - 1);
    }
}

/// A record of one published event.
pub struct EventRecord {
    pub event_type: String,
    pub publisher: String,
    pub subscribers: Vec<String>,
    pub timestamp: i64,
}

/// An event record as plain values.
pub type EventRecordView = (Seq<char>, Seq<char>, Seq<Seq<char>>, i64);

impl View for EventRecord {
    type V = EventRecordView;

    open spec fn view(&self) -> EventRecordView {
        (
            self.event_type@,
            self.publisher@,
            self.subscribers@.map_values(|s: String| s@),
            self.timestamp,
        )
    }
}

impl EventRecord {
    /// A copy of this record.
    pub fn duplicate(&self) -> (r: Self)
        ensures
            r@ == self@,
    {
        let mut subs: Vec<String> = Vec::new();
        let mut k: usize = 0;
        while k < self.subscribers.len()
            invariant
                k <= self.subscribers@.len(),
                subs@.len() == k,
                forall|j: int| 0 <= j < k ==> #[trigger] subs@[j] == self.subscribers@[j],
            decreases self.subscribers.len() - k,
        {
            subs.push(self.subscribers[k].clone());
            k += 1;
        }
        assert(subs@ =~= self.subscribers@);
        EventRecord {
            event_type: self.event_type.clone(),
            publisher: self.publisher.clone(),
            subscribers: subs,
            timestamp: self.timestamp,
        }
    }
}

/// The plain-value record of an event of type `e` published by `p` to `subs` at `t`.
pub open spec fn history_entry(e: Seq<char>, p: Seq<char>, subs: Seq<String>, t: i64) -> EventRecordView {
    (e, p, subs.map_values(|s: String| s@), t)
}

/// The event history of the bus, kept only while enabled.
pub struct EventHistory {
    enabled: bool,
    records: Vec<EventRecord>,
}

impl EventHistory {
    /// Recording is on.
    pub closed spec fn is_enabled(&self) -> bool {
        self.enabled
    }

    /// The recorded events, oldest first.
    pub closed spec fn records(&self) -> Seq<EventRecordView> {
        self.records@.map_values(|r: EventRecord| r@)
    }

    /// An empty history that records nothing until enabled.
    pub fn new() -> (h: Self)
        ensures
            !h.is_enabled(),
            h.records() == Seq::<EventRecordView>::empty(),
    {
        let h = EventHistory { enabled: false, records: Vec::new() };
        assert(h.records() =~= Seq::<EventRecordView>::empty());
        h
    }

    /// Turns recording on or off.
    pub fn enable_history(&mut self, enable: bool)
        ensures
            final(self).is_enabled() == enable,
            final(self).records() == old(self).records(),
    {
        self.enabled = enable;
    }

    /// Records a published event at time `timestamp` when recording is on.
    pub fn record_at(
        &mut self,
        event_type: &str,
        publisher: &str,
        subscribers: Vec<String>,
        timestamp: i64,
    )
        ensures
            final(self).is_enabled() == old(self).is_enabled(),
            final(self).records() == if old(self).is_enabled() {
                old(self).records().push(
                    (event_type@, publisher@, subscribers@.map_values(|s: String| s@), timestamp),
                )
            } else {
                old(self).records()
            },
    {
        if self.enabled {
            let rec = EventRecord {
                event_type: event_type.to_string(),
                publisher: publisher.to_string(),
                subscribers,
                timestamp,
            };
            self.records.push(rec);
            assert(self.records() =~= old(self).records().push(
                (event_type@, publisher@, subscribers@.map_values(|s: String| s@), timestamp),
            ));
        }
    }

    /// Records a published event now (by the wall clock) when recording is on.
    pub fn record(&mut self, event_type: &str, publisher: &str, subscribers: Vec<String>)
        ensures
            final(self).is_enabled() == old(self).is_enabled(),
            !old(self).is_enabled() ==> final(self).records() == old(self).records(),
            old(self).is_enabled() ==> exists|t: i64|
                final(self).records() == old(self).records().push(
                    #[trigger] history_entry(event_type@, publisher@, subscribers@, t),
                ),
    {
        let ghost subs = subscribers@;
        let now = wall_clock_millis();
        self.record_at(event_type, publisher, subscribers, now);
        assert(old(self).is_enabled() ==> self.records() == old(self).records().push(
            history_entry(event_type@, publisher@, subs, now),
        ));
    }

    /// The last `limit` recorded events (all of them if fewer), oldest first.
    pub fn get_event_history(&self, limit: usize) -> (r: Vec<EventRecord>)
        ensures
            r@.map_values(|x: EventRecord| x@) == if self.records().len() > limit {
                self.records().skip(self.records().len() - limit)
            } else {
                self.records()
            },
    {
        let n = self.records.len();
        let start = if n > limit { n - limit } else { 0 };
        let mut r: Vec<EventRecord> = Vec::new();
        let mut k = start;
        while k < n
            invariant
                start <= k <= n,
                n == self.records@.len(),
                r@.map_values(|x: EventRecord| x@) == self.records().subrange(start as int, k as int),
            decreases n - k,
        {
            r.push(self.records[k].duplicate());
            assert(self.records().subrange(start as int, k + 1) == self.records().subrange(
                start as int,
                k as int,
            ).push(self.records@[k as int]@));
            assert(r@.map_values(|x: EventRecord| x@) =~= self.records().subrange(start as int, k + 1));
            k += 1;
        }
        assert(self.records().subrange(start as int, n as int) =~= if self.records().len() > limit {
            self.records().skip(self.records().len() - limit)
        } else {
            self.records()
        });
        r
    }

    /// Forgets every recorded event.
    pub fn clear_event_history(&mut self)
        ensures
            final(self).is_enabled() == old(self).is_enabled(),
            final(self).records() == Seq::<EventRecordView>::empty(),
    {
        self.records.clear();
        assert(self.records() =~= Seq::<EventRecordView>::empty());
    }
}

} // verus!

verus! {

/// The pattern `*` matches every event type.
pub proof fn lemma_star_matches_everything(e: Seq<char>)
    ensures
        pattern_matches(e, seq!['*']),
{
}

/// Every event type matches itself as a pattern.
pub proof fn lemma_pattern_matches_itself(e: Seq<char>)
    ensures
        pattern_matches(e, e),
{
}

/// `prefix.*` matches `prefix.name` when `name` holds no `.`, and does not
/// match `prefix.rest` when `rest` holds a `.`.
pub proof fn lemma_wildcard_one_level(prefix: Seq<char>, rest: Seq<char>)
    ensures
        !rest.contains('.') ==> pattern_matches(prefix + seq!['.'] + rest, prefix + seq!['.', '*']),
        rest.contains('.') ==> !pattern_matches(prefix + seq!['.'] + rest, prefix + seq!['.', '*']),
{
    let e = prefix + seq!['.'] + rest;
    let p = prefix + seq!['.', '*'];
    assert(p.take(p.len() - 2) =~= prefix);
    assert(p.skip(p.len() - 2) =~= seq!['.', '*']);
    assert(e.take(prefix.len() as int) =~= prefix);
    assert(e.skip(prefix.len() + 1int) =~= rest);
    assert(e[prefix.len() as int] == '.');
    if rest.contains('.') {
        assert(p != seq!['*']) by {
            assert(p.len() >= 2);
        }
        assert(p != e) by {
            let j = choose|j: int| 0 <= j < rest.len() && rest[j] == '.';
            if p == e {
                assert(rest =~= seq!['*']);
            }
        }
    }
}

/// Every position of a priority order holds an index in range.
proof fn lemma_order_in_range(ps: Seq<i64>, n: nat, j: int)
    requires
        0 <= j < n,
    ensures
        priority_order(ps, n).len() == n,
        0 <= priority_order(ps, n)[j] < n,
{
    broadcast use vstd::seq_lib::group_to_multiset_ensures;
    crate::ordering::lemma_priority_order_sorted(ps, n);
    let order = priority_order(ps, n);
    let ids = Seq::new(n, |i: int| i);
    let x = order[j];
    assert(order.contains(x));
    assert(order.to_multiset().count(x) > 0);
    assert(ids.to_multiset().count(x) > 0);
    assert(ids.contains(x));
    let i = choose|i: int| 0 <= i < ids.len() && ids[i] == x;
    assert(x == i);
}

/// The subscribers of a published event come in non-increasing priority.
pub proof fn lemma_publish_order(l: Seq<SubscriptionView>)
    ensures
        by_priority(l).len() == l.len(),
        forall|a: int, b: int| 0 <= a < b < by_priority(l).len() ==> by_priority(l)[a].2 >= by_priority(l)[b].2,
{
    let ps = sub_priorities(l);
    crate::ordering::lemma_priority_order_sorted(ps, l.len());
    let order = priority_order(ps, l.len());
    assert forall|a: int, b: int| 0 <= a < b < by_priority(l).len() implies by_priority(l)[a].2 >= by_priority(l)[b].2 by {
        lemma_order_in_range(ps, l.len(), a);
        lemma_order_in_range(ps, l.len(), b);
        assert(ps[order[a]] >= ps[order[b]]);
        assert(by_priority(l)[a] == l[order[a]]);
        assert(by_priority(l)[b] == l[order[b]]);
    }
}

} // verus!

verus! {

/// A list of subscriptions in non-increasing priority.
pub open spec fn sorted_desc(l: Seq<SubscriptionView>) -> bool {
    forall|a: int, b: int| 0 <= a < b < l.len() ==> l[a].2 >= l[b].2
}

/// Every pattern's list is in non-increasing priority.
pub open spec fn table_sorted(t: TableView) -> bool {
    forall|i: int| 0 <= i < t.len() ==> sorted_desc(#[trigger] t[i].1)
}

/// Position of the first subscription of `l` with a priority below `p` (the
/// length of `l` when there is none).
pub open spec fn first_below(l: Seq<SubscriptionView>, p: i32) -> int
    decreases l.len(),
{
    if l.len() == 0 {
        0
    } else if l[0].2 < p {
        0
    } else {
        1 + first_below(l.drop_first(), p)
    }
}

proof fn lemma_first_below(l: Seq<SubscriptionView>, p: i32)
    ensures
        0 <= first_below(l, p) <= l.len(),
        forall|j: int| 0 <= j < first_below(l, p) ==> l[j].2 >= p,
        first_below(l, p) < l.len() ==> l[first_below(l, p)].2 < p,
    decreases l.len(),
{
    if l.len() > 0 && l[0].2 >= p {
        let rest = l.drop_first();
        lemma_first_below(rest, p);
        assert forall|j: int| 0 <= j < first_below(l, p) implies l[j].2 >= p by {
            if j > 0 {
                assert(l[j] == rest[j - 1]);
            }
        }
        if first_below(l, p) < l.len() {
            assert(l[first_below(l, p)] == rest[first_below(rest, p)]);
        }
    }
}

proof fn lemma_identity_order(ps: Seq<i64>, n: nat)
    requires
        forall|a: int, b: int| 0 <= a < b < n ==> ps[a] >= ps[b],
    ensures
        priority_order(ps, n) == Seq::new(n, |i: int| i),
    decreases n,
{
    if n > 0 {
        lemma_identity_order(ps, (n - 1) as nat);
        let id = Seq::new((n - 1) as nat, |i: int| i);
        lemma_insert_split(id, n - 1, ps, n - 1);
        assert(id.take(n - 1) + seq![n - 1] + id.skip(n - 1) =~= Seq::new(n, |i: int| i));
    }
}

/// Adding `x` to a list in non-increasing priority and ordering it again puts
/// `x` after every entry of at least its priority and before the rest; the
/// result is again in non-increasing priority.
pub proof fn lemma_sorted_insert(l: Seq<SubscriptionView>, x: SubscriptionView)
    requires
        sorted_desc(l),
    ensures
        by_priority(l.push(x)) == l.take(first_below(l, x.2)) + seq![x] + l.skip(first_below(l, x.2)),
        sorted_desc(by_priority(l.push(x))),
{
    let lx = l.push(x);
    let n = l.len();
    let ps = sub_priorities(lx);
    let k = first_below(l, x.2);
    lemma_first_below(l, x.2);
    assert forall|a: int, b: int| 0 <= a < b < n implies ps[a] >= ps[b] by {
        assert(ps[a] == l[a].2 as i64 && ps[b] == l[b].2 as i64);
    }
    lemma_identity_order(ps, n);
    let id = Seq::new(n, |i: int| i);
    assert(priority_order(ps, (n + 1) as nat) == insert_by_priority(priority_order(ps, n), n as int, ps));
    assert forall|j: int| 0 <= j < k implies ps[id[j]] >= ps[n as int] by {
        assert(ps[j] == l[j].2 as i64);
    }
    if k < n {
        assert(ps[id[k]] == l[k].2 as i64);
    }
    lemma_insert_split(id, n as int, ps, k);
    let order = id.take(k) + seq![n as int] + id.skip(k);
    assert(priority_order(ps, (n + 1) as nat) == order);
    assert(order.map_values(|i: int| lx[i]) =~= l.take(k) + seq![x] + l.skip(k));
    lemma_publish_order(lx);
}

proof fn lemma_pattern_index_bound(t: TableView, p: Seq<char>)
    ensures
        0 <= pattern_index(t, p) <= t.len(),
        pattern_index(t, p) < t.len() ==> t[pattern_index(t, p)].0 == p,
    decreases t.len(),
{
    if t.len() > 0 && t[0].0 != p {
        lemma_pattern_index_bound(t.drop_first(), p);
    }
}

proof fn lemma_pattern_index_keys(t1: TableView, t2: TableView, p: Seq<char>)
    requires
        t1.len() == t2.len(),
        forall|j: int| 0 <= j < t1.len() ==> #[trigger] t1[j].0 == t2[j].0,
    ensures
        pattern_index(t1, p) == pattern_index(t2, p),
    decreases t1.len(),
{
    if t1.len() > 0 {
        let r1 = t1.drop_first();
        let r2 = t2.drop_first();
        assert forall|j: int| 0 <= j < r1.len() implies #[trigger] r1[j].0 == r2[j].0 by {
            assert(r1[j] == t1[j + 1] && r2[j] == t2[j + 1]);
        }
        lemma_pattern_index_keys(r1, r2, p);
        assert(t1[0].0 == t2[0].0);
    }
}

/// Subscribing keeps every pattern's list in non-increasing priority. The new
/// subscription goes after every entry of at least its priority and before the
/// rest (a pattern not seen before gets a list of just it), and no other
/// pattern's list changes.
pub proof fn lemma_subscribe_keeps_lists_sorted(t: TableView, x: SubscriptionView)
    requires
        table_sorted(t),
    ensures
        table_sorted(table_subscribe(t, x)),
        pattern_index(t, x.1) < t.len() ==> ({
            let i = pattern_index(t, x.1);
            let t2 = table_subscribe(t, x);
            &&& t2.len() == t.len()
            &&& t2[i].0 == t[i].0
            &&& t2[i].1 == t[i].1.take(first_below(t[i].1, x.2)) + seq![x] + t[i].1.skip(first_below(t[i].1, x.2))
            &&& forall|j: int| 0 <= j < t.len() && j != i ==> #[trigger] t2[j] == t[j]
        }),
        pattern_index(t, x.1) >= t.len() ==> table_subscribe(t, x) == t.push((x.1, seq![x])),
{
    lemma_pattern_index_bound(t, x.1);
    let i = pattern_index(t, x.1);
    let t2 = table_subscribe(t, x);
    if i < t.len() {
        assert(sorted_desc(t[i].1));
        lemma_sorted_insert(t[i].1, x);
        assert forall|j: int| 0 <= j < t2.len() implies sorted_desc(#[trigger] t2[j].1) by {
            if j != i {
                assert(t2[j] == t[j]);
            }
        }
    } else {
        assert forall|j: int| 0 <= j < t2.len() implies sorted_desc(#[trigger] t2[j].1) by {
            if j < t.len() {
                assert(t2[j] == t[j]);
            }
        }
    }
}

proof fn lemma_without_concat(a: Seq<SubscriptionView>, b: Seq<SubscriptionView>, name: Seq<char>)
    ensures
        without_subscriber(a + b, name) == without_subscriber(a, name) + without_subscriber(b, name),
    decreases b.len(),
{
    if b.len() == 0 {
        assert(a + b =~= a);
        assert(without_subscriber(a, name) + without_subscriber(b, name) =~= without_subscriber(a, name));
    } else {
        assert((a + b).drop_last() =~= a + b.drop_last());
        assert((a + b).last() == b.last());
        lemma_without_concat(a, b.drop_last(), name);
        if b.last().0 != name {
            assert(without_subscriber(a, name) + without_subscriber(b.drop_last(), name).push(b.last()) =~= (
            without_subscriber(a, name) + without_subscriber(b.drop_last(), name)).push(b.last()));
        }
    }
}

proof fn lemma_without_own(x: SubscriptionView)
    ensures
        without_subscriber(seq![x], x.0) == Seq::<SubscriptionView>::empty(),
{
    let e = Seq::<SubscriptionView>::empty();
    assert(seq![x].drop_last() =~= e);
    assert(seq![x].last() == x);
    assert(without_subscriber(e, x.0) == e);
}

proof fn lemma_without_leaves_none(l: Seq<SubscriptionView>, name: Seq<char>)
    ensures
        forall|j: int| 0 <= j < without_subscriber(l, name).len() ==> #[trigger] without_subscriber(l, name)[j].0 != name,
    decreases l.len(),
{
    if l.len() > 0 {
        lemma_without_leaves_none(l.drop_last(), name);
        let r = without_subscriber(l.drop_last(), name);
        if l.last().0 != name {
            assert forall|j: int| 0 <= j < r.push(l.last()).len() implies #[trigger] r.push(l.last())[j].0 != name by {
                if j < r.len() {
                    assert(r.push(l.last())[j] == r[j]);
                }
            }
        }
    }
}

/// Subscribing and then unsubscribing the same subscriber from the same
/// pattern gives what only unsubscribing gives, except that a pattern the
/// subscription added stays, with an empty list. Either way no subscription of
/// that subscriber is left under the pattern.
pub proof fn lemma_subscribe_then_unsubscribe(t: TableView, x: SubscriptionView)
    requires
        table_sorted(t),
    ensures
        pattern_index(t, x.1) < t.len() ==> table_unsubscribe(table_subscribe(t, x), x.0, x.1) == table_unsubscribe(
            t,
            x.0,
            x.1,
        ),
        pattern_index(t, x.1) >= t.len() ==> table_unsubscribe(table_subscribe(t, x), x.0, x.1) == t.push(
            (x.1, Seq::<SubscriptionView>::empty()),
        ),
        ({
            let t3 = table_unsubscribe(table_subscribe(t, x), x.0, x.1);
            let k = pattern_index(t3, x.1);
            &&& k < t3.len()
            &&& forall|j: int| 0 <= j < t3[k].1.len() ==> #[trigger] t3[k].1[j].0 != x.0
        }),
{
    lemma_pattern_index_bound(t, x.1);
    lemma_subscribe_keeps_lists_sorted(t, x);
    let i = pattern_index(t, x.1);
    let t2 = table_subscribe(t, x);
    if i < t.len() {
        let l = t[i].1;
        let k = first_below(l, x.2);
        lemma_first_below(l, x.2);
        assert forall|j: int| 0 <= j < t.len() implies #[trigger] t[j].0 == t2[j].0 by {
            if j != i {
                assert(t2[j] == t[j]);
            }
        }
        lemma_pattern_index_keys(t, t2, x.1);
        lemma_without_concat(l.take(k) + seq![x], l.skip(k), x.0);
        lemma_without_concat(l.take(k), seq![x], x.0);
        lemma_without_concat(l.take(k), l.skip(k), x.0);
        assert(seq![x].drop_last() =~= Seq::<SubscriptionView>::empty());
        lemma_without_own(x);
        assert(without_subscriber(l.take(k), x.0) + Seq::<SubscriptionView>::empty() =~= without_subscriber(l.take(k), x.0));
        assert(l.take(k) + l.skip(k) =~= l);
        assert(table_unsubscribe(t2, x.0, x.1) =~= table_unsubscribe(t, x.0, x.1));
        let t3 = table_unsubscribe(t2, x.0, x.1);
        lemma_without_leaves_none(t2[i].1, x.0);
        assert(t3[i].1 == without_subscriber(t2[i].1, x.0));
        assert forall|j: int| 0 <= j < t3.len() implies #[trigger] t3[j].0 == t2[j].0 by {}
        lemma_pattern_index_keys(t3, t2, x.1);
    } else {
        assert forall|a: int| 0 <= a < t.len() implies t[a].0 != x.1 by {
            lemma_pattern_index_absent_all(t, x.1, a);
        }
        assert(t2 == t.push((x.1, seq![x])));
        assert forall|j: int| 0 <= j < t.len() implies t2[j].0 != x.1 by {
            assert(t2[j] == t[j]);
        }
        lemma_pattern_index_at(t2, x.1, t.len() as int);
        assert(seq![x].drop_last() =~= Seq::<SubscriptionView>::empty());
        lemma_without_own(x);
        let t3 = table_unsubscribe(t2, x.0, x.1);
        assert(t3 =~= t.push((x.1, Seq::<SubscriptionView>::empty())));
        assert forall|j: int| 0 <= j < t.len() implies t3[j].0 != x.1 by {
            assert(t3[j] == t[j]);
        }
        lemma_pattern_index_at(t3, x.1, t.len() as int);
    }
}

} // verus!

verus! {

/// The subscriber names of `subs`, in order: the list a published event is
/// recorded with.
pub fn subscriber_names(subs: &Vec<EventSubscription>) -> (r: Vec<String>)
    ensures
        strings_view(r@) == subs_view(subs@).map_values(|s: SubscriptionView| s.0),
{
    let mut r: Vec<String> = Vec::new();
    let mut k: usize = 0;
    while k < subs.len()
        invariant
            k <= subs@.len(),
            r@.len() == k,
            forall|j: int| 0 <= j < k ==> #[trigger] r@[j]@ == subs@[j].subscriber@,
        decreases subs.len() - k,
    {
        r.push(subs[k].subscriber.clone());
        k += 1;
    }
    assert(strings_view(r@) =~= subs_view(subs@).map_values(|s: SubscriptionView| s.0));
    r
}

/// Whether the outcome of sending a published event to one subscriber goes
/// into the answer: a reply is kept (with the subscriber's name); a
/// subscriber that is not connected or whose send failed is passed over.
/// Nothing stops the loop: every subscriber is sent the event.
pub fn publish_keeps(o: &SendOutcome) -> (keep: bool)
    ensures
        keep == (*o is Replied),
{
    match o {
        SendOutcome::Replied { .. } => true,
        _ => false,
    }
}

} // verus!
