//! Small string-keyed tables: the server's maps and sets keyed by ids,
//! modelled as maps from character sequences.
use vstd::prelude::*;

use crate::text::{str_eq, strings_view};

verus! {

/// `ks` lists the keys of `dom`, each once.
pub open spec fn lists_keys(ks: Seq<Seq<char>>, dom: Set<Seq<char>>) -> bool {
    &&& ks.no_duplicates()
    &&& forall|k: Seq<char>| #[trigger] dom.contains(k) <==> ks.contains(k)
}

/// A map from string keys to values, kept in insertion order.
pub struct StrMap<V> {
    entries: Vec<(String, V)>,
    map: Ghost<Map<Seq<char>, V>>,
}

/// The entries list exactly the keys of `map`, each once, with their values.
spec fn table_ok<V>(entries: Seq<(String, V)>, map: Map<Seq<char>, V>) -> bool {
    &&& forall|i: int|
        0 <= i < entries.len() ==> #[trigger] map.contains_key(entries[i].0@) && map[entries[i].0@]
            == entries[i].1
    &&& forall|k: Seq<char>|
        #[trigger] map.contains_key(k) ==> exists|i: int|
            0 <= i < entries.len() && #[trigger] entries[i].0@ == k
    &&& forall|i: int, j: int|
        0 <= i < entries.len() && 0 <= j < entries.len() && i != j ==> #[trigger] entries[i].0@
            != #[trigger] entries[j].0@
}

impl<V> StrMap<V> {
    #[verifier::type_invariant]
    spec fn inv(self) -> bool {
        table_ok(self.entries@, self.map@)
    }

    /// The map that this table holds.
    pub closed spec fn view(&self) -> Map<Seq<char>, V> {
        self.map@
    }

    /// An empty table.
    pub fn new() -> (m: Self)
        ensures
            m@ == Map::<Seq<char>, V>::empty(),
    {
        StrMap { entries: Vec::new(), map: Ghost(Map::empty()) }
    }

    /// Number of keys.
    pub fn len(&self) -> (n: usize)
        ensures
            n == self@.len(),
            self@.dom().finite(),
    {
        proof {
            use_type_invariant(self);
            self.lemma_dom_finite_len();
        }
        self.entries.len()
    }

    proof fn lemma_dom_finite_len(&self)
        requires
            self.inv(),
        ensures
            self.map@.dom().finite(),
            self.map@.len() == self.entries@.len(),
    {
        let keys = self.entries@.map_values(|e: (String, V)| e.0@);
        assert(keys.no_duplicates()) by {
            assert forall|i: int, j: int|
                0 <= i < keys.len() && 0 <= j < keys.len() && i != j implies keys[i] != keys[j] by {
                assert(self.entries@[i].0@ != self.entries@[j].0@);
            }
        }
        assert(self.map@.dom() =~= keys.to_set()) by {
            assert forall|k: Seq<char>| self.map@.dom().contains(k) implies keys.to_set().contains(
                k,
            ) by {
                let i = choose|i: int| 0 <= i < self.entries@.len() && self.entries@[i].0@ == k;
                assert(keys[i] == k);
            }
            assert forall|k: Seq<char>| keys.to_set().contains(k) implies self.map@.dom().contains(
                k,
            ) by {
                let i = choose|i: int| 0 <= i < keys.len() && keys[i] == k;
                assert(self.map@.contains_key(self.entries@[i].0@));
            }
        }
        keys.unique_seq_to_set();
    }

    /// Position of `k` among the entries.
    fn find(&self, k: &str) -> (r: Option<usize>)
        ensures
            match r {
                Some(i) => i < self.entries@.len() && self.entries@[i as int].0@ == k@,
                None => !self.map@.contains_key(k@),
            },
    {
        proof {
            use_type_invariant(self);
        }
        let mut i: usize = 0;
        while i < self.entries.len()
            invariant
                i <= self.entries@.len(),
                forall|j: int| 0 <= j < i ==> self.entries@[j].0@ != k@,
            decreases self.entries.len() - i,
        {
            if str_eq(self.entries[i].0.as_str(), k) {
                return Some(i);
            }
            i += 1;
        }
        None
    }

    /// The key `k` is present.
    pub fn contains_key(&self, k: &str) -> (r: bool)
        ensures
            r == self@.contains_key(k@),
    {
        proof {
            use_type_invariant(self);
        }
        self.find(k).is_some()
    }

    /// The value stored under `k`.
    pub fn get(&self, k: &str) -> (r: Option<&V>)
        ensures
            match r {
                Some(v) => self@.contains_key(k@) && self@[k@] == *v,
                None => !self@.contains_key(k@),
            },
    {
        proof {
            use_type_invariant(self);
        }
        match self.find(k) {
            Some(i) => Some(&self.entries[i].1),
            None => None,
        }
    }

    /// Stores `v` under `k`, replacing any earlier value.
    pub fn insert(&mut self, k: String, v: V)
        ensures
            final(self)@ == old(self)@.insert(k@, v),
    {
        let mut tmp = StrMap::new();
        std::mem::swap(&mut tmp, self);
        *self = tmp.into_inserted(k, v);
    }

    fn into_inserted(self, k: String, v: V) -> (r: Self)
        ensures
            r@ == self@.insert(k@, v),
    {
        proof {
            use_type_invariant(&self);
        }
        let ghost old_map = self.map@;
        let ghost kv = k@;
        match self.find(k.as_str()) {
            Some(i) => {
                let ghost old_entries = self.entries@;
                let StrMap { entries: mut entries, map: _ } = self;
                entries.remove(i);
                entries.insert(i, (k, v));
                let ghost new_map = old_map.insert(kv, v);
                assert(table_ok(entries@, new_map)) by {
                    assert(entries@ == old_entries.update(i as int, (entries@[i as int].0, v)));
                    assert forall|j: int| 0 <= j < entries@.len() implies #[trigger] new_map.contains_key(
                        entries@[j].0@,
                    ) && new_map[entries@[j].0@] == entries@[j].1 by {
                        if j != i {
                            assert(old_entries[j].0@ != old_entries[i as int].0@);
                        }
                    }
                    assert forall|key: Seq<char>| #[trigger] new_map.contains_key(key) implies exists|j: int|
                        0 <= j < entries@.len() && #[trigger] entries@[j].0@ == key by {
                        if key == kv {
                            assert(entries@[i as int].0@ == key);
                        } else {
                            assert(old_map.contains_key(key));
                            let j = choose|j: int|
                                0 <= j < old_entries.len() && old_entries[j].0@ == key;
                            assert(entries@[j].0@ == key);
                        }
                    }
                    assert forall|a: int, b: int|
                        0 <= a < entries@.len() && 0 <= b < entries@.len() && a != b
                            implies #[trigger] entries@[a].0@ != #[trigger] entries@[b].0@ by {
                        assert(old_entries[a].0@ != old_entries[b].0@);
                    }
                }
                StrMap { entries, map: Ghost(old_map.insert(kv, v)) }
            },
            None => {
                let ghost old_entries = self.entries@;
                let StrMap { entries: mut entries, map: _ } = self;
                entries.push((k, v));
                proof {
                    let new_map = old_map.insert(kv, v);
                    let n = old_entries.len() as int;
                    assert forall|j: int| 0 <= j < entries@.len() implies #[trigger] new_map.contains_key(
                        entries@[j].0@,
                    ) && new_map[entries@[j].0@] == entries@[j].1 by {
                        if j < n {
                            assert(old_map.contains_key(old_entries[j].0@));
                        }
                    }
                    assert forall|key: Seq<char>| #[trigger] new_map.contains_key(key) implies exists|j: int|
                        0 <= j < entries@.len() && #[trigger] entries@[j].0@ == key by {
                        if key == kv {
                            assert(entries@[n].0@ == key);
                        } else {
                            let j = choose|j: int|
                                0 <= j < old_entries.len() && old_entries[j].0@ == key;
                            assert(entries@[j].0@ == key);
                        }
                    }
                    assert forall|a: int, b: int|
                        0 <= a < entries@.len() && 0 <= b < entries@.len() && a != b
                            implies #[trigger] entries@[a].0@ != #[trigger] entries@[b].0@ by {
                        if a < n && b < n {
                            assert(old_entries[a].0@ != old_entries[b].0@);
                        } else if a < n {
                            assert(old_map.contains_key(old_entries[a].0@));
                        } else {
                            assert(old_map.contains_key(old_entries[b].0@));
                        }
                    }
                }
                assert(table_ok(entries@, old_map.insert(kv, v)));
                StrMap { entries, map: Ghost(old_map.insert(kv, v)) }
            },
        }
    }

    /// Removes the key `k`, returning its value.
    pub fn remove(&mut self, k: &str) -> (r: Option<V>)
        ensures
            final(self)@ == old(self)@.remove(k@),
            match r {
                Some(v) => old(self)@.contains_key(k@) && old(self)@[k@] == v,
                None => !old(self)@.contains_key(k@),
            },
    {
        let mut tmp = StrMap::new();
        std::mem::swap(&mut tmp, self);
        let (m, r) = tmp.into_removed(k);
        *self = m;
        r
    }

    fn into_removed(self, k: &str) -> (res: (Self, Option<V>))
        ensures
            res.0@ == self@.remove(k@),
            match res.1 {
                Some(v) => self@.contains_key(k@) && self@[k@] == v,
                None => !self@.contains_key(k@),
            },
    {
        proof {
            use_type_invariant(&self);
        }
        let ghost old_map = self.map@;
        match self.find(k) {
            Some(i) => {
                let ghost old_entries = self.entries@;
                let StrMap { entries: mut entries, map: _ } = self;
                let (_, v) = entries.remove(i);
                assert(old_map.contains_key(old_entries[i as int].0@));
                proof {
                    let new_map = old_map.remove(k@);
                    assert forall|j: int| 0 <= j < entries@.len() implies #[trigger] new_map.contains_key(
                        entries@[j].0@,
                    ) && new_map[entries@[j].0@] == entries@[j].1 by {
                        let oj = if j < i { j } else { j + 1 };
                        assert(entries@[j] == old_entries[oj]);
                        assert(old_entries[oj].0@ != old_entries[i as int].0@);
                        assert(old_map.contains_key(old_entries[oj].0@));
                    }
                    assert forall|key: Seq<char>| #[trigger] new_map.contains_key(key) implies exists|j: int|
                        0 <= j < entries@.len() && #[trigger] entries@[j].0@ == key by {
                        let j = choose|j: int|
                            0 <= j < old_entries.len() && old_entries[j].0@ == key;
                        assert(j != i);
                        if j < i {
                            assert(entries@[j].0@ == key);
                        } else {
                            assert(entries@[j - 1].0@ == key);
                        }
                    }
                    assert forall|a: int, b: int|
                        0 <= a < entries@.len() && 0 <= b < entries@.len() && a != b
                            implies #[trigger] entries@[a].0@ != #[trigger] entries@[b].0@ by {
                        let oa = if a < i { a } else { a + 1 };
                        let ob = if b < i { b } else { b + 1 };
                        assert(entries@[a] == old_entries[oa]);
                        assert(entries@[b] == old_entries[ob]);
                        assert(old_entries[oa].0@ != old_entries[ob].0@);
                    }
                }
                assert(table_ok(entries@, old_map.remove(k@)));
                (StrMap { entries, map: Ghost(old_map.remove(k@)) }, Some(v))
            },
            None => {
                proof {
                    assert(old_map.remove(k@) =~= old_map);
                }
                (self, None)
            },
        }
    }

    /// All entries, each key once, in no promised order.
    pub fn entries(&self) -> (r: &Vec<(String, V)>)
        ensures
            forall|i: int|
                0 <= i < r@.len() ==> #[trigger] self@.contains_key(r@[i].0@) && self@[r@[i].0@]
                    == r@[i].1,
            forall|k: Seq<char>|
                #[trigger] self@.contains_key(k) ==> exists|i: int|
                    0 <= i < r@.len() && #[trigger] r@[i].0@ == k,
            forall|i: int, j: int|
                0 <= i < r@.len() && 0 <= j < r@.len() && i != j ==> #[trigger] r@[i].0@
                    != #[trigger] r@[j].0@,
            r@.len() == self@.len(),
    {
        proof {
            use_type_invariant(self);
            self.lemma_dom_finite_len();
        }
        let r = &self.entries;
        assert forall|i: int| 0 <= i < r@.len() implies #[trigger] self@.contains_key(r@[i].0@)
            && self@[r@[i].0@] == r@[i].1 by {
            assert(self.map@.contains_key(self.entries@[i].0@));
        }
        r
    }
}

/// A set of strings.
pub struct StrSet {
    inner: StrMap<()>,
}

impl StrSet {
    /// The set of character sequences held.
    pub closed spec fn view(&self) -> Set<Seq<char>> {
        self.inner@.dom()
    }

    /// An empty set.
    pub fn new() -> (s: Self)
        ensures
            s@ == Set::<Seq<char>>::empty(),
    {
        let s = StrSet { inner: StrMap::new() };
        assert(s@ =~= Set::<Seq<char>>::empty());
        s
    }

    /// Number of elements.
    pub fn len(&self) -> (n: usize)
        ensures
            n == self@.len(),
            self@.finite(),
    {
        self.inner.len()
    }

    /// The set is empty.
    pub fn is_empty(&self) -> (r: bool)
        ensures
            r == (self@ == Set::<Seq<char>>::empty()),
    {
        let n = self.inner.len();
        if n == 0 {
            assert(self@ =~= Set::<Seq<char>>::empty());
        } else {
            assert(self@.len() > 0);
        }
        n == 0
    }

    /// `k` is an element.
    pub fn contains(&self, k: &str) -> (r: bool)
        ensures
            r == self@.contains(k@),
    {
        self.inner.contains_key(k)
    }

    /// Adds `k`; returns whether it was absent before.
    pub fn insert(&mut self, k: String) -> (added: bool)
        ensures
            final(self)@ == old(self)@.insert(k@),
            added == !old(self)@.contains(k@),
    {
        let added = !self.inner.contains_key(k.as_str());
        self.inner.insert(k, ());
        assert(self@ =~= old(self)@.insert(k@));
        added
    }

    /// Removes `k`; returns whether it was present.
    pub fn remove(&mut self, k: &str) -> (removed: bool)
        ensures
            final(self)@ == old(self)@.remove(k@),
            removed == old(self)@.contains(k@),
    {
        let r = self.inner.remove(k);
        assert(self@ =~= old(self)@.remove(k@));
        r.is_some()
    }

    /// The set of the strings in `v`.
    pub fn from_list(v: &Vec<String>) -> (s: Self)
        ensures
            s@ == strings_view(v@).to_set(),
    {
        let mut s = StrSet::new();
        let mut i: usize = 0;
        while i < v.len()
            invariant
                i <= v@.len(),
                forall|k: Seq<char>| #[trigger] s@.contains(k) <==> exists|j: int| 0 <= j < i && #[trigger] v@[j]@ == k,
            decreases v.len() - i,
        {
            s.insert(v[i].clone());
            proof {
                assert forall|k: Seq<char>| #[trigger] s@.contains(k) <==> exists|j: int| 0 <= j < i + 1 && #[trigger] v@[j]@ == k by {
                    if k == v@[i as int]@ {
                        assert(v@[i as int]@ == k);
                    }
                    if exists|j: int| 0 <= j < i + 1 && #[trigger] v@[j]@ == k {
                        let j = choose|j: int| 0 <= j < i + 1 && #[trigger] v@[j]@ == k;
                        if j < i {
                            assert(exists|j2: int| 0 <= j2 < i && #[trigger] v@[j2]@ == k);
                        }
                    }
                }
            }
            i += 1;
        }
        proof {
            let sv = strings_view(v@);
            assert forall|k: Seq<char>| s@.contains(k) <==> sv.to_set().contains(k) by {
                if s@.contains(k) {
                    let j = choose|j: int| 0 <= j < v@.len() && #[trigger] v@[j]@ == k;
                    assert(sv[j] == k);
                }
                if sv.to_set().contains(k) {
                    let j = choose|j: int| 0 <= j < sv.len() && sv[j] == k;
                    assert(v@[j]@ == k);
                }
            }
            assert(s@ =~= sv.to_set());
        }
        s
    }

    /// All elements, each once, in no promised order.
    pub fn to_vec(&self) -> (r: Vec<String>)
        ensures
            forall|i: int| 0 <= i < r@.len() ==> #[trigger] self@.contains(r@[i]@),
            forall|k: Seq<char>| #[trigger] self@.contains(k) ==> exists|i: int|
                0 <= i < r@.len() && #[trigger] r@[i]@ == k,
            forall|i: int, j: int|
                0 <= i < r@.len() && 0 <= j < r@.len() && i != j ==> #[trigger] r@[i]@
                    != #[trigger] r@[j]@,
            r@.len() == self@.len(),
    {
        let es = self.inner.entries();
        let mut r: Vec<String> = Vec::new();
        let mut i: usize = 0;
        while i < es.len()
            invariant
                i <= es@.len(),
                r@.len() == i,
                forall|j: int| 0 <= j < i ==> #[trigger] r@[j]@ == es@[j].0@,
            decreases es.len() - i,
        {
            r.push(es[i].0.clone());
            i += 1;
        }
        proof {
            assert forall|k: Seq<char>| #[trigger] self@.contains(k) implies exists|i: int|
                0 <= i < r@.len() && #[trigger] r@[i]@ == k by {
                assert(self.inner@.contains_key(k));
                let i = choose|i: int| 0 <= i < es@.len() && es@[i].0@ == k;
                assert(r@[i]@ == k);
            }
            assert forall|a: int, b: int|
                0 <= a < r@.len() && 0 <= b < r@.len() && a != b implies #[trigger] r@[a]@
                    != #[trigger] r@[b]@ by {
                assert(es@[a].0@ != es@[b].0@);
            }
            assert forall|a: int| 0 <= a < r@.len() implies #[trigger] self@.contains(r@[a]@) by {
                assert(self.inner@.contains_key(es@[a].0@));
            }
        }
        r
    }
}

} // verus!

verus! {

impl<V> StrMap<V> {
    /// Removes every key listed in `keys`.
    pub fn remove_all(&mut self, keys: &Vec<String>)
        ensures
            final(self)@ == old(self)@.remove_keys(keys@.map_values(|s: String| s@).to_set()),
    {
        let mut k: usize = 0;
        while k < keys.len()
            invariant
                k <= keys@.len(),
                self@ == old(self)@.remove_keys(keys@.take(k as int).map_values(|s: String| s@).to_set()),
            decreases keys.len() - k,
        {
            let ghost before = self@;
            self.remove(keys[k].as_str());
            proof {
                let s0 = keys@.take(k as int).map_values(|s: String| s@).to_set();
                let s1 = keys@.take(k + 1).map_values(|s: String| s@).to_set();
                let t0 = keys@.take(k as int).map_values(|s: String| s@);
                let t1 = keys@.take(k + 1).map_values(|s: String| s@);
                assert(t1 =~= t0.push(keys@[k as int]@));
                assert(s1 =~= s0.insert(keys@[k as int]@)) by {
                    assert forall|a: Seq<char>| s1.contains(a) <==> s0.insert(keys@[k as int]@).contains(a) by {
                        if t1.contains(a) {
                            let j = choose|j: int| 0 <= j < t1.len() && t1[j] == a;
                            if j < t0.len() {
                                assert(t0[j] == a);
                            }
                        }
                        if t0.contains(a) {
                            let j = choose|j: int| 0 <= j < t0.len() && t0[j] == a;
                            assert(t1[j] == a);
                        }
                        if a == keys@[k as int]@ {
                            assert(t1[t0.len() as int] == a);
                        }
                    }
                }
                assert(self@ =~= old(self)@.remove_keys(s1));
            }
            k += 1;
        }
        assert(keys@.take(keys@.len() as int) =~= keys@);
    }
}

} // verus!

verus! {

impl<V> StrMap<V> {
    /// Takes the entries out: each key once, with its value.
    pub fn into_entries(self) -> (r: Vec<(String, V)>)
        ensures
            forall|i: int|
                0 <= i < r@.len() ==> #[trigger] self@.contains_key(r@[i].0@) && self@[r@[i].0@]
                    == r@[i].1,
            forall|k: Seq<char>|
                #[trigger] self@.contains_key(k) ==> exists|i: int|
                    0 <= i < r@.len() && #[trigger] r@[i].0@ == k,
            forall|i: int, j: int|
                0 <= i < r@.len() && 0 <= j < r@.len() && i != j ==> #[trigger] r@[i].0@
                    != #[trigger] r@[j].0@,
            r@.len() == self@.len(),
    {
        proof {
            use_type_invariant(&self);
        }
        let ghost m = self.map@;
        let ghost e = self.entries@;
        assert(table_ok(e, m));
        assert(m.len() == e.len()) by {
            self.lemma_dom_finite_len();
        }
        let StrMap { entries, map: _ } = self;
        assert(entries@ == e);
        entries
    }

    /// A table holding the given entries, whose keys are distinct.
    pub fn from_entries(entries: Vec<(String, V)>) -> (m: Self)
        requires
            forall|i: int, j: int|
                0 <= i < entries@.len() && 0 <= j < entries@.len() && i != j ==> #[trigger] entries@[i].0@
                    != #[trigger] entries@[j].0@,
        ensures
            forall|i: int|
                0 <= i < entries@.len() ==> #[trigger] m@.contains_key(entries@[i].0@) && m@[entries@[i].0@]
                    == entries@[i].1,
            forall|k: Seq<char>|
                #[trigger] m@.contains_key(k) ==> exists|i: int|
                    0 <= i < entries@.len() && #[trigger] entries@[i].0@ == k,
    {
        let ghost map = Map::new(
            |k: Seq<char>| exists|i: int| 0 <= i < entries@.len() && #[trigger] entries@[i].0@ == k,
            |k: Seq<char>| entries@[choose|i: int| 0 <= i < entries@.len() && #[trigger] entries@[i].0@ == k].1,
        );
        assert forall|i: int| 0 <= i < entries@.len() implies #[trigger] map.contains_key(entries@[i].0@)
            && map[entries@[i].0@] == entries@[i].1 by {
            let k = entries@[i].0@;
            let j = choose|j: int| 0 <= j < entries@.len() && #[trigger] entries@[j].0@ == k;
            assert(i == j);
        }
        assert(table_ok(entries@, map));
        StrMap { entries, map: Ghost(map) }
    }
}

} // verus!

verus! {

impl<V> StrMap<V> {
    /// The keys, each once, in no promised order.
    pub fn keys(&self) -> (r: Vec<String>)
        ensures
            lists_keys(r@.map_values(|s: String| s@), self@.dom()),
    {
        let es = self.entries();
        let mut r: Vec<String> = Vec::new();
        let mut i: usize = 0;
        while i < es.len()
            invariant
                i <= es@.len(),
                r@.len() == i,
                forall|j: int| 0 <= j < i ==> #[trigger] r@[j]@ == es@[j].0@,
            decreases es.len() - i,
        {
            r.push(es[i].0.clone());
            i += 1;
        }
        proof {
            let ks = r@.map_values(|s: String| s@);
            assert(ks.no_duplicates()) by {
                assert forall|a: int, b: int| 0 <= a < ks.len() && 0 <= b < ks.len() && a != b implies ks[a] != ks[b] by {
                    assert(es@[a].0@ != es@[b].0@);
                }
            }
            assert forall|k: Seq<char>| #[trigger] self@.dom().contains(k) <==> ks.contains(k) by {
                if self@.dom().contains(k) {
                    let j = choose|j: int| 0 <= j < es@.len() && #[trigger] es@[j].0@ == k;
                    assert(ks[j] == k);
                }
                if ks.contains(k) {
                    let j = choose|j: int| 0 <= j < ks.len() && ks[j] == k;
                    assert(self@.contains_key(es@[j].0@));
                }
            }
        }
        r
    }
}

} // verus!
