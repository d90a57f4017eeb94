//! The sensitive-word filter: each listed word in a message's text is
//! replaced by as many `*` as the word has UTF-8 bytes.
use vstd::prelude::*;

use crate::text::{chars_occur_at, chars_of, occurs_at, string_from_chars, strings_view};

verus! {

/// Number of UTF-8 bytes of `c`.
pub open spec fn utf8_width(c: char) -> nat {
    if (c as u32) < 0x80 {
        1
    } else if (c as u32) < 0x800 {
        2
    } else if (c as u32) < 0x10000 {
        3
    } else {
        4
    }
}

/// Number of UTF-8 bytes of `s`.
pub open spec fn utf8_len(s: Seq<char>) -> nat
    decreases s.len(),
{
    if s.len() == 0 {
        0
    } else {
        utf8_len(s.drop_last()) + utf8_width(s.last())
    }
}

/// `n` stars.
pub open spec fn stars(n: nat) -> Seq<char> {
    Seq::new(n, |i: int| '*')
}

/// `s` with every occurrence of `w` replaced by `r`, scanning from the left
/// and never reusing a replaced character (for a non-empty `w`).
pub open spec fn replace_all(s: Seq<char>, w: Seq<char>, r: Seq<char>) -> Seq<char>
    decreases s.len(),
{
    if w.len() == 0 || s.len() < w.len() {
        s
    } else if s.take(w.len() as int) == w {
        r + replace_all(s.skip(w.len() as int), w, r)
    } else {
        seq![s[0]] + replace_all(s.drop_first(), w, r)
    }
}

/// `text` after masking each word of `words` in turn (empty words are
/// skipped).
pub open spec fn masked(text: Seq<char>, words: Seq<Seq<char>>) -> Seq<char>
    decreases words.len(),
{
    if words.len() == 0 {
        text
    } else {
        let t = masked(text, words.drop_last());
        let w = words.last();
        if w.len() == 0 { t } else { replace_all(t, w, stars(utf8_len(w))) }
    }
}

fn char_width(c: char) -> (n: usize)
    ensures
        n == utf8_width(c),
{
    let v = c as u32;
    if v < 0x80 {
        1
    } else if v < 0x800 {
        2
    } else if v < 0x10000 {
        3
    } else {
        4
    }
}

fn stars_for(w: &Vec<char>) -> (r: Vec<char>)
    ensures
        r@ == stars(utf8_len(w@)),
{
    let mut r: Vec<char> = Vec::new();
    let mut i: usize = 0;
    while i < w.len()
        invariant
            i <= w@.len(),
            r@ == stars(utf8_len(w@.take(i as int))),
        decreases w.len() - i,
    {
        assert(w@.take(i + 1).drop_last() == w@.take(i as int));
        let n = char_width(w[i]);
        let mut k: usize = 0;
        let ghost base = r@.len();
        while k < n
            invariant
                k <= n,
                r@ == stars((base + k) as nat),
            decreases n - k,
        {
            r.push('*');
            assert(r@ =~= stars((base + k + 1) as nat));
            k += 1;
        }
        i += 1;
    }
    assert(w@.take(w@.len() as int) == w@);
    r
}

/// `s` from `from` on, with every occurrence of the non-empty `w` replaced by `r`.
fn replace_from(s: &Vec<char>, from: usize, w: &Vec<char>, r: &Vec<char>) -> (out: Vec<char>)
    requires
        from <= s@.len(),
        w@.len() > 0,
    ensures
        out@ == replace_all(s@.skip(from as int), w@, r@),
    decreases s@.len() - from,
{
    let ghost rest = s@.skip(from as int);
    if s.len() - from < w.len() {
        let mut out: Vec<char> = Vec::new();
        let mut k = from;
        while k < s.len()
            invariant
                from <= k <= s@.len(),
                out@ == s@.subrange(from as int, k as int),
            decreases s.len() - k,
        {
            out.push(s[k]);
            assert(s@.subrange(from as int, k + 1) == s@.subrange(from as int, k as int).push(s@[k as int]));
            k += 1;
        }
        assert(s@.subrange(from as int, s@.len() as int) == rest);
        return out;
    }
    if chars_occur_at(s, w, from) {
        assert(rest.take(w@.len() as int) == w@) by {
            assert(rest.take(w@.len() as int) =~= s@.subrange(from as int, from + w@.len()));
        }
        let tail = replace_from(s, from + w.len(), w, r);
        assert(s@.skip(from + w@.len()) =~= rest.skip(w@.len() as int));
        let mut out: Vec<char> = Vec::new();
        let mut k: usize = 0;
        while k < r.len()
            invariant
                k <= r@.len(),
                out@ == r@.take(k as int),
            decreases r.len() - k,
        {
            out.push(r[k]);
            assert(r@.take(k + 1) == r@.take(k as int).push(r@[k as int]));
            k += 1;
        }
        assert(r@.take(r@.len() as int) == r@);
        let mut j: usize = 0;
        while j < tail.len()
            invariant
                j <= tail@.len(),
                out@ == r@ + tail@.take(j as int),
            decreases tail.len() - j,
        {
            out.push(tail[j]);
            assert(tail@.take(j + 1) == tail@.take(j as int).push(tail@[j as int]));
            j += 1;
        }
        assert(tail@.take(tail@.len() as int) == tail@);
        out
    } else {
        assert(rest.take(w@.len() as int) != w@) by {
            assert(rest.take(w@.len() as int) =~= s@.subrange(from as int, from + w@.len()));
        }
        let tail = replace_from(s, from + 1, w, r);
        assert(s@.skip(from + 1) =~= rest.drop_first());
        let mut out: Vec<char> = Vec::new();
        out.push(s[from]);
        let mut j: usize = 0;
        while j < tail.len()
            invariant
                j <= tail@.len(),
                out@ == seq![s@[from as int]] + tail@.take(j as int),
            decreases tail.len() - j,
        {
            out.push(tail[j]);
            assert(tail@.take(j + 1) == tail@.take(j as int).push(tail@[j as int]));
            j += 1;
        }
        assert(tail@.take(tail@.len() as int) == tail@);
        assert(rest[0] == s@[from as int]);
        out
    }
}

/// The sensitive-word filter.
pub struct SensitiveWordPlugin {
    words: Vec<String>,
}

impl SensitiveWordPlugin {
    /// The words masked, in order.
    pub closed spec fn words(&self) -> Seq<Seq<char>> {
        strings_view(self.words@)
    }

    /// A filter masking `words`.
    pub fn new(words: Vec<String>) -> (p: Self)
        ensures
            p.words() == strings_view(words@),
    {
        SensitiveWordPlugin { words }
    }

    /// The plugin's name.
    pub fn name(&self) -> (r: &'static str)
        ensures
            r@ == "sensitive"@,
    {
        "sensitive"
    }

    /// `text` with each word masked in turn.
    pub fn apply_filter(&self, text: &str) -> (r: String)
        ensures
            r@ == masked(text@, self.words()),
    {
        let mut out = chars_of(text);
        let mut i: usize = 0;
        while i < self.words.len()
            invariant
                i <= self.words@.len(),
                out@ == masked(text@, self.words().take(i as int)),
            decreases self.words.len() - i,
        {
            let w = chars_of(self.words[i].as_str());
            proof {
                assert(self.words().take(i + 1).drop_last() =~= self.words().take(i as int));
                assert(self.words().take(i + 1).last() == w@);
            }
            if w.len() > 0 {
                let st = stars_for(&w);
                let next = replace_from(&out, 0, &w, &st);
                assert(out@.skip(0) =~= out@);
                out = next;
            }
            i += 1;
        }
        assert(self.words().take(self.words@.len() as int) =~= self.words());
        string_from_chars(&out)
    }

    /// Takes the sensitive-word list of a new configuration: when the
    /// configuration has the list, its string items (in order) replace the
    /// words; other items are ignored. Without the list nothing changes.
    pub fn on_config_update(&mut self, items: Option<Vec<Option<String>>>)
        ensures
            match items {
                None => final(self).words() == old(self).words(),
                Some(v) => final(self).words() == v@.filter(|o: Option<String>| o is Some).map_values(|o: Option<String>| o->0@),
            },
    {
        match items {
            None => {},
            Some(v) => {
                let ghost pred = |o: Option<String>| o is Some;
                let mut words: Vec<String> = Vec::new();
                let mut i: usize = 0;
                while i < v.len()
                    invariant
                        i <= v@.len(),
                        pred == (|o: Option<String>| o is Some),
                        strings_view(words@) == v@.take(i as int).filter(pred).map_values(|o: Option<String>| o->0@),
                    decreases v.len() - i,
                {
                    proof {
                        assert(v@.take(i + 1).drop_last() =~= v@.take(i as int));
                        reveal(Seq::filter);
                    }
                    match &v[i] {
                        Some(s) => {
                            let ghost before = strings_view(words@);
                            words.push(s.clone());
                            assert(strings_view(words@) =~= before.push(s@));
                            assert(v@[i as int]->0@ == s@);
                            assert(v@.take(i + 1).filter(pred) =~= v@.take(i as int).filter(pred).push(v@[i as int]));
                            assert(strings_view(words@) =~= v@.take(i + 1).filter(pred).map_values(|o: Option<String>| o->0@));
                        },
                        None => {
                            assert(v@.take(i + 1).filter(pred) =~= v@.take(i as int).filter(pred));
                        },
                    }
                    i += 1;
                }
                assert(v@.take(v@.len() as int) =~= v@);
                self.words = words;
            },
        }
    }
}

} // verus!

verus! {

/// A word that does not occur in a text leaves it unchanged.
pub proof fn lemma_absent_word_unchanged(s: Seq<char>, w: Seq<char>, r: Seq<char>)
    requires
        w.len() > 0,
        !crate::text::seq_contains_sub(s, w),
    ensures
        replace_all(s, w, r) == s,
    decreases s.len(),
{
    if s.len() >= w.len() {
        assert(s.take(w.len() as int) != w) by {
            if s.take(w.len() as int) == w {
                assert(s.subrange(0, w.len() as int) =~= s.take(w.len() as int));
                assert(occurs_at(s, w, 0));
            }
        }
        let t = s.drop_first();
        assert(!crate::text::seq_contains_sub(t, w)) by {
            if crate::text::seq_contains_sub(t, w) {
                let i = choose|i: int| occurs_at(t, w, i);
                assert(s.subrange(i + 1, i + 1 + w.len() as int) =~= t.subrange(i, i + w.len() as int));
                assert(occurs_at(s, w, i + 1));
            }
        }
        lemma_absent_word_unchanged(t, w, r);
        assert(seq![s[0]] + t =~= s);
    }
}

/// With no words the filter leaves every text unchanged.
pub proof fn lemma_no_words_unchanged(text: Seq<char>)
    ensures
        masked(text, Seq::<Seq<char>>::empty()) == text,
{
}

} // verus!
