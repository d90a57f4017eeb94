//! Small decisions of the server: how a token is checked, when a replicated
//! write is retried, and which peers a message is forwarded to.
use vstd::prelude::*;

use crate::text::{chars_of, chars_slice, concat_str, string_from_chars};

verus! {

/// The authentication settings the server reads at run time.
pub struct AuthConfigLite {
    pub enabled: bool,
    pub center_url: String,
    pub timeout_ms: u64,
}

/// How a token is to be checked.
pub enum TokenCheck {
    /// The token is refused without asking anyone.
    Reject,
    /// The token is accepted without asking anyone.
    Accept,
    /// The token is valid when a GET of `url` with the token as the `token`
    /// query parameter succeeds within `timeout_ms`.
    AskCenter { url: String, timeout_ms: u64 },
}

/// `r` is how `token` is checked under `cfg`: an empty token is refused;
/// with no settings, or with authentication disabled, any other token is
/// accepted; otherwise the authentication center decides.
pub open spec fn checks_token(token: Seq<char>, cfg: Option<AuthConfigLite>, r: TokenCheck) -> bool {
    &&& token.len() == 0 ==> r is Reject
    &&& token.len() > 0 ==> match cfg {
        None => r is Accept,
        Some(c) => if !c.enabled {
            r is Accept
        } else {
            r matches TokenCheck::AskCenter { url, timeout_ms } && url@ == c.center_url@ + "/v1/sso/auth"@
                && timeout_ms == c.timeout_ms
        },
    }
}

/// How `token` is checked under `cfg`.
pub fn token_check(token: &str, cfg: &Option<AuthConfigLite>) -> (r: TokenCheck)
    ensures
        checks_token(token@, *cfg, r),
{
    if chars_of(token).len() == 0 {
        return TokenCheck::Reject;
    }
    match cfg {
        None => TokenCheck::Accept,
        Some(c) => {
            if !c.enabled {
                TokenCheck::Accept
            } else {
                TokenCheck::AskCenter { url: concat_str(c.center_url.as_str(), "/v1/sso/auth"), timeout_ms: c.timeout_ms }
            }
        },
    }
}

/// What follows an attempt to replicate a write.
#[derive(Clone, Copy, Debug, PartialEq, Eq, Structural)]
pub enum RetryStep {
    /// The write was replicated.
    Done,
    /// The retries are used up: the write failed.
    GiveUp,
    /// Wait this many milliseconds, then make attempt number `attempt + 1`.
    Wait(u64),
}

/// After attempt `attempt` (counting retries from 0) succeeded or not: done,
/// give up once `max_retries` retries were made, or wait `backoff_ms` times
/// the number of the next retry.
pub fn retry_step(ok: bool, attempt: u32, max_retries: u32, backoff_ms: u64) -> (r: RetryStep)
    requires
        attempt <= max_retries,
        backoff_ms * max_retries <= u64::MAX,
    ensures
        ok ==> r == RetryStep::Done,
        !ok && attempt >= max_retries ==> r == RetryStep::GiveUp,
        !ok && attempt < max_retries ==> r == RetryStep::Wait((backoff_ms * (attempt + 1)) as u64),
{
    if ok {
        return RetryStep::Done;
    }
    if attempt >= max_retries {
        return RetryStep::GiveUp;
    }
    let next: u64 = attempt as u64 + 1;
    assert(backoff_ms * next <= backoff_ms * max_retries) by (nonlinear_arith)
        requires
            next <= max_retries,
    ;
    RetryStep::Wait(backoff_ms * next)
}

/// White space as Unicode's `White_Space` property defines it.
pub open spec fn is_space(c: char) -> bool {
    ||| ('\u{9}' <= c && c <= '\u{d}')
    ||| c == ' '
    ||| c == '\u{85}'
    ||| c == '\u{a0}'
    ||| c == '\u{1680}'
    ||| ('\u{2000}' <= c && c <= '\u{200a}')
    ||| c == '\u{2028}'
    ||| c == '\u{2029}'
    ||| c == '\u{202f}'
    ||| c == '\u{205f}'
    ||| c == '\u{3000}'
}

fn space(c: char) -> (r: bool)
    ensures
        r == is_space(c),
{
    ('\u{9}' <= c && c <= '\u{d}') || c == ' ' || c == '\u{85}' || c == '\u{a0}' || c == '\u{1680}'
        || ('\u{2000}' <= c && c <= '\u{200a}') || c == '\u{2028}' || c == '\u{2029}' || c == '\u{202f}'
        || c == '\u{205f}' || c == '\u{3000}'
}

/// `s` without its leading white space.
pub open spec fn trim_start(s: Seq<char>) -> Seq<char>
    decreases s.len(),
{
    if s.len() > 0 && is_space(s[0]) {
        trim_start(s.drop_first())
    } else {
        s
    }
}

/// `s` without its trailing white space.
pub open spec fn trim_end(s: Seq<char>) -> Seq<char>
    decreases s.len(),
{
    if s.len() > 0 && is_space(s.last()) {
        trim_end(s.drop_last())
    } else {
        s
    }
}

/// `s` without its leading and trailing white space.
pub open spec fn trimmed(s: Seq<char>) -> Seq<char> {
    trim_end(trim_start(s))
}

/// `s` without its leading and trailing white space.
pub fn trim_chars(s: &Vec<char>) -> (r: Vec<char>)
    ensures
        r@ == trimmed(s@),
{
    let n = s.len();
    let mut i: usize = 0;
    assert(s@.subrange(0, n as int) =~= s@);
    while i < n && space(s[i])
        invariant
            i <= n,
            n == s@.len(),
            trim_start(s@) == trim_start(s@.subrange(i as int, n as int)),
        decreases n - i,
    {
        assert(s@.subrange(i as int, n as int).drop_first() == s@.subrange(i + 1, n as int));
        i += 1;
    }
    let t = chars_slice(s, i, n);
    assert(trim_start(s@) == t@);
    let mut j: usize = t.len();
    assert(t@.subrange(0, j as int) =~= t@);
    while j > 0 && space(t[j - 1])
        invariant
            j <= t@.len(),
            trim_end(t@) == trim_end(t@.subrange(0, j as int)),
        decreases j,
    {
        assert(t@.subrange(0, j as int).drop_last() == t@.subrange(0, j - 1));
        j -= 1;
    }
    let r = chars_slice(&t, 0, j);
    r
}

/// The pieces of `s` between its commas (one piece when there is no comma).
pub open spec fn comma_split(s: Seq<char>) -> Seq<Seq<char>>
    decreases s.len(),
{
    if s.len() == 0 {
        seq![Seq::<char>::empty()]
    } else {
        let r = comma_split(s.drop_last());
        if s.last() == ',' {
            r.push(Seq::<char>::empty())
        } else {
            r.update(r.len() - 1, r[r.len() - 1].push(s.last()))
        }
    }
}

proof fn lemma_comma_split_nonempty(s: Seq<char>)
    ensures
        comma_split(s).len() >= 1,
    decreases s.len(),
{
    if s.len() > 0 {
        lemma_comma_split_nonempty(s.drop_last());
    }
}

/// The peers listed in `s`: its comma-separated pieces, trimmed, without the
/// empty ones.
pub open spec fn peers_of(s: Seq<char>) -> Seq<Seq<char>> {
    comma_split(s).map_values(|p: Seq<char>| trimmed(p)).filter(|p: Seq<char>| p.len() > 0)
}

/// The peers listed in `s`: its comma-separated pieces, trimmed, without the
/// empty ones, in order.
pub fn split_peers(s: &str) -> (r: Vec<String>)
    ensures
        r@.map_values(|x: String| x@) == peers_of(s@),
{
    let cs = chars_of(s);
    let mut pieces: Vec<Vec<char>> = Vec::new();
    pieces.push(Vec::new());
    let mut i: usize = 0;
    proof {
        assert(cs@.take(0) =~= Seq::<char>::empty());
        assert(pieces@.map_values(|p: Vec<char>| p@) =~= comma_split(cs@.take(0)));
    }
    while i < cs.len()
        invariant
            i <= cs@.len(),
            pieces@.len() >= 1,
            pieces@.map_values(|p: Vec<char>| p@) == comma_split(cs@.take(i as int)),
        decreases cs.len() - i,
    {
        let c = cs[i];
        let ghost before = pieces@.map_values(|p: Vec<char>| p@);
        proof {
            assert(cs@.take(i + 1).drop_last() =~= cs@.take(i as int));
            assert(cs@.take(i + 1).last() == c);
            lemma_comma_split_nonempty(cs@.take(i as int));
        }
        if c == ',' {
            pieces.push(Vec::new());
            assert(pieces@.map_values(|p: Vec<char>| p@) =~= before.push(Seq::<char>::empty()));
        } else {
            let last = pieces.len() - 1;
            let mut p = pieces.remove(last);
            p.push(c);
            pieces.push(p);
            assert(pieces@.map_values(|p: Vec<char>| p@) =~= before.update(before.len() - 1, before[before.len() - 1].push(c)));
        }
        i += 1;
    }
    assert(cs@.take(cs@.len() as int) =~= cs@);
    let mut out: Vec<String> = Vec::new();
    let mut k: usize = 0;
    let ghost pv = pieces@.map_values(|p: Vec<char>| p@);
    let ghost tv = pv.map_values(|p: Seq<char>| trimmed(p));
    while k < pieces.len()
        invariant
            k <= pieces@.len(),
            pv == pieces@.map_values(|p: Vec<char>| p@),
            tv == pv.map_values(|p: Seq<char>| trimmed(p)),
            out@.map_values(|x: String| x@) == tv.take(k as int).filter(|p: Seq<char>| p.len() > 0),
        decreases pieces.len() - k,
    {
        let t = trim_chars(&pieces[k]);
        proof {
            assert(tv.take(k + 1).drop_last() =~= tv.take(k as int));
            assert(tv.take(k + 1).last() == t@);
            reveal(Seq::filter);
        }
        if t.len() > 0 {
            let st = string_from_chars(&t);
            out.push(st);
            assert(out@.map_values(|x: String| x@) =~= tv.take(k as int).filter(|p: Seq<char>| p.len() > 0).push(t@));
        }
        k += 1;
    }
    assert(tv.take(pieces@.len() as int) =~= tv);
    out
}

} // verus!
