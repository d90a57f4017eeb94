//! Start-up settings of the server: development plugins given as
//! `name:path`, the plugin socket path, and the authentication settings.
use vstd::prelude::*;

use crate::server::policy::{trim_chars, trimmed, AuthConfigLite};
use crate::text::{
    chars_ends_with, chars_of, chars_slice, chars_starts_with, concat_str, seq_ends_with, seq_starts_with, string_from_chars,
};

verus! {

/// The position of the first `:` in `s`, if any.
pub open spec fn first_colon(s: Seq<char>) -> Option<int>
    decreases s.len(),
{
    if s.len() == 0 {
        None
    } else if s[0] == ':' {
        Some(0)
    } else {
        match first_colon(s.drop_first()) {
            Some(i) => Some(i + 1),
            None => None,
        }
    }
}

proof fn lemma_first_colon_bounds(s: Seq<char>)
    ensures
        first_colon(s) matches Some(i) ==> 0 <= i < s.len() && s[i] == ':' && !s.take(i).contains(':'),
        first_colon(s) is None ==> !s.contains(':'),
    decreases s.len(),
{
    if s.len() > 0 && s[0] != ':' {
        lemma_first_colon_bounds(s.drop_first());
        if let Some(i) = first_colon(s.drop_first()) {
            assert(s.take(i + 1) =~= seq![s[0]] + s.drop_first().take(i));
        } else {
            assert forall|j: int| 0 <= j < s.len() implies s[j] != ':' by {
                if j > 0 {
                    assert(s[j] == s.drop_first()[j - 1]);
                }
            }
        }
    } else if s.len() > 0 {
        assert(s.take(0) =~= Seq::<char>::empty());
    }
}

/// A development plugin given as `name:path`, split at its first `:`.
pub fn parse_dev_plugin(spec: &str) -> (r: Option<(String, String)>)
    ensures
        match first_colon(spec@) {
            Some(i) => r matches Some(p) && p.0@ == spec@.take(i) && p.1@ == spec@.skip(i + 1),
            None => r is None,
        },
{
    let cs = chars_of(spec);
    proof {
        lemma_first_colon_bounds(spec@);
    }
    let mut i: usize = 0;
    while i < cs.len()
        invariant
            i <= cs@.len(),
            cs@ == spec@,
            forall|j: int| 0 <= j < i ==> cs@[j] != ':',
        decreases cs.len() - i,
    {
        if cs[i] == ':' {
            proof {
                lemma_colon_at(spec@, i as int);
            }
            let name = chars_slice(&cs, 0, i);
            let path = chars_slice(&cs, i + 1, cs.len());
            assert(name@ =~= spec@.take(i as int));
            assert(path@ =~= spec@.skip(i + 1));
            return Some((string_from_chars(&name), string_from_chars(&path)));
        }
        i += 1;
    }
    proof {
        if first_colon(spec@) is Some {
            let k = first_colon(spec@)->0;
            assert(cs@[k] == ':');
        }
    }
    None
}

proof fn lemma_colon_at(s: Seq<char>, i: int)
    requires
        0 <= i < s.len(),
        s[i] == ':',
        forall|j: int| 0 <= j < i ==> s[j] != ':',
    ensures
        first_colon(s) == Some(i),
    decreases i,
{
    if i > 0 {
        lemma_colon_at(s.drop_first(), i - 1);
    }
}

/// `rest` joined under `base` as a path: an absolute `rest` replaces `base`;
/// otherwise a `/` separates them unless `base` is empty or ends with one.
pub open spec fn join_path(base: Seq<char>, rest: Seq<char>) -> Seq<char> {
    if seq_starts_with(rest, "/"@) || base.len() == 0 {
        rest
    } else if seq_ends_with(base, "/"@) {
        base + rest
    } else {
        base + "/"@ + rest
    }
}

/// `path` with a leading `~/` replaced by the home directory, when there is
/// one; other paths are kept.
pub open spec fn expanded(path: Seq<char>, home: Option<Seq<char>>) -> Seq<char> {
    if seq_starts_with(path, "~/"@) && home is Some {
        join_path(home->0, path.skip(2))
    } else {
        path
    }
}

/// `path` with a leading `~/` replaced by the home directory `home`.
pub fn expand_home(path: &str, home: Option<String>) -> (r: String)
    ensures
        r@ == expanded(path@, crate::storage::opt_view(home)),
{
    let cs = chars_of(path);
    let tilde = chars_of("~/");
    proof {
        reveal_strlit("~/");
        reveal_strlit("/");
        assert("/"@ =~= seq!['/']);
    }
    if chars_starts_with(&cs, &tilde) {
        match home {
            Some(h) => {
                let rest = chars_slice(&cs, 2, cs.len());
                assert(rest@ =~= path@.skip(2));
                let hc = chars_of(h.as_str());
                let rest_abs = rest.len() > 0 && rest[0] == '/';
                assert(rest_abs == seq_starts_with(rest@, "/"@)) by {
                    if rest@.len() > 0 {
                        assert(rest@.take(1) =~= seq![rest@[0]]);
                        if rest@[0] == '/' {
                            assert(rest@.take(1) =~= "/"@);
                        } else {
                            assert(rest@.take(1)[0] != "/"@[0]);
                        }
                    }
                }
                if rest_abs || hc.len() == 0 {
                    string_from_chars(&rest)
                } else if hc[hc.len() - 1] == '/' {
                    assert(seq_ends_with(hc@, "/"@)) by {
                        assert(hc@.skip(hc@.len() - 1) =~= seq!['/']);
                        assert(hc@.skip(hc@.len() - 1) =~= "/"@);
                    }
                    let joined = crate::text::chars_concat(&hc, &rest);
                    string_from_chars(&joined)
                } else {
                    assert(!seq_ends_with(hc@, "/"@)) by {
                        if seq_ends_with(hc@, "/"@) {
                            assert(hc@.skip(hc@.len() - 1)[0] == hc@[hc@.len() - 1]);
                        }
                    }
                    let with_sep = concat_str(h.as_str(), "/");
                    let rs = string_from_chars(&rest);
                    concat_str(with_sep.as_str(), rs.as_str())
                }
            },
            None => path.to_string(),
        }
    } else {
        path.to_string()
    }
}

/// `rest` joined under `base` as a path.
pub fn join_under(base: &str, rest: &str) -> (r: String)
    ensures
        r@ == join_path(base@, rest@),
{
    let rc = chars_of(rest);
    let bc = chars_of(base);
    let slash = chars_of("/");
    if chars_starts_with(&rc, &slash) || bc.len() == 0 {
        rest.to_string()
    } else if chars_ends_with(&bc, &slash) {
        concat_str(base, rest)
    } else {
        let with_sep = concat_str(base, "/");
        concat_str(with_sep.as_str(), rest)
    }
}

/// The socket a plugin is launched with, and whether it is the plugin's own:
/// the shared socket when there is one (not owned), otherwise
/// `<socket_dir>/<name>.sock` (owned by the plugin).
pub fn launch_socket(shared_socket: &Option<String>, socket_dir: &str, name: &str) -> (r: (String, bool))
    ensures
        match shared_socket {
            Some(p) => r.0@ == p@ && !r.1,
            None => r.0@ == join_path(socket_dir@, name@ + ".sock"@) && r.1,
        },
{
    match shared_socket {
        Some(p) => (p.clone(), false),
        None => {
            let file = concat_str(name, ".sock");
            (join_under(socket_dir, file.as_str()), true)
        },
    }
}

/// The plugin socket path: the configured one when it is not blank,
/// otherwise `<plugin_dir>/sockets/runtime.sock`.
pub fn plugin_socket_path(configured: Option<String>, plugin_dir: &str) -> (r: String)
    ensures
        r@ == match configured {
            Some(p) => if trimmed(p@).len() > 0 { p@ } else { plugin_dir@ + "/sockets/runtime.sock"@ },
            None => plugin_dir@ + "/sockets/runtime.sock"@,
        },
{
    match configured {
        Some(p) => {
            let t = trim_chars(&chars_of(p.as_str()));
            if t.len() > 0 {
                p
            } else {
                concat_str(plugin_dir, "/sockets/runtime.sock")
            }
        },
        None => concat_str(plugin_dir, "/sockets/runtime.sock"),
    }
}

/// The directory of the plugins' own sockets.
pub fn socket_dir_of(plugin_dir: &str) -> (r: String)
    ensures
        r@ == plugin_dir@ + "/sockets"@,
{
    concat_str(plugin_dir, "/sockets")
}

/// The authentication settings: present only when authentication is enabled.
pub fn auth_config_from(enabled: bool, center_url: String, timeout_ms: u64) -> (r: Option<AuthConfigLite>)
    ensures
        enabled ==> (r matches Some(c) && c.enabled && c.center_url@ == center_url@ && c.timeout_ms == timeout_ms),
        !enabled ==> r is None,
{
    if enabled {
        Some(AuthConfigLite { enabled, center_url, timeout_ms })
    } else {
        None
    }
}

} // verus!
