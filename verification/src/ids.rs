//! Fresh identifiers and secrets drawn at random.
use rand::Rng;
use vstd::prelude::*;

use crate::text::push_char;

verus! {

/// A lowercase hexadecimal digit.
pub open spec fn is_lower_hex(c: char) -> bool {
    ('0' <= c && c <= '9') || ('a' <= c && c <= 'f')
}

/// An ASCII letter or digit.
pub open spec fn is_ascii_alphanumeric(c: char) -> bool {
    ('0' <= c && c <= '9') || ('a' <= c && c <= 'z') || ('A' <= c && c <= 'Z')
}

/// The shape of a hyphenated UUID: 36 characters, `-` at positions 8, 13, 18
/// and 23, lowercase hexadecimal digits elsewhere.
pub open spec fn is_hyphenated_uuid(s: Seq<char>) -> bool {
    &&& s.len() == 36
    &&& forall|i: int|
        0 <= i < 36 ==> if i == 8 || i == 13 || i == 18 || i == 23 {
            #[trigger] s[i] == '-'
        } else {
            is_lower_hex(s[i])
        }
}

/// A random version-4 UUID, as `uuid::Uuid::new_v4().to_string()` gives it.
/// The value is random; what is promised is the hyphenated lowercase form that
/// the crate's `Display` writes.
#[verifier::external_body]
pub(crate) fn random_uuid() -> (s: String)
    ensures
        is_hyphenated_uuid(s@),
{
    uuid::Uuid::new_v4().to_string()
}

/// A random ASCII letter or digit, drawn as
/// `rand::thread_rng().sample(Alphanumeric)` and turned into a `char`. The
/// value is random; what is promised is its alphabet (rand's `Alphanumeric`
/// samples from `A-Z`, `a-z` and `0-9`).
#[verifier::external_body]
fn random_alphanumeric() -> (c: char)
    ensures
        is_ascii_alphanumeric(c),
{
    char::from(rand::thread_rng().sample(rand::distributions::Alphanumeric))
}

/// A random secret of 32 ASCII letters and digits, one random character
/// at a time.
pub(crate) fn random_token() -> (s: String)
    ensures
        s@.len() == 32,
        forall|i: int| 0 <= i < 32 ==> is_ascii_alphanumeric(#[trigger] s@[i]),
{
    let mut s = String::new();
    let mut i: usize = 0;
    while i < 32
        invariant
            i <= 32,
            s@.len() == i,
            forall|j: int| 0 <= j < i ==> is_ascii_alphanumeric(#[trigger] s@[j]),
        decreases 32 - i,
    {
        let c = random_alphanumeric();
        push_char(&mut s, c);
        i += 1;
    }
    s
}

} // verus!
