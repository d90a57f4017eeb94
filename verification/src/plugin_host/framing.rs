//! The frames of the plugin socket protocol: a message is sent as its length
//! (four bytes, most significant first) followed by its bytes.
use vstd::prelude::*;

verus! {

/// The four bytes of `n`, most significant first.
pub open spec fn be_bytes(n: u32) -> Seq<u8> {
    seq![(n / 16777216) as u8, (n / 65536 % 256) as u8, (n / 256 % 256) as u8, (n % 256) as u8]
}

/// The number whose bytes, most significant first, are `b`.
pub open spec fn be_value(b: Seq<u8>) -> nat {
    b[0] as nat * 16777216 + b[1] as nat * 65536 + b[2] as nat * 256 + b[3] as nat
}

/// The length prefix of a message of `len` bytes (the length is written as a
/// 32-bit number, so it wraps for 4 GiB and more).
pub open spec fn prefix_of(len: nat) -> Seq<u8> {
    be_bytes((len % 4294967296) as u32)
}

/// The frame of `payload`: its length prefix, then its bytes.
pub fn encode_frame(payload: &Vec<u8>) -> (f: Vec<u8>)
    ensures
        f@ == prefix_of(payload@.len()) + payload@,
{
    let n: u32 = (payload.len() as u64 % 4294967296) as u32;
    let mut f: Vec<u8> = Vec::new();
    f.push((n / 16777216) as u8);
    f.push((n / 65536 % 256) as u8);
    f.push((n / 256 % 256) as u8);
    f.push((n % 256) as u8);
    let mut i: usize = 0;
    while i < payload.len()
        invariant
            i <= payload@.len(),
            f@ == be_bytes(n) + payload@.take(i as int),
        decreases payload.len() - i,
    {
        f.push(payload[i]);
        assert(payload@.take(i + 1) == payload@.take(i as int).push(payload@[i as int]));
        i += 1;
    }
    assert(payload@.take(payload@.len() as int) == payload@);
    f
}

/// The length announced by a frame's four-byte prefix.
pub fn frame_length(header: &[u8; 4]) -> (n: u32)
    ensures
        n == be_value(header@),
{
    let n: u32 = header[0] as u32 * 16777216 + header[1] as u32 * 65536 + header[2] as u32 * 256 + header[3] as u32;
    n
}

/// Reading back the prefix of a length gives the length (modulo 2^32).
pub proof fn lemma_prefix_roundtrip(n: u32)
    ensures
        be_value(be_bytes(n)) == n,
{
    assert(be_value(be_bytes(n)) == n) by (nonlinear_arith);
}

} // verus!
