//! Content hashing: the SHA-256 digest of a byte sequence, rendered as the
//! usual 64-character lowercase hex string. The digest itself comes from the
//! sha2 crate; the hex rendering is verified here.

use vstd::prelude::*;
use vstd::utf8::is_ascii_chars;
use crate::strutil::{ascii_bytes_to_string, ascii_seq};

verus! {

/// What `sha2::Sha256` returns: a function of the input bytes alone.
pub uninterp spec fn sha256_of(b: Seq<u8>) -> Seq<u8>;

/// Relies on `sha2::Sha256` through `Digest::update` and `Digest::finalize`:
/// the digest depends on the input bytes alone and is 32 bytes long.
#[verifier::external_body]
fn sha256_digest(content: &[u8]) -> (r: Vec<u8>)
    ensures
        r@ == sha256_of(content@),
        r@.len() == 32,
{
    let mut hasher = <sha2::Sha256 as sha2::Digest>::new();
    sha2::Digest::update(&mut hasher, content);
    sha2::Digest::finalize(hasher).to_vec()
}

/// The ASCII byte of one hex digit, lowercase.
pub open spec fn hex_digit(n: u8) -> u8
    recommends
        n < 16,
{
    if n < 10 {
        (48 + n) as u8
    } else {
        (87 + n) as u8
    }
}

/// Two hex digits per byte, high nibble first.
pub open spec fn hex_bytes(b: Seq<u8>) -> Seq<u8> {
    Seq::new(
        b.len() * 2,
        |i: int|
            if i % 2 == 0 {
                hex_digit((b[i / 2] / 16) as u8)
            } else {
                hex_digit((b[i / 2] % 16) as u8)
            },
    )
}

/// The hex digest string of a byte sequence: SHA-256, then lowercase hex.
pub open spec fn sha256_hex(b: Seq<u8>) -> Seq<char> {
    ascii_seq(hex_bytes(sha256_of(b)))
}

/// Renders bytes as lowercase hex, two digits per byte.
pub fn hex_string(b: &[u8]) -> (r: String)
    ensures
        r@ == ascii_seq(hex_bytes(b@)),
        r@.len() == b@.len() * 2,
        is_ascii_chars(r@),
{
    let mut out: Vec<u8> = Vec::new();
    let mut i: usize = 0;
    while i < b.len()
        invariant
            i <= b@.len(),
            out@ =~= hex_bytes(b@.take(i as int)),
        decreases b@.len() - i,
    {
        let x = b[i];
        out.push(hex_digit_exec(x / 16));
        out.push(hex_digit_exec(x % 16));
        i += 1;
        proof {
            assert(out@ =~= hex_bytes(b@.take(i as int)));
        }
    }
    proof {
        assert(b@.take(b@.len() as int) =~= b@);
        assert(forall|j: int| 0 <= j < out@.len() ==> out@[j] < 128) by {
            assert(forall|n: u8| n < 16 ==> #[trigger] hex_digit(n) < 128);
        }
    }
    ascii_bytes_to_string(out.as_slice())
}

fn hex_digit_exec(n: u8) -> (r: u8)
    requires
        n < 16,
    ensures
        r == hex_digit(n),
{
    if n < 10 {
        48 + n
    } else {
        87 + n
    }
}

/// The hex digest of a byte sequence, fit for use as an object identity.
pub fn digest_hex(content: &[u8]) -> (r: String)
    ensures
        r@ == sha256_hex(content@),
        r@.len() == 64,
        is_ascii_chars(r@),
{
    let d = sha256_digest(content);
    hex_string(d.as_slice())
}

/// Hashing is deterministic: equal byte sequences always map to the same
/// digest string, across calls and processes alike.
pub proof fn lemma_hash_deterministic(a: Seq<u8>, b: Seq<u8>)
    requires
        a == b,
    ensures
        sha256_hex(a) == sha256_hex(b),
{
}

} // verus!
