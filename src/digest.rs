//! SHA-256 digests and their hexadecimal text form.
use vstd::prelude::*;
use sha2::Digest;
use crate::text::{hex, lemma_hex_len, push_hex};

verus! {

/// The SHA-256 digest of the UTF-8 encoding of `s`.
pub uninterp spec fn sha256_of(s: Seq<char>) -> Seq<u8>;

/// Relies on `sha2::Sha256::digest`: the 32-byte SHA-256 digest of the
/// string's bytes, which depends on the string alone.
#[verifier::external_body]
fn sha256(s: &str) -> (r: Vec<u8>)
    ensures
        r@ == sha256_of(s@),
        r@.len() == 32,
{
    sha2::Sha256::digest(s.as_bytes()).to_vec()
}

/// The digest of `s` as 64 lower-case hexadecimal characters.
pub open spec fn hex_digest(s: Seq<char>) -> Seq<char> {
    hex(sha256_of(s))
}

/// Hashes `s` and renders the digest in lower-case hexadecimal.
pub fn hex_sha256(s: &str) -> (r: String)
    ensures
        r@ == hex_digest(s@),
        r@.len() == 64,
{
    let d = sha256(s);
    let mut r = String::new();
    push_hex(&mut r, d.as_slice());
    proof {
        lemma_hex_len(d@);
    }
    assert(r@ =~= hex_digest(s@));
    r
}

} // verus!
