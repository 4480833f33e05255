//! The digest function: a stateless, deterministic map from a candidate
//! string to a fixed-length lowercase hexadecimal digest.

use sha1::Digest;
use vstd::prelude::*;

verus! {

/// The hex-encoded one-way digest of a string, as a pure function of its
/// characters alone: the same characters give the same digest, in every call
/// and on every machine.
pub uninterp spec fn sha1_hex_of(s: Seq<char>) -> Seq<char>;

/// A lowercase hexadecimal digit — the only characters a digest contains.
pub open spec fn is_hex_lower(c: char) -> bool {
    ('0' <= c && c <= '9') || ('a' <= c && c <= 'f')
}

/// Relies on `sha1::Sha1` (`update`, then `finalize`): the 160-bit digest is
/// a deterministic function of the input bytes alone, and the `{:x}` hex
/// formatting of the 20-byte output emits exactly two lowercase hex digits
/// per byte.
#[verifier::external_body]
pub fn hash(password: &str) -> (r: String)
    ensures
        r@ == sha1_hex_of(password@),
        r@.len() == 40,
        forall|i: int| 0 <= i < r@.len() ==> is_hex_lower(#[trigger] r@[i]),
{
    let mut hasher = sha1::Sha1::new();
    hasher.update(password);
    format!("{:x}", hasher.finalize())
}

/// The digest is referentially transparent: its value depends on the input
/// characters and on nothing else, so repeated calls on equal strings agree.
pub proof fn lemma_digest_pure(s: Seq<char>, t: Seq<char>)
    requires
        s == t,
    ensures
        sha1_hex_of(s) == sha1_hex_of(t),
{
}

} // verus!
