//! The commitment primitive: SHA-1 over the UTF-8 bytes of a canonical
//! serialization.

use digest::Digest;
use sha1::Sha1;
use vstd::prelude::*;
use vstd::utf8::encode_utf8;

verus! {

/// SHA-1 is defined for messages shorter than 2^64 bits, that is 2^61 bytes.
pub const MESSAGE_LIMIT: u64 = 0x2000_0000_0000_0000;

/// The SHA-1 digest of a message.
pub uninterp spec fn sha1_digest(message: Seq<u8>) -> Seq<u8>;

/// Whether a serialization is short enough to have a digest.
pub open spec fn hashable(text: Seq<char>) -> bool {
    encode_utf8(text).len() < MESSAGE_LIMIT
}

/// The commitment to a canonical serialization.
pub open spec fn commitment_of(text: Seq<char>) -> Seq<u8> {
    sha1_digest(encode_utf8(text))
}

/// Feeds `message` to a fresh `sha1::Sha1` hasher (`Digest::update`) and takes
/// its output (`Digest::finalize`). Trusted: the twenty bytes that come back
/// are the SHA-1 digest of the message, a function of the message alone. The
/// hasher counts the message's bits in a `u64`, hence the bound.
#[verifier::external_body]
fn sha1_bytes(message: &[u8]) -> (digest: [u8; 20])
    requires
        message@.len() < MESSAGE_LIMIT,
    ensures
        digest@ == sha1_digest(message@),
{
    let mut hasher = Sha1::default();
    hasher.update(message);
    hasher.finalize().into()
}

/// Whether `text` is short enough to be committed to.
pub fn is_hashable(text: &str) -> (ok: bool)
    ensures
        ok == hashable(text@),
{
    let bytes = text.as_bytes();
    (bytes.len() as u64) < MESSAGE_LIMIT
}

/// Commits to a serialization.
pub fn hash_str(text: &str) -> (digest: [u8; 20])
    requires
        hashable(text@),
    ensures
        digest@ == commitment_of(text@),
{
    sha1_bytes(text.as_bytes())
}

/// Whether two commitments are the same.
pub fn same_digest(a: &[u8; 20], b: &[u8; 20]) -> (same: bool)
    ensures
        same == (a@ == b@),
{
    let mut i: usize = 0;
    while i < 20
        invariant
            i <= 20,
            forall|j: int| 0 <= j < i ==> a@[j] == b@[j],
        decreases 20 - i,
    {
        if a[i] != b[i] {
            return false;
        }
        i += 1;
    }
    assert(a@ =~= b@);
    true
}

/// Committing is a function of the serialization alone: whoever commits to
/// the same text, and whenever, gets the same commitment.
pub proof fn lemma_commitment_deterministic(first: Seq<char>, second: Seq<char>)
    requires
        first == second,
    ensures
        commitment_of(first) == commitment_of(second),
{
}

} // verus!
