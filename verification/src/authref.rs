//! The authenticated reference: a commitment, with the value it commits to
//! wherever the holder has that value.

use crate::commitment::{commitment_of, hash_str, hashable, same_digest};
use crate::error::AuthError;
use crate::hexcode::{hex_bytes, hex_decode, hex_encode, hex_text, is_hex_text};
use core::cmp::Ordering;
use vstd::prelude::*;
use vstd::std_specs::cmp::{PartialEqSpec, PartialOrdSpec};

verus! {

/// A commitment to a value of type `A`, optionally carrying that value
/// together with the canonical serialization the commitment was made from.
///
/// Comparison looks at the commitment alone.
#[derive(Debug)]
pub struct Proof<A> {
    value: Option<(A, String)>,
    hash: [u8; 20],
}

/// Whether `a` comes before `b` bytewise: at the first place where they
/// differ, `a` holds the smaller byte. Commitments are all of one length, so
/// neither can be the beginning of another.
pub open spec fn digest_precedes(a: Seq<u8>, b: Seq<u8>) -> bool {
    exists|k: int|
        0 <= k < a.len() && k < b.len() && #[trigger] a[k] < b[k] && forall|j: int|
            0 <= j < k ==> a[j] == b[j]
}

/// How two commitments stand to each other, bytewise.
pub open spec fn digest_order(a: Seq<u8>, b: Seq<u8>) -> Ordering {
    if a == b {
        Ordering::Equal
    } else if digest_precedes(a, b) {
        Ordering::Less
    } else {
        Ordering::Greater
    }
}

/// Orders two commitments bytewise.
pub fn order_digests(a: &[u8; 20], b: &[u8; 20]) -> (order: Ordering)
    ensures
        order == digest_order(a@, b@),
{
    let mut i: usize = 0;
    while i < 20
        invariant
            i <= 20,
            forall|j: int| 0 <= j < i ==> a@[j] == b@[j],
        decreases 20 - i,
    {
        if a[i] < b[i] {
            assert(a@ != b@);
            return Ordering::Less;
        }
        if a[i] > b[i] {
            assert(a@ != b@);
            assert(!digest_precedes(a@, b@));
            return Ordering::Greater;
        }
        i += 1;
    }
    assert(a@ =~= b@);
    Ordering::Equal
}

impl<A> Proof<A> {
    /// The commitment, twenty bytes.
    pub closed spec fn commitment(&self) -> Seq<u8> {
        self.hash@
    }

    /// The value carried, if any, with its canonical serialization.
    pub closed spec fn payload(&self) -> Option<(A, Seq<char>)> {
        match self.value {
            Some((value, encoded)) => Some((value, encoded@)),
            None => None,
        }
    }

    /// A payload, where there is one, is what the commitment commits to.
    #[verifier::type_invariant]
    pub open spec fn wf(&self) -> bool {
        &&& self.commitment().len() == 20
        &&& self.payload() matches Some(carried) ==> {
            &&& hashable(carried.1)
            &&& self.commitment() == commitment_of(carried.1)
        }
    }

    /// Commits to `encoded` and keeps `value` with it.
    pub(crate) fn retain(value: A, encoded: String) -> (proof: Proof<A>)
        requires
            hashable(encoded@),
        ensures
            proof.commitment() == commitment_of(encoded@),
            proof.payload() == Some((value, encoded@)),
            proof.wf(),
    {
        let hash = hash_str(encoded.as_str());
        Proof { value: Some((value, encoded)), hash }
    }

    /// A proof of the given commitment that carries nothing.
    pub(crate) fn bare(hash: [u8; 20]) -> (proof: Proof<A>)
        ensures
            proof.commitment() == hash@,
            proof.payload() is None,
            proof.wf(),
    {
        Proof { value: None, hash }
    }

    /// Takes the proof apart.
    pub(crate) fn into_parts(self) -> (parts: (Option<(A, String)>, [u8; 20]))
        ensures
            parts.1@ == self.commitment(),
            match parts.0 {
                Some((value, encoded)) => self.payload() == Some((value, encoded@)),
                None => self.payload() is None,
            },
            self.wf(),
    {
        proof {
            use_type_invariant(&self);
        }
        (self.value, self.hash)
    }

    /// The commitment's bytes.
    pub fn digest(&self) -> (bytes: [u8; 20])
        ensures
            bytes@ == self.commitment(),
    {
        self.hash
    }

    /// Whether the proof carries its value.
    pub fn has_payload(&self) -> (held: bool)
        ensures
            held == self.payload().is_some(),
    {
        self.value.is_some()
    }

    /// The commitment as lowercase hexadecimal text: the one form in which a
    /// proof is written out, whatever encodes the structure around it.
    pub fn to_hex(&self) -> (text: String)
        ensures
            text@ == hex_text(self.commitment()),
            text@.len() == 40,
            is_hex_text(text@),
            hex_bytes(text@) == self.commitment(),
    {
        proof {
            crate::hexcode::lemma_hex_round_trip(self.commitment());
        }
        hex_encode(&self.hash)
    }

    /// Reads a proof back from hexadecimal text. What comes back carries no
    /// payload: it has to be opened through a database.
    pub fn from_hex(text: &str) -> (parsed: Result<Proof<A>, AuthError>)
        ensures
            parsed is Ok <==> is_hex_text(text@) && text@.len() == 40,
            parsed matches Ok(proof) ==> {
                &&& proof.commitment() == hex_bytes(text@)
                &&& proof.payload() is None
            },
            parsed matches Err(e) ==> e == AuthError::SerializationFailure,
    {
        match hex_decode(text) {
            Ok(bytes) => {
                if bytes.len() != 20 {
                    return Err(AuthError::SerializationFailure);
                }
                let mut hash = [0u8; 20];
                let mut i: usize = 0;
                while i < 20
                    invariant
                        i <= 20,
                        bytes@.len() == 20,
                        forall|j: int| 0 <= j < i ==> hash@[j] == bytes@[j],
                    decreases 20 - i,
                {
                    hash[i] = bytes[i];
                    i += 1;
                }
                assert(hash@ =~= bytes@);
                Ok(Proof::bare(hash))
            },
            Err(_) => Err(AuthError::SerializationFailure),
        }
    }
}

impl<A> PartialEq for Proof<A> {
    fn eq(&self, other: &Self) -> (same: bool) {
        same_digest(&self.hash, &other.hash)
    }
}

impl<A> vstd::std_specs::cmp::PartialEqSpecImpl for Proof<A> {
    open spec fn obeys_eq_spec() -> bool {
        true
    }

    open spec fn eq_spec(&self, other: &Self) -> bool {
        self.commitment() == other.commitment()
    }
}

impl<A> Eq for Proof<A> {

}

impl<A> PartialOrd for Proof<A> {
    fn partial_cmp(&self, other: &Self) -> (order: Option<Ordering>) {
        Some(order_digests(&self.hash, &other.hash))
    }
}

impl<A> vstd::std_specs::cmp::PartialOrdSpecImpl for Proof<A> {
    open spec fn obeys_partial_cmp_spec() -> bool {
        true
    }

    open spec fn partial_cmp_spec(&self, other: &Self) -> Option<Ordering> {
        Some(digest_order(self.commitment(), other.commitment()))
    }
}

impl<A: Clone> Clone for Proof<A> {
    /// A copy commits to the same thing, and carries a payload with the same
    /// serialization where the proof it was made from carries one.
    fn clone(&self) -> (copy: Self)
        ensures
            copy.commitment() == self.commitment(),
            match self.payload() {
                Some(carried) => copy.payload() matches Some(copied) && copied.1 == carried.1,
                None => copy.payload() is None,
            },
    {
        proof {
            use_type_invariant(self);
        }
        let value = match &self.value {
            Some((value, encoded)) => Some((value.clone(), encoded.clone())),
            None => None,
        };
        Proof { value, hash: self.hash }
    }
}

/// Comparison looks at the commitment and at nothing else: two proofs of one
/// commitment are equal and neither comes before the other, whether or not
/// either carries a payload and whatever that payload is.
pub proof fn lemma_comparison_ignores_payload<A>(p: Proof<A>, q: Proof<A>)
    requires
        p.commitment() == q.commitment(),
    ensures
        p.eq_spec(&q),
        p.partial_cmp_spec(&q) == Some(Ordering::Equal),
{
}

/// Proofs that compare equal have the same commitment.
pub proof fn lemma_equal_proofs_commit_alike<A>(p: Proof<A>, q: Proof<A>)
    requires
        p.eq_spec(&q),
    ensures
        p.commitment() == q.commitment(),
        p.partial_cmp_spec(&q) == Some(Ordering::Equal),
{
}

/// Two different commitments of one length differ at some first place.
proof fn lemma_first_difference(a: Seq<u8>, b: Seq<u8>, from: int) -> (k: int)
    requires
        a.len() == b.len(),
        a != b,
        0 <= from <= a.len(),
        forall|j: int| 0 <= j < from ==> a[j] == b[j],
    ensures
        0 <= k < a.len(),
        a[k] != b[k],
        forall|j: int| 0 <= j < k ==> a[j] == b[j],
    decreases a.len() - from,
{
    if from == a.len() {
        assert(a =~= b);
        0
    } else if a[from] != b[from] {
        from
    } else {
        lemma_first_difference(a, b, from + 1)
    }
}

/// The bytewise order is total: of two commitments exactly one comes first,
/// unless they are the same, and turning the pair around turns the answer
/// around.
pub proof fn lemma_digest_order_total(a: Seq<u8>, b: Seq<u8>)
    requires
        a.len() == b.len(),
    ensures
        digest_order(a, b) == Ordering::Equal <==> a == b,
        digest_order(a, b) == Ordering::Less <==> digest_order(b, a) == Ordering::Greater,
        digest_order(a, b) == Ordering::Greater <==> digest_order(b, a) == Ordering::Less,
{
    if a != b {
        let k = lemma_first_difference(a, b, 0);
        if a[k] < b[k] {
            assert(digest_precedes(a, b));
            assert(!digest_precedes(b, a));
        } else {
            assert(b[k] < a[k]);
            assert(digest_precedes(b, a));
            assert(!digest_precedes(a, b));
        }
    }
}

/// The bytewise order is transitive.
pub proof fn lemma_digest_order_transitive(a: Seq<u8>, b: Seq<u8>, c: Seq<u8>)
    requires
        a.len() == b.len(),
        b.len() == c.len(),
        digest_precedes(a, b),
        digest_precedes(b, c),
    ensures
        digest_precedes(a, c),
{
    let k1 = choose|k: int|
        0 <= k < a.len() && k < b.len() && #[trigger] a[k] < b[k] && forall|j: int|
            0 <= j < k ==> a[j] == b[j];
    let k2 = choose|k: int|
        0 <= k < b.len() && k < c.len() && #[trigger] b[k] < c[k] && forall|j: int|
            0 <= j < k ==> b[j] == c[j];
    let k = if k1 <= k2 {
        k1
    } else {
        k2
    };
    assert(a[k] < c[k]);
    assert(forall|j: int| 0 <= j < k ==> a[j] == c[j]);
}

/// A proof written out as text and read back is a proof of the same
/// commitment, and so compares equal to the one that was written.
pub proof fn lemma_written_proof_reads_back<A>(p: Proof<A>)
    ensures
        is_hex_text(hex_text(p.commitment())),
        hex_text(p.commitment()).len() == 40,
        hex_bytes(hex_text(p.commitment())) == p.commitment(),
{
    crate::hexcode::lemma_hex_round_trip(p.commitment());
}

} // verus!
