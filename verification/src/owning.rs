//! The owning side: it holds the data and writes the disclosure tape.

use crate::authref::Proof;
use crate::db::{entry_matches, tape_text, Db, Opened, Session};
use crate::error::AuthError;
use crate::replay::Verifier;
use vstd::prelude::*;

verus! {

/// The database of the party that owns the data. Every proof it opens leaves
/// its serialization on the tape, in the order of the calls.
#[derive(Debug, Clone)]
pub struct Prover {
    tape: Vec<String>,
}

impl Prover {
    /// The tape written so far.
    pub closed spec fn entries(&self) -> Seq<Seq<char>> {
        tape_text(self.tape@)
    }

    /// A prover with an empty tape.
    pub fn new() -> (prover: Self)
        ensures
            prover.entries() == Seq::<Seq<char>>::empty(),
    {
        let prover = Prover { tape: Vec::new() };
        assert(prover.entries() =~= Seq::<Seq<char>>::empty());
        prover
    }

    /// The tape written so far, borrowed, in order.
    pub fn tape(&self) -> (tape: &[String])
        ensures
            tape_text(tape@) == self.entries(),
    {
        self.tape.as_slice()
    }

    /// A verifier that replays, from its start, the tape written so far.
    pub fn verify(&self) -> (verifier: Verifier<'_>)
        ensures
            verifier.entries() == self.entries(),
            verifier.position() == 0,
    {
        Verifier::new(self.tape.as_slice())
    }
}

impl Db for Prover {
    open spec fn session(&self) -> Session {
        Session { owning: true, tape: self.entries(), cursor: self.entries().len() }
    }

    fn auth<A>(&mut self, value: A, encoded: String) -> (proof: Proof<A>)
        ensures
            final(self).entries() == old(self).entries(),
    {
        Proof::retain(value, encoded)
    }

    fn unauth<A>(&mut self, proof: Proof<A>) -> (opened: Result<Opened<A>, AuthError>)
        ensures
            opened is Ok ==> final(self).entries().len() > 0 && entry_matches(
                final(self).entries().last(),
                proof.commitment(),
            ),
    {
        let (payload, _) = proof.into_parts();
        match payload {
            Some((value, encoded)) => {
                self.tape.push(encoded);
                assert(self.entries() =~= old(self).entries().push(encoded@));
                Ok(Opened::Value(value))
            },
            None => Err(AuthError::OpenOnUnauthenticatedProof),
        }
    }
}

} // verus!
