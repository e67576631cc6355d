//! The replaying side: it holds commitments only and checks a tape against
//! them, entry by entry.

use crate::authref::Proof;
use crate::commitment::{hash_str, is_hashable, same_digest};
use crate::db::{tape_text, Db, Opened, Session};
use crate::error::AuthError;
use vstd::prelude::*;

verus! {

/// The database of the party that holds only commitments. It reads a
/// borrowed tape front to back and never goes back.
#[derive(Debug)]
pub struct Verifier<'at> {
    tape: &'at [String],
    cursor: usize,
}

impl<'at> Verifier<'at> {
    /// The tape being replayed, all of it.
    pub closed spec fn entries(&self) -> Seq<Seq<char>> {
        tape_text(self.tape@)
    }

    /// How many entries have been consumed.
    pub closed spec fn position(&self) -> nat {
        self.cursor as nat
    }

    /// The cursor never passes the end of the tape.
    #[verifier::type_invariant]
    pub open spec fn wf(&self) -> bool {
        self.position() <= self.entries().len()
    }

    /// A verifier at the start of `tape`.
    pub fn new(tape: &'at [String]) -> (verifier: Self)
        ensures
            verifier.entries() == tape_text(tape@),
            verifier.position() == 0,
    {
        Verifier { tape, cursor: 0 }
    }

    /// The next entry of the tape, if one is left; the cursor moves past it.
    pub fn next(&mut self) -> (entry: Option<&'at String>)
        ensures
            final(self).entries() == old(self).entries(),
            final(self).wf(),
            match entry {
                Some(text) => {
                    &&& old(self).position() < old(self).entries().len()
                    &&& text@ == old(self).entries()[old(self).position() as int]
                    &&& final(self).position() == old(self).position() + 1
                },
                None => {
                    &&& old(self).position() >= old(self).entries().len()
                    &&& final(self).position() == old(self).position()
                },
            },
    {
        proof {
            use_type_invariant(&*self);
        }
        if self.cursor < self.tape.len() {
            let entry = &self.tape[self.cursor];
            self.cursor += 1;
            Some(entry)
        } else {
            None
        }
    }
}

impl<'at> Clone for Verifier<'at> {
    /// A copy replays the same tape from where this verifier stands.
    fn clone(&self) -> (copy: Self)
        ensures
            copy.entries() == self.entries(),
            copy.position() == self.position(),
    {
        proof {
            use_type_invariant(self);
        }
        Verifier { tape: self.tape, cursor: self.cursor }
    }
}

impl<'at> Db for Verifier<'at> {
    open spec fn session(&self) -> Session {
        Session { owning: false, tape: self.entries(), cursor: self.position() }
    }

    fn auth<A>(&mut self, value: A, encoded: String) -> (proof: Proof<A>) {
        Proof::bare(hash_str(encoded.as_str()))
    }

    fn unauth<A>(&mut self, proof: Proof<A>) -> (opened: Result<Opened<A>, AuthError>) {
        let (_, expected) = proof.into_parts();
        match self.next() {
            None => Err(AuthError::TapeExhausted),
            Some(entry) => {
                if !is_hashable(entry.as_str()) {
                    return Err(AuthError::CommitmentMismatch);
                }
                let found = hash_str(entry.as_str());
                if same_digest(&found, &expected) {
                    Ok(Opened::Entry(entry.clone()))
                } else {
                    Err(AuthError::CommitmentMismatch)
                }
            },
        }
    }
}

} // verus!
