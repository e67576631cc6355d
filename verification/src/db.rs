//! The database capability: the two operations that traversal code is written
//! against, and what each of them does to a session.

use crate::authref::Proof;
use crate::commitment::{commitment_of, hashable};
use crate::error::AuthError;
use vstd::prelude::*;

verus! {

/// What a database looks like from outside: which side it is on, the
/// disclosure tape, and how far along that tape it is.
pub struct Session {
    /// Whether the database owns the data, and so writes the tape.
    pub owning: bool,
    /// The serializations disclosed, in the order they were opened.
    pub tape: Seq<Seq<char>>,
    /// How many entries have been written or consumed.
    pub cursor: nat,
}

/// The text of each entry of a tape, in order.
pub open spec fn tape_text(tape: Seq<String>) -> Seq<Seq<char>> {
    tape.map_values(|entry: String| entry@)
}

/// What opening a proof yields.
#[derive(Debug)]
pub enum Opened<A> {
    /// The value itself, from the side that owns it.
    Value(A),
    /// The value's serialization, checked against the commitment, from the
    /// side that replays a tape. It remains to be parsed.
    Entry(String),
}

/// What opening a proof yields, as a mathematical value.
pub enum Outcome<A> {
    /// The value itself.
    Value(A),
    /// The text of the entry that was disclosed.
    Entry(Seq<char>),
}

impl<A> View for Opened<A> {
    type V = Outcome<A>;

    open spec fn view(&self) -> Outcome<A> {
        match self {
            Opened::Value(value) => Outcome::Value(*value),
            Opened::Entry(text) => Outcome::Entry(text@),
        }
    }
}

/// The result of `unauth` as a mathematical value.
pub open spec fn outcome_of<A>(opened: Result<Opened<A>, AuthError>) -> Result<
    Outcome<A>,
    AuthError,
> {
    match opened {
        Ok(o) => Ok(o@),
        Err(e) => Err(e),
    }
}

/// The payload a proof gets when it is made in `session` from `value` and its
/// serialization: the owning side keeps both, the replaying side keeps nothing.
pub open spec fn auth_payload<A>(session: Session, value: A, encoded: Seq<char>) -> Option<
    (A, Seq<char>),
> {
    if session.owning {
        Some((value, encoded))
    } else {
        None
    }
}

/// Whether a disclosed entry is what `commitment` commits to.
pub open spec fn entry_matches(entry: Seq<char>, commitment: Seq<u8>) -> bool {
    hashable(entry) && commitment_of(entry) == commitment
}

/// One `unauth`: the session it leaves and what it returns, for a proof with
/// the given commitment and payload.
///
/// The owning side hands out the payload and appends its serialization to the
/// tape; without a payload it fails and changes nothing. The replaying side
/// fails once the tape is used up; otherwise it consumes one entry, and hands
/// it out if and only if it hashes to the commitment.
pub open spec fn open_step<A>(
    session: Session,
    commitment: Seq<u8>,
    payload: Option<(A, Seq<char>)>,
) -> (Session, Result<Outcome<A>, AuthError>) {
    if session.owning {
        match payload {
            Some((value, encoded)) => (
                Session {
                    owning: true,
                    tape: session.tape.push(encoded),
                    cursor: session.cursor + 1,
                },
                Ok(Outcome::Value(value)),
            ),
            None => (session, Err(AuthError::OpenOnUnauthenticatedProof)),
        }
    } else if session.cursor >= session.tape.len() {
        (session, Err(AuthError::TapeExhausted))
    } else {
        let entry = session.tape[session.cursor as int];
        let advanced = Session {
            owning: false,
            tape: session.tape,
            cursor: session.cursor + 1,
        };
        if entry_matches(entry, commitment) {
            (advanced, Ok(Outcome::Entry(entry)))
        } else {
            (advanced, Err(AuthError::CommitmentMismatch))
        }
    }
}

/// The capability that traversal code is written against.
///
/// A value enters together with its canonical serialization, and the
/// replaying side hands serializations back: turning values into text and
/// text into values is the caller's part.
pub trait Db {
    /// The session as seen from outside.
    spec fn session(&self) -> Session;

    /// Wraps `value`, committing to `encoded`, its canonical serialization.
    /// The database itself is left as it was.
    fn auth<A>(&mut self, value: A, encoded: String) -> (proof: Proof<A>)
        requires
            hashable(encoded@),
        ensures
            final(self).session() == old(self).session(),
            proof.commitment() == commitment_of(encoded@),
            proof.payload() == auth_payload(old(self).session(), value, encoded@),
    ;

    /// Opens `proof`, consuming it.
    fn unauth<A>(&mut self, proof: Proof<A>) -> (opened: Result<Opened<A>, AuthError>)
        ensures
            (final(self).session(), outcome_of(opened)) == open_step(
                old(self).session(),
                proof.commitment(),
                proof.payload(),
            ),
    ;
}

} // verus!
