//! Whole sessions: what a traversal does on either side, and why a replay
//! can be trusted.

use crate::db::{auth_payload, entry_matches, open_step, Outcome, Session};
use crate::commitment::{commitment_of, hashable};
use crate::error::AuthError;
use vstd::prelude::*;

verus! {

/// The session of a prover that has opened nothing yet.
pub open spec fn fresh_prover() -> Session {
    Session { owning: true, tape: Seq::empty(), cursor: 0 }
}

/// The session of a verifier at the start of `tape`.
pub open spec fn fresh_verifier(tape: Seq<Seq<char>>) -> Session {
    Session { owning: false, tape, cursor: 0 }
}

/// No opening rewrites what came before. The owning side only ever appends
/// to its tape; the replaying side leaves its tape alone and moves its
/// cursor forward, by one entry where it consumed one, never past the end.
pub proof fn lemma_opening_moves_forward<A>(
    session: Session,
    commitment: Seq<u8>,
    payload: Option<(A, Seq<char>)>,
)
    ensures
        ({
            let (after, outcome) = open_step(session, commitment, payload);
            &&& after.owning == session.owning
            &&& session.tape.is_prefix_of(after.tape)
            &&& after.tape.len() <= session.tape.len() + 1
            &&& !session.owning ==> after.tape == session.tape
            &&& session.cursor <= after.cursor <= session.cursor + 1
            &&& outcome is Ok ==> after.cursor == session.cursor + 1
            &&& !session.owning && session.cursor <= session.tape.len() ==> after.cursor
                <= after.tape.len()
        }),
{
}

/// Once a replay has run out of tape it stays so: every later opening fails
/// the same way and leaves the session where it is.
pub proof fn lemma_exhausted_stays<A>(
    session: Session,
    commitment: Seq<u8>,
    payload: Option<(A, Seq<char>)>,
)
    requires
        !session.owning,
        session.cursor >= session.tape.len(),
    ensures
        open_step(session, commitment, payload) == (
            session,
            Err::<Outcome<A>, AuthError>(AuthError::TapeExhausted),
        ),
{
}

/// What a traversal does next.
pub enum Move<A, R> {
    /// Open the proof of a value, given with its canonical serialization.
    Open(A, Seq<char>),
    /// Stop, with a result.
    Finish(R),
}

/// How far a traversal has come on one side.
pub enum Progress<A, R> {
    /// Still going: the session, and the values opened so far.
    Running(Session, Seq<A>),
    /// Done, with its result.
    Finished(Session, R),
    /// Ended by a failed opening.
    Failed(Session, AuthError),
}

impl<A, R> Progress<A, R> {
    /// The session the traversal has left its database in.
    pub open spec fn session(self) -> Session {
        match self {
            Progress::Running(session, _) => session,
            Progress::Finished(session, _) => session,
            Progress::Failed(session, _) => session,
        }
    }
}

/// One move of a traversal. `next` is the traversal itself: it picks the move
/// from the values opened so far, which is all that a traversal written
/// against the capability can go by. The proof it opens is the one that
/// `auth` makes of the value on the side the session is on. Where the
/// database hands back a serialization, `decode` reads the value from it.
pub open spec fn advance<A, R>(
    next: spec_fn(Seq<A>) -> Move<A, R>,
    decode: spec_fn(Seq<char>) -> A,
    from: Progress<A, R>,
) -> Progress<A, R> {
    match from {
        Progress::Running(session, seen) => match next(seen) {
            Move::Finish(result) => Progress::Finished(session, result),
            Move::Open(value, encoded) => {
                let opened = open_step(
                    session,
                    commitment_of(encoded),
                    auth_payload(session, value, encoded),
                );
                match opened.1 {
                    Ok(Outcome::Value(held)) => Progress::Running(opened.0, seen.push(held)),
                    Ok(Outcome::Entry(text)) => Progress::Running(
                        opened.0,
                        seen.push(decode(text)),
                    ),
                    Err(error) => Progress::Failed(opened.0, error),
                }
            },
        },
        _ => from,
    }
}

/// Where a traversal stands after `moves` moves from `start`.
pub open spec fn progress<A, R>(
    next: spec_fn(Seq<A>) -> Move<A, R>,
    decode: spec_fn(Seq<char>) -> A,
    start: Session,
    moves: nat,
) -> Progress<A, R>
    decreases moves,
{
    if moves == 0 {
        Progress::Running(start, Seq::empty())
    } else {
        advance(next, decode, progress(next, decode, start, (moves - 1) as nat))
    }
}

/// Whatever the traversal opens can be committed to, and reads back from its
/// serialization as the value it was.
pub open spec fn round_trips<A, R>(
    next: spec_fn(Seq<A>) -> Move<A, R>,
    decode: spec_fn(Seq<char>) -> A,
) -> bool {
    forall|seen: Seq<A>|
        match #[trigger] next(seen) {
            Move::Open(value, encoded) => hashable(encoded) && decode(encoded) == value,
            Move::Finish(_) => true,
        }
}

/// Whether a replay of `tape` stands where the owning side stands: it has
/// seen the same values, or finished with the same result, and has consumed
/// as many entries as the owning side has written.
pub open spec fn mirrors<A, R>(
    replayed: Progress<A, R>,
    owned: Progress<A, R>,
    tape: Seq<Seq<char>>,
) -> bool {
    let at = Session { owning: false, tape, cursor: owned.session().tape.len() };
    match owned {
        Progress::Running(_, seen) => replayed == Progress::<A, R>::Running(at, seen),
        Progress::Finished(_, result) => replayed == Progress::<A, R>::Finished(at, result),
        Progress::Failed(_, _) => false,
    }
}

/// On the owning side a traversal never fails, and each move leaves the tape
/// as it was or adds one entry at its end.
pub proof fn lemma_owner_progress<A, R>(
    next: spec_fn(Seq<A>) -> Move<A, R>,
    decode: spec_fn(Seq<char>) -> A,
    moves: nat,
)
    ensures
        !(progress(next, decode, fresh_prover(), moves) is Failed),
        progress(next, decode, fresh_prover(), moves).session().owning,
        moves > 0 ==> {
            let before = progress(next, decode, fresh_prover(), (moves - 1) as nat);
            let after = progress(next, decode, fresh_prover(), moves);
            match before {
                Progress::Running(session, seen) => match next(seen) {
                    Move::Open(_, encoded) => after.session().tape == session.tape.push(encoded),
                    Move::Finish(_) => after.session().tape == session.tape,
                },
                _ => after == before,
            }
        },
    decreases moves,
{
    if moves > 0 {
        lemma_owner_progress(next, decode, (moves - 1) as nat);
    }
}

/// What the owning side had written earlier is the beginning of what it has
/// written later.
pub proof fn lemma_owner_tape_grows<A, R>(
    next: spec_fn(Seq<A>) -> Move<A, R>,
    decode: spec_fn(Seq<char>) -> A,
    earlier: nat,
    later: nat,
)
    requires
        earlier <= later,
    ensures
        progress(next, decode, fresh_prover(), earlier).session().tape.is_prefix_of(
            progress(next, decode, fresh_prover(), later).session().tape,
        ),
    decreases later - earlier,
{
    if earlier < later {
        lemma_owner_tape_grows(next, decode, earlier, (later - 1) as nat);
        lemma_owner_progress(next, decode, later);
    }
}

/// A replay follows the owning side for as long as its tape holds what the
/// owning side has written.
pub proof fn lemma_replay_mirrors<A, R>(
    next: spec_fn(Seq<A>) -> Move<A, R>,
    decode: spec_fn(Seq<char>) -> A,
    tape: Seq<Seq<char>>,
    moves: nat,
)
    requires
        round_trips(next, decode),
        progress(next, decode, fresh_prover(), moves).session().tape.is_prefix_of(tape),
    ensures
        mirrors(
            progress(next, decode, fresh_verifier(tape), moves),
            progress(next, decode, fresh_prover(), moves),
            tape,
        ),
    decreases moves,
{
    if moves > 0 {
        let before = progress(next, decode, fresh_prover(), (moves - 1) as nat);
        lemma_owner_progress(next, decode, moves);
        lemma_owner_progress(next, decode, (moves - 1) as nat);
        lemma_owner_tape_grows(next, decode, (moves - 1) as nat, moves);
        lemma_replay_mirrors(next, decode, tape, (moves - 1) as nat);
        match before {
            Progress::Running(session, seen) => match next(seen) {
                Move::Open(value, encoded) => {
                    let written = session.tape.push(encoded);
                    assert(written[session.tape.len() as int] == encoded);
                    assert(tape[session.tape.len() as int] == encoded);
                },
                Move::Finish(_) => {},
            },
            _ => {},
        }
    }
}

/// Prover and verifier agree, whatever the traversal. Run a traversal on a
/// fresh prover for any number of moves, then run the same traversal for as
/// many moves on a fresh verifier over the tape that the prover has written.
/// The verifier then stands where the prover stands: no opening has failed,
/// it has seen the same values, and if the prover has finished, it has
/// finished with the same result.
pub proof fn lemma_traversal_agrees<A, R>(
    next: spec_fn(Seq<A>) -> Move<A, R>,
    decode: spec_fn(Seq<char>) -> A,
    moves: nat,
)
    requires
        round_trips(next, decode),
    ensures
        mirrors(
            progress(
                next,
                decode,
                fresh_verifier(progress(next, decode, fresh_prover(), moves).session().tape),
                moves,
            ),
            progress(next, decode, fresh_prover(), moves),
            progress(next, decode, fresh_prover(), moves).session().tape,
        ),
{
    lemma_replay_mirrors(
        next,
        decode,
        progress(next, decode, fresh_prover(), moves).session().tape,
        moves,
    );
}

/// Tampering ends the traversal. Take the tape that a traversal has written
/// on a fresh prover and replace its entry `i` by text whose digest is not
/// that of the entry it replaces. The same traversal, run for as many moves on a
/// verifier over the changed tape, has failed with a commitment mismatch
/// when it consumed that entry: it has not finished, and has no result.
pub proof fn lemma_traversal_meets_tampering<A, R>(
    next: spec_fn(Seq<A>) -> Move<A, R>,
    decode: spec_fn(Seq<char>) -> A,
    moves: nat,
    tape: Seq<Seq<char>>,
    i: int,
    forged: Seq<char>,
)
    requires
        round_trips(next, decode),
        progress(next, decode, fresh_prover(), moves).session().tape.len() > i >= 0,
        progress(next, decode, fresh_prover(), moves).session().tape.is_prefix_of(tape),
        !entry_matches(forged, commitment_of(tape[i])),
    ensures
        progress(next, decode, fresh_verifier(tape.update(i, forged)), moves) == Progress::<
            A,
            R,
        >::Failed(
            Session { owning: false, tape: tape.update(i, forged), cursor: (i + 1) as nat },
            AuthError::CommitmentMismatch,
        ),
    decreases moves,
{
    let changed = tape.update(i, forged);
    lemma_owner_progress(next, decode, moves);
    if moves > 0 {
        let before = progress(next, decode, fresh_prover(), (moves - 1) as nat);
        lemma_owner_progress(next, decode, (moves - 1) as nat);
        lemma_owner_tape_grows(next, decode, (moves - 1) as nat, moves);
        if before.session().tape.len() > i {
            lemma_traversal_meets_tampering(next, decode, (moves - 1) as nat, tape, i, forged);
        } else {
            assert(before.session().tape.is_prefix_of(changed)) by {
                assert(before.session().tape =~= changed.subrange(
                    0,
                    before.session().tape.len() as int,
                ));
            }
            lemma_replay_mirrors(next, decode, changed, (moves - 1) as nat);
            match before {
                Progress::Running(session, seen) => match next(seen) {
                    Move::Open(value, encoded) => {
                        let written = session.tape.push(encoded);
                        assert(written[i] == encoded);
                        assert(tape[i] == encoded);
                    },
                    Move::Finish(_) => {},
                },
                _ => {},
            }
        }
    }
}

/// Truncation ends the traversal. Take the tape that a traversal has written
/// on a fresh prover and keep only its first `kept` entries. The same
/// traversal on a verifier over what is kept follows the prover for as long
/// as the prover had written no more than that, and has failed with tape
/// exhaustion at the opening that wrote the first missing entry.
pub proof fn lemma_traversal_meets_truncation<A, R>(
    next: spec_fn(Seq<A>) -> Move<A, R>,
    decode: spec_fn(Seq<char>) -> A,
    moves: nat,
    tape: Seq<Seq<char>>,
    kept: int,
)
    requires
        round_trips(next, decode),
        0 <= kept <= tape.len(),
        progress(next, decode, fresh_prover(), moves).session().tape.is_prefix_of(tape),
    ensures
        progress(next, decode, fresh_prover(), moves).session().tape.len() <= kept ==> mirrors(
            progress(next, decode, fresh_verifier(tape.take(kept)), moves),
            progress(next, decode, fresh_prover(), moves),
            tape.take(kept),
        ),
        progress(next, decode, fresh_prover(), moves).session().tape.len() > kept ==> progress(
            next,
            decode,
            fresh_verifier(tape.take(kept)),
            moves,
        ) == Progress::<A, R>::Failed(
            Session { owning: false, tape: tape.take(kept), cursor: kept as nat },
            AuthError::TapeExhausted,
        ),
    decreases moves,
{
    let short = tape.take(kept);
    let now = progress(next, decode, fresh_prover(), moves);
    lemma_owner_progress(next, decode, moves);
    if now.session().tape.len() <= kept {
        assert(now.session().tape.is_prefix_of(short)) by {
            assert(now.session().tape =~= short.subrange(0, now.session().tape.len() as int));
        }
        lemma_replay_mirrors(next, decode, short, moves);
    } else {
        let before = progress(next, decode, fresh_prover(), (moves - 1) as nat);
        lemma_owner_progress(next, decode, (moves - 1) as nat);
        lemma_owner_tape_grows(next, decode, (moves - 1) as nat, moves);
        lemma_traversal_meets_truncation(next, decode, (moves - 1) as nat, tape, kept);
    }
}

} // verus!
