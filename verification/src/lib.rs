//! Authenticated data structures, generically.
//!
//! A recursively defined structure can replace any of its nodes by a compact
//! commitment to that node's canonical serialization. A traversal written
//! against the [`Db`] capability then runs either on the side that owns the
//! data, which records every node it opens on a disclosure tape, or on the
//! side that holds only commitments and replays such a tape, checking each
//! entry against the commitment it is expected to match.

pub mod authref;
pub mod commitment;
pub mod db;
pub mod error;
pub mod hexcode;
pub mod owning;
pub mod protocol;
pub mod replay;

pub use authref::Proof;
pub use db::{Db, Opened};
pub use error::AuthError;
pub use owning::Prover;
pub use replay::Verifier;
