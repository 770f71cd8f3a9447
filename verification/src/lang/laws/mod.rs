//! What holds of every scan, every parse and every program that is written
//! out again.
//!
//! - [`scanning`]: a token depends on its own text alone, so tokens that
//!   are written with spaces between them are scanned as they were
//!   written; the line and column of a token are those of its first
//!   character.
//! - [`progress`]: no grammar function moves backwards, reads the end
//!   token, or takes back a diagnostic.
//! - [`expressions`] and [`statements`]: the tokens that write a tree that
//!   was parsed are tokens as the scanner makes them.
//! - [`reading`] and [`reading_statements`]: where those tokens stand
//!   written, the grammar reads the same tree.
//! - [`round_trip`]: a program that is parsed, written out as text and
//!   parsed again is the same program.
//! - [`steps`]: the statement grammar, one step at a time, for the proofs
//!   above.

pub mod expressions;
pub mod progress;
pub mod reading;
pub mod reading_statements;
pub mod round_trip;
pub mod scanning;
pub mod statements;
pub mod steps;
