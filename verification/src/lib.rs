//! A small language front end: a scanner that turns source text into tokens,
//! a recursive-descent parser that turns tokens into a syntax tree, and a
//! scope-aware checker for the use of variables.
//!
//! Every stage is a function from plain values to plain values. What each
//! returns is stated over mathematical models (`Seq<char>` for text, view
//! types for tokens, trees and diagnostics) and proved.

pub mod lang;
pub mod util;
