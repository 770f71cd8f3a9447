//! The language front end: scanner, parser and semantic checker, and the
//! pipeline that runs the first two on a source text.

use vstd::prelude::*;
use crate::lang::errors::Error;
use crate::lang::grammar::parse_tokens;
use crate::lang::lexer::{bounded_all, scan, terminated, token_views, tokenize, Token};
use crate::lang::parser::{parse_result_view, Parser, Statement};

pub mod display;
pub mod errors;
pub mod grammar;
pub mod laws;
pub mod lexer;
pub mod parser;
pub mod render;
pub mod rendering;
pub mod semantic_analyzer;
pub mod text;

verus! {

/// The most parameters that a function may have.
pub const MAX_PARAMETERS: usize = 255;

/// The most arguments that a call may have.
pub const MAX_ARGUMENTS: usize = 255;

/// A run of the front end over source texts, one after the other.
pub struct Cpl {
    /// Whether a text so far did not parse.
    pub had_error: bool,
}

impl Cpl {
    /// A run that has seen no text.
    pub fn new() -> (cpl: Self)
        ensures
            !cpl.had_error,
    {
        Self { had_error: false }
    }

    /// Scans and parses `source`: its tokens, and its statements or the
    /// diagnostics of the parser. A text that does not parse sets
    /// `had_error`.
    pub fn run(&mut self, source: &str) -> (r: (Vec<Token>, Result<Vec<Statement>, Vec<Error>>))
        ensures
            token_views(r.0@) == bounded_all(scan(source@)),
            terminated(token_views(r.0@)),
            parse_result_view(r.1) == parse_tokens(bounded_all(scan(source@))),
            r.1 matches Err(errors) ==> errors@.len() > 0,
            final(self).had_error == (old(self).had_error || r.1 is Err),
    {
        let tokens = tokenize(source);
        let mut parser = Parser::new(tokens.as_slice());
        let syntax_tree = parser.parse();
        if syntax_tree.is_err() {
            self.had_error = true;
        }
        (tokens, syntax_tree)
    }
}

impl Default for Cpl {
    fn default() -> (cpl: Self)
        ensures
            !cpl.had_error,
    {
        Self::new()
    }
}

} // verus!
