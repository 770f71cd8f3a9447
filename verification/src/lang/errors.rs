//! Diagnostics: what any stage reports in place of failing.

use vstd::prelude::*;
use vstd::string::*;
use crate::lang::text::{decimal, push_decimal};

verus! {

/// A diagnostic: where in the source, and what is wrong there.
#[derive(Debug)]
pub struct Error {
    pub line: usize,
    pub column: usize,
    pub message: String,
}

/// The mathematical content of an [`Error`].
pub struct ErrorView {
    pub line: nat,
    pub column: nat,
    pub message: Seq<char>,
}

impl View for Error {
    type V = ErrorView;

    open spec fn view(&self) -> ErrorView {
        ErrorView { line: self.line as nat, column: self.column as nat, message: self.message@ }
    }
}

/// The views of a list of diagnostics, in order.
pub open spec fn error_views(errors: Seq<Error>) -> Seq<ErrorView> {
    Seq::new(errors.len(), |i: int| errors[i]@)
}

/// The text of a diagnostic: `[line L:column C]: message`.
pub open spec fn diagnostic_text(e: ErrorView) -> Seq<char> {
    "[line "@ + decimal(e.line) + ":column "@ + decimal(e.column) + "]: "@ + e.message
}

impl Clone for Error {
    fn clone(&self) -> (r: Self)
        ensures
            r@ == self@,
    {
        Error { line: self.line, column: self.column, message: self.message.clone() }
    }
}

impl Error {
    /// The diagnostic as one line of text.
    pub fn to_string(&self) -> (text: String)
        ensures
            text@ == diagnostic_text(self@),
    {
        let mut text = String::from_str("[line ");
        push_decimal(&mut text, self.line as u128);
        text.append(":column ");
        push_decimal(&mut text, self.column as u128);
        text.append("]: ");
        text.append(self.message.as_str());
        text
    }
}

/// A copy of a list of diagnostics.
pub(crate) fn clone_errors(errors: &Vec<Error>) -> (copy: Vec<Error>)
    ensures
        error_views(copy@) == error_views(errors@),
{
    let mut copy: Vec<Error> = Vec::new();
    let mut i: usize = 0;
    while i < errors.len()
        invariant
            i <= errors.len(),
            copy.len() == i,
            forall|j: int| 0 <= j < i ==> copy@[j]@ == errors@[j]@,
        decreases errors.len() - i,
    {
        copy.push(errors[i].clone());
        i += 1;
    }
    assert(error_views(copy@) =~= error_views(errors@));
    copy
}

} // verus!
