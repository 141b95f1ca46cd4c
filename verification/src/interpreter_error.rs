use vstd::prelude::*;

verus! {

/// A problem found in the source text.
#[derive(Debug, Clone)]
pub struct InterpreterError {
    /// The line, counted from 1, on which the problem was found.
    pub line: usize,
    /// Where on the line the problem sits. The scanner leaves it empty; a
    /// later stage may fill it in.
    pub location: String,
    /// What went wrong.
    pub message: String,
}

/// An [`InterpreterError`] as a mathematical value.
pub struct ErrorView {
    pub line: nat,
    pub location: Seq<char>,
    pub message: Seq<char>,
}

impl View for InterpreterError {
    type V = ErrorView;

    open spec fn view(&self) -> ErrorView {
        ErrorView { line: self.line as nat, location: self.location@, message: self.message@ }
    }
}

/// The errors of a sequence as mathematical values, in the same order.
pub open spec fn error_views(errors: Seq<InterpreterError>) -> Seq<ErrorView> {
    Seq::new(errors.len(), |i: int| errors[i]@)
}

} // verus!
