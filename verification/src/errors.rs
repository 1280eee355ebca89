use vstd::prelude::*;
use vstd::string::StringExecFns;

verus! {

/// What an [`Error`] stands for in contracts.
pub struct ErrorView {
    pub line: nat,
    pub message: Seq<char>,
}

/// One lexical diagnostic: the line on which the offending text began and a
/// description of what is wrong with it.
#[derive(Debug, Clone, PartialEq, Eq)]
pub struct Error {
    pub line: usize,
    pub message: String,
}

impl View for Error {
    type V = ErrorView;

    open spec fn view(&self) -> ErrorView {
        ErrorView { line: self.line as nat, message: self.message@ }
    }
}

impl Error {
    pub fn new(line: usize, message: &str) -> (error: Self)
        ensures
            error.line == line,
            error.message@ == message@,
    {
        Error { line, message: String::from_str(message) }
    }
}

/// The views of a sequence of diagnostics, in order.
pub open spec fn error_views(errors: Seq<Error>) -> Seq<ErrorView> {
    errors.map_values(|e: Error| e@)
}

} // verus!
