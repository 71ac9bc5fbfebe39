use vstd::prelude::*;

verus! {

/// A scanning or parsing failure: the line it was found on and what went wrong.
#[derive(Debug, PartialEq, Eq)]
pub struct SyntaxError {
    pub line: usize,
    pub message: String,
}

/// Builds the syntax error reported at `line` with `message`.
pub fn error(line: usize, message: String) -> (r: SyntaxError)
    ensures
        r.line == line,
        r.message@ == message@,
{
    SyntaxError { line, message }
}

} // verus!
