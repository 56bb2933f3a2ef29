use vstd::prelude::*;

verus! {

/// Outcome of a resumable parser when it cannot yet (or can never) produce a
/// value from the bytes it was given.
///
/// `Incomplete(k)` means the input is a prefix of something acceptable and at
/// least `k` further bytes are needed before the parser can make progress;
/// callers await more input without re-parsing consumed prefixes.
/// `Invalid` means the input violates the protocol and no extension of it can
/// be accepted.
#[derive(Clone, Copy, PartialEq, Eq, Structural, Debug)]
pub enum ParserError {
    Incomplete(usize),
    Invalid,
}

impl ParserError {
    /// True when more input may still let the parse succeed.
    pub fn is_incomplete(&self) -> (r: bool)
        ensures
            r == self is Incomplete,
    {
        match self {
            ParserError::Incomplete(_) => true,
            ParserError::Invalid => false,
        }
    }
}

} // verus!
