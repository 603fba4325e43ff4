use vstd::prelude::*;

use crate::errors::{located, located_full, located_message, located_text};

verus! {

/// A failed check, with the place where it was made.
#[derive(Debug)]
pub struct AssertFailure {
    pub path: String,
    pub line: usize,
    pub msg: String,
}

impl AssertFailure {
    /// `path:line.` then the message.
    pub fn pretty(self) -> (r: String)
        ensures
            r@ == located_text(self.path@, self.line, self.msg@),
    {
        located(&self.path, self.line, &self.msg)
    }

    /// The full description: `File path:line.`, then the message.
    pub fn message(&self) -> (r: String)
        ensures
            r@ == located_message(self.path@, self.line, self.msg@),
    {
        located_full(&self.path, self.line, &self.msg)
    }
}

} // verus!
