//! The one way in which reading a URI can fail.

use vstd::prelude::*;

verus! {

/// Why a text was not accepted as a URI.
#[derive(Debug, Clone, Copy, PartialEq, Eq, Structural)]
pub enum Error {
    /// The text failed to validate.
    Invalid,
}

impl Error {
    /// The message that belongs to this error.
    pub open spec fn message_text(self) -> Seq<char> {
        "URI failed to validate"@
    }

    /// The message that belongs to this error, as a string.
    pub fn to_string(&self) -> (s: String)
        ensures
            s@ == self.message_text(),
    {
        String::from_str("URI failed to validate")
    }
}

} // verus!
