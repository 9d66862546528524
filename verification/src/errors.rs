//! The diagnostic type used by every decoding and parsing failure.

use vstd::prelude::*;

verus! {

/// A parsing failure, carrying a human-readable description.  Producing one
/// never halts the parse: it is handed to the reporting channel as a
/// diagnostic and processing continues wherever the grammar allows.
#[derive(Debug, Clone)]
pub struct ParsingError(pub String);

impl View for ParsingError {
    type V = Seq<char>;

    open spec fn view(&self) -> Seq<char> {
        self.0@
    }
}

impl ParsingError {
    /// Builds an error from a fixed description.
    pub fn new(msg: &str) -> (e: ParsingError)
        ensures
            e@ == msg@,
    {
        ParsingError(msg.to_owned())
    }
}

} // verus!
