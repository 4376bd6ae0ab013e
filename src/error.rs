//! The ways in which splitting a document can fail.
use vstd::prelude::*;

verus! {

/// Why a document could not be split.
#[derive(Debug)]
pub enum SplitError {
    /// The markdown parser rejected the document; the parser's diagnostic.
    ParseFailure(String),
    /// The split points are out of order, past the end of the text, or
    /// inside the encoding of a character.
    MalformedPositions,
}

} // verus!
