//! What can go wrong while reading a source text.

use vstd::prelude::*;

verus! {

/// A problem found while reading a source text.
#[derive(Debug, Clone, Copy, PartialEq, Eq, Structural)]
pub enum Error {
    /// A `--[[` comment without its closing `]]`.
    UnterminatedMultilineComment,
    /// A character that starts no token.
    UnexpectedCharacter(char),
}

} // verus!
