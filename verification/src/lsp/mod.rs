//! Editor support: semantic highlighting, diagnostics, and the documents
//! that an editor has open.

use vstd::prelude::*;

pub mod diagnostics;
pub mod document;
pub mod semantic_highlighting;

verus! {

/// A position as the editor protocol counts it: line and character from 0.
#[derive(Debug, Clone, Copy, PartialEq, Eq, Structural)]
pub struct LspPosition {
    pub line: u32,
    pub character: u32,
}

/// A span of text as the editor protocol gives it.
#[derive(Debug, Clone, Copy, PartialEq, Eq, Structural)]
pub struct LspRange {
    pub start: LspPosition,
    pub end: LspPosition,
}

} // verus!
