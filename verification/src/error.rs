//! The ways in which a request can fail against a document.

use vstd::prelude::*;

verus! {

/// Why a request could not be carried out.
#[derive(Debug, Clone, PartialEq, Eq)]
pub enum SheetError {
    /// Conversion takes a source of exactly one frame; this one has `found`.
    WrongFrameCount { found: usize },
    /// The document defines no tag called `name`.
    TagMissing { name: String },
    /// The tag spans `have` frames, fewer than the `need` asked of each tag.
    InsufficientFrames { tag: String, have: usize, need: usize },
}

} // verus!
