//! The ways a run of the warden can fail to complete.
use vstd::prelude::*;

verus! {

/// Why the warden could not finish a file. None of these is a verdict on the
/// file's comments.
#[derive(Debug, Clone, Copy, PartialEq, Eq, Structural)]
pub enum WardenError {
    /// tree-sitter refused the grammar or returned no tree.
    NoTree,
    /// The tree that came back does not describe the text that was parsed.
    MalformedTree,
    /// A comment's span lies outside the text, or the stripped text would not
    /// be valid UTF-8 (a deletion split a character).
    BadSpan,
    /// Stripping would have changed the code tokens; nothing was written.
    ProjectionChanged,
}

} // verus!
