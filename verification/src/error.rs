//! Error types for the unpacking pipeline.
use vstd::prelude::*;

verus! {

/// A required piece of the input program was never found.
#[derive(Debug, PartialEq, Eq, Structural)]
pub enum MissingError {
    /// The movie lacks the first frame that carries the embedded program.
    MissingFrame1,
    /// The static initializer never yielded a keymap string.
    MissingKeymap,
    /// The instance constructor holds no "construct superclass" instruction.
    MissingSuper,
}

/// Every failure the unpacking pipeline can surface.
#[derive(Debug)]
pub enum UnpackerError {
    /// Propagated from reading input or writing output.
    IoError(String),
    /// Propagated from the bytecode-provider collaborator.
    RabcError(String),
    /// Resolved resource-name bytes are not valid UTF-8.
    Utf8Error,
    /// A decoded byte-literal index falls outside the keymap's bounds.
    KeymapIndexError(u8),
    /// A required piece of the input program was never found.
    Missing(MissingError),
}

} // verus!
