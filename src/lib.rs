//! Content checksums of files and directory trees: streaming MD5 digests,
//! root-relative path maps, N-way reconciliation of trees, and verification
//! of a two-column checksum manifest.
use vstd::prelude::*;

pub mod check;
pub mod digest;
pub mod manifest;
pub mod mode;
pub mod path_map;
pub mod reconcile;
pub mod text;
pub mod walk;

verus! {

/// Fatal conditions of the engine.
#[derive(Debug, Clone, Copy, PartialEq, Eq, Structural)]
pub enum EngineError {
    /// The arguments do not have a usable shape.
    Usage,
    /// A required top-level path does not exist.
    PathNotFound,
    /// A manifest line does not hold exactly two tokens.
    MalformedManifest,
    /// A visited file's path cannot be made relative to its root.
    UnrelatedPath,
}

} // verus!
