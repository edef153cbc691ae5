//! Single-item archival library: classify a path, pack a directory tree into a
//! sealed container, extract a container back to a list of entries, compress or
//! expand a single file's bytes, and decide overwrite safety.

pub mod archive;
pub mod classify;
pub mod codec;
pub mod container;
pub mod paths;
pub mod plan;
pub mod policy;
pub mod tree;

use vstd::prelude::*;

verus! {

/// Errors of the archival operations.
#[derive(Debug, Clone, Copy, PartialEq, Eq, Structural)]
pub enum StoreError {
    /// The input path is neither a regular file nor a directory,
    /// or an input tree maps two files to one archive path.
    InvalidInput,
    /// The destination exists and overwriting was not forced.
    AlreadyExists,
    /// The container bytes cannot be parsed.
    CorruptContainer,
    /// An enumerated archive path could not be fetched back.
    EntryNotFound,
    /// An underlying read or write failed.
    IOFailure,
}

} // verus!
