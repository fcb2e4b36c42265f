//! Error taxonomy of the engine.

use vstd::prelude::*;

verus! {

/// Everything that can go wrong while scanning, fingerprinting or acting on
/// files.  Failures of outside libraries are carried as their message text,
/// so the enum stays a plain value.
#[derive(Debug)]
pub enum DejaVuError {
    /// An I/O failure, tagged with its description.
    Io(String),
    /// An image could not be decoded.
    Image(String),
    /// A directory walk failed.
    Walkdir(String),
    /// A path handed to the scanner does not exist.
    PathNotFound(String),
    /// A file is not of a supported media kind.
    InvalidFileType(String),
    /// A content digest could not be computed.
    HashError(String),
    /// No duplicate files were found.
    NoDuplicatesFound,
    /// Deleting, trashing or opening a file failed.
    FileOperationFailed(String),
}

} // verus!
