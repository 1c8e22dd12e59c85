//! Why an operation on a path failed.

use vstd::prelude::*;

verus! {

/// What the library reads of an error that the operating system reported.
#[derive(Debug, Clone, Copy, PartialEq, Eq, Structural, Hash)]
pub enum IoFault {
    /// No entry has that name.
    NotFound,
    /// The caller may not look at or change the entry.
    PermissionDenied,
    /// An entry of that name is already there.
    AlreadyExists,
    /// Any other failure.
    Other,
}

/// The ways in which building or narrowing a path value fails.
#[derive(Debug, Clone, Copy, PartialEq, Eq, Structural, Hash)]
pub enum PathError {
    /// The operating system could not resolve the path; `Resolve(IoFault::NotFound)`
    /// says that it names no entry.
    Resolve(IoFault),
    /// What was reported as the resolved path is not in canonical absolute form.
    NotCanonical,
    /// The entry is not a regular file.
    NotAFile,
    /// The entry is not a directory.
    NotADir,
    /// The entry is neither a regular file nor a directory.
    Unsupported,
    /// A listed entry resolved to a path that does not lie directly in the directory
    /// that listed it.
    Elsewhere,
    /// Creating, reading or listing failed.
    Io(IoFault),
    /// The text is not the encoding of any path.
    Decode,
}

} // verus!
