//! What the operating system reported about a path, as plain values.

use vstd::prelude::*;
use crate::error::IoFault;

verus! {

/// The kind of entry that a path led to.
#[derive(Debug, Clone, Copy, PartialEq, Eq, Structural, Hash)]
pub enum Kind {
    /// A regular file.
    File,
    /// A directory.
    Dir,
    /// Anything else: a device, a socket, or an entry whose kind could not be read.
    Other,
}

/// The answer to one look at a path: its canonical form and the kind of the entry there.
#[derive(Debug, PartialEq, Eq)]
pub enum Probe {
    /// The path did not resolve.
    Unresolved(IoFault),
    /// The path resolved to this text, but the entry's metadata could not be read.
    Unreadable(Vec<u8>, IoFault),
    /// The path resolved to this text, and the entry there is of this kind.
    Found(Vec<u8>, Kind),
}

impl Probe {
    /// What canonicalization gave: the resolved text, or the fault.
    pub open spec fn resolved(self) -> Result<Seq<u8>, IoFault> {
        match self {
            Probe::Unresolved(fault) => Err(fault),
            Probe::Unreadable(text, _) => Ok(text@),
            Probe::Found(text, _) => Ok(text@),
        }
    }

    /// The kind that a narrowing goes by: `Other` where none could be read.
    pub open spec fn kind(self) -> Kind {
        match self {
            Probe::Found(_, kind) => kind,
            _ => Kind::Other,
        }
    }
}

} // verus!
