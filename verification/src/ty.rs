//! A path known to be either a file or a directory.

use vstd::prelude::*;
use core::cmp::Ordering;
use crate::abs::{admitted, PathAbs};
use crate::dir::PathDir;
use crate::error::PathError;
use crate::file::PathFile;
use crate::lexical::parent_of;
use crate::names::path_before;
use crate::probe::{Kind, Probe};

verus! {

/// The path of an entry together with its kind: a file or a directory.
#[derive(Debug, Eq, Ord, Hash)]
pub enum PathType {
    /// The entry was a regular file.
    File(PathFile),
    /// The entry was a directory.
    Dir(PathDir),
}

impl View for PathType {
    type V = (Kind, Seq<u8>);

    open spec fn view(&self) -> (Kind, Seq<u8>) {
        match self {
            PathType::File(file) => (Kind::File, file@),
            PathType::Dir(dir) => (Kind::Dir, dir@),
        }
    }
}

impl PartialEq for PathType {
    fn eq(&self, other: &PathType) -> (same: bool) {
        match (self, other) {
            (PathType::File(a), PathType::File(b)) => a == b,
            (PathType::Dir(a), PathType::Dir(b)) => a == b,
            _ => false,
        }
    }
}

impl vstd::std_specs::cmp::PartialEqSpecImpl for PathType {
    open spec fn obeys_eq_spec() -> bool {
        true
    }

    open spec fn eq_spec(&self, other: &PathType) -> bool {
        self@ == other@
    }
}

impl PartialOrd for PathType {
    fn partial_cmp(&self, other: &PathType) -> (order: Option<Ordering>) {
        match (self, other) {
            (PathType::File(a), PathType::File(b)) => a.partial_cmp(b),
            (PathType::Dir(a), PathType::Dir(b)) => a.partial_cmp(b),
            (PathType::File(_), PathType::Dir(_)) => Some(Ordering::Less),
            (PathType::Dir(_), PathType::File(_)) => Some(Ordering::Greater),
        }
    }
}

impl vstd::std_specs::cmp::PartialOrdSpecImpl for PathType {
    open spec fn obeys_partial_cmp_spec() -> bool {
        true
    }

    /// Files come before directories; within one kind the order of paths decides.
    open spec fn partial_cmp_spec(&self, other: &PathType) -> Option<Ordering> {
        if self@.0 != other@.0 {
            if self@.0 == Kind::File {
                Some(Ordering::Less)
            } else {
                Some(Ordering::Greater)
            }
        } else if self@.1 == other@.1 {
            Some(Ordering::Equal)
        } else if path_before(self@.1, other@.1) {
            Some(Ordering::Less)
        } else {
            Some(Ordering::Greater)
        }
    }
}

impl Clone for PathType {
    fn clone(&self) -> (copy: PathType)
        ensures
            copy@ == self@,
    {
        match self {
            PathType::File(file) => PathType::File(file.clone()),
            PathType::Dir(dir) => PathType::Dir(dir.clone()),
        }
    }
}

/// What [`PathType::new`] makes of a look at a path: the kind and the text, or the error.
pub open spec fn entry_of(probe: Probe) -> Result<(Kind, Seq<u8>), PathError> {
    match admitted(probe.resolved()) {
        Err(e) => Err(e),
        Ok(text) => match probe {
            Probe::Found(_, Kind::File) => Ok((Kind::File, text)),
            Probe::Found(_, Kind::Dir) => Ok((Kind::Dir, text)),
            Probe::Found(_, Kind::Other) => Err(PathError::Unsupported),
            Probe::Unreadable(_, fault) => Err(PathError::Io(fault)),
            Probe::Unresolved(fault) => Err(PathError::Resolve(fault)),
        },
    }
}

impl PathType {
    /// The text of the path.
    pub open spec fn text(&self) -> Seq<u8> {
        self@.1
    }

    /// True where the text is in canonical absolute form.
    pub open spec fn is_canonical(&self) -> bool {
        crate::lexical::is_canonical(self@.1)
    }

    /// Builds the path from one look at it: resolves, then sorts the entry into file or
    /// directory. An entry that is neither fails with [`PathError::Unsupported`]; one
    /// whose metadata could not be read fails with that fault.
    pub fn new(probe: Probe) -> (r: Result<PathType, PathError>)
        ensures
            match r {
                Ok(entry) => entry_of(probe) == Ok::<(Kind, Seq<u8>), PathError>(entry@),
                Err(e) => entry_of(probe) == Err::<(Kind, Seq<u8>), PathError>(e),
            },
    {
        match probe {
            Probe::Unresolved(fault) => Err(PathError::Resolve(fault)),
            Probe::Unreadable(text, fault) => match PathAbs::new(Ok(text)) {
                Ok(_) => Err(PathError::Io(fault)),
                Err(e) => Err(e),
            },
            Probe::Found(text, kind) => match PathAbs::new(Ok(text)) {
                Ok(abs) => match kind {
                    Kind::File => match PathFile::from_abs(abs, kind) {
                        Ok(file) => Ok(PathType::File(file)),
                        Err(e) => Err(e),
                    },
                    Kind::Dir => match PathDir::from_abs(abs, kind) {
                        Ok(dir) => Ok(PathType::Dir(dir)),
                        Err(e) => Err(e),
                    },
                    Kind::Other => Err(PathError::Unsupported),
                },
                Err(e) => Err(e),
            },
        }
    }

    /// Tells whether the entry was a regular file.
    pub fn is_file(&self) -> (yes: bool)
        ensures
            yes == (self@.0 == Kind::File),
    {
        match self {
            PathType::File(_) => true,
            PathType::Dir(_) => false,
        }
    }

    /// Tells whether the entry was a directory.
    pub fn is_dir(&self) -> (yes: bool)
        ensures
            yes == (self@.0 == Kind::Dir),
    {
        match self {
            PathType::File(_) => false,
            PathType::Dir(_) => true,
        }
    }

    /// Hands out the file path; fails with [`PathError::NotAFile`] on a directory.
    pub fn into_file(self) -> (r: Result<PathFile, PathError>)
        ensures
            match r {
                Ok(file) => self@ == (Kind::File, file@),
                Err(e) => self@.0 == Kind::Dir && e == PathError::NotAFile,
            },
    {
        match self {
            PathType::File(file) => Ok(file),
            PathType::Dir(_) => Err(PathError::NotAFile),
        }
    }

    /// Hands out the directory path; fails with [`PathError::NotADir`] on a file.
    pub fn into_dir(self) -> (r: Result<PathDir, PathError>)
        ensures
            match r {
                Ok(dir) => self@ == (Kind::Dir, dir@),
                Err(e) => self@.0 == Kind::File && e == PathError::NotADir,
            },
    {
        match self {
            PathType::File(_) => Err(PathError::NotADir),
            PathType::Dir(dir) => Ok(dir),
        }
    }

    /// The path without the knowledge of its kind.
    pub fn as_abs(&self) -> (abs: &PathAbs)
        ensures
            abs@ == self@.1,
    {
        match self {
            PathType::File(file) => file.as_abs(),
            PathType::Dir(dir) => dir.as_abs(),
        }
    }

    /// The directory that holds this entry, worked out from the text alone.
    pub fn parent_dir(&self) -> (r: Option<PathDir>)
        ensures
            match r {
                Some(dir) => parent_of(self@.1) == Some(dir@),
                None => parent_of(self@.1) is None,
            },
            self.is_canonical() ==> (r is None <==> self@.1.len() == 1),
            self.is_canonical() && r is Some ==> r.unwrap().is_canonical(),
    {
        self.as_abs().parent_dir()
    }
}

} // verus!
