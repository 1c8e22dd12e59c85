//! The path of an entry that was a regular file when it was looked at.

use vstd::prelude::*;
use core::cmp::Ordering;
use crate::abs::{admitted, narrowed_file, PathAbs};
use crate::dir::PathDir;
use crate::error::{IoFault, PathError};
use crate::lexical::parent_of;
use crate::names::path_before;
use crate::probe::{Kind, Probe};

verus! {

/// A [`PathAbs`] whose entry was a regular file when it was narrowed.
#[derive(Debug, Eq, Ord, Hash)]
pub struct PathFile {
    abs: PathAbs,
}

impl View for PathFile {
    type V = Seq<u8>;

    closed spec fn view(&self) -> Seq<u8> {
        self.abs@
    }
}

impl PartialEq for PathFile {
    fn eq(&self, other: &PathFile) -> (same: bool) {
        self.abs == other.abs
    }
}

impl vstd::std_specs::cmp::PartialEqSpecImpl for PathFile {
    open spec fn obeys_eq_spec() -> bool {
        true
    }

    open spec fn eq_spec(&self, other: &PathFile) -> bool {
        self@ == other@
    }
}

impl PartialOrd for PathFile {
    fn partial_cmp(&self, other: &PathFile) -> (order: Option<Ordering>) {
        self.abs.partial_cmp(&other.abs)
    }
}

impl vstd::std_specs::cmp::PartialOrdSpecImpl for PathFile {
    open spec fn obeys_partial_cmp_spec() -> bool {
        true
    }

    open spec fn partial_cmp_spec(&self, other: &PathFile) -> Option<Ordering> {
        if self@ == other@ {
            Some(Ordering::Equal)
        } else if path_before(self@, other@) {
            Some(Ordering::Less)
        } else {
            Some(Ordering::Greater)
        }
    }
}

impl Clone for PathFile {
    fn clone(&self) -> (copy: PathFile)
        ensures
            copy@ == self@,
    {
        PathFile { abs: self.abs.clone() }
    }
}

/// What [`PathFile::new`] makes of a look at a path.
pub open spec fn file_of(probe: Probe) -> Result<Seq<u8>, PathError> {
    match admitted(probe.resolved()) {
        Ok(text) => narrowed_file(text, probe.kind()),
        Err(e) => Err(e),
    }
}

/// What [`PathFile::create`] makes of an attempt to create a file and look at it.
pub open spec fn created_file(made: Result<Probe, IoFault>) -> Result<Seq<u8>, PathError> {
    match made {
        Ok(probe) => file_of(probe),
        Err(fault) => Err(PathError::Io(fault)),
    }
}

impl PathFile {
    /// True where the text is in canonical absolute form.
    pub open spec fn is_canonical(&self) -> bool {
        crate::lexical::is_canonical(self@)
    }

    /// Narrows an absolute path to a file. `kind` is what the operating system reports
    /// of the entry now.
    pub fn from_abs(abs: PathAbs, kind: Kind) -> (r: Result<PathFile, PathError>)
        ensures
            match r {
                Ok(file) => narrowed_file(abs@, kind) == Ok::<Seq<u8>, PathError>(file@),
                Err(e) => narrowed_file(abs@, kind) == Err::<Seq<u8>, PathError>(e),
            },
    {
        match kind {
            Kind::File => Ok(PathFile { abs }),
            _ => Err(PathError::NotAFile),
        }
    }

    /// Builds a file path from one look at a path: resolves, then narrows. An entry
    /// whose metadata could not be read is not a file.
    pub fn new(probe: Probe) -> (r: Result<PathFile, PathError>)
        ensures
            match r {
                Ok(file) => file_of(probe) == Ok::<Seq<u8>, PathError>(file@),
                Err(e) => file_of(probe) == Err::<Seq<u8>, PathError>(e),
            },
    {
        match probe {
            Probe::Unresolved(fault) => Err(PathError::Resolve(fault)),
            Probe::Unreadable(text, _) => match PathAbs::new(Ok(text)) {
                Ok(abs) => PathFile::from_abs(abs, Kind::Other),
                Err(e) => Err(e),
            },
            Probe::Found(text, kind) => match PathAbs::new(Ok(text)) {
                Ok(abs) => PathFile::from_abs(abs, kind),
                Err(e) => Err(e),
            },
        }
    }

    /// Concludes the creation of a file. `made` is the fault that stopped the creation,
    /// or the look at the path taken after it went through.
    pub fn create(made: Result<Probe, IoFault>) -> (r: Result<PathFile, PathError>)
        ensures
            match r {
                Ok(file) => created_file(made) == Ok::<Seq<u8>, PathError>(file@),
                Err(e) => created_file(made) == Err::<Seq<u8>, PathError>(e),
            },
    {
        match made {
            Ok(probe) => PathFile::new(probe),
            Err(fault) => Err(PathError::Io(fault)),
        }
    }

    /// The path without the knowledge of its kind.
    pub fn as_abs(&self) -> (abs: &PathAbs)
        ensures
            abs@ == self@,
    {
        &self.abs
    }

    /// Gives up the knowledge of the kind.
    pub fn into_abs(self) -> (abs: PathAbs)
        ensures
            abs@ == self@,
    {
        self.abs
    }

    /// The text of the path.
    pub fn as_bytes(&self) -> (bytes: &[u8])
        ensures
            bytes@ == self@,
    {
        self.abs.as_bytes()
    }

    /// The directory that holds this file, worked out from the text alone.
    pub fn parent_dir(&self) -> (r: Option<PathDir>)
        ensures
            match r {
                Some(dir) => parent_of(self@) == Some(dir@),
                None => parent_of(self@) is None,
            },
            self.is_canonical() ==> (r is None <==> self@.len() == 1),
            self.is_canonical() && r is Some ==> r.unwrap().is_canonical(),
    {
        self.abs.parent_dir()
    }
}

} // verus!
