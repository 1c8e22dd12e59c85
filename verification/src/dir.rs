//! The path of an entry that was a directory when it was looked at.

use vstd::prelude::*;
use core::cmp::Ordering;
use crate::abs::{admitted, narrowed_dir, PathAbs};
use crate::error::{IoFault, PathError};
use crate::lexical::{child, child_text, parent_of};
use crate::names::path_before;
use crate::probe::{Kind, Probe};
use crate::ty::{entry_of, PathType};

verus! {

/// A [`PathAbs`] whose entry was a directory when it was narrowed.
#[derive(Debug, Eq, Ord, Hash)]
pub struct PathDir {
    abs: PathAbs,
}

impl View for PathDir {
    type V = Seq<u8>;

    closed spec fn view(&self) -> Seq<u8> {
        self.abs@
    }
}

impl PartialEq for PathDir {
    fn eq(&self, other: &PathDir) -> (same: bool) {
        self.abs == other.abs
    }
}

impl vstd::std_specs::cmp::PartialEqSpecImpl for PathDir {
    open spec fn obeys_eq_spec() -> bool {
        true
    }

    open spec fn eq_spec(&self, other: &PathDir) -> bool {
        self@ == other@
    }
}

impl PartialOrd for PathDir {
    fn partial_cmp(&self, other: &PathDir) -> (order: Option<Ordering>) {
        self.abs.partial_cmp(&other.abs)
    }
}

impl vstd::std_specs::cmp::PartialOrdSpecImpl for PathDir {
    open spec fn obeys_partial_cmp_spec() -> bool {
        true
    }

    open spec fn partial_cmp_spec(&self, other: &PathDir) -> Option<Ordering> {
        if self@ == other@ {
            Some(Ordering::Equal)
        } else if path_before(self@, other@) {
            Some(Ordering::Less)
        } else {
            Some(Ordering::Greater)
        }
    }
}

impl Clone for PathDir {
    fn clone(&self) -> (copy: PathDir)
        ensures
            copy@ == self@,
    {
        PathDir { abs: self.abs.clone() }
    }
}

/// What [`PathDir::new`] makes of a look at a path.
pub open spec fn dir_of(probe: Probe) -> Result<Seq<u8>, PathError> {
    match admitted(probe.resolved()) {
        Ok(text) => narrowed_dir(text, probe.kind()),
        Err(e) => Err(e),
    }
}

/// What [`PathDir::create`] makes of an attempt to create a directory and look at it.
pub open spec fn created_dir(made: Result<Probe, IoFault>) -> Result<Seq<u8>, PathError> {
    match made {
        Ok(probe) => dir_of(probe),
        Err(fault) => Err(PathError::Io(fault)),
    }
}

/// What a listing of the directory `dir` makes of one of its entries: the fault that
/// reading the entry met, what a look at the entry gives, or [`PathError::Elsewhere`]
/// where the entry resolved to a path that `dir` is not the parent of.
pub open spec fn listed(dir: Seq<u8>, item: Result<Probe, IoFault>) -> Result<
    (Kind, Seq<u8>),
    PathError,
> {
    match item {
        Err(fault) => Err(PathError::Io(fault)),
        Ok(probe) => match entry_of(probe) {
            Ok(entry) => if parent_of(entry.1) == Some(dir) {
                Ok(entry)
            } else {
                Err(PathError::Elsewhere)
            },
            Err(e) => Err(e),
        },
    }
}

impl PathDir {
    /// True where the text is in canonical absolute form.
    pub open spec fn is_canonical(&self) -> bool {
        crate::lexical::is_canonical(self@)
    }

    /// Takes `abs` for a directory without a look at the entry: what holds a path is a
    /// directory.
    pub(crate) fn above(abs: PathAbs) -> (dir: PathDir)
        ensures
            dir@ == abs@,
    {
        PathDir { abs }
    }

    /// Narrows an absolute path to a directory. `kind` is what the operating system reports
    /// of the entry now.
    pub fn from_abs(abs: PathAbs, kind: Kind) -> (r: Result<PathDir, PathError>)
        ensures
            match r {
                Ok(dir) => narrowed_dir(abs@, kind) == Ok::<Seq<u8>, PathError>(dir@),
                Err(e) => narrowed_dir(abs@, kind) == Err::<Seq<u8>, PathError>(e),
            },
    {
        match kind {
            Kind::Dir => Ok(PathDir { abs }),
            _ => Err(PathError::NotADir),
        }
    }

    /// Builds a directory path from one look at a path: resolves, then narrows. An entry
    /// whose metadata could not be read is not a directory.
    pub fn new(probe: Probe) -> (r: Result<PathDir, PathError>)
        ensures
            match r {
                Ok(dir) => dir_of(probe) == Ok::<Seq<u8>, PathError>(dir@),
                Err(e) => dir_of(probe) == Err::<Seq<u8>, PathError>(e),
            },
    {
        match probe {
            Probe::Unresolved(fault) => Err(PathError::Resolve(fault)),
            Probe::Unreadable(text, _) => match PathAbs::new(Ok(text)) {
                Ok(abs) => PathDir::from_abs(abs, Kind::Other),
                Err(e) => Err(e),
            },
            Probe::Found(text, kind) => match PathAbs::new(Ok(text)) {
                Ok(abs) => PathDir::from_abs(abs, kind),
                Err(e) => Err(e),
            },
        }
    }

    /// Concludes the creation of one directory level. `made` is the fault that stopped
    /// the creation, or the look at the path taken after it went through.
    pub fn create(made: Result<Probe, IoFault>) -> (r: Result<PathDir, PathError>)
        ensures
            match r {
                Ok(dir) => created_dir(made) == Ok::<Seq<u8>, PathError>(dir@),
                Err(e) => created_dir(made) == Err::<Seq<u8>, PathError>(e),
            },
    {
        match made {
            Ok(probe) => PathDir::new(probe),
            Err(fault) => Err(PathError::Io(fault)),
        }
    }

    /// Concludes the creation of a directory together with every missing level above it.
    /// What was asked of the operating system differs from [`PathDir::create`]; what is
    /// made of its answer does not.
    pub fn create_all(made: Result<Probe, IoFault>) -> (r: Result<PathDir, PathError>)
        ensures
            match r {
                Ok(dir) => created_dir(made) == Ok::<Seq<u8>, PathError>(dir@),
                Err(e) => created_dir(made) == Err::<Seq<u8>, PathError>(e),
            },
    {
        PathDir::create(made)
    }

    /// The path to look at for the entry `name` of this directory.
    pub fn child_text(&self, name: &[u8]) -> (text: Vec<u8>)
        ensures
            text@ == child_text(self@, name@),
    {
        child(self.abs.as_bytes(), name)
    }

    /// Sorts one entry of a listing of this directory. `item` is the fault that reading
    /// the entry met, or the look taken at the entry's path.
    pub fn entry(&self, item: Result<Probe, IoFault>) -> (r: Result<PathType, PathError>)
        ensures
            match r {
                Ok(entry) => listed(self@, item) == Ok::<(Kind, Seq<u8>), PathError>(entry@),
                Err(e) => listed(self@, item) == Err::<(Kind, Seq<u8>), PathError>(e),
            },
    {
        match item {
            Err(fault) => Err(PathError::Io(fault)),
            Ok(probe) => match PathType::new(probe) {
                Ok(entry) => {
                    let inside: bool = match entry.parent_dir() {
                        Some(up) => up == *self,
                        None => false,
                    };
                    if inside {
                        Ok(entry)
                    } else {
                        Err(PathError::Elsewhere)
                    }
                },
                Err(e) => Err(e),
            },
        }
    }

    /// Sorts the entries of a listing of this directory, one result for each and in the
    /// order given. An entry that fails takes nothing from the others.
    pub fn list(&self, items: Vec<Result<Probe, IoFault>>) -> (out: Vec<
        Result<PathType, PathError>,
    >)
        ensures
            out.len() == items.len(),
            forall|i: int|
                0 <= i < out.len() ==> match #[trigger] out[i] {
                    Ok(entry) => listed(self@, items[i]) == Ok::<(Kind, Seq<u8>), PathError>(
                        entry@,
                    ),
                    Err(e) => listed(self@, items[i]) == Err::<(Kind, Seq<u8>), PathError>(e),
                },
    {
        let ghost all = items@;
        let mut out: Vec<Result<PathType, PathError>> = Vec::new();
        for item in it: items
            invariant
                it.seq() == all,
                out.len() == it.index(),
                forall|i: int|
                    0 <= i < out.len() ==> match #[trigger] out[i] {
                        Ok(entry) => listed(self@, all[i]) == Ok::<(Kind, Seq<u8>), PathError>(
                            entry@,
                        ),
                        Err(e) => listed(self@, all[i]) == Err::<(Kind, Seq<u8>), PathError>(e),
                    },
        {
            let sorted = self.entry(item);
            out.push(sorted);
        }
        out
    }

    /// The path without the knowledge of its kind.
    pub fn as_abs(&self) -> (abs: &PathAbs)
        ensures
            abs@ == self@,
    {
        &self.abs
    }

    /// Gives up the knowledge of the kind.
    pub fn into_abs(self) -> (abs: PathAbs)
        ensures
            abs@ == self@,
    {
        self.abs
    }

    /// The text of the path.
    pub fn as_bytes(&self) -> (bytes: &[u8])
        ensures
            bytes@ == self@,
    {
        self.abs.as_bytes()
    }

    /// The directory that holds this one, worked out from the text alone.
    pub fn parent_dir(&self) -> (r: Option<PathDir>)
        ensures
            match r {
                Some(dir) => parent_of(self@) == Some(dir@),
                None => parent_of(self@) is None,
            },
            self.is_canonical() ==> (r is None <==> self@.len() == 1),
            self.is_canonical() && r is Some ==> r.unwrap().is_canonical(),
    {
        self.abs.parent_dir()
    }
}

} // verus!
