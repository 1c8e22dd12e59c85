//! The absolute path that existed when it was resolved.

use vstd::prelude::*;
use core::cmp::Ordering;
use crate::dir::PathDir;
use crate::error::{IoFault, PathError};
use crate::file::PathFile;
use crate::lexical::{
    check_canonical,
    is_canonical,
    lemma_canonical_parent,
    parent_len,
    parent_of,
    prefix,
    same_bytes,
};
use crate::names::{
    lemma_path_order_is_total,
    lemma_segments_joined,
    order_names,
    path_before,
    segments,
    split,
    texts,
};
use crate::probe::Kind;

verus! {

/// An absolute, canonical path that named an entry when it was resolved.
///
/// The value is its text. [`PathAbs::new`] admits only text in canonical form;
/// [`PathAbs::mock`] admits any text and is meant for test fixtures.
///
/// Two values are equal where their texts are. They are ordered name by name, as
/// [`path_before`] says, so that a directory comes before all that lies in it. The names
/// are held beside the text, and before it, for the derived total order to go by them.
#[derive(Debug, Eq, Ord, Hash)]
pub struct PathAbs {
    names: Vec<Vec<u8>>,
    text: Vec<u8>,
}

impl View for PathAbs {
    type V = Seq<u8>;

    closed spec fn view(&self) -> Seq<u8> {
        self.text@
    }
}

impl PartialEq for PathAbs {
    fn eq(&self, other: &PathAbs) -> (same: bool) {
        same_bytes(self.text.as_slice(), other.text.as_slice())
    }
}

impl vstd::std_specs::cmp::PartialEqSpecImpl for PathAbs {
    open spec fn obeys_eq_spec() -> bool {
        true
    }

    open spec fn eq_spec(&self, other: &PathAbs) -> bool {
        self@ == other@
    }
}

impl PartialOrd for PathAbs {
    fn partial_cmp(&self, other: &PathAbs) -> (order: Option<Ordering>) {
        proof {
            use_type_invariant(self);
            use_type_invariant(other);
            lemma_segments_joined(self@);
            lemma_segments_joined(other@);
            lemma_path_order_is_total(self@, other@);
        }
        let sign: i8 = order_names(self.names.as_slice(), other.names.as_slice());
        if sign < 0 {
            Some(Ordering::Less)
        } else if sign == 0 {
            Some(Ordering::Equal)
        } else {
            Some(Ordering::Greater)
        }
    }
}

impl vstd::std_specs::cmp::PartialOrdSpecImpl for PathAbs {
    open spec fn obeys_partial_cmp_spec() -> bool {
        true
    }

    open spec fn partial_cmp_spec(&self, other: &PathAbs) -> Option<Ordering> {
        if self@ == other@ {
            Some(Ordering::Equal)
        } else if path_before(self@, other@) {
            Some(Ordering::Less)
        } else {
            Some(Ordering::Greater)
        }
    }
}

impl Clone for PathAbs {
    fn clone(&self) -> (copy: PathAbs)
        ensures
            copy@ == self@,
    {
        PathAbs::holding(prefix(self.text.as_slice(), self.text.len()))
    }
}

/// A resolution as the contracts read it: the text by its bytes.
pub open spec fn reported(resolved: Result<Vec<u8>, IoFault>) -> Result<Seq<u8>, IoFault> {
    match resolved {
        Ok(text) => Ok(text@),
        Err(fault) => Err(fault),
    }
}

/// What [`PathAbs::new`] makes of a resolution: the text that the value holds, or the
/// error.
pub open spec fn admitted(resolved: Result<Seq<u8>, IoFault>) -> Result<Seq<u8>, PathError> {
    match resolved {
        Ok(text) => if is_canonical(text) {
            Ok(text)
        } else {
            Err(PathError::NotCanonical)
        },
        Err(fault) => Err(PathError::Resolve(fault)),
    }
}

/// What narrowing to a file makes of a path whose entry is of kind `kind`.
pub open spec fn narrowed_file(text: Seq<u8>, kind: Kind) -> Result<Seq<u8>, PathError> {
    if kind == Kind::File {
        Ok(text)
    } else {
        Err(PathError::NotAFile)
    }
}

/// What narrowing to a directory makes of a path whose entry is of kind `kind`.
pub open spec fn narrowed_dir(text: Seq<u8>, kind: Kind) -> Result<Seq<u8>, PathError> {
    if kind == Kind::Dir {
        Ok(text)
    } else {
        Err(PathError::NotADir)
    }
}

impl PathAbs {
    /// The names held are the names of the text held.
    #[verifier::type_invariant]
    spec fn names_are_of_text(self) -> bool {
        texts(self.names@) == segments(self.text@)
    }

    /// The value with this text.
    fn holding(text: Vec<u8>) -> (p: PathAbs)
        ensures
            p@ == text@,
    {
        let names: Vec<Vec<u8>> = split(text.as_slice());
        PathAbs { names, text }
    }

    /// True of every value that [`PathAbs::new`] returns: the text is in canonical
    /// absolute form.
    pub open spec fn is_canonical(&self) -> bool {
        is_canonical(self@)
    }

    /// Wraps the outcome of resolving a path. `resolved` is what the operating system
    /// gave when asked for the canonical form: the text, or the fault. A text is admitted
    /// where it is in canonical form, as every text is that an operating system reports
    /// for a path that resolved; any other text fails with [`PathError::NotCanonical`].
    pub fn new(resolved: Result<Vec<u8>, IoFault>) -> (r: Result<PathAbs, PathError>)
        ensures
            match r {
                Ok(p) => admitted(reported(resolved)) == Ok::<Seq<u8>, PathError>(p@),
                Err(e) => admitted(reported(resolved)) == Err::<Seq<u8>, PathError>(e),
            },
    {
        match resolved {
            Ok(text) => {
                if check_canonical(text.as_slice()) {
                    Ok(PathAbs::holding(text))
                } else {
                    Err(PathError::NotCanonical)
                }
            },
            Err(fault) => Err(PathError::Resolve(fault)),
        }
    }

    /// Wraps any text without looking at it. The value need not be canonical, nor name
    /// anything that exists.
    pub fn mock(fake_path: &[u8]) -> (p: PathAbs)
        ensures
            p@ == fake_path@,
    {
        PathAbs::holding(prefix(fake_path, fake_path.len()))
    }

    /// Narrows the path to a file. `kind` is what the operating system reports of the
    /// entry now; anything but a regular file fails with [`PathError::NotAFile`].
    pub fn into_file(self, kind: Kind) -> (r: Result<PathFile, PathError>)
        ensures
            match r {
                Ok(file) => narrowed_file(self@, kind) == Ok::<Seq<u8>, PathError>(file@),
                Err(e) => narrowed_file(self@, kind) == Err::<Seq<u8>, PathError>(e),
            },
    {
        PathFile::from_abs(self, kind)
    }

    /// Narrows the path to a directory. `kind` is what the operating system reports of
    /// the entry now; anything but a directory fails with [`PathError::NotADir`].
    pub fn into_dir(self, kind: Kind) -> (r: Result<PathDir, PathError>)
        ensures
            match r {
                Ok(dir) => narrowed_dir(self@, kind) == Ok::<Seq<u8>, PathError>(dir@),
                Err(e) => narrowed_dir(self@, kind) == Err::<Seq<u8>, PathError>(e),
            },
    {
        PathDir::from_abs(self, kind)
    }

    /// The directory that holds this path, worked out from the text alone. There is none
    /// above the root. Above a canonical path stands a canonical path.
    pub fn parent_dir(&self) -> (r: Option<PathDir>)
        ensures
            match r {
                Some(dir) => parent_of(self@) == Some(dir@),
                None => parent_of(self@) is None,
            },
            self.is_canonical() ==> (r is None <==> self@.len() == 1),
            self.is_canonical() && r is Some ==> r.unwrap().is_canonical(),
    {
        proof {
            if is_canonical(self@) {
                lemma_canonical_parent(self@);
            }
        }
        match parent_len(self.text.as_slice()) {
            Some(n) => Some(PathDir::above(PathAbs::holding(prefix(self.text.as_slice(), n)))),
            None => None,
        }
    }

    /// The text of the path.
    pub fn as_bytes(&self) -> (bytes: &[u8])
        ensures
            bytes@ == self@,
    {
        self.text.as_slice()
    }
}

} // verus!
