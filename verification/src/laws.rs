//! What holds of the library as a whole, stated over the functions that the contracts
//! use.

use vstd::prelude::*;
use crate::abs::{admitted, narrowed_dir, narrowed_file};
use crate::dir::listed;
use crate::error::{IoFault, PathError};
use crate::lexical::{
    child_text,
    is_canonical,
    is_component,
    lemma_canonical_parent,
    lemma_child_canonical,
    parent_of,
};
use crate::names::{components, lemma_parent_components};
use crate::probe::{Kind, Probe};
use crate::ty::entry_of;

verus! {

/// Every resolution in canonical form is admitted, with the text as it was reported.
/// That is the form in which an operating system reports a resolved path, so that every
/// path that resolves gives a value.
pub proof fn lemma_canonical_is_admitted(text: Seq<u8>)
    requires
        is_canonical(text),
    ensures
        admitted(Ok(text)) == Ok::<Seq<u8>, PathError>(text),
{
}

/// Resolution is idempotent as far as the library sees it: a text that was admitted is
/// canonical, and is admitted again, unchanged, when it is reported as its own
/// resolution.
pub proof fn lemma_admitted_again(resolved: Result<Seq<u8>, IoFault>)
    ensures
        admitted(resolved) matches Ok(text) ==> {
            &&& resolved == Ok::<Seq<u8>, IoFault>(text)
            &&& is_canonical(text)
            &&& admitted(Ok(text)) == Ok::<Seq<u8>, PathError>(text)
        },
{
}

/// A path with no entry is never admitted: the fault comes back as it was reported.
pub proof fn lemma_missing_is_refused(fault: IoFault)
    ensures
        admitted(Err(fault)) == Err::<Seq<u8>, PathError>(PathError::Resolve(fault)),
{
}

/// Narrowing goes by the kind alone: a directory is no file, a file is no directory, and
/// no entry is both.
pub proof fn lemma_narrowing_excludes(text: Seq<u8>, kind: Kind)
    ensures
        narrowed_file(text, Kind::Dir) == Err::<Seq<u8>, PathError>(PathError::NotAFile),
        narrowed_dir(text, Kind::File) == Err::<Seq<u8>, PathError>(PathError::NotADir),
        narrowed_file(text, Kind::File) == Ok::<Seq<u8>, PathError>(text),
        narrowed_dir(text, Kind::Dir) == Ok::<Seq<u8>, PathError>(text),
        !(narrowed_file(text, kind) is Ok && narrowed_dir(text, kind) is Ok),
{
}

/// The parent worked out from the text of a canonical path other than the root is the
/// value that a look at the parent gives, where the parent is reported as it is on any
/// file system: resolved to itself, and a directory.
pub proof fn lemma_parent_matches_lookup(path: Seq<u8>)
    requires
        is_canonical(path),
        path.len() > 1,
    ensures
        parent_of(path) is Some,
        admitted(Ok(parent_of(path).unwrap())) == Ok::<Seq<u8>, PathError>(
            parent_of(path).unwrap(),
        ),
        narrowed_dir(parent_of(path).unwrap(), Kind::Dir) == Ok::<Seq<u8>, PathError>(
            parent_of(path).unwrap(),
        ),
{
    lemma_canonical_parent(path);
}

/// The parent of a canonical path other than the root has the path's components
/// without the last.
pub proof fn lemma_parent_drops_last_component(path: Seq<u8>)
    requires
        is_canonical(path),
        path.len() > 1,
    ensures
        parent_of(path) is Some,
        components(parent_of(path).unwrap()) == components(path).drop_last(),
{
    lemma_canonical_parent(path);
    lemma_parent_components(path);
}

/// Every entry that a listing hands out is canonical, is a file or a directory as it was
/// reported, and has the listed directory as its parent.
pub proof fn lemma_listed_lies_inside(dir: Seq<u8>, item: Result<Probe, IoFault>)
    ensures
        listed(dir, item) matches Ok(entry) ==> {
            &&& item matches Ok(probe) && entry_of(probe) == Ok::<(Kind, Seq<u8>), PathError>(
                entry,
            )
            &&& entry.0 != Kind::Other
            &&& is_canonical(entry.1)
            &&& parent_of(entry.1) == Some(dir)
        },
{
}

/// An entry of a canonical directory that resolved to its own path is handed out by the
/// listing, as the kind that was reported.
pub proof fn lemma_own_entry_is_listed(dir: Seq<u8>, name: Seq<u8>, text: Vec<u8>, kind: Kind)
    requires
        is_canonical(dir),
        is_component(name),
        text@ == child_text(dir, name),
        kind != Kind::Other,
    ensures
        listed(dir, Ok(Probe::Found(text, kind))) == Ok::<(Kind, Seq<u8>), PathError>(
            (kind, child_text(dir, name)),
        ),
{
    lemma_child_canonical(dir, name);
}

/// One entry's failure is its own: what a listing makes of an entry depends on that
/// entry and the directory, and a fault in reading it comes back as that fault.
pub proof fn lemma_listing_keeps_faults(dir: Seq<u8>, fault: IoFault)
    ensures
        listed(dir, Err(fault)) == Err::<(Kind, Seq<u8>), PathError>(PathError::Io(fault)),
{
}

/// A mock of text that is not canonical equals no value that resolution admits.
pub proof fn lemma_mock_differs(fake: Seq<u8>, resolved: Result<Seq<u8>, IoFault>)
    requires
        !is_canonical(fake),
    ensures
        admitted(resolved) != Ok::<Seq<u8>, PathError>(fake),
{
}

} // verus!
