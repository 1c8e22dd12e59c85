//! Path values that carry evidence about the entry they name.
//!
//! A [`PathAbs`] holds the canonical, absolute text of a path that the operating system
//! resolved; a [`PathFile`] and a [`PathDir`] add that the entry was a regular file or a
//! directory when it was looked at; a [`PathType`] is one or the other.
//!
//! The library never touches the file system. The embedding program makes the system
//! calls and reports what it saw as plain values ([`IoFault`], [`Kind`], [`Probe`]); every
//! rule about what those reports allow is decided, and proved, here. Paths are byte strings
//! with `/` as the separator. Two values are equal where their texts are, and they are
//! ordered name by name, so that a directory comes before all that lies in it.

pub mod abs;
pub mod codec;
pub mod dir;
pub mod error;
pub mod file;
pub mod laws;
pub mod lexical;
pub mod names;
pub mod probe;
pub mod ty;

pub use abs::PathAbs;
pub use dir::PathDir;
pub use error::{IoFault, PathError};
pub use file::PathFile;
pub use probe::{Kind, Probe};
pub use ty::PathType;
