//! Path text as STFU-8: a readable text form that keeps every byte.

use vstd::prelude::*;
use vstd::string::StringSliceAdditionalSpecFns;
use vstd::utf8::{encode_utf8, is_char_boundary};
use crate::abs::PathAbs;
use crate::dir::PathDir;
use crate::error::PathError;
use crate::file::PathFile;

verus! {

/// The error of `stfu8::decode_u8`; the library reads nothing of it.
#[verifier::external_type_specification]
#[verifier::external_body]
pub struct ExDecodeError(stfu8::DecodeError);

/// The text that `stfu8::encode_u8` gives for `bytes`.
pub uninterp spec fn stfu8_text(bytes: Seq<u8>) -> Seq<char>;

/// The bytes that `stfu8::decode_u8` reads from `text`, or `None` where it reports an
/// error.
pub uninterp spec fn stfu8_bytes(text: Seq<char>) -> Option<Seq<u8>>;

/// The byte that opens an escape.
pub const BACKSLASH: u8 = 92;

/// Second byte of an escape that stands for a byte given by two hex digits.
pub const LETTER_X: u8 = 120;

/// Second byte of an escape that stands for a code point given by six hex digits.
pub const LETTER_U: u8 = 117;

/// Second byte of the escape that stands for a tab.
pub const LETTER_T: u8 = 116;

/// Second byte of the escape that stands for a line feed.
pub const LETTER_N: u8 = 110;

/// Second byte of the escape that stands for a carriage return.
pub const LETTER_R: u8 = 114;

/// Every escape read from byte `i` on has its digits end where a character ends. `bytes`
/// is the UTF-8 form of a text. An `x` escape takes four bytes and a `u` escape eight;
/// one that the text is too short for, and a backslash before any other byte, end the
/// reading.
pub open spec fn escapes_fit(bytes: Seq<u8>, i: int) -> bool
    decreases bytes.len() - i,
{
    if i < 0 || i >= bytes.len() {
        true
    } else if bytes[i] != BACKSLASH {
        escapes_fit(bytes, i + 1)
    } else if i + 1 >= bytes.len() {
        true
    } else if bytes[i + 1] == LETTER_X {
        i + 4 > bytes.len() || (is_char_boundary(bytes, i + 4) && escapes_fit(bytes, i + 4))
    } else if bytes[i + 1] == LETTER_U {
        i + 8 > bytes.len() || (is_char_boundary(bytes, i + 8) && escapes_fit(bytes, i + 8))
    } else if bytes[i + 1] == BACKSLASH || bytes[i + 1] == LETTER_T || bytes[i + 1] == LETTER_N
        || bytes[i + 1] == LETTER_R {
        escapes_fit(bytes, i + 2)
    } else {
        true
    }
}

/// The bytes that a text stands for: what STFU-8 decoding reads from it, and `None` where
/// an escape does not fit or the decoding reports an error.
pub open spec fn decoded(text: Seq<char>) -> Option<Seq<u8>> {
    if escapes_fit(encode_utf8(text), 0) {
        stfu8_bytes(text)
    } else {
        None
    }
}

/// Calls `stfu8::encode_u8`. Believed of it: the result is the STFU-8 text of `bytes`;
/// each escape in it is whole, so that its digits end where a character ends; and
/// `stfu8::decode_u8` reads `bytes` back from it.
#[verifier::external_body]
fn encode_with_stfu8(bytes: &[u8]) -> (text: String)
    ensures
        text@ == stfu8_text(bytes@),
        escapes_fit(encode_utf8(text@), 0),
        stfu8_bytes(text@) == Some(bytes@),
{
    stfu8::encode_u8(bytes)
}

/// Calls `stfu8::decode_u8`. Believed of it: the result depends on the text alone. It
/// cuts the digits of an escape out of the text by byte positions and stops where a cut
/// falls inside a character; `requires` keeps such text away.
#[verifier::external_body]
fn decode_with_stfu8(text: &str) -> (r: Result<Vec<u8>, stfu8::DecodeError>)
    requires
        escapes_fit(text.spec_bytes(), 0),
    ensures
        match r {
            Ok(bytes) => stfu8_bytes(text@) == Some(bytes@),
            Err(_) => stfu8_bytes(text@) is None,
        },
{
    stfu8::decode_u8(text)
}

/// Tells whether every escape of `text` has its digits end where a character ends.
pub fn check_escapes(text: &str) -> (ok: bool)
    ensures
        ok == escapes_fit(text.spec_bytes(), 0),
{
    let bytes: &[u8] = text.as_bytes();
    let len: usize = bytes.len();
    let mut i: usize = 0;
    while i < len
        invariant
            i <= len == bytes@.len(),
            bytes@ == text.spec_bytes(),
            escapes_fit(bytes@, 0) == escapes_fit(bytes@, i as int),
        decreases len - i,
    {
        if bytes[i] != BACKSLASH {
            i += 1;
        } else if len - i < 2 {
            return true;
        } else {
            let second: u8 = bytes[i + 1];
            if second == LETTER_X {
                if len - i < 4 {
                    return true;
                }
                if !text.is_char_boundary(i + 4) {
                    return false;
                }
                i += 4;
            } else if second == LETTER_U {
                if len - i < 8 {
                    return true;
                }
                if !text.is_char_boundary(i + 8) {
                    return false;
                }
                i += 8;
            } else if second == BACKSLASH || second == LETTER_T || second == LETTER_N || second
                == LETTER_R {
                i += 2;
            } else {
                return true;
            }
        }
    }
    true
}

/// Writes `bytes` as STFU-8 text. [`decode`] reads the same bytes back from it.
pub fn encode(bytes: &[u8]) -> (text: String)
    ensures
        text@ == stfu8_text(bytes@),
        decoded(text@) == Some(bytes@),
{
    encode_with_stfu8(bytes)
}

/// Reads the bytes that STFU-8 text stands for. Fails with [`PathError::Decode`] where
/// the text is no STFU-8, and never otherwise.
pub fn decode(text: &str) -> (r: Result<Vec<u8>, PathError>)
    ensures
        match r {
            Ok(bytes) => decoded(text@) == Some(bytes@),
            Err(e) => e == PathError::Decode && decoded(text@) is None,
        },
{
    if !check_escapes(text) {
        return Err(PathError::Decode);
    }
    match decode_with_stfu8(text) {
        Ok(bytes) => Ok(bytes),
        Err(_) => Err(PathError::Decode),
    }
}

impl PathAbs {
    /// The path as STFU-8 text.
    pub fn to_stfu8(&self) -> (text: String)
        ensures
            text@ == stfu8_text(self@),
            decoded(text@) == Some(self@),
    {
        encode(self.as_bytes())
    }

    /// The path that STFU-8 text stands for, taken as it is: nothing is resolved, and the
    /// value need not be canonical. To get a value that is, decode the text with
    /// [`decode`], resolve the bytes and hand the outcome to [`PathAbs::new`].
    pub fn from_stfu8(text: &str) -> (r: Result<PathAbs, PathError>)
        ensures
            match r {
                Ok(path) => decoded(text@) == Some(path@),
                Err(e) => e == PathError::Decode && decoded(text@) is None,
            },
    {
        match decode(text) {
            Ok(bytes) => Ok(PathAbs::mock(bytes.as_slice())),
            Err(e) => Err(e),
        }
    }
}

impl PathFile {
    /// The path as STFU-8 text.
    pub fn to_stfu8(&self) -> (text: String)
        ensures
            text@ == stfu8_text(self@),
            decoded(text@) == Some(self@),
    {
        encode(self.as_bytes())
    }
}

impl PathDir {
    /// The path as STFU-8 text.
    pub fn to_stfu8(&self) -> (text: String)
        ensures
            text@ == stfu8_text(self@),
            decoded(text@) == Some(self@),
    {
        encode(self.as_bytes())
    }
}

} // verus!
