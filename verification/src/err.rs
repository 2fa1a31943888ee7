//! Errors raised while deserializing binary XML.

use crate::cursor::ReadFailure;
use vstd::prelude::*;

verus! {

/// The kind of value whose read failed.
#[derive(Debug, Clone, Copy, PartialEq, Eq)]
pub enum ReadKind {
    U16,
    U32,
    LenPrefixedUtf16StrNulTerminated,
}

/// The name of the field whose read failed.
#[derive(Debug, Clone, Copy, PartialEq, Eq)]
pub enum TokenName {
    Unknown,
    NameHash,
    NameOffset,
    Name,
}

/// An error raised while deserializing binary XML.
#[derive(Debug, Clone, Copy, PartialEq, Eq)]
pub enum DeserializationError {
    /// Reading a field failed; `offset` is the cursor position after the
    /// failed read.
    FailedToRead { t: ReadKind, token_name: TokenName, offset: u64, source: ReadFailure },
    /// A plain input/output failure.
    Io(ReadFailure),
}

} // verus!
