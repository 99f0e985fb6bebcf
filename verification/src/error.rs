//! Errors reported by the library parsers.

use vstd::prelude::*;

verus! {

/// Why a library file or one of its records could not be read.
#[derive(Debug, Clone, Copy, PartialEq, Eq, Structural)]
pub enum LibraryError {
    /// A record does not have the number of comma-separated fields its kind requires.
    InvalidEntryData,
    /// A numeric field is not a decimal number of the required size.
    InvalidNumber,
    /// The kind field of a sound-effect record is neither `0` nor `1`.
    UnknownEntryKind,
    /// A sound-effect credit has no comma between name and link.
    InvalidCredit,
    /// A music tag has no comma between id and name.
    InvalidTag,
    /// The sound-effect library holds no records at all.
    NoEntries,
    /// The sound-effect library file is not valid UTF-8.
    InvalidUtf8,
}

} // verus!
