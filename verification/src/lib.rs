//! Verified core of the GDSFX sound-effect and music library browser:
//! parsing and formatting of the library files, library indexing,
//! searching and sorting, favorites and settings bookkeeping.

pub mod cdn;
pub mod choices;
pub mod error;
pub mod favorites;
pub mod files;
pub mod i18n;
pub mod konami;
pub mod maps;
pub mod matching;
pub mod music;
pub mod music_filters;
pub mod progress;
pub mod records;
pub mod search;
pub mod settings;
pub mod sfx;
pub mod stats;
pub mod text;
pub mod themes;
pub mod update;

pub use error::LibraryError;

use vstd::prelude::*;

verus! {

/// Identifier of a library entry (sound effect, category, song or artist).
pub type EntryId = u32;

/// A size in bytes.
pub type BytesSize = u64;

/// The largest `u16`, as a number.
pub open spec fn max_u16() -> nat {
    0xffff
}

/// The largest `u32`, as a number.
pub open spec fn max_u32() -> nat {
    0xffff_ffff
}

/// The largest `u64`, as a number.
pub open spec fn max_u64() -> nat {
    0xffff_ffff_ffff_ffff
}

} // verus!
