//! Translation keys of the enums shown to the user. The text shown is the translation of the
//! key in the user's locale.

use vstd::prelude::*;

use crate::search::SortingMode;

verus! {

/// An enum whose name and variants are shown translated.
pub trait LocalizedEnum {
    /// The translation key of the enum's name.
    spec fn enum_key_text() -> Seq<char>;

    /// The translation key of a variant.
    spec fn variant_key_text(&self) -> Seq<char>;

    /// The translation key of the enum's name.
    fn localize_enum() -> (r: String)
        ensures
            r@ == Self::enum_key_text(),
    ;

    /// The translation key of the variant.
    fn localize_variant(&self) -> (r: String)
        ensures
            r@ == self.variant_key_text(),
    ;
}

impl LocalizedEnum for SortingMode {
    open spec fn enum_key_text() -> Seq<char> {
        "search.sort"@
    }

    open spec fn variant_key_text(&self) -> Seq<char> {
        match self {
            SortingMode::NameInc => "search.sort.name.ascending"@,
            SortingMode::NameDec => "search.sort.name.descending"@,
            SortingMode::LengthInc => "search.sort.length.ascending"@,
            SortingMode::LengthDec => "search.sort.length.descending"@,
            SortingMode::IdInc => "search.sort.id.ascending"@,
            SortingMode::IdDec => "search.sort.id.descending"@,
            SortingMode::SizeInc => "search.sort.size.ascending"@,
            SortingMode::SizeDec => "search.sort.size.descending"@,
        }
    }

    fn localize_enum() -> (r: String) {
        String::from_str("search.sort")
    }

    fn localize_variant(&self) -> (r: String) {
        match self {
            SortingMode::NameInc => String::from_str("search.sort.name.ascending"),
            SortingMode::NameDec => String::from_str("search.sort.name.descending"),
            SortingMode::LengthInc => String::from_str("search.sort.length.ascending"),
            SortingMode::LengthDec => String::from_str("search.sort.length.descending"),
            SortingMode::IdInc => String::from_str("search.sort.id.ascending"),
            SortingMode::IdDec => String::from_str("search.sort.id.descending"),
            SortingMode::SizeInc => String::from_str("search.sort.size.ascending"),
            SortingMode::SizeDec => String::from_str("search.sort.size.descending"),
        }
    }
}

/// The pages of the library tab.
#[derive(Debug, Clone, Copy, PartialEq, Eq, Structural)]
pub enum LibraryPage {
    /// The sound effects.
    Sfx,
    /// The music.
    Music,
}

impl Default for LibraryPage {
    fn default() -> (r: LibraryPage)
        ensures
            r == LibraryPage::Sfx,
    {
        LibraryPage::Sfx
    }
}

impl LocalizedEnum for LibraryPage {
    open spec fn enum_key_text() -> Seq<char> {
        "library_page"@
    }

    open spec fn variant_key_text(&self) -> Seq<char> {
        match self {
            LibraryPage::Sfx => "library_page.sfx"@,
            LibraryPage::Music => "library_page.music"@,
        }
    }

    fn localize_enum() -> (r: String) {
        String::from_str("library_page")
    }

    fn localize_variant(&self) -> (r: String) {
        match self {
            LibraryPage::Sfx => String::from_str("library_page.sfx"),
            LibraryPage::Music => String::from_str("library_page.music"),
        }
    }
}

} // verus!
