//! Sorting of library entries for display, and the search settings.

use vstd::prelude::*;

use core::cmp::Ordering;

use crate::music::Song;
use crate::sfx::{EntryKind, SfxLibraryEntry};
use crate::text::str_chars;
use crate::{BytesSize, EntryId};

verus! {

/// How entries are ordered for display.
#[derive(Debug, Clone, Copy, PartialEq, Eq, Structural)]
pub enum SortingMode {
    /// By name, a to z.
    NameInc,
    /// By name, z to a.
    NameDec,
    /// By length, shortest first.
    LengthInc,
    /// By length, longest first.
    LengthDec,
    /// By id, smallest first.
    IdInc,
    /// By id, largest first.
    IdDec,
    /// By size, smallest first.
    SizeInc,
    /// By size, largest first.
    SizeDec,
}

impl Default for SortingMode {
    fn default() -> (r: SortingMode)
        ensures
            r == SortingMode::NameInc,
    {
        SortingMode::NameInc
    }
}

/// The orderings offered by the search bar, including the library's own order.
#[derive(Debug, Clone, Copy, PartialEq, Eq, Structural)]
pub enum Sorting {
    /// The order of the library file.
    Default,
    NameInc,
    NameDec,
    LengthInc,
    LengthDec,
    IdInc,
    IdDec,
    SizeInc,
    SizeDec,
}

impl Default for Sorting {
    fn default() -> (r: Sorting)
        ensures
            r == Sorting::Default,
    {
        Sorting::Default
    }
}

/// What the search bar holds: the query, the ordering, and whether only downloaded sounds are
/// shown.
#[derive(Debug)]
pub struct SearchSettings {
    pub search_query: String,
    pub sorting_mode: SortingMode,
    pub show_downloaded: bool,
}

impl Default for SearchSettings {
    fn default() -> (r: SearchSettings)
        ensures
            r.search_query@ == Seq::<char>::empty(),
            r.sorting_mode == SortingMode::NameInc,
            !r.show_downloaded,
    {
        SearchSettings { search_query: String::new(), sorting_mode: SortingMode::NameInc, show_downloaded: false }
    }
}

/// What entries are ordered by: whether it is a category, its name, id, length in
/// milliseconds and size.
pub struct SortKey {
    pub is_category: bool,
    pub name: Seq<char>,
    pub id: EntryId,
    pub duration_ms: u128,
    pub bytes: BytesSize,
}

/// An entry that can be ordered for display.
pub trait EntrySorting {
    /// The values the entry is ordered by.
    spec fn sort_key(&self) -> SortKey;

    /// The entry's name.
    fn get_name(&self) -> (r: &str)
        ensures
            r@ == self.sort_key().name,
    ;

    /// The entry's id.
    fn get_id(&self) -> (r: EntryId)
        ensures
            r == self.sort_key().id,
    ;

    /// The entry's length in milliseconds.
    fn get_duration(&self) -> (r: u128)
        ensures
            r == self.sort_key().duration_ms,
    ;

    /// The entry's size in bytes.
    fn get_bytes(&self) -> (r: BytesSize)
        ensures
            r == self.sort_key().bytes,
    ;

    /// Whether the entry is a category.
    fn is_category(&self) -> (r: bool)
        ensures
            r == self.sort_key().is_category,
    ;
}

impl EntrySorting for Song {
    open spec fn sort_key(&self) -> SortKey {
        SortKey {
            is_category: false,
            name: self.name@,
            id: self.id,
            duration_ms: (self.duration_secs * 1000) as u128,
            bytes: self.bytes,
        }
    }

    fn get_name(&self) -> (r: &str) {
        self.name.as_str()
    }

    fn get_id(&self) -> (r: EntryId) {
        self.id
    }

    fn get_duration(&self) -> (r: u128) {
        self.duration_secs as u128 * 1000
    }

    fn get_bytes(&self) -> (r: BytesSize) {
        self.bytes
    }

    fn is_category(&self) -> (r: bool) {
        false
    }
}

impl EntrySorting for SfxLibraryEntry {
    open spec fn sort_key(&self) -> SortKey {
        SortKey {
            is_category: self.kind is Category,
            name: self.name@,
            id: self.id,
            duration_ms: match self.kind {
                EntryKind::Sound { duration_ms, .. } => duration_ms as u128,
                EntryKind::Category => 0,
            },
            bytes: match self.kind {
                EntryKind::Sound { bytes, .. } => bytes,
                EntryKind::Category => 0,
            },
        }
    }

    fn get_name(&self) -> (r: &str) {
        self.name.as_str()
    }

    fn get_id(&self) -> (r: EntryId) {
        self.id
    }

    fn get_duration(&self) -> (r: u128) {
        match self.duration() {
            Some(ms) => ms as u128,
            None => 0,
        }
    }

    fn get_bytes(&self) -> (r: BytesSize) {
        match self.bytes() {
            Some(b) => b,
            None => 0,
        }
    }

    fn is_category(&self) -> (r: bool) {
        match self.kind {
            EntryKind::Category => true,
            EntryKind::Sound { .. } => false,
        }
    }
}

/// The order that a comparison found: less, equal, or else greater.
pub open spec fn order_from(less: bool, equal: bool) -> Ordering {
    if less {
        Ordering::Less
    } else if equal {
        Ordering::Equal
    } else {
        Ordering::Greater
    }
}

/// The order of two booleans, `false` first.
pub open spec fn bool_order(a: bool, b: bool) -> Ordering {
    if a == b {
        Ordering::Equal
    } else if !a {
        Ordering::Less
    } else {
        Ordering::Greater
    }
}

/// The lexicographic order of two texts by character value, which is also the order of their
/// UTF-8 bytes.
pub open spec fn text_order(a: Seq<char>, b: Seq<char>) -> Ordering
    decreases a.len(),
{
    if a.len() == 0 && b.len() == 0 {
        Ordering::Equal
    } else if a.len() == 0 {
        Ordering::Less
    } else if b.len() == 0 {
        Ordering::Greater
    } else if a[0] < b[0] {
        Ordering::Less
    } else if b[0] < a[0] {
        Ordering::Greater
    } else {
        text_order(a.drop_first(), b.drop_first())
    }
}

/// The order of two entries under a sorting mode, categories aside.
pub open spec fn mode_order(mode: SortingMode, a: SortKey, b: SortKey) -> Ordering {
    match mode {
        SortingMode::NameInc => text_order(a.name, b.name),
        SortingMode::NameDec => text_order(b.name, a.name),
        SortingMode::LengthInc => order_from(a.duration_ms < b.duration_ms, a.duration_ms == b.duration_ms),
        SortingMode::LengthDec => order_from(b.duration_ms < a.duration_ms, b.duration_ms == a.duration_ms),
        SortingMode::IdInc => order_from(a.id < b.id, a.id == b.id),
        SortingMode::IdDec => order_from(b.id < a.id, b.id == a.id),
        SortingMode::SizeInc => order_from(a.bytes < b.bytes, a.bytes == b.bytes),
        SortingMode::SizeDec => order_from(b.bytes < a.bytes, b.bytes == a.bytes),
    }
}

/// The display order of two entries: categories before everything else, then the mode's order.
pub open spec fn entry_order(mode: SortingMode, a: SortKey, b: SortKey) -> Ordering {
    let by_kind = bool_order(b.is_category, a.is_category);
    if by_kind != Ordering::Equal {
        by_kind
    } else {
        mode_order(mode, a, b)
    }
}

/// The reverse of an order.
pub open spec fn reversed(o: Ordering) -> Ordering {
    match o {
        Ordering::Less => Ordering::Greater,
        Ordering::Equal => Ordering::Equal,
        Ordering::Greater => Ordering::Less,
    }
}

/// Orders two texts lexicographically by character value.
pub fn compare_texts(a: &[char], b: &[char]) -> (r: Ordering)
    ensures
        r == text_order(a@, b@),
{
    let mut i: usize = 0;
    let ghost mut k: int = 0;
    assert(a@.skip(0) =~= a@ && b@.skip(0) =~= b@);
    while i < a.len() && i < b.len()
        invariant
            k == i,
            i <= a.len(),
            i <= b.len(),
            text_order(a@, b@) == text_order(a@.skip(k), b@.skip(k)),
        decreases a.len() - i,
    {
        assert(a@.skip(k)[0] == a@[k]);
        assert(b@.skip(k)[0] == b@[k]);
        if a[i] < b[i] {
            return Ordering::Less;
        }
        if b[i] < a[i] {
            return Ordering::Greater;
        }
        assert(a@.skip(k).drop_first() =~= a@.skip(k + 1));
        assert(b@.skip(k).drop_first() =~= b@.skip(k + 1));
        i = i + 1;
        proof { k = k + 1; }
    }
    if i == a.len() && i == b.len() {
        Ordering::Equal
    } else if i == a.len() {
        Ordering::Less
    } else {
        Ordering::Greater
    }
}

/// Orders two numbers.
fn compare_u128(a: u128, b: u128) -> (r: Ordering)
    ensures
        r == order_from(a < b, a == b),
{
    if a < b {
        Ordering::Less
    } else if a == b {
        Ordering::Equal
    } else {
        Ordering::Greater
    }
}

/// Orders two ids.
fn compare_ids(a: EntryId, b: EntryId) -> (r: Ordering)
    ensures
        r == order_from(a < b, a == b),
{
    if a < b {
        Ordering::Less
    } else if a == b {
        Ordering::Equal
    } else {
        Ordering::Greater
    }
}

/// Orders two sizes.
fn compare_sizes(a: BytesSize, b: BytesSize) -> (r: Ordering)
    ensures
        r == order_from(a < b, a == b),
{
    if a < b {
        Ordering::Less
    } else if a == b {
        Ordering::Equal
    } else {
        Ordering::Greater
    }
}

/// Orders two names.
pub(crate) fn compare_names(a: &str, b: &str) -> (r: Ordering)
    ensures
        r == text_order(a@, b@),
{
    let a_chars = str_chars(a);
    let b_chars = str_chars(b);
    compare_texts(a_chars.as_slice(), b_chars.as_slice())
}

impl SortingMode {
    /// The display order of two entries: categories come first; otherwise the entries are
    /// ordered by this mode.
    pub fn compare_entries<A: EntrySorting, B: EntrySorting>(&self, a: &A, b: &B) -> (r: Ordering)
        ensures
            r == entry_order(*self, a.sort_key(), b.sort_key()),
    {
        let a_category = a.is_category();
        let b_category = b.is_category();
        if a_category && !b_category {
            return Ordering::Less;
        }
        if b_category && !a_category {
            return Ordering::Greater;
        }
        match self {
            SortingMode::NameInc => compare_names(a.get_name(), b.get_name()),
            SortingMode::NameDec => compare_names(b.get_name(), a.get_name()),
            SortingMode::LengthInc => compare_u128(a.get_duration(), b.get_duration()),
            SortingMode::LengthDec => compare_u128(b.get_duration(), a.get_duration()),
            SortingMode::IdInc => compare_ids(a.get_id(), b.get_id()),
            SortingMode::IdDec => compare_ids(b.get_id(), a.get_id()),
            SortingMode::SizeInc => compare_sizes(a.get_bytes(), b.get_bytes()),
            SortingMode::SizeDec => compare_sizes(b.get_bytes(), a.get_bytes()),
        }
    }
}

/// The mode that orders the other way round: ascending for descending and back.
pub open spec fn opposite(mode: SortingMode) -> SortingMode {
    match mode {
        SortingMode::NameInc => SortingMode::NameDec,
        SortingMode::NameDec => SortingMode::NameInc,
        SortingMode::LengthInc => SortingMode::LengthDec,
        SortingMode::LengthDec => SortingMode::LengthInc,
        SortingMode::IdInc => SortingMode::IdDec,
        SortingMode::IdDec => SortingMode::IdInc,
        SortingMode::SizeInc => SortingMode::SizeDec,
        SortingMode::SizeDec => SortingMode::SizeInc,
    }
}

/// Swapping two texts reverses their order.
pub proof fn lemma_text_order_antisymmetric(a: Seq<char>, b: Seq<char>)
    ensures
        text_order(a, b) == reversed(text_order(b, a)),
    decreases a.len(),
{
    if a.len() > 0 && b.len() > 0 && a[0] == b[0] {
        lemma_text_order_antisymmetric(a.drop_first(), b.drop_first());
    }
}

/// Two texts are in order `Equal` exactly when they are the same text.
pub proof fn lemma_text_order_equal(a: Seq<char>, b: Seq<char>)
    ensures
        (text_order(a, b) == Ordering::Equal) <==> a == b,
    decreases a.len(),
{
    if a.len() > 0 && b.len() > 0 && a[0] == b[0] {
        lemma_text_order_equal(a.drop_first(), b.drop_first());
        if a.drop_first() == b.drop_first() {
            assert(a =~= seq![a[0]] + a.drop_first());
            assert(b =~= seq![b[0]] + b.drop_first());
        }
    }
    if a.len() == 0 && b.len() == 0 {
        assert(a =~= b);
    }
}

/// The order of texts is transitive.
pub proof fn lemma_text_order_transitive(a: Seq<char>, b: Seq<char>, c: Seq<char>)
    requires
        text_order(a, b) != Ordering::Greater,
        text_order(b, c) != Ordering::Greater,
    ensures
        text_order(a, c) != Ordering::Greater,
        text_order(a, b) == Ordering::Less || text_order(b, c) == Ordering::Less ==> text_order(a, c) == Ordering::Less,
    decreases a.len(),
{
    if a.len() > 0 && b.len() > 0 && c.len() > 0 && a[0] == b[0] && b[0] == c[0] {
        lemma_text_order_transitive(a.drop_first(), b.drop_first(), c.drop_first());
    }
}

/// Swapping two entries reverses their display order, under every mode.
pub proof fn lemma_entry_order_antisymmetric(mode: SortingMode, a: SortKey, b: SortKey)
    ensures
        entry_order(mode, a, b) == reversed(entry_order(mode, b, a)),
{
    lemma_text_order_antisymmetric(a.name, b.name);
    lemma_text_order_antisymmetric(b.name, a.name);
}

/// A category comes before every entry that is not a category, under every mode.
pub proof fn lemma_categories_first(mode: SortingMode, a: SortKey, b: SortKey)
    requires
        a.is_category,
        !b.is_category,
    ensures
        entry_order(mode, a, b) == Ordering::Less,
        entry_order(mode, b, a) == Ordering::Greater,
{
}

/// Between two entries of the same kind, the descending mode gives the ascending mode's order
/// with the entries swapped, and the other way round.
pub proof fn lemma_opposite_mode_swaps(mode: SortingMode, a: SortKey, b: SortKey)
    requires
        a.is_category == b.is_category,
    ensures
        entry_order(opposite(mode), a, b) == entry_order(mode, b, a),
{
}

/// The display order is a total preorder: every entry is in order `Equal` with itself, and
/// the order is transitive, strictly so when one of the steps is strict.
pub proof fn lemma_entry_order_preorder(mode: SortingMode, a: SortKey, b: SortKey, c: SortKey)
    ensures
        entry_order(mode, a, a) == Ordering::Equal,
        entry_order(mode, a, b) != Ordering::Greater && entry_order(mode, b, c) != Ordering::Greater
            ==> entry_order(mode, a, c) != Ordering::Greater,
        entry_order(mode, a, b) == Ordering::Less && entry_order(mode, b, c) != Ordering::Greater
            ==> entry_order(mode, a, c) == Ordering::Less,
        entry_order(mode, a, b) != Ordering::Greater && entry_order(mode, b, c) == Ordering::Less
            ==> entry_order(mode, a, c) == Ordering::Less,
{
    lemma_text_order_equal(a.name, a.name);
    if entry_order(mode, a, b) != Ordering::Greater && entry_order(mode, b, c) != Ordering::Greater {
        if a.is_category == b.is_category && b.is_category == c.is_category {
            match mode {
                SortingMode::NameInc => lemma_text_order_transitive(a.name, b.name, c.name),
                SortingMode::NameDec => lemma_text_order_transitive(c.name, b.name, a.name),
                _ => {},
            }
        }
    }
}

/// Whether `a` comes before `b` in dictionary order: after a common beginning of length `k`,
/// `a` ends while `b` goes on, or `a` has a smaller character at `k`.
pub open spec fn precedes_at(a: Seq<char>, b: Seq<char>, k: int) -> bool {
    &&& 0 <= k <= a.len()
    &&& k <= b.len()
    &&& a.take(k) == b.take(k)
    &&& ((k == a.len() && k < b.len()) || (k < a.len() && k < b.len() && a[k] < b[k]))
}

/// Law: one text orders before another exactly when it comes first in dictionary order by
/// character value, and the two are equal in order exactly when they are the same text.
pub proof fn lemma_text_order_lexicographic(a: Seq<char>, b: Seq<char>)
    ensures
        (text_order(a, b) == Ordering::Less) <==> exists|k: int| #[trigger] precedes_at(a, b, k),
        (text_order(a, b) == Ordering::Equal) <==> a == b,
    decreases a.len(),
{
    lemma_text_order_equal(a, b);
    if a.len() > 0 && b.len() > 0 && a[0] == b[0] {
        let a1 = a.drop_first();
        let b1 = b.drop_first();
        lemma_text_order_lexicographic(a1, b1);
        if text_order(a, b) == Ordering::Less {
            let k1 = choose|k: int| #[trigger] precedes_at(a1, b1, k);
            assert(a.take(k1 + 1) =~= seq![a[0]] + a1.take(k1));
            assert(b.take(k1 + 1) =~= seq![b[0]] + b1.take(k1));
            assert(precedes_at(a, b, k1 + 1));
        }
        if exists|k: int| #[trigger] precedes_at(a, b, k) {
            let k = choose|k: int| #[trigger] precedes_at(a, b, k);
            if k == 0 {
                assert(a[0] < b[0]);
            } else {
                assert(a1.take(k - 1) =~= a.take(k).drop_first());
                assert(b1.take(k - 1) =~= b.take(k).drop_first());
                if k < a.len() && k < b.len() {
                    assert(a1[k - 1] == a[k] && b1[k - 1] == b[k]);
                }
                assert(precedes_at(a1, b1, k - 1));
            }
        }
    } else {
        if text_order(a, b) == Ordering::Less {
            assert(a.take(0) =~= b.take(0));
            assert(precedes_at(a, b, 0));
        }
        if exists|k: int| #[trigger] precedes_at(a, b, k) {
            let k = choose|k: int| #[trigger] precedes_at(a, b, k);
            if k > 0 {
                assert(a.take(k)[0] == b.take(k)[0]);
            }
        }
    }
}

/// Law: between two entries of the same kind, ordering by length, id or size compares the full
/// values: ascending puts the smaller first and ties only equal values, descending the reverse;
/// ordering by name puts the name that comes first in dictionary order first.
pub proof fn lemma_mode_orders(a: SortKey, b: SortKey)
    requires
        a.is_category == b.is_category,
    ensures
        (entry_order(SortingMode::LengthInc, a, b) == Ordering::Less) == (a.duration_ms < b.duration_ms),
        (entry_order(SortingMode::LengthInc, a, b) == Ordering::Equal) == (a.duration_ms == b.duration_ms),
        (entry_order(SortingMode::LengthInc, a, b) == Ordering::Greater) == (a.duration_ms > b.duration_ms),
        (entry_order(SortingMode::LengthDec, a, b) == Ordering::Less) == (a.duration_ms > b.duration_ms),
        (entry_order(SortingMode::LengthDec, a, b) == Ordering::Equal) == (a.duration_ms == b.duration_ms),
        (entry_order(SortingMode::LengthDec, a, b) == Ordering::Greater) == (a.duration_ms < b.duration_ms),
        (entry_order(SortingMode::IdInc, a, b) == Ordering::Less) == (a.id < b.id),
        (entry_order(SortingMode::IdInc, a, b) == Ordering::Equal) == (a.id == b.id),
        (entry_order(SortingMode::IdInc, a, b) == Ordering::Greater) == (a.id > b.id),
        (entry_order(SortingMode::IdDec, a, b) == Ordering::Less) == (a.id > b.id),
        (entry_order(SortingMode::IdDec, a, b) == Ordering::Equal) == (a.id == b.id),
        (entry_order(SortingMode::IdDec, a, b) == Ordering::Greater) == (a.id < b.id),
        (entry_order(SortingMode::SizeInc, a, b) == Ordering::Less) == (a.bytes < b.bytes),
        (entry_order(SortingMode::SizeInc, a, b) == Ordering::Equal) == (a.bytes == b.bytes),
        (entry_order(SortingMode::SizeInc, a, b) == Ordering::Greater) == (a.bytes > b.bytes),
        (entry_order(SortingMode::SizeDec, a, b) == Ordering::Less) == (a.bytes > b.bytes),
        (entry_order(SortingMode::SizeDec, a, b) == Ordering::Equal) == (a.bytes == b.bytes),
        (entry_order(SortingMode::SizeDec, a, b) == Ordering::Greater) == (a.bytes < b.bytes),
        (entry_order(SortingMode::NameInc, a, b) == Ordering::Less) <==> exists|k: int| #[trigger] precedes_at(a.name, b.name, k),
        (entry_order(SortingMode::NameInc, a, b) == Ordering::Equal) <==> a.name == b.name,
        (entry_order(SortingMode::NameDec, a, b) == Ordering::Less) <==> exists|k: int| #[trigger] precedes_at(b.name, a.name, k),
        (entry_order(SortingMode::NameDec, a, b) == Ordering::Equal) <==> a.name == b.name,
{
    lemma_text_order_lexicographic(a.name, b.name);
    lemma_text_order_lexicographic(b.name, a.name);
}

/// Law: two sounds of the sound-effect library ordered by length are compared by their whole
/// lengths in milliseconds, and by size by their whole sizes.
pub proof fn lemma_sounds_by_length_and_size(a: SfxLibraryEntry, b: SfxLibraryEntry, da: u64, db: u64, ba: u64, bb: u64)
    requires
        a.kind == (EntryKind::Sound { bytes: ba, duration_ms: da }),
        b.kind == (EntryKind::Sound { bytes: bb, duration_ms: db }),
    ensures
        (entry_order(SortingMode::LengthInc, a.sort_key(), b.sort_key()) == Ordering::Less) == (da < db),
        (entry_order(SortingMode::LengthInc, a.sort_key(), b.sort_key()) == Ordering::Equal) == (da == db),
        (entry_order(SortingMode::LengthDec, a.sort_key(), b.sort_key()) == Ordering::Less) == (da > db),
        (entry_order(SortingMode::SizeInc, a.sort_key(), b.sort_key()) == Ordering::Less) == (ba < bb),
        (entry_order(SortingMode::SizeDec, a.sort_key(), b.sort_key()) == Ordering::Less) == (ba > bb),
{
    lemma_mode_orders(a.sort_key(), b.sort_key());
}

/// Law: two songs ordered by length are compared by their whole lengths in seconds.
pub proof fn lemma_songs_by_length(a: Song, b: Song)
    ensures
        (entry_order(SortingMode::LengthInc, a.sort_key(), b.sort_key()) == Ordering::Less) == (a.duration_secs < b.duration_secs),
        (entry_order(SortingMode::LengthInc, a.sort_key(), b.sort_key()) == Ordering::Equal) == (a.duration_secs == b.duration_secs),
        (entry_order(SortingMode::LengthDec, a.sort_key(), b.sort_key()) == Ordering::Less) == (a.duration_secs > b.duration_secs),
{
    lemma_mode_orders(a.sort_key(), b.sort_key());
}

/// Whether entries are in display order: no entry comes after one it orders before.
pub open spec fn in_display_order<T: EntrySorting>(mode: SortingMode, s: Seq<T>) -> bool {
    forall|i: int, j: int|
        0 <= i < j < s.len() ==> entry_order(mode, #[trigger] s[i].sort_key(), #[trigger] s[j].sort_key())
            != Ordering::Greater
}

impl<'a, T: EntrySorting> EntrySorting for &'a T {
    open spec fn sort_key(&self) -> SortKey {
        (**self).sort_key()
    }

    fn get_name(&self) -> (r: &str) {
        (**self).get_name()
    }

    fn get_id(&self) -> (r: EntryId) {
        (**self).get_id()
    }

    fn get_duration(&self) -> (r: u128) {
        (**self).get_duration()
    }

    fn get_bytes(&self) -> (r: BytesSize) {
        (**self).get_bytes()
    }

    fn is_category(&self) -> (r: bool) {
        (**self).is_category()
    }
}

/// Whether `sorted` holds the entries of `given` rearranged without changing the order of
/// entries the mode finds equal: `pos` gives, for each place of `sorted`, the place of `given`
/// its entry came from.
pub open spec fn stable_arrangement<T: EntrySorting>(mode: SortingMode, given: Seq<T>, sorted: Seq<T>, pos: Seq<int>) -> bool {
    &&& pos.len() == sorted.len()
    &&& sorted.len() == given.len()
    &&& forall|i: int| 0 <= i < pos.len() ==> 0 <= #[trigger] pos[i] < given.len() && sorted[i] == given[pos[i]]
    &&& forall|i: int, j: int| 0 <= i < j < pos.len() ==> #[trigger] pos[i] != #[trigger] pos[j]
    &&& forall|i: int, j: int|
        0 <= i < j < pos.len() && entry_order(mode, #[trigger] sorted[i].sort_key(), #[trigger] sorted[j].sort_key())
            == Ordering::Equal ==> pos[i] < pos[j]
}

/// Sorts entries into display order, as sorting with `compare_entries` does: the result holds
/// the same entries, categories first, then in the mode's order, and entries the mode finds
/// equal keep their order (the sort is stable).
pub fn sort_entries<T: EntrySorting>(mode: SortingMode, entries: Vec<T>) -> (r: Vec<T>)
    ensures
        r@.to_multiset() == entries@.to_multiset(),
        in_display_order(mode, r@),
        exists|pos: Seq<int>| #[trigger] stable_arrangement(mode, entries@, r@, pos),
{
    broadcast use vstd::seq_lib::group_to_multiset_ensures;

    let ghost ents = entries@;
    let mut out: Vec<T> = Vec::new();
    let ghost mut k: int = 0;
    let ghost mut pos: Seq<int> = Seq::empty();
    assert(ents.take(0) =~= Seq::<T>::empty());
    for x in it: entries.into_iter()
        invariant
            it.seq() == ents,
            k == it.index(),
            0 <= k <= ents.len(),
            out@.to_multiset() == ents.take(k).to_multiset(),
            in_display_order(mode, out@),
            pos.len() == out@.len(),
            forall|i: int| 0 <= i < pos.len() ==> 0 <= #[trigger] pos[i] < k && out@[i] == ents[pos[i]],
            forall|i: int, j: int| 0 <= i < j < pos.len() ==> #[trigger] pos[i] != #[trigger] pos[j],
            forall|i: int, j: int|
                0 <= i < j < pos.len() && entry_order(mode, #[trigger] out@[i].sort_key(), #[trigger] out@[j].sort_key())
                    == Ordering::Equal ==> pos[i] < pos[j],
    {
        assert(x == ents[k]);
        let mut p: usize = 0;
        let ghost mut q: int = 0;
        loop
            invariant
                q == p,
                p <= out.len(),
                in_display_order(mode, out@),
                forall|j: int| 0 <= j < q ==> entry_order(mode, #[trigger] out@[j].sort_key(), x.sort_key()) != Ordering::Greater,
            ensures
                q == p,
                p <= out.len(),
                forall|j: int| 0 <= j < q ==> entry_order(mode, #[trigger] out@[j].sort_key(), x.sort_key()) != Ordering::Greater,
                p < out.len() ==> entry_order(mode, out@[q].sort_key(), x.sort_key()) == Ordering::Greater,
            decreases out.len() - p,
        {
            if p == out.len() {
                break;
            }
            match mode.compare_entries(&out[p], &x) {
                Ordering::Greater => {
                    break;
                },
                _ => {},
            }
            p = p + 1;
            proof { q = q + 1; }
        }
        let ghost before = out@;
        out.insert(p, x);
        assert(out@ == before.insert(q, x));
        assert(ents.take(k + 1) =~= ents.take(k).push(x));
        proof {
            vstd::seq_lib::to_multiset_insert(before, q, x);
            vstd::seq_lib::to_multiset_build(ents.take(k), x);
        }
        assert forall|a: int, b: int| 0 <= a < b < out@.len() implies entry_order(
            mode,
            #[trigger] out@[a].sort_key(),
            #[trigger] out@[b].sort_key(),
        ) != Ordering::Greater by {
            if b < q {
                assert(out@[a] == before[a] && out@[b] == before[b]);
            } else if b == q {
                assert(out@[a] == before[a] && out@[b] == x);
            } else if a < q {
                assert(out@[a] == before[a] && out@[b] == before[b - 1]);
                assert(entry_order(mode, before[a].sort_key(), before[b - 1].sort_key()) != Ordering::Greater);
            } else if a == q {
                assert(out@[a] == x && out@[b] == before[b - 1]);
                assert(entry_order(mode, before[q].sort_key(), x.sort_key()) == Ordering::Greater);
                lemma_entry_order_antisymmetric(mode, before[q].sort_key(), x.sort_key());
                if b - 1 > q {
                    assert(entry_order(mode, before[q].sort_key(), before[b - 1].sort_key()) != Ordering::Greater);
                }
                lemma_entry_order_preorder(mode, x.sort_key(), before[q].sort_key(), before[b - 1].sort_key());
            } else {
                assert(out@[a] == before[a - 1] && out@[b] == before[b - 1]);
                assert(entry_order(mode, before[a - 1].sort_key(), before[b - 1].sort_key()) != Ordering::Greater);
            }
        }
        let ghost old_pos = pos;
        proof {
            pos = pos.insert(q, k);
        }
        assert forall|i: int| 0 <= i < pos.len() implies 0 <= #[trigger] pos[i] < k + 1 && out@[i] == ents[pos[i]] by {
            if i < q {
                assert(pos[i] == old_pos[i] && out@[i] == before[i]);
            } else if i > q {
                assert(pos[i] == old_pos[i - 1] && out@[i] == before[i - 1]);
            }
        }
        assert forall|a: int, b: int| 0 <= a < b < pos.len() implies #[trigger] pos[a] != #[trigger] pos[b] by {
            if b < q {
                assert(pos[a] == old_pos[a] && pos[b] == old_pos[b]);
            } else if b == q {
                assert(pos[a] == old_pos[a]);
            } else if a < q {
                assert(pos[a] == old_pos[a] && pos[b] == old_pos[b - 1]);
            } else if a == q {
                assert(pos[b] == old_pos[b - 1]);
            } else {
                assert(pos[a] == old_pos[a - 1] && pos[b] == old_pos[b - 1]);
            }
        }
        assert forall|a: int, b: int|
            0 <= a < b < pos.len() && entry_order(mode, #[trigger] out@[a].sort_key(), #[trigger] out@[b].sort_key())
                == Ordering::Equal implies pos[a] < pos[b] by {
            if b < q {
                assert(pos[a] == old_pos[a] && pos[b] == old_pos[b]);
                assert(out@[a] == before[a] && out@[b] == before[b]);
            } else if b == q {
                assert(pos[a] == old_pos[a]);
            } else if a < q {
                assert(pos[a] == old_pos[a] && pos[b] == old_pos[b - 1]);
                assert(out@[a] == before[a] && out@[b] == before[b - 1]);
            } else if a == q {
                assert(out@[a] == x && out@[b] == before[b - 1]);
                lemma_entry_order_antisymmetric(mode, before[q].sort_key(), x.sort_key());
                if b - 1 > q {
                    assert(entry_order(mode, before[q].sort_key(), before[b - 1].sort_key()) != Ordering::Greater);
                }
                lemma_entry_order_preorder(mode, x.sort_key(), before[q].sort_key(), before[b - 1].sort_key());
            } else {
                assert(pos[a] == old_pos[a - 1] && pos[b] == old_pos[b - 1]);
                assert(out@[a] == before[a - 1] && out@[b] == before[b - 1]);
            }
        }
        proof { k = k + 1; }
    }
    assert(ents.take(k) =~= ents);
    assert(k == ents.len());
    proof {
        vstd::seq_lib::to_multiset_len(out@);
        vstd::seq_lib::to_multiset_len(ents);
    }
    assert(out@.len() == ents.len());
    assert(stable_arrangement(mode, ents, out@, pos));
    out
}

} // verus!
