//! Which sound-effect library entries a search shows.

use vstd::prelude::*;

use crate::maps::{map_len, set_contains};
use crate::search::SearchSettings;
use crate::sfx::{child_ids, present_entries, ref_views, EntryKind, EntryView, SfxLibrary, SfxLibraryEntry, SfxLibraryView};
use crate::text::{contains_chars, contains_seq, occurs_at, decimal, lowercase, push_decimal, str_chars, to_lowercase_chars, chars_equal};
use crate::EntryId;

verus! {

/// Whether a sound matches a query that is already in lower case: its lower-case name
/// contains the query, or its id in decimal is the query.
pub open spec fn sound_matches(query_lower: Seq<char>, e: EntryView) -> bool {
    contains_seq(lowercase(e.name), query_lower) || decimal(e.id as nat) == query_lower
}

/// Whether an entry is shown for a search, looking at most `depth` levels of categories deep:
/// a sound when only downloaded sounds are shown must be downloaded, and must match the
/// lower-cased query; a category is shown when one of its children is.
pub open spec fn entry_matches(
    lib: SfxLibraryView,
    query_lower: Seq<char>,
    show_downloaded: bool,
    downloaded: Set<EntryId>,
    e: EntryView,
    depth: nat,
) -> bool
    decreases depth, 0nat,
{
    match e.kind {
        EntryKind::Category => depth > 0 && any_matches(
            lib,
            query_lower,
            show_downloaded,
            downloaded,
            present_entries(child_ids(lib, e.id), lib.entries),
            (depth - 1) as nat,
        ),
        EntryKind::Sound { .. } => {
            !(show_downloaded && !downloaded.contains(e.id)) && sound_matches(query_lower, e)
        },
    }
}

/// Whether one of `es` is shown for a search, looking at most `depth` levels of categories
/// below them.
pub open spec fn any_matches(
    lib: SfxLibraryView,
    query_lower: Seq<char>,
    show_downloaded: bool,
    downloaded: Set<EntryId>,
    es: Seq<EntryView>,
    depth: nat,
) -> bool
    decreases depth, es.len(),
{
    if es.len() == 0 {
        false
    } else {
        any_matches(lib, query_lower, show_downloaded, downloaded, es.drop_last(), depth)
            || entry_matches(lib, query_lower, show_downloaded, downloaded, es.last(), depth)
    }
}

/// One entry of a list that is shown makes the list match.
proof fn lemma_any_matches_member(
    lib: SfxLibraryView,
    query_lower: Seq<char>,
    show_downloaded: bool,
    downloaded: Set<EntryId>,
    es: Seq<EntryView>,
    i: int,
    depth: nat,
)
    requires
        0 <= i < es.len(),
        entry_matches(lib, query_lower, show_downloaded, downloaded, es[i], depth),
    ensures
        any_matches(lib, query_lower, show_downloaded, downloaded, es, depth),
    decreases es.len(),
{
    if i < es.len() - 1 {
        lemma_any_matches_member(lib, query_lower, show_downloaded, downloaded, es.drop_last(), i, depth);
    }
}

/// Whether a sound matches a lower-case query.
fn sound_matches_query(query_lower: &[char], entry: &SfxLibraryEntry) -> (r: bool)
    ensures
        r == sound_matches(query_lower@, entry@),
{
    let name = str_chars(entry.name.as_str());
    let name_lower = to_lowercase_chars(name.as_slice());
    if contains_chars(name_lower.as_slice(), query_lower) {
        return true;
    }
    let mut id_text: Vec<char> = Vec::new();
    push_decimal(entry.id as u64, &mut id_text);
    assert(id_text@ =~= decimal(entry.id as nat));
    chars_equal(id_text.as_slice(), query_lower)
}

/// Whether an entry is shown, looking at most `depth` levels of categories deep.
fn matches_within(
    library: &SfxLibrary,
    query_lower: &[char],
    show_downloaded: bool,
    downloaded: &ahash::HashSet<EntryId>,
    entry: &SfxLibraryEntry,
    depth: u64,
) -> (r: bool)
    ensures
        r == entry_matches(library@, query_lower@, show_downloaded, downloaded@, entry@, depth as nat),
    decreases depth,
{
    match entry.kind {
        EntryKind::Category => {
            if depth == 0 {
                return false;
            }
            let children = library.iter_children(entry);
            let ghost cs = present_entries(child_ids(library@, entry.id), library@.entries);
            assert(ref_views(children@) == cs);
            let mut i: usize = 0;
            assert(cs.take(0) =~= Seq::<EntryView>::empty());
            while i < children.len()
                invariant
                    depth > 0,
                    entry.kind == EntryKind::Category,
                    cs == present_entries(child_ids(library@, entry.id), library@.entries),
                    ref_views(children@) == cs,
                    i <= children.len(),
                    !any_matches(library@, query_lower@, show_downloaded, downloaded@, cs.take(i as int), (depth - 1) as nat),
                decreases children.len() - i,
            {
                assert(cs[i as int] == children[i as int]@);
                assert(cs.take(i + 1).drop_last() =~= cs.take(i as int));
                if matches_within(library, query_lower, show_downloaded, downloaded, children[i], depth - 1) {
                    proof {
                        lemma_any_matches_member(library@, query_lower@, show_downloaded, downloaded@, cs, i as int, (depth - 1) as nat);
                    }
                    return true;
                }
                i = i + 1;
            }
            assert(cs.take(children.len() as int) =~= cs);
            false
        },
        EntryKind::Sound { .. } => {
            if show_downloaded && !set_contains(downloaded, entry.id) {
                return false;
            }
            sound_matches_query(query_lower, entry)
        },
    }
}

/// Whether the library view shows `entry` for a search: a sound must match the query (and be
/// downloaded when only downloaded sounds are shown); a category is shown when one of its
/// children is. Categories are followed at most as many levels deep as the library has
/// records, which is as deep as any chain of categories without a cycle goes.
pub fn is_matching_entry(
    search: &SearchSettings,
    downloaded: &ahash::HashSet<EntryId>,
    entry: &SfxLibraryEntry,
    library: &SfxLibrary,
) -> (r: bool)
    ensures
        r == entry_matches(
            library@,
            lowercase(search.search_query@),
            search.show_downloaded,
            downloaded@,
            entry@,
            library.entries@.len(),
        ),
        search.search_query@.len() == 0 && entry.kind is Sound && (!search.show_downloaded || downloaded@.contains(entry.id))
            ==> r,
{
    let query = str_chars(search.search_query.as_str());
    let query_lower = to_lowercase_chars(query.as_slice());
    proof {
        if query@.len() == 0 {
            assert(lowercase(entry.name@).subrange(0, 0) =~= query_lower@);
            assert(occurs_at(lowercase(entry.name@), query_lower@, 0));
        }
    }
    let depth = map_len(&library.entries) as u64;
    matches_within(library, query_lower.as_slice(), search.show_downloaded, downloaded, entry, depth)
}

/// Law: looking more levels deep never hides an entry that was shown.
pub proof fn lemma_entry_matches_deeper(
    lib: SfxLibraryView,
    query_lower: Seq<char>,
    show_downloaded: bool,
    downloaded: Set<EntryId>,
    e: EntryView,
    depth: nat,
)
    requires
        entry_matches(lib, query_lower, show_downloaded, downloaded, e, depth),
    ensures
        entry_matches(lib, query_lower, show_downloaded, downloaded, e, depth + 1),
    decreases depth, 0nat,
{
    if e.kind is Category {
        let cs = present_entries(child_ids(lib, e.id), lib.entries);
        lemma_any_matches_deeper(lib, query_lower, show_downloaded, downloaded, cs, (depth - 1) as nat);
    }
}

/// Looking more levels deep never hides a list that had an entry shown.
proof fn lemma_any_matches_deeper(
    lib: SfxLibraryView,
    query_lower: Seq<char>,
    show_downloaded: bool,
    downloaded: Set<EntryId>,
    es: Seq<EntryView>,
    depth: nat,
)
    requires
        any_matches(lib, query_lower, show_downloaded, downloaded, es, depth),
    ensures
        any_matches(lib, query_lower, show_downloaded, downloaded, es, depth + 1),
    decreases depth, es.len(),
{
    if es.len() > 0 {
        if any_matches(lib, query_lower, show_downloaded, downloaded, es.drop_last(), depth) {
            lemma_any_matches_deeper(lib, query_lower, show_downloaded, downloaded, es.drop_last(), depth);
        } else {
            lemma_entry_matches_deeper(lib, query_lower, show_downloaded, downloaded, es.last(), depth);
        }
    }
}

/// Law: showing only downloaded sounds never shows an entry that the unfiltered search hides.
pub proof fn lemma_downloaded_filter_narrows(
    lib: SfxLibraryView,
    query_lower: Seq<char>,
    downloaded: Set<EntryId>,
    e: EntryView,
    depth: nat,
)
    requires
        entry_matches(lib, query_lower, true, downloaded, e, depth),
    ensures
        entry_matches(lib, query_lower, false, downloaded, e, depth),
    decreases depth, 0nat,
{
    if e.kind is Category {
        let cs = present_entries(child_ids(lib, e.id), lib.entries);
        lemma_any_downloaded_filter_narrows(lib, query_lower, downloaded, cs, (depth - 1) as nat);
    }
}

/// Showing only downloaded sounds never shows a list that the unfiltered search hides.
proof fn lemma_any_downloaded_filter_narrows(
    lib: SfxLibraryView,
    query_lower: Seq<char>,
    downloaded: Set<EntryId>,
    es: Seq<EntryView>,
    depth: nat,
)
    requires
        any_matches(lib, query_lower, true, downloaded, es, depth),
    ensures
        any_matches(lib, query_lower, false, downloaded, es, depth),
    decreases depth, es.len(),
{
    if es.len() > 0 {
        if any_matches(lib, query_lower, true, downloaded, es.drop_last(), depth) {
            lemma_any_downloaded_filter_narrows(lib, query_lower, downloaded, es.drop_last(), depth);
        } else {
            lemma_downloaded_filter_narrows(lib, query_lower, downloaded, es.last(), depth);
        }
    }
}

/// Law: a sound is shown exactly when it passes the download filter and matches the query,
/// however deep the search looks.
pub proof fn lemma_sound_match(
    lib: SfxLibraryView,
    query_lower: Seq<char>,
    show_downloaded: bool,
    downloaded: Set<EntryId>,
    e: EntryView,
    depth: nat,
)
    requires
        e.kind is Sound,
    ensures
        entry_matches(lib, query_lower, show_downloaded, downloaded, e, depth)
            == ((!show_downloaded || downloaded.contains(e.id)) && sound_matches(query_lower, e)),
        entry_matches(lib, query_lower, show_downloaded, downloaded, e, depth) == (
            (!show_downloaded || downloaded.contains(e.id))
            && ((exists|k: int|
                0 <= k && k + query_lower.len() <= lowercase(e.name).len()
                    && #[trigger] lowercase(e.name).subrange(k, k + query_lower.len()) == query_lower)
                || decimal(e.id as nat) == query_lower)),
{
    let h = lowercase(e.name);
    if contains_seq(h, query_lower) {
        let k = choose|k: int| occurs_at(h, query_lower, k);
        assert(h.subrange(k, k + query_lower.len()) == query_lower);
    }
    if exists|k: int| 0 <= k && k + query_lower.len() <= h.len() && #[trigger] h.subrange(k, k + query_lower.len()) == query_lower {
        let k = choose|k: int| 0 <= k && k + query_lower.len() <= h.len() && #[trigger] h.subrange(k, k + query_lower.len()) == query_lower;
        assert(occurs_at(h, query_lower, k));
    }
}

/// A list has an entry shown exactly when one of its entries, at some index, is shown.
proof fn lemma_any_matches_exists(
    lib: SfxLibraryView,
    query_lower: Seq<char>,
    show_downloaded: bool,
    downloaded: Set<EntryId>,
    es: Seq<EntryView>,
    depth: nat,
)
    ensures
        any_matches(lib, query_lower, show_downloaded, downloaded, es, depth) <==> exists|i: int|
            0 <= i < es.len() && #[trigger] entry_matches(lib, query_lower, show_downloaded, downloaded, es[i], depth),
    decreases es.len(),
{
    if es.len() > 0 {
        lemma_any_matches_exists(lib, query_lower, show_downloaded, downloaded, es.drop_last(), depth);
        if any_matches(lib, query_lower, show_downloaded, downloaded, es, depth) {
            if any_matches(lib, query_lower, show_downloaded, downloaded, es.drop_last(), depth) {
                let i = choose|i: int|
                    0 <= i < es.drop_last().len() && #[trigger] entry_matches(lib, query_lower, show_downloaded, downloaded, es.drop_last()[i], depth);
                assert(es[i] == es.drop_last()[i]);
            } else {
                assert(entry_matches(lib, query_lower, show_downloaded, downloaded, es[es.len() - 1], depth));
            }
        }
        if exists|i: int| 0 <= i < es.len() && #[trigger] entry_matches(lib, query_lower, show_downloaded, downloaded, es[i], depth) {
            let i = choose|i: int| 0 <= i < es.len() && #[trigger] entry_matches(lib, query_lower, show_downloaded, downloaded, es[i], depth);
            lemma_any_matches_member(lib, query_lower, show_downloaded, downloaded, es, i, depth);
        }
    }
}

/// Law: a category is shown, looking `depth > 0` levels deep, exactly when one of the entries
/// listed as its children, at any place of the list, is shown one level less deep.
pub proof fn lemma_category_shown_by_children(
    lib: SfxLibraryView,
    query_lower: Seq<char>,
    show_downloaded: bool,
    downloaded: Set<EntryId>,
    e: EntryView,
    depth: nat,
)
    requires
        e.kind is Category,
        depth > 0,
    ensures
        entry_matches(lib, query_lower, show_downloaded, downloaded, e, depth) <==> exists|i: int|
            0 <= i < present_entries(child_ids(lib, e.id), lib.entries).len() && #[trigger] entry_matches(
                lib,
                query_lower,
                show_downloaded,
                downloaded,
                present_entries(child_ids(lib, e.id), lib.entries)[i],
                (depth - 1) as nat,
            ),
{
    lemma_any_matches_exists(
        lib,
        query_lower,
        show_downloaded,
        downloaded,
        present_entries(child_ids(lib, e.id), lib.entries),
        (depth - 1) as nat,
    );
}

} // verus!
