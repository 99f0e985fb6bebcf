//! Which songs of the music library are listed, and which artists and tags can still be
//! picked to narrow the list.

use vstd::prelude::*;

use crate::maps::set_contains;
use crate::music::Song;
use crate::search::{in_display_order, sort_entries, stable_arrangement, SortingMode};
use crate::music::TagId;
use crate::EntryId;

verus! {

/// Whether a song has every one of `tags`.
pub open spec fn has_all_tags(song: Song, tags: Seq<TagId>) -> bool {
    forall|i: int| 0 <= i < tags.len() ==> song.tags@.contains(#[trigger] tags[i])
}

/// Whether a song is by one of `artists`; with no artist picked, every song is.
pub open spec fn by_artists(song: Song, artists: Seq<EntryId>) -> bool {
    artists.len() == 0 || artists.contains(song.credit_id)
}

/// Whether a song is listed: it has every picked tag and is by a picked artist.
pub open spec fn song_listed(song: Song, tags: Seq<TagId>, artists: Seq<EntryId>) -> bool {
    has_all_tags(song, tags) && by_artists(song, artists)
}

/// Whether a song can offer its artists and tags as choices: it has every picked tag and, when
/// only downloaded songs are shown, is downloaded.
pub open spec fn song_available(song: Song, tags: Seq<TagId>, show_downloaded: bool, downloaded: Set<EntryId>) -> bool {
    has_all_tags(song, tags) && (!show_downloaded || downloaded.contains(song.id))
}

/// The songs of a list that are listed, in order.
pub open spec fn listed_songs(songs: Seq<Song>, tags: Seq<TagId>, artists: Seq<EntryId>) -> Seq<Song>
    decreases songs.len(),
{
    if songs.len() == 0 {
        Seq::empty()
    } else if song_listed(songs.last(), tags, artists) {
        listed_songs(songs.drop_last(), tags, artists).push(songs.last())
    } else {
        listed_songs(songs.drop_last(), tags, artists)
    }
}

/// The songs that references point to.
pub open spec fn songs_of(refs: Seq<&Song>) -> Seq<Song> {
    refs.map_values(|s: &Song| *s)
}

/// Whether `id` is among `ids`.
fn contains_id(ids: &Vec<EntryId>, id: EntryId) -> (r: bool)
    ensures
        r == ids@.contains(id),
{
    let mut i: usize = 0;
    while i < ids.len()
        invariant
            i <= ids.len(),
            forall|j: int| 0 <= j < i ==> ids@[j] != id,
        decreases ids.len() - i,
    {
        if ids[i] == id {
            assert(ids@[i as int] == id);
            return true;
        }
        i = i + 1;
    }
    false
}

/// Whether `tag` is among `tags`.
fn contains_tag(tags: &Vec<TagId>, tag: TagId) -> (r: bool)
    ensures
        r == tags@.contains(tag),
{
    let mut i: usize = 0;
    while i < tags.len()
        invariant
            i <= tags.len(),
            forall|j: int| 0 <= j < i ==> tags@[j] != tag,
        decreases tags.len() - i,
    {
        if tags[i] == tag {
            assert(tags@[i as int] == tag);
            return true;
        }
        i = i + 1;
    }
    false
}

/// Whether a song has every one of `tags`.
fn song_has_all_tags(song: &Song, tags: &Vec<TagId>) -> (r: bool)
    ensures
        r == has_all_tags(*song, tags@),
{
    let mut i: usize = 0;
    while i < tags.len()
        invariant
            i <= tags.len(),
            forall|j: int| 0 <= j < i ==> song.tags@.contains(#[trigger] tags@[j]),
        decreases tags.len() - i,
    {
        if !contains_tag(&song.tags, tags[i]) {
            return false;
        }
        i = i + 1;
    }
    true
}

/// Whether a song is listed for the picked tags and artists.
fn is_song_listed(song: &Song, tags: &Vec<TagId>, artists: &Vec<EntryId>) -> (r: bool)
    ensures
        r == song_listed(*song, tags@, artists@),
{
    song_has_all_tags(song, tags) && (artists.len() == 0 || contains_id(artists, song.credit_id))
}

/// The songs that have every picked tag and are by a picked artist (any artist when none is
/// picked), in library order.
pub fn listed_song_refs<'a>(songs: &'a Vec<Song>, tags: &Vec<TagId>, artists: &Vec<EntryId>) -> (r: Vec<&'a Song>)
    ensures
        songs_of(r@) == listed_songs(songs@, tags@, artists@),
{
    let mut out: Vec<&'a Song> = Vec::new();
    let mut i: usize = 0;
    assert(songs@.take(0) =~= Seq::<Song>::empty());
    assert(songs_of(out@) =~= Seq::<Song>::empty());
    while i < songs.len()
        invariant
            i <= songs.len(),
            songs_of(out@) == listed_songs(songs@.take(i as int), tags@, artists@),
        decreases songs.len() - i,
    {
        assert(songs@.take(i + 1).drop_last() =~= songs@.take(i as int));
        assert(songs@.take(i + 1).last() == songs@[i as int]);
        if is_song_listed(&songs[i], tags, artists) {
            let ghost before = out@;
            out.push(&songs[i]);
            assert(songs_of(out@) =~= songs_of(before).push(songs@[i as int]));
        }
        i = i + 1;
    }
    assert(songs@.take(songs.len() as int) =~= songs@);
    out
}

/// The listed songs in display order: the songs that have every picked tag and are by a
/// picked artist, sorted by `mode`, songs the mode finds equal in library order.
pub fn filtered_songs<'a>(songs: &'a Vec<Song>, tags: &Vec<TagId>, artists: &Vec<EntryId>, mode: SortingMode) -> (r: Vec<&'a Song>)
    ensures
        in_display_order(mode, r@),
        exists|listed: Seq<&Song>|
            songs_of(listed) == listed_songs(songs@, tags@, artists@) && r@.to_multiset() == listed.to_multiset()
                && exists|pos: Seq<int>| #[trigger] stable_arrangement(mode, listed, r@, pos),
{
    let listed = listed_song_refs(songs, tags, artists);
    let ghost l = listed@;
    let r = sort_entries(mode, listed);
    assert(songs_of(l) == listed_songs(songs@, tags@, artists@));
    r
}

/// The artists that can be picked: each artist of an available song once, in library order.
/// A song is available when it has every picked tag and, when only downloaded songs are shown,
/// is downloaded.
pub fn available_artists(
    songs: &Vec<Song>,
    tags: &Vec<TagId>,
    show_downloaded: bool,
    downloaded: &ahash::HashSet<EntryId>,
) -> (r: Vec<EntryId>)
    ensures
        r@.no_duplicates(),
        forall|id: EntryId|
            r@.contains(id) <==> exists|i: int|
                0 <= i < songs@.len() && #[trigger] songs@[i].credit_id == id
                    && song_available(songs@[i], tags@, show_downloaded, downloaded@),
{
    let mut out: Vec<EntryId> = Vec::new();
    let mut i: usize = 0;
    while i < songs.len()
        invariant
            i <= songs.len(),
            out@.no_duplicates(),
            forall|id: EntryId|
                out@.contains(id) <==> exists|k: int|
                    0 <= k < i && #[trigger] songs@[k].credit_id == id
                        && song_available(songs@[k], tags@, show_downloaded, downloaded@),
        decreases songs.len() - i,
    {
        let song = &songs[i];
        let available = song_has_all_tags(song, tags) && (!show_downloaded || set_contains(downloaded, song.id));
        let ghost before = out@;
        if available && !contains_id(&out, song.credit_id) {
            out.push(song.credit_id);
            assert forall|a: int, b: int| 0 <= a < b < out@.len() implies out@[a] != out@[b] by {
                if b == out@.len() - 1 {
                    assert(before.contains(before[a]));
                }
            }
        }
        assert forall|id: EntryId|
            out@.contains(id) <==> exists|k: int|
                0 <= k < i + 1 && #[trigger] songs@[k].credit_id == id
                    && song_available(songs@[k], tags@, show_downloaded, downloaded@) by {
            if out@.contains(id) && !before.contains(id) {
                assert(id == songs@[i as int].credit_id);
            }
            if out@.contains(id) && before.contains(id) {
                let k = choose|k: int| 0 <= k < i && #[trigger] songs@[k].credit_id == id
                    && song_available(songs@[k], tags@, show_downloaded, downloaded@);
            }
            if exists|k: int| 0 <= k < i + 1 && #[trigger] songs@[k].credit_id == id
                && song_available(songs@[k], tags@, show_downloaded, downloaded@) {
                let k = choose|k: int| 0 <= k < i + 1 && #[trigger] songs@[k].credit_id == id
                    && song_available(songs@[k], tags@, show_downloaded, downloaded@);
                if k < i {
                    assert(before.contains(id));
                    let m = choose|m: int| 0 <= m < before.len() && before[m] == id;
                    assert(out@[m] == id);
                } else if !before.contains(id) {
                    assert(out@[out@.len() - 1] == id);
                }
            }
        }
        i = i + 1;
    }
    out
}

/// The tags that can be picked: each tag of an available song by a picked artist once, in
/// library order.
pub fn available_tags(
    songs: &Vec<Song>,
    tags: &Vec<TagId>,
    artists: &Vec<EntryId>,
    show_downloaded: bool,
    downloaded: &ahash::HashSet<EntryId>,
) -> (r: Vec<TagId>)
    ensures
        r@.no_duplicates(),
        forall|t: TagId|
            r@.contains(t) <==> exists|i: int|
                0 <= i < songs@.len() && #[trigger] songs@[i].tags@.contains(t)
                    && song_available(songs@[i], tags@, show_downloaded, downloaded@)
                    && by_artists(songs@[i], artists@),
{
    let mut out: Vec<TagId> = Vec::new();
    let mut i: usize = 0;
    while i < songs.len()
        invariant
            i <= songs.len(),
            out@.no_duplicates(),
            forall|t: TagId|
                out@.contains(t) <==> exists|k: int|
                    0 <= k < i && #[trigger] songs@[k].tags@.contains(t)
                        && song_available(songs@[k], tags@, show_downloaded, downloaded@)
                        && by_artists(songs@[k], artists@),
        decreases songs.len() - i,
    {
        let song = &songs[i];
        let ghost before_song = out@;
        let available = song_has_all_tags(song, tags) && (!show_downloaded || set_contains(downloaded, song.id))
            && (artists.len() == 0 || contains_id(artists, song.credit_id));
        if available {
            let mut j: usize = 0;
            while j < song.tags.len()
                invariant
                    j <= song.tags.len(),
                    out@.no_duplicates(),
                    forall|t: TagId| #[trigger] out@.contains(t) <==> (before_song.contains(t) || song.tags@.take(j as int).contains(t)),
                decreases song.tags.len() - j,
            {
                let t = song.tags[j];
                let ghost before = out@;
                assert(song.tags@.take(j + 1) =~= song.tags@.take(j as int).push(t));
                if !contains_tag(&out, t) {
                    out.push(t);
                    assert forall|a: int, b: int| 0 <= a < b < out@.len() implies out@[a] != out@[b] by {
                        if b == out@.len() - 1 {
                            assert(before.contains(before[a]));
                        }
                    }
                }
                assert forall|x: TagId| #[trigger] out@.contains(x) <==> (before_song.contains(x) || song.tags@.take(j + 1).contains(x)) by {
                    if out@.contains(x) && !before.contains(x) {
                        assert(x == t);
                        assert(song.tags@.take(j + 1)[j as int] == t);
                    }
                    if before.contains(x) {
                        let m = choose|m: int| 0 <= m < before.len() && before[m] == x;
                        assert(out@[m] == x);
                        if song.tags@.take(j as int).contains(x) {
                            let n = choose|n: int| 0 <= n < j && #[trigger] song.tags@.take(j as int)[n] == x;
                            assert(song.tags@.take(j + 1)[n] == x);
                        }
                    }
                    if song.tags@.take(j + 1).contains(x) {
                        let n = choose|n: int| 0 <= n < j + 1 && #[trigger] song.tags@.take(j + 1)[n] == x;
                        if n < j {
                            assert(song.tags@.take(j as int)[n] == x);
                        } else if !before.contains(x) {
                            assert(out@[out@.len() - 1] == x);
                        }
                    }
                }
                j = j + 1;
            }
            assert(song.tags@.take(song.tags.len() as int) =~= song.tags@);
        }
        assert forall|t: TagId|
            out@.contains(t) <==> exists|k: int|
                0 <= k < i + 1 && #[trigger] songs@[k].tags@.contains(t)
                    && song_available(songs@[k], tags@, show_downloaded, downloaded@)
                    && by_artists(songs@[k], artists@) by {
            if out@.contains(t) && !before_song.contains(t) {
                assert(songs@[i as int].tags@.contains(t));
            }
            if exists|k: int| 0 <= k < i + 1 && #[trigger] songs@[k].tags@.contains(t)
                && song_available(songs@[k], tags@, show_downloaded, downloaded@)
                && by_artists(songs@[k], artists@) {
                let k = choose|k: int| 0 <= k < i + 1 && #[trigger] songs@[k].tags@.contains(t)
                    && song_available(songs@[k], tags@, show_downloaded, downloaded@)
                    && by_artists(songs@[k], artists@);
                if k < i {
                    assert(before_song.contains(t));
                }
            }
        }
        i = i + 1;
    }
    out
}

/// The picked tags once artists are picked too: only the picked tags that can still be picked
/// stay, in order. With no artist picked, the picked tags stay as they are.
pub fn narrow_picked_tags(picked: Vec<TagId>, available: &Vec<TagId>, artists_picked: bool) -> (r: Vec<TagId>)
    ensures
        !artists_picked ==> r@ == picked@,
        artists_picked ==> r@ == picked@.filter(|t: TagId| available@.contains(t)),
{
    if !artists_picked {
        return picked;
    }
    let mut out: Vec<TagId> = Vec::new();
    let mut i: usize = 0;
    assert(picked@.take(0).filter(|t: TagId| available@.contains(t)) =~= Seq::<TagId>::empty());
    while i < picked.len()
        invariant
            i <= picked.len(),
            out@ == picked@.take(i as int).filter(|t: TagId| available@.contains(t)),
        decreases picked.len() - i,
    {
        let t = picked[i];
        assert(picked@.take(i + 1).drop_last() =~= picked@.take(i as int));
        reveal(Seq::filter);
        if contains_tag(available, t) {
            out.push(t);
        }
        i = i + 1;
    }
    assert(picked@.take(picked.len() as int) =~= picked@);
    out
}

/// A song has every one of `tags` exactly when it holds each tag that `tags` holds.
proof fn lemma_has_all_tags_means(song: Song, tags: Seq<TagId>)
    ensures
        has_all_tags(song, tags) <==> forall|t: TagId| #[trigger] tags.contains(t) ==> song.tags@.contains(t),
{
    if has_all_tags(song, tags) {
        assert forall|t: TagId| #[trigger] tags.contains(t) implies song.tags@.contains(t) by {
            let i = choose|i: int| 0 <= i < tags.len() && tags[i] == t;
            assert(song.tags@.contains(tags[i]));
        }
    }
    if forall|t: TagId| #[trigger] tags.contains(t) ==> song.tags@.contains(t) {
        assert forall|i: int| 0 <= i < tags.len() implies song.tags@.contains(#[trigger] tags[i]) by {
            assert(tags.contains(tags[i]));
        }
    }
}

/// Law: the listed songs are songs of the library, at most as many; each has every picked tag
/// and is by a picked artist (any artist when none is picked); and every song of the library
/// that has every picked tag and is by a picked artist is listed.
pub proof fn lemma_listed_songs_members(songs: Seq<Song>, tags: Seq<TagId>, artists: Seq<EntryId>)
    ensures
        listed_songs(songs, tags, artists).len() <= songs.len(),
        forall|j: int|
            0 <= j < listed_songs(songs, tags, artists).len() ==> {
                let s = #[trigger] listed_songs(songs, tags, artists)[j];
                &&& songs.contains(s)
                &&& forall|t: TagId| #[trigger] tags.contains(t) ==> s.tags@.contains(t)
                &&& artists.len() == 0 || artists.contains(s.credit_id)
            },
        forall|i: int|
            0 <= i < songs.len() && (forall|t: TagId| #[trigger] tags.contains(t) ==> songs[i].tags@.contains(t))
                && (artists.len() == 0 || artists.contains(songs[i].credit_id))
                ==> listed_songs(songs, tags, artists).contains(#[trigger] songs[i]),
    decreases songs.len(),
{
    if songs.len() > 0 {
        let init = songs.drop_last();
        let last = songs.last();
        lemma_listed_songs_members(init, tags, artists);
        lemma_has_all_tags_means(last, tags);
        let l = listed_songs(songs, tags, artists);
        let li = listed_songs(init, tags, artists);
        assert forall|j: int|
            0 <= j < l.len() implies {
                let s = #[trigger] l[j];
                &&& songs.contains(s)
                &&& forall|t: TagId| #[trigger] tags.contains(t) ==> s.tags@.contains(t)
                &&& artists.len() == 0 || artists.contains(s.credit_id)
            } by {
            if j < li.len() {
                assert(l[j] == li[j]);
                let s = li[j];
                assert(init.contains(s));
                let m = choose|m: int| 0 <= m < init.len() && init[m] == s;
                assert(songs[m] == s);
            } else {
                assert(l[j] == last);
                assert(songs[songs.len() - 1] == last);
            }
        }
        assert forall|i: int|
            0 <= i < songs.len() && (forall|t: TagId| #[trigger] tags.contains(t) ==> songs[i].tags@.contains(t))
                && (artists.len() == 0 || artists.contains(songs[i].credit_id))
                implies l.contains(#[trigger] songs[i]) by {
            if i < init.len() {
                assert(init[i] == songs[i]);
                assert(li.contains(init[i]));
                let m = choose|m: int| 0 <= m < li.len() && li[m] == songs[i];
                if song_listed(last, tags, artists) {
                    assert(l[m] == li[m]);
                } else {
                    assert(l == li);
                }
            } else {
                assert(songs[i] == last);
                assert(song_listed(last, tags, artists));
                assert(l[l.len() - 1] == last);
            }
        }
    }
}

} // verus!
