use gdsfx::choices::{artist_choices, tag_choices, tag_ids_of_records};
use gdsfx::files::download_ids;
use gdsfx::music_filters::{available_artists, available_tags, filtered_songs, narrow_picked_tags};
use std::cmp::Ordering;

use gdsfx::files::{downloaded_ids, sound_id_of_file_name, unlisted_sfx, FileEntry};
use gdsfx::matching::is_matching_entry;
use gdsfx::music::Song;
use gdsfx::search::{compare_texts, sort_entries, SearchSettings, Sorting, SortingMode};
use gdsfx::sfx::{parse_sfx_library_from_bytes, EntryKind, SfxLibraryEntry};

fn sound(id: u32, name: &str, bytes: u64, duration_ms: u64) -> SfxLibraryEntry {
    SfxLibraryEntry { id, name: name.to_string(), parent_id: 1, kind: EntryKind::Sound { bytes, duration_ms } }
}

fn category(id: u32, name: &str) -> SfxLibraryEntry {
    SfxLibraryEntry { id, name: name.to_string(), parent_id: 1, kind: EntryKind::Category }
}

#[test]
fn categories_come_first() {
    let cat = category(9, "Zebra");
    let snd = sound(1, "Apple", 1, 1);
    for mode in [SortingMode::NameInc, SortingMode::NameDec, SortingMode::IdInc, SortingMode::SizeDec] {
        assert_eq!(mode.compare_entries(&cat, &snd), Ordering::Less);
        assert_eq!(mode.compare_entries(&snd, &cat), Ordering::Greater);
    }
}

#[test]
fn compare_by_each_mode() {
    let a = sound(1, "Apple", 300, 2000);
    let b = sound(2, "Banana", 100, 1000);
    assert_eq!(SortingMode::NameInc.compare_entries(&a, &b), Ordering::Less);
    assert_eq!(SortingMode::NameDec.compare_entries(&a, &b), Ordering::Greater);
    assert_eq!(SortingMode::LengthInc.compare_entries(&a, &b), Ordering::Greater);
    assert_eq!(SortingMode::LengthDec.compare_entries(&a, &b), Ordering::Less);
    assert_eq!(SortingMode::IdInc.compare_entries(&a, &b), Ordering::Less);
    assert_eq!(SortingMode::IdDec.compare_entries(&a, &b), Ordering::Greater);
    assert_eq!(SortingMode::SizeInc.compare_entries(&a, &b), Ordering::Greater);
    assert_eq!(SortingMode::SizeDec.compare_entries(&a, &b), Ordering::Less);
    assert_eq!(SortingMode::NameInc.compare_entries(&a, &a), Ordering::Equal);
}

#[test]
fn compare_songs_and_sounds_by_length() {
    let song = Song {
        id: 5,
        name: "Tune".to_string(),
        credit_id: 0,
        bytes: 10,
        duration_secs: 2,
        tags: vec![],
        ncs: false,
        unk2: String::new(),
        url: String::new(),
        new: false,
        unk4: String::new(),
        unk5: String::new(),
    };
    let short = sound(6, "Blip", 1, 1990);
    assert_eq!(SortingMode::LengthInc.compare_entries(&short, &song), Ordering::Less);
    assert_eq!(SortingMode::LengthInc.compare_entries(&song, &sound(7, "x", 1, 2000)), Ordering::Equal);
}

#[test]
fn text_order_is_by_character() {
    let a: Vec<char> = "abc".chars().collect();
    let b: Vec<char> = "abd".chars().collect();
    let prefix: Vec<char> = "ab".chars().collect();
    let upper: Vec<char> = "Z".chars().collect();
    assert_eq!(compare_texts(&a, &b), Ordering::Less);
    assert_eq!(compare_texts(&b, &a), Ordering::Greater);
    assert_eq!(compare_texts(&prefix, &a), Ordering::Less);
    assert_eq!(compare_texts(&a, &a), Ordering::Equal);
    assert_eq!(compare_texts(&upper, &a), Ordering::Less);
}

#[test]
fn sorting_puts_entries_in_display_order() {
    let entries = vec![
        sound(3, "Charlie", 5, 5),
        category(10, "Zoo"),
        sound(1, "alpha", 9, 9),
        sound(2, "Bravo", 1, 1),
        category(11, "Attic"),
    ];
    let by_name: Vec<u32> = sort_entries(SortingMode::NameInc, entries.clone()).iter().map(|e| e.id).collect();
    assert_eq!(by_name, vec![11, 10, 2, 3, 1]);
    let by_size_desc: Vec<u32> = sort_entries(SortingMode::SizeDec, entries.clone()).iter().map(|e| e.id).collect();
    assert_eq!(by_size_desc, vec![10, 11, 1, 3, 2]);
    let refs: Vec<&SfxLibraryEntry> = entries.iter().collect();
    let by_id: Vec<u32> = sort_entries(SortingMode::IdInc, refs).iter().map(|e| e.id).collect();
    assert_eq!(by_id, vec![10, 11, 1, 2, 3]);
    let same: Vec<SfxLibraryEntry> = vec![];
    assert!(sort_entries(SortingMode::NameInc, same).is_empty());
}

#[test]
fn default_search_settings() {
    let s = SearchSettings::default();
    assert_eq!(s.search_query, "");
    assert_eq!(s.sorting_mode, SortingMode::NameInc);
    assert!(!s.show_downloaded);
    assert_eq!(SortingMode::default(), SortingMode::NameInc);
    assert_eq!(Sorting::default(), Sorting::Default);
}

fn search_library() -> gdsfx::sfx::SfxLibrary {
    parse_sfx_library_from_bytes(
        "1,Library,1,0,0,0;2,Explosions,1,1,0,0;4451,Fire In The Hole,0,2,29496,187;12,Boom,0,2,10,10;3,Nested,1,2,0,0;13,Deep Sound,0,3,1,1".as_bytes(),
    )
    .unwrap()
}

#[test]
fn matching_by_name_and_id() {
    let lib = search_library();
    let downloaded = ahash::HashSet::default();
    let fire = lib.entries().get(&4451).unwrap().clone();
    let boom = lib.entries().get(&12).unwrap().clone();
    let settings = |q: &str, d: bool| SearchSettings { search_query: q.to_string(), sorting_mode: SortingMode::NameInc, show_downloaded: d };

    assert!(is_matching_entry(&settings("FIRE", false), &downloaded, &fire, &lib));
    assert!(is_matching_entry(&settings("in the", false), &downloaded, &fire, &lib));
    assert!(!is_matching_entry(&settings("FIRE", false), &downloaded, &boom, &lib));
    assert!(is_matching_entry(&settings("12", false), &downloaded, &boom, &lib));
    assert!(!is_matching_entry(&settings("1", false), &downloaded, &boom, &lib));
    assert!(is_matching_entry(&settings("", false), &downloaded, &boom, &lib));
}

#[test]
fn matching_categories_and_downloads() {
    let lib = search_library();
    let mut downloaded = ahash::HashSet::default();
    downloaded.insert(12u32);
    let explosions = lib.entries().get(&2).unwrap().clone();
    let nested = lib.entries().get(&3).unwrap().clone();
    let root = lib.get_root().clone();
    let settings = |q: &str, d: bool| SearchSettings { search_query: q.to_string(), sorting_mode: SortingMode::NameInc, show_downloaded: d };

    assert!(is_matching_entry(&settings("deep", false), &downloaded, &explosions, &lib));
    assert!(is_matching_entry(&settings("deep", false), &downloaded, &root, &lib));
    assert!(!is_matching_entry(&settings("nothing", false), &downloaded, &root, &lib));
    assert!(!is_matching_entry(&settings("deep", true), &downloaded, &nested, &lib));
    assert!(is_matching_entry(&settings("boom", true), &downloaded, &explosions, &lib));
    assert!(!is_matching_entry(&settings("fire", true), &downloaded, &explosions, &lib));
}

#[test]
fn file_names_of_sounds() {
    let file = FileEntry::new(4451);
    assert_eq!(file.id(), 4451);
    assert_eq!(file.get_file_name(), "s4451.ogg");
    assert_eq!(sound_id_of_file_name("s4451.ogg"), Some(4451));
    assert_eq!(sound_id_of_file_name(&FileEntry::new(0).get_file_name()), Some(0));
    assert_eq!(sound_id_of_file_name("s.ogg"), None);
    assert_eq!(sound_id_of_file_name("t12.ogg"), None);
    assert_eq!(sound_id_of_file_name("s12.mp3"), None);
    assert_eq!(sound_id_of_file_name("s4294967296.ogg"), None);
    assert_eq!(sound_id_of_file_name("s+5.ogg"), Some(5));
}

#[test]
fn downloaded_and_unlisted_sounds() {
    let names: Vec<String> = ["s1.ogg", "s7.ogg", "notes.txt", "s7.ogg", "s9.ogg", "sx.ogg"].iter().map(|s| s.to_string()).collect();
    let ids = downloaded_ids(&names);
    let mut sorted: Vec<u32> = ids.iter().copied().collect();
    sorted.sort();
    assert_eq!(sorted, vec![1, 7, 9]);
    let mut unlisted = unlisted_sfx(&ids, &vec![7, 100]);
    unlisted.sort();
    assert_eq!(unlisted, vec![1, 9]);
}

#[test]
fn sorting_is_stable() {
    let entries = vec![
        sound(5, "Same", 1, 1),
        sound(2, "Other", 1, 1),
        sound(9, "Same", 1, 1),
        sound(1, "Same", 1, 1),
    ];
    let by_name: Vec<u32> = sort_entries(SortingMode::NameInc, entries.clone()).iter().map(|e| e.id).collect();
    assert_eq!(by_name, vec![2, 5, 9, 1]);
    let by_size: Vec<u32> = sort_entries(SortingMode::SizeInc, entries).iter().map(|e| e.id).collect();
    assert_eq!(by_size, vec![5, 2, 9, 1]);
}

#[test]
fn order_laws_on_examples() {
    let a = sound(1, "Apple", 3, 30);
    let b = sound(2, "apple", 3, 10);
    let modes = [
        SortingMode::NameInc,
        SortingMode::NameDec,
        SortingMode::LengthInc,
        SortingMode::LengthDec,
        SortingMode::IdInc,
        SortingMode::IdDec,
        SortingMode::SizeInc,
        SortingMode::SizeDec,
    ];
    for mode in modes {
        assert_eq!(mode.compare_entries(&a, &b), mode.compare_entries(&b, &a).reverse());
        assert_eq!(mode.compare_entries(&a, &a), Ordering::Equal);
    }
    assert_eq!(SortingMode::NameDec.compare_entries(&a, &b), SortingMode::NameInc.compare_entries(&b, &a));
    assert_eq!(SortingMode::LengthDec.compare_entries(&a, &b), SortingMode::LengthInc.compare_entries(&b, &a));
}

#[test]
fn download_filter_only_narrows() {
    let lib = search_library();
    let downloaded: ahash::HashSet<u32> = [13u32].into_iter().collect();
    let settings = |d: bool| SearchSettings { search_query: "o".to_string(), sorting_mode: SortingMode::NameInc, show_downloaded: d };
    for id in [1u32, 2, 3, 12, 13, 4451] {
        let entry = lib.entries().get(&id).unwrap().clone();
        if is_matching_entry(&settings(true), &downloaded, &entry, &lib) {
            assert!(is_matching_entry(&settings(false), &downloaded, &entry, &lib));
        }
    }
    let boom = lib.entries().get(&12).unwrap().clone();
    assert!(is_matching_entry(&settings(false), &downloaded, &boom, &lib));
    assert!(!is_matching_entry(&settings(true), &downloaded, &boom, &lib));
}

fn song(id: u32, name: &str, credit_id: u32, secs: u64, tags: Vec<u16>) -> Song {
    Song {
        id,
        name: name.to_string(),
        credit_id,
        bytes: 1,
        duration_secs: secs,
        tags,
        ncs: false,
        unk2: String::new(),
        url: String::new(),
        new: false,
        unk4: String::new(),
        unk5: String::new(),
    }
}

#[test]
fn music_filters_pick_songs_artists_and_tags() {
    let songs = vec![
        song(1, "Zeta", 10, 30, vec![1, 2]),
        song(2, "Alpha", 11, 20, vec![2]),
        song(3, "Beta", 10, 10, vec![2, 3]),
        song(4, "Gamma", 12, 40, vec![]),
    ];
    let none_downloaded = ahash::HashSet::default();
    let listed: Vec<u32> = filtered_songs(&songs, &vec![2], &vec![], SortingMode::NameInc).iter().map(|s| s.id).collect();
    assert_eq!(listed, vec![2, 3, 1]);
    let by_artist: Vec<u32> = filtered_songs(&songs, &vec![], &vec![10], SortingMode::LengthInc).iter().map(|s| s.id).collect();
    assert_eq!(by_artist, vec![3, 1]);
    assert_eq!(available_artists(&songs, &vec![2], false, &none_downloaded), vec![10, 11]);
    assert_eq!(available_artists(&songs, &vec![2], true, &none_downloaded), Vec::<u32>::new());
    assert_eq!(available_tags(&songs, &vec![2], &vec![10], false, &none_downloaded), vec![1, 2, 3]);
    assert_eq!(available_tags(&songs, &vec![], &vec![11, 12], false, &none_downloaded), vec![2]);
    assert_eq!(narrow_picked_tags(vec![3, 2, 9], &vec![2, 3], true), vec![3, 2]);
    assert_eq!(narrow_picked_tags(vec![3, 2, 9], &vec![2, 3], false), vec![3, 2, 9]);
}

#[test]
fn download_range_ids() {
    assert_eq!(download_ids(3, 6), vec![3, 4, 5, 6]);
    assert_eq!(download_ids(5, 5), vec![5]);
    assert!(download_ids(6, 3).is_empty());
    assert_eq!(download_ids(u32::MAX - 1, u32::MAX), vec![u32::MAX - 1, u32::MAX]);
}

#[test]
fn artist_and_tag_choices_by_name() {
    let credits = vec![
        gdsfx::music::Credit { id: 10, name: "Zed".to_string(), url: None, yt_url: None },
        gdsfx::music::Credit { id: 11, name: "Amy".to_string(), url: None, yt_url: None },
        gdsfx::music::Credit { id: 12, name: "Bob".to_string(), url: None, yt_url: None },
    ];
    let names: Vec<&str> = artist_choices(&vec![10, 11, 99], &credits).iter().map(|c| c.name.as_str()).collect();
    assert_eq!(names, vec!["Amy", "Zed"]);
    let tags = vec![
        gdsfx::music::Tag { id: 1, name: "Rock".to_string() },
        gdsfx::music::Tag { id: 2, name: "Ambient".to_string() },
    ];
    let chosen = tag_choices(&vec![1, 2, 7], &tags);
    assert_eq!(chosen.iter().map(|t| t.name.as_str()).collect::<Vec<_>>(), vec!["Ambient", "Rock"]);
    assert_eq!(tag_ids_of_records(&chosen), vec![2, 1]);
}
