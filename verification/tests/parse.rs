use gdsfx::records::parse_semicolon_separated;
use gdsfx::music::{parse_music_library_from_bytes, MusicLibrary, Song, Tag};
use gdsfx::sfx::{
    build_sfx_library, parse_sfx_library_checked, parse_sfx_library_from_bytes, Credit, EntryKind, SfxLibrary,
    SfxLibraryEntry,
};
use gdsfx::update::prefer_downloaded;
use gdsfx::LibraryError;

#[test]
fn test_parse_library_entry() {
    const FIRE_IN_THE_HOLE: &str = "4451,Fire In The Hole,0,4442,29496,187";

    let entry = SfxLibraryEntry::from_str(FIRE_IN_THE_HOLE).unwrap();
    assert_eq!(
        entry,
        SfxLibraryEntry {
            id: 4451,
            name: "Fire In The Hole".to_string(),
            parent_id: 4442,
            kind: EntryKind::Sound { bytes: 29496, duration_ms: 187 * 10 },
        }
    );

    let string = entry.to_string();
    assert_eq!(string, FIRE_IN_THE_HOLE);
}

#[test]
fn test_parse_credit() {
    const SHARKS_CREDIT: &str = "Sharks,https://www.sharkstunes.com";

    let credit = Credit::from_str(SHARKS_CREDIT).unwrap();
    assert_eq!(
        credit,
        Credit { name: "Sharks".to_string(), link: "https://www.sharkstunes.com".to_string() }
    );
}

#[test]
fn parse_category_entry() {
    let entry = SfxLibraryEntry::from_str("4442,Explosions,1,1,0,0").unwrap();
    assert_eq!(entry.kind, EntryKind::Category);
    assert_eq!(entry.bytes(), None);
    assert_eq!(entry.duration(), None);
    assert_eq!(entry.to_string(), "4442,Explosions,1,1,0,0");
}

#[test]
fn parse_entry_errors() {
    assert_eq!(SfxLibraryEntry::from_str("1,a,0,2,3"), Err(LibraryError::InvalidEntryData));
    assert_eq!(SfxLibraryEntry::from_str("1,a,0,2,3,4,5"), Err(LibraryError::InvalidEntryData));
    assert_eq!(SfxLibraryEntry::from_str("x,a,0,2,3,4"), Err(LibraryError::InvalidNumber));
    assert_eq!(SfxLibraryEntry::from_str("1,a,0,-2,3,4"), Err(LibraryError::InvalidNumber));
    assert_eq!(SfxLibraryEntry::from_str("1,a,0,2,3,x"), Err(LibraryError::InvalidNumber));
    assert_eq!(SfxLibraryEntry::from_str("1,a,2,2,3,4"), Err(LibraryError::UnknownEntryKind));
    assert_eq!(SfxLibraryEntry::from_str("4294967296,a,1,2,3,4"), Err(LibraryError::InvalidNumber));
}

#[test]
fn parse_entry_with_plus_sign() {
    let entry = SfxLibraryEntry::from_str("+7,Beep,0,+1,+20,+3").unwrap();
    assert_eq!(entry.id, 7);
    assert_eq!(entry.parent_id, 1);
    assert_eq!(entry.kind, EntryKind::Sound { bytes: 20, duration_ms: 30 });
}

#[test]
fn entry_round_trip_law() {
    let entry = SfxLibraryEntry {
        id: 12,
        name: "Boom".to_string(),
        parent_id: 3,
        kind: EntryKind::Sound { bytes: 1000, duration_ms: 2340 },
    };
    let text = entry.to_string();
    assert_eq!(text, "12,Boom,0,3,1000,234");
    assert_eq!(SfxLibraryEntry::from_str(&text), Ok(entry));
}

#[test]
fn entry_length_overflow_is_detected() {
    let chars: Vec<char> = "1,a,0,2,3,18446744073709551615".chars().collect();
    assert_eq!(SfxLibraryEntry::from_chars_checked(&chars), None);
    let fine: Vec<char> = "1,a,0,2,3,4".chars().collect();
    assert!(matches!(SfxLibraryEntry::from_chars_checked(&fine), Some(Ok(_))));
}

#[test]
fn sfx_credit_without_comma_is_refused() {
    assert_eq!(Credit::from_str("Sharks"), Err(LibraryError::InvalidCredit));
    let c = Credit::from_str("A,b,c").unwrap();
    assert_eq!(c.name, "A");
    assert_eq!(c.link, "b,c");
}

fn sample_library_text() -> &'static str {
    "1,41,1,0,0,0;2,Explosions,1,1,0,0;10,Fire In The Hole,0,2,300,150;11,Boom,0,2,200,50;3,Empty,1,1,0,0|Sharks,https://sharks;bad credit"
}

#[test]
fn parse_sfx_library() {
    let lib: SfxLibrary = parse_sfx_library_from_bytes(sample_library_text().as_bytes()).unwrap();
    assert_eq!(lib.root_id, 1);
    assert_eq!(lib.get_version(), "41");
    assert_eq!(lib.get_root().name, "41");
    assert_eq!(lib.sound_ids(), &vec![10, 11]);
    assert_eq!(lib.total_bytes(), 500);
    assert_eq!(lib.total_duration(), 2000);
    assert_eq!(lib.credits().len(), 1);
    assert_eq!(lib.credits()[0].link, "https://sharks");
    assert_eq!(lib.entries().len(), 5);

    let explosions = lib.entries().get(&2).unwrap().clone();
    let children: Vec<u32> = lib.iter_children(&explosions).iter().map(|e| e.id).collect();
    assert_eq!(children, vec![10, 11]);
    let root = lib.get_root().clone();
    let top: Vec<u32> = lib.iter_children(&root).iter().map(|e| e.id).collect();
    assert_eq!(top, vec![2, 3]);
    let sounds: Vec<u32> = lib.iter_sounds().iter().map(|e| e.id).collect();
    assert_eq!(sounds, vec![10, 11]);
}

#[test]
fn parse_sfx_library_errors() {
    assert_eq!(parse_sfx_library_from_bytes(b"x;y|a,b").err(), Some(LibraryError::NoEntries));
    assert_eq!(parse_sfx_library_from_bytes(&[0xff, 0xfe]).err(), Some(LibraryError::InvalidUtf8));
    assert!(parse_sfx_library_checked(b"1,a,0,0,18446744073709551615,1;2,b,0,0,1,1").is_none());
    assert!(parse_sfx_library_checked(b"1,a,1,0,0,0").unwrap().is_ok());
}

#[test]
fn build_library_from_records() {
    assert_eq!(build_sfx_library(vec![], vec![]).err(), Some(LibraryError::NoEntries));
    let entries = vec![
        SfxLibraryEntry { id: 5, name: "v9".to_string(), parent_id: 0, kind: EntryKind::Category },
        SfxLibraryEntry { id: 6, name: "s".to_string(), parent_id: 5, kind: EntryKind::Sound { bytes: 7, duration_ms: 80 } },
        SfxLibraryEntry { id: 6, name: "t".to_string(), parent_id: 5, kind: EntryKind::Sound { bytes: 1, duration_ms: 10 } },
    ];
    let lib = build_sfx_library(entries, vec![]).unwrap();
    assert_eq!(lib.root_id, 5);
    assert_eq!(lib.sound_ids, vec![6, 6]);
    assert_eq!(lib.entries.get(&6).unwrap().name, "t");
    assert_eq!(lib.child_map.get(&5).unwrap(), &vec![6, 6]);
    assert_eq!(lib.total_bytes, 8);
    assert_eq!(lib.total_duration_ms, 90);
}

#[test]
fn sfx_should_try_update() {
    let lib = parse_sfx_library_from_bytes(sample_library_text().as_bytes()).unwrap();
    assert!(SfxLibrary::should_try_update(None, Some("41".to_string())));
    assert!(!SfxLibrary::should_try_update(Some(&lib), None));
    assert!(!SfxLibrary::should_try_update(Some(&lib), Some("41".to_string())));
    assert!(SfxLibrary::should_try_update(Some(&lib), Some("42".to_string())));
}

#[test]
fn parse_music_credit() {
    let c = gdsfx::music::Credit::from_str(" 12 , Artist Name ,https%3A%2F%2Fexample.com%2Fa%20b, UCchannel ").unwrap();
    assert_eq!(c.id, 12);
    assert_eq!(c.name, "Artist Name");
    assert_eq!(c.url, Some("https://example.com/a b".to_string()));
    assert_eq!(c.yt_url, Some("https://youtube.com/channel/UCchannel".to_string()));

    let d = gdsfx::music::Credit::from_str("x,Someone, ,").unwrap();
    assert_eq!(d.id, 0);
    assert_eq!(d.url, None);
    assert_eq!(d.yt_url, None);

    let bad_escape = gdsfx::music::Credit::from_str("1,A,%FF,").unwrap();
    assert_eq!(bad_escape.url, None);

    assert_eq!(gdsfx::music::Credit::from_str("1,A,b").err(), Some(LibraryError::InvalidEntryData));
}

#[test]
fn parse_song_and_format() {
    let song = Song::from_str("10,Song Name,3,1234,95,.2.x.7.,1,u2,https://u,0,u4,u5").unwrap();
    assert_eq!(song.id, 10);
    assert_eq!(song.name, "Song Name");
    assert_eq!(song.credit_id, 3);
    assert_eq!(song.bytes, 1234);
    assert_eq!(song.duration_secs, 95);
    assert_eq!(song.tags, vec![2, 7]);
    assert!(song.ncs);
    assert!(!song.new);
    assert_eq!(song.url, "https://u");
    assert_eq!(song.to_string(), "10,Song Name,3,1234,95,.2.7.");

    let zeros = Song::from_str("a,N,b,c,d,,0,,,1,,").unwrap();
    assert_eq!((zeros.id, zeros.credit_id, zeros.bytes, zeros.duration_secs), (0, 0, 0, 0));
    assert!(zeros.tags.is_empty());
    assert!(zeros.new);
    assert_eq!(zeros.to_string(), "0,N,0,0,0,.");

    assert_eq!(Song::from_str("1,2,3").err(), Some(LibraryError::InvalidEntryData));
}

#[test]
fn parse_tag() {
    let tag = Tag::from_str("5,Chill,Lofi").unwrap();
    assert_eq!(tag.id, 5);
    assert_eq!(tag.name, "Chill,Lofi");
    assert_eq!(Tag::from_str("x,Name").unwrap().id, 0);
    assert_eq!(Tag::from_str("Name").err(), Some(LibraryError::InvalidTag));
}

fn sample_music_bytes() -> Vec<u8> {
    let mut text = b"7|1,Artist,,;broken|10,Song,1,100,60,.1.,0,,,0,,;11,Other,1,50,30,,0,,,0,,|1,Tag;2,Other tag".to_vec();
    text.push(b';');
    text.extend_from_slice(b"3,Caf");
    text.push(0xe9);
    text
}

#[test]
fn parse_music_library() {
    let lib: MusicLibrary = parse_music_library_from_bytes(&sample_music_bytes()).unwrap();
    assert_eq!(lib.version, 7);
    assert_eq!(lib.credits.len(), 1);
    assert_eq!(lib.songs.len(), 2);
    assert_eq!(lib.tags.len(), 3);
    assert_eq!(lib.tags[2].name, "Caf\u{e9}");
    assert_eq!(lib.total_bytes(), 150);
    assert_eq!(lib.total_duration(), 90);
}

#[test]
fn parse_music_library_errors() {
    assert_eq!(parse_music_library_from_bytes(b"1|a|b").err(), Some(LibraryError::InvalidEntryData));
    assert_eq!(parse_music_library_from_bytes(b"1|a|b|c|d").err(), Some(LibraryError::InvalidEntryData));
    assert_eq!(parse_music_library_from_bytes(b"v1|||").err(), Some(LibraryError::InvalidNumber));
    let empty = parse_music_library_from_bytes(b"3|||").unwrap();
    assert_eq!(empty.version, 3);
    assert!(empty.songs.is_empty());
}

#[test]
fn music_should_try_update() {
    let lib = parse_music_library_from_bytes(&sample_music_bytes()).unwrap();
    assert!(MusicLibrary::should_try_update(None, None));
    assert!(!MusicLibrary::should_try_update(Some(&lib), None));
    assert!(!MusicLibrary::should_try_update(Some(&lib), Some("7".to_string())));
    assert!(MusicLibrary::should_try_update(Some(&lib), Some("8".to_string())));
}

#[test]
fn prefer_downloaded_library() {
    assert_eq!(prefer_downloaded::<u32, &str>(Ok(2), Ok(1)), Ok(2));
    assert_eq!(prefer_downloaded::<u32, &str>(Err("net"), Ok(1)), Ok(1));
    assert_eq!(prefer_downloaded::<u32, &str>(Err("net"), Err("disk")), Err("net"));
}

#[test]
fn parse_documented_song_form() {
    let song = Song::from_str("1,Song,2,300,60,.5.6.").unwrap();
    assert_eq!(song.id, 1);
    assert_eq!(song.name, "Song");
    assert_eq!(song.credit_id, 2);
    assert_eq!(song.bytes, 300);
    assert_eq!(song.duration_secs, 60);
    assert_eq!(song.tags, vec![5, 6]);
    assert!(!song.ncs && !song.new);
    assert_eq!(song.url, "");
    assert_eq!(Song::from_str("1,2,3,4,5,6,7").err(), Some(LibraryError::InvalidEntryData));
}

#[test]
fn song_round_trip_law() {
    let song = Song::from_str("10,Song Name,3,1234,95,.2.x.7.,1,u2,https://u,0,u4,u5").unwrap();
    let again = Song::from_str(&song.to_string()).unwrap();
    assert_eq!((again.id, again.name.as_str(), again.credit_id, again.bytes, again.duration_secs), (10, "Song Name", 3, 1234, 95));
    assert_eq!(again.tags, song.tags);
    let untagged = Song::from_str("4,X,0,0,0,").unwrap();
    assert_eq!(Song::from_str(&untagged.to_string()).unwrap().tags, Vec::<u16>::new());
}

#[test]
fn index_lists_children_in_order() {
    let lib = parse_sfx_library_from_bytes(b"1,Root,1,0,0,0;5,B,0,1,1,1;3,C,1,1,0,0;4,D,0,3,1,1;2,A,0,1,1,1").unwrap();
    assert_eq!(lib.child_map.get(&1).unwrap(), &vec![5, 3, 2]);
    assert_eq!(lib.child_map.get(&3).unwrap(), &vec![4]);
    assert_eq!(lib.child_map.get(&0).unwrap(), &vec![1]);
    assert!(lib.child_map.get(&4).is_none());
    for id in [1u32, 2, 3, 4, 5] {
        assert_eq!(lib.entries.get(&id).unwrap().id, id);
    }
    assert_eq!(lib.entries.len(), 5);
}

#[test]
fn music_totals_add_up() {
    let a = parse_music_library_from_bytes(b"1||1,A,0,10,20,,0,,,0,,;2,B,0,5,7,,0,,,0,,|").unwrap();
    let b = parse_music_library_from_bytes(b"1||3,C,0,1,2,,0,,,0,,|").unwrap();
    let c = parse_music_library_from_bytes(b"1||3,C,0,1,2,,0,,,0,,;2,B,0,5,7,,0,,,0,,;1,A,0,10,20,,0,,,0,,|").unwrap();
    assert_eq!(c.total_duration(), a.total_duration() + b.total_duration());
    assert_eq!(c.total_bytes(), a.total_bytes() + b.total_bytes());
    assert_eq!(parse_music_library_from_bytes(b"1|||").unwrap().total_duration(), 0);
}

#[test]
fn reading_joined_lists() {
    let a: Vec<char> = "1,A;broken".chars().collect();
    let b: Vec<char> = "2,B;3,C".chars().collect();
    let joined: Vec<char> = "1,A;broken;2,B;3,C".chars().collect();
    let ra: Vec<Tag> = parse_semicolon_separated(&a);
    let rb: Vec<Tag> = parse_semicolon_separated(&b);
    let rj: Vec<Tag> = parse_semicolon_separated(&joined);
    let ids = |v: &Vec<Tag>| v.iter().map(|t| t.id).collect::<Vec<u16>>();
    assert_eq!(ids(&rj), [ids(&ra), ids(&rb)].concat());
    assert_eq!(ids(&rj), vec![1, 2, 3]);
    assert!(rj.len() <= joined.iter().filter(|c| **c == ';').count() + 1);
}

#[test]
fn percent_decoding_edge_cases() {
    let url = |text: &str| gdsfx::music::Credit::from_str(&format!("1,A,{text},")).unwrap().url;
    assert_eq!(url("a%4gb"), Some("a%4gb".to_string()));
    assert_eq!(url("100%"), Some("100%".to_string()));
    assert_eq!(url("x%2By+z"), Some("x+y+z".to_string()));
    assert_eq!(url("%C3%A9"), Some("\u{e9}".to_string()));
}
