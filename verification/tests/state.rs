use gdsfx::themes::theme_color;
use gdsfx::settings::ignore_option;
use gdsfx::themes::{parse_hex_color, theme_const_name, theme_variant_name};
use std::collections::HashSet;

use gdsfx::cdn::{cdn_url, file_url, sfx_file_url};
use gdsfx::favorites::Favorites;
use gdsfx::i18n::{LibraryPage, LocalizedEnum};
use gdsfx::konami::{Konami, KonamiString};
use gdsfx::progress::format_time;
use gdsfx::search::SortingMode;
use gdsfx::settings::Settings;
use gdsfx::stats::Centiseconds;

#[test]
fn test_format_centiseconds() {
    let cases = [
        (0, "0.00s"),
        (12, "0.12s"),
        (345, "3.45s"),
        (6789, "67.89s"),
        (1, "0.01s"),
        (10, "0.10s"),
        (100, "1.00s"),
        (1000, "10.00s"),
    ];
    for (centiseconds, expected) in cases {
        assert_eq!(Centiseconds(centiseconds).to_string(), expected);
    }
}

#[test]
fn format_negative_centiseconds() {
    assert_eq!(Centiseconds(-1).to_string(), "-0.01s");
    assert_eq!(Centiseconds(-345).to_string(), "-3.45s");
    assert_eq!(Centiseconds(-345).to_string(), format!("{:.2}s", -345f64 / 100.0));
}

#[test]
fn default_favorites() {
    let f = Favorites::default();
    assert!(f.has_favorite(4451));
    assert!(!f.has_favorite(1));
    assert_eq!(f.0.len(), 1);
    let loaded = Favorites::load_or_default(Some(Favorites(HashSet::from([3, 4]))));
    assert!(loaded.has_favorite(3) && !loaded.has_favorite(4451));
    assert!(Favorites::load_or_default(None).has_favorite(4451));
}

#[test]
fn toggling_favorites() {
    let mut f = Favorites::default();
    assert!(f.toggle_favorite(7, |_| true));
    assert!(f.has_favorite(7));
    assert!(f.toggle_favorite(4451, |saved| !saved.has_favorite(4451)));
    assert!(!f.has_favorite(4451));
    assert!(!f.toggle_favorite(9, |_| false));
    assert!(!f.has_favorite(9));
    assert!(!f.toggle_favorite(7, |_| false));
    assert!(f.has_favorite(7));
}

#[test]
fn toggle_twice_law() {
    let mut f = Favorites(HashSet::from([1, 2]));
    f.toggle_favorite(2, |_| true);
    f.toggle_favorite(2, |_| true);
    assert_eq!(f.0, HashSet::from([1, 2]));
    f.toggle_favorite(5, |_| true);
    f.toggle_favorite(5, |_| true);
    assert_eq!(f.0, HashSet::from([1, 2]));
}

#[test]
fn settings_defaults_and_saving() {
    let mut s = Settings::load_or_default(None, Some("/home/gd".to_string()));
    assert_eq!(s.gd_folder, Some("/home/gd".to_string()));
    assert_eq!(s.locale, "en_US");
    assert!(!s.hide_empty_categories);
    assert_eq!(s.download_ids_range, 0..14500);
    assert!(s.has_changed());

    let mut writes = 0;
    assert_eq!(s.try_save_if_changed(|_| -> Result<(), ()> { writes += 1; Ok(()) }), Ok(()));
    assert_eq!(writes, 1);
    assert!(!s.has_changed());
    assert_eq!(s.try_save_if_changed(|_| -> Result<(), ()> { writes += 1; Ok(()) }), Ok(()));
    assert_eq!(writes, 1);

    s.locale = "de_DE".to_string();
    assert!(s.has_changed());
    assert_eq!(s.try_save_if_changed(|_| -> Result<(), &str> { Err("disk full") }), Err("disk full"));
    assert!(s.has_changed());
    assert_eq!(s.try_save_if_changed(|saved| -> Result<(), ()> { assert_eq!(saved.locale, "de_DE"); Ok(()) }), Ok(()));
    assert!(!s.has_changed());

    let copy = s.clone();
    assert!(copy.has_changed());
    assert_eq!(copy.locale, "de_DE");
}

#[test]
fn settings_read_from_file() {
    let read = Settings::new(None, "fr_FR".to_string(), true, 5..10);
    let s = Settings::load_or_default(Some(read), Some("/ignored".to_string()));
    assert_eq!(s.gd_folder, None);
    assert_eq!(s.locale, "fr_FR");
    assert!(s.hide_empty_categories);
    assert_eq!(s.download_ids_range, 5..10);
    assert!(s.has_changed());
}

#[test]
fn elapsed_time_text() {
    assert_eq!(format_time(0), "00:00");
    assert_eq!(format_time(61), "01:01");
    assert_eq!(format_time(3599), "59:59");
    assert_eq!(format_time(3600), "00:00");
    assert_eq!(format_time(3725), "02:05");
}

#[test]
fn konami_sequence_fires_at_end() {
    let mut k = KonamiString::new(vec![38, 40]);
    assert_eq!(k.current_key(), 38);
    assert!(!k.update(false));
    assert!(!k.update(true));
    assert_eq!(k.current_key(), 40);
    assert!(!k.update(false));
    assert!(k.update(true));
    assert_eq!(k.current_key(), 38);
}

#[test]
fn konami_collection() {
    let mut all = Konami::new();
    all.push(KonamiString::new(vec![1, 2]));
    all.push(KonamiString::new(vec![1, 2]));
    all.push(KonamiString::new(vec![3]));
    assert_eq!(all.update(&[]), vec![false, false]);
    assert_eq!(all.update(&[1, 3]), vec![false, true]);
    assert_eq!(all.update(&[]), vec![false, false]);
    assert_eq!(all.update(&[2]), vec![true, false]);
}

#[test]
fn translation_keys() {
    assert_eq!(SortingMode::localize_enum(), "search.sort");
    assert_eq!(SortingMode::SizeDec.localize_variant(), "search.sort.size.descending");
    assert_eq!(LibraryPage::default().localize_variant(), "library_page.sfx");
    assert_eq!(LibraryPage::localize_enum(), "library_page");
}

#[test]
fn content_server_addresses() {
    let cdn = cdn_url(None).unwrap();
    assert_eq!(cdn, "https://geometrydashfiles.b-cdn.net/");
    assert_eq!(cdn_url(Some("https://example.org/x".to_string())).unwrap(), "https://example.org/x");
    assert_eq!(cdn_url(Some("not a url".to_string())), None);
    assert_eq!(sfx_file_url(&cdn, "sfxlibrary.dat").unwrap(), "https://geometrydashfiles.b-cdn.net/sfx/sfxlibrary.dat");
    assert_eq!(file_url("https://a.b/c/", "music/", "s1.ogg").unwrap(), "https://a.b/c/music/s1.ogg");
    assert_eq!(file_url("no base", "sfx/", "x"), None);
}

#[test]
fn settings_save_is_handed_the_settings() {
    let mut s = Settings::default_with(None);
    let mut seen = None;
    let r: Result<(), ()> = s.try_save_if_changed(|saved| {
        seen = Some((saved.locale.clone(), saved.download_ids_range.clone()));
        Ok(())
    });
    assert_eq!(r, Ok(()));
    assert_eq!(seen, Some(("en_US".to_string(), 0..14500)));
    assert!(!s.has_changed());
}

#[test]
fn theme_names_and_colours() {
    assert_eq!(theme_const_name("Doki Theme", "Rem"), "DOKI_THEME_REM");
    assert_eq!(theme_const_name("Re:Zero", "Rem"), "RE_ZERO_REM");
    assert_eq!(theme_const_name("A - B", "c"), "A_B_C");
    assert_eq!(theme_variant_name("doki Theme", "Rem 2"), "DokiThemeRem");
    assert_eq!(parse_hex_color("#ff8000"), Some((255, 128, 0)));
    assert_eq!(parse_hex_color("#+f0000"), Some((15, 0, 0)));
    assert_eq!(parse_hex_color("#fff"), None);
    assert_eq!(parse_hex_color("#gg0000"), None);
    assert_eq!(parse_hex_color("#\u{e9}00000"), None);
}

#[test]
fn theme_colour_fallback() {
    assert_eq!(theme_color(None), Some((171, 205, 239)));
    assert_eq!(theme_color(Some("#010203")), Some((1, 2, 3)));
    assert_eq!(theme_color(Some("#01")), None);
}

#[test]
fn copies_forget_the_save_history() {
    assert_eq!(ignore_option(&Some(5)), None);
    assert_eq!(ignore_option::<u8>(&None), None);
    let mut s = Settings::default_with(None);
    let _ = s.try_save_if_changed(|_| -> Result<(), ()> { Ok(()) });
    assert!(!s.has_changed());
    let copy = s.clone();
    assert!(copy.has_changed());
    assert_eq!(copy.locale, s.locale);
    assert_eq!(copy.download_ids_range, s.download_ids_range);
}
