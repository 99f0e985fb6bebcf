//! The user's settings, and whether they need saving.

use vstd::prelude::*;

use core::ops::Range;

use crate::text::str_chars;

verus! {

/// The user's settings. `last_save` holds the settings as they were last saved; it is not
/// part of the saved file and not compared.
pub struct Settings {
    pub gd_folder: Option<String>,
    pub locale: String,
    pub hide_empty_categories: bool,
    pub download_ids_range: Range<u32>,
    last_save: Option<Box<Settings>>,
}

/// The saved part of the settings.
pub struct SettingsView {
    pub gd_folder: Option<Seq<char>>,
    pub locale: Seq<char>,
    pub hide_empty_categories: bool,
    pub download_ids_start: u32,
    pub download_ids_end: u32,
}

impl View for Settings {
    type V = SettingsView;

    closed spec fn view(&self) -> SettingsView {
        SettingsView {
            gd_folder: match self.gd_folder {
                Some(p) => Some(p@),
                None => None,
            },
            locale: self.locale@,
            hide_empty_categories: self.hide_empty_categories,
            download_ids_start: self.download_ids_range.start,
            download_ids_end: self.download_ids_range.end,
        }
    }
}

/// The locale the settings start with.
pub open spec fn default_locale() -> Seq<char> {
    seq!['e', 'n', '_', 'U', 'S']
}

/// The settings a user starts with: the Geometry Dash folder found on this machine, the
/// `en_US` locale, empty categories shown, and sound ids `0..14500` offered for download.
pub open spec fn default_settings(gd_folder: Option<Seq<char>>) -> SettingsView {
    SettingsView {
        gd_folder,
        locale: default_locale(),
        hide_empty_categories: false,
        download_ids_start: 0,
        download_ids_end: 14500,
    }
}

/// Copies an optional text.
fn clone_option(o: &Option<String>) -> (r: Option<String>)
    ensures
        match (o, r) {
            (Some(a), Some(b)) => a@ == b@,
            (None, None) => true,
            _ => false,
        },
{
    match o {
        Some(s) => Some(s.clone()),
        None => None,
    }
}

/// Whether two optional texts are equal.
fn option_text_equal(a: &Option<String>, b: &Option<String>) -> (r: bool)
    ensures
        r == match (a, b) {
            (Some(x), Some(y)) => x@ == y@,
            (None, None) => true,
            _ => false,
        },
{
    match (a, b) {
        (Some(x), Some(y)) => text_equal(x.as_str(), y.as_str()),
        (None, None) => true,
        _ => false,
    }
}

/// Whether two texts are equal.
fn text_equal(a: &str, b: &str) -> (r: bool)
    ensures
        r == (a@ == b@),
{
    let a_chars = str_chars(a);
    let b_chars = str_chars(b);
    crate::text::chars_equal(a_chars.as_slice(), b_chars.as_slice())
}

/// What a copy of the settings remembers of their last save: nothing.
pub fn ignore_option<T>(_o: &Option<T>) -> (r: Option<T>)
    ensures
        r is None,
{
    None
}

impl Clone for Settings {
    /// A copy of the saved part of the settings, never saved.
    fn clone(&self) -> (r: Settings)
        ensures
            r@ == self@,
            r.saved() is None,
    {
        Settings {
            gd_folder: clone_option(&self.gd_folder),
            locale: self.locale.clone(),
            hide_empty_categories: self.hide_empty_categories,
            download_ids_range: self.download_ids_range.start..self.download_ids_range.end,
            last_save: ignore_option(&self.last_save),
        }
    }
}

impl Settings {
    /// The settings as last saved, if they were saved since they were loaded.
    pub closed spec fn saved(&self) -> Option<SettingsView> {
        match self.last_save {
            Some(b) => Some(b@),
            None => None,
        }
    }

    /// Whether the settings differ from those last saved; settings never saved count as
    /// changed.
    pub open spec fn changed(&self) -> bool {
        match self.saved() {
            Some(v) => v != self@,
            None => true,
        }
    }

    /// Settings as read from the settings file: never saved since.
    pub fn new(gd_folder: Option<String>, locale: String, hide_empty_categories: bool, download_ids_range: Range<u32>) -> (r: Settings)
        ensures
            r@ == (SettingsView {
                gd_folder: match gd_folder {
                    Some(p) => Some(p@),
                    None => None,
                },
                locale: locale@,
                hide_empty_categories,
                download_ids_start: download_ids_range.start,
                download_ids_end: download_ids_range.end,
            }),
            r.saved() is None,
    {
        Settings { gd_folder, locale, hide_empty_categories, download_ids_range, last_save: None }
    }

    /// The settings a user starts with, given the Geometry Dash folder found on this machine.
    pub fn default_with(gd_folder: Option<String>) -> (r: Settings)
        ensures
            r@ == default_settings(
                match gd_folder {
                    Some(p) => Some(p@),
                    None => None,
                },
            ),
            r.saved() is None,
    {
        let locale = String::from_str("en_US");
        proof { reveal_strlit("en_US"); }
        assert(locale@ =~= default_locale());
        Settings { gd_folder, locale, hide_empty_categories: false, download_ids_range: 0..14500, last_save: None }
    }

    /// The settings read from the settings file, or the defaults when it could not be read
    /// (`loaded` is `None`).
    pub fn load_or_default(loaded: Option<Settings>, gd_folder: Option<String>) -> (r: Settings)
        ensures
            match loaded {
                Some(s) => r@ == s@ && r.saved() == s.saved(),
                None => r@ == default_settings(
                    match gd_folder {
                        Some(p) => Some(p@),
                        None => None,
                    },
                ) && r.saved() is None,
            },
    {
        match loaded {
            Some(s) => s,
            None => Settings::default_with(gd_folder),
        }
    }

    /// Whether the saved parts of two settings are equal.
    fn same_as(&self, other: &Settings) -> (r: bool)
        ensures
            r == (self@ == other@),
    {
        let r = option_text_equal(&self.gd_folder, &other.gd_folder)
            && text_equal(self.locale.as_str(), other.locale.as_str())
            && self.hide_empty_categories == other.hide_empty_categories
            && self.download_ids_range.start == other.download_ids_range.start
            && self.download_ids_range.end == other.download_ids_range.end;
        proof {
            if r {
                assert(self@.gd_folder == other@.gd_folder);
            }
        }
        r
    }

    /// Whether the settings differ from those last saved.
    pub fn has_changed(&self) -> (r: bool)
        ensures
            r == self.changed(),
    {
        match &self.last_save {
            Some(last) => !self.same_as(last),
            None => true,
        }
    }

    /// Saves the settings with `try_save` when they changed since they were last saved, and
    /// remembers them as saved when that worked. Unchanged settings are not saved again.
    pub fn try_save_if_changed<E, F: FnOnce(&Settings) -> Result<(), E>>(&mut self, try_save: F) -> (r: Result<(), E>)
        requires
            forall|s: &Settings| call_requires(try_save, (s,)),
        ensures
            final(self)@ == old(self)@,
            !old(self).changed() ==> r is Ok && final(self).saved() == old(self).saved(),
            old(self).changed() ==> exists|s: &Settings| s@ == old(self)@ && #[trigger] call_ensures(try_save, (s,), r),
            old(self).changed() && r is Ok ==> final(self).saved() == Some(old(self)@),
            old(self).changed() && r is Err ==> final(self).saved() == old(self).saved(),
    {
        if self.has_changed() {
            let ghost handed = *self;
            let saved = try_save(&*self);
            assert(call_ensures(try_save, (&handed,), saved));
            if saved.is_ok() {
                self.last_save = Some(Box::new(self.clone()));
            }
            saved
        } else {
            Ok(())
        }
    }
}

/// Law: right after settings were saved they count as unchanged, until one of them changes.
pub proof fn lemma_saved_is_unchanged(s: &Settings)
    requires
        s.saved() == Some(s@),
    ensures
        !s.changed(),
{
}

} // verus!
