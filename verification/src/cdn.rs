//! Addresses of the library files on Geometry Dash's content server.

use vstd::prelude::*;

verus! {

/// The content server's address when the server lookup gives none.
pub open spec fn fallback_cdn_url() -> Seq<char> {
    "https://geometrydashfiles.b-cdn.net"@
}

/// The folder of the sound-effect files on the content server.
pub open spec fn sfx_folder() -> Seq<char> {
    "sfx/"@
}

/// What `url::Url::parse` gives for a text: the serialization of the parsed URL, or nothing
/// when the text is not a valid absolute URL. It depends on the text alone.
pub uninterp spec fn parsed_url(s: Seq<char>) -> Option<Seq<char>>;

/// What `url::Url::join` gives for the URL serialized as `base` and a relative reference: the
/// serialization of the resolved URL, or nothing when it cannot be resolved. It depends on the
/// two texts alone.
pub uninterp spec fn joined_url(base: Seq<char>, input: Seq<char>) -> Option<Seq<char>>;

/// The view of an optional text.
pub open spec fn opt_text(o: Option<String>) -> Option<Seq<char>> {
    match o {
        Some(s) => Some(s@),
        None => None,
    }
}

/// Calls `url::Url::parse` and serializes the URL it gives; `None` for its error. The parsing
/// rules of the URL standard are not written out here.
#[verifier::external_body]
fn url_parse(s: &str) -> (r: Option<String>)
    ensures
        opt_text(r) == parsed_url(s@),
{
    url::Url::parse(s).ok().map(|u| u.to_string())
}

/// Calls `url::Url::join` on the URL serialized as `base` (read back with `url::Url::parse`,
/// which gives the same URL for a serialization) and serializes the URL it gives; `None` when
/// either fails. The resolution rules of the URL standard are not written out here.
#[verifier::external_body]
fn url_join(base: &str, input: &str) -> (r: Option<String>)
    ensures
        opt_text(r) == joined_url(base@, input@),
{
    url::Url::parse(base).ok().and_then(|u| u.join(input).ok()).map(|u| u.to_string())
}

/// The address of the content server: the text the server lookup answered with (`None` when
/// the lookup failed), or else the fallback address, read as a URL. `None` when that text is
/// not a URL.
pub fn cdn_url(server_reply: Option<String>) -> (r: Option<String>)
    ensures
        opt_text(r) == parsed_url(
            match server_reply {
                Some(s) => s@,
                None => fallback_cdn_url(),
            },
        ),
{
    match server_reply {
        Some(s) => url_parse(s.as_str()),
        None => {
            let fallback = String::from_str("https://geometrydashfiles.b-cdn.net");
            url_parse(fallback.as_str())
        },
    }
}

/// The address of a file in a folder of the content server: the folder's address resolved
/// against the server's, then the file name against the folder's. `None` when either
/// resolution fails.
pub fn file_url(cdn: &str, folder: &str, file_name: &str) -> (r: Option<String>)
    ensures
        opt_text(r) == match joined_url(cdn@, folder@) {
            Some(f) => joined_url(f, file_name@),
            None => None,
        },
{
    match url_join(cdn, folder) {
        Some(folder_url) => url_join(folder_url.as_str(), file_name),
        None => None,
    }
}

/// The address of a sound-effect file: `file_name` in the `sfx/` folder of the server.
pub fn sfx_file_url(cdn: &str, file_name: &str) -> (r: Option<String>)
    ensures
        opt_text(r) == match joined_url(cdn@, sfx_folder()) {
            Some(f) => joined_url(f, file_name@),
            None => None,
        },
{
    let folder = String::from_str("sfx/");
    file_url(cdn, folder.as_str(), file_name)
}

} // verus!
