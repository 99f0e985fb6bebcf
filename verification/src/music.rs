//! Music library records (artists, songs, tags) and their text forms.
//!
//! The library text is `version|credits|songs|tags`, each list `;`-separated; a credit is
//! `id,name,url,youtube channel id`, a song has twelve comma-separated fields, a tag is `id,name`.

use vstd::prelude::*;

use crate::error::LibraryError;
use crate::text::{
    chars_equal, chars_to_string, decimal, has_char, lemma_parse_decimal, lemma_split_append, lemma_split_single, parse_unsigned, parse_unsigned_chars, pieces_view,
    push_decimal, split, split_chars, split_once, split_once_chars, str_chars, trim, trim_chars,
};
use crate::sfx::lemma_decimal_has_no;
use vstd::utf8::{decode_utf8, encode_utf8, valid_utf8};
use crate::records::{parse_semicolon_separated, parsed_records, record_views, ParseRecord};
use crate::{max_u16, max_u32, max_u64, BytesSize, EntryId};

verus! {

/// Identifier of a music tag.
pub type TagId = u16;

/// The value of a hexadecimal digit byte.
pub open spec fn hex_digit_byte(b: u8) -> Option<u8> {
    if 48 <= b <= 57 {
        Some((b - 48) as u8)
    } else if 65 <= b <= 70 {
        Some((b - 55) as u8)
    } else if 97 <= b <= 102 {
        Some((b - 87) as u8)
    } else {
        None
    }
}

/// Percent-decoding of bytes, from the front: `%` and two hexadecimal digits become the byte
/// they write; a `%` followed by one hexadecimal digit and another byte stays with that digit;
/// every other byte stays. A `+` stays a `+`.
pub open spec fn percent_decode_bytes(b: Seq<u8>) -> Seq<u8>
    decreases b.len(),
{
    if b.len() == 0 {
        b
    } else if b[0] == 37 && b.len() >= 3 && hex_digit_byte(b[1]) is Some && hex_digit_byte(b[2]) is Some {
        seq![(hex_digit_byte(b[1])->Some_0 * 16 + hex_digit_byte(b[2])->Some_0) as u8] + percent_decode_bytes(b.skip(3))
    } else if b[0] == 37 && b.len() >= 3 && hex_digit_byte(b[1]) is Some {
        seq![37u8, b[1]] + percent_decode_bytes(b.skip(2))
    } else {
        seq![b[0]] + percent_decode_bytes(b.skip(1))
    }
}

/// What `urlencoding::decode` gives for a text: the percent-decoded bytes of its UTF-8 form,
/// read as UTF-8, or nothing when they are not valid UTF-8.
pub open spec fn percent_decode(s: Seq<char>) -> Option<Seq<char>> {
    let decoded = percent_decode_bytes(encode_utf8(s));
    if valid_utf8(decoded) {
        Some(decode_utf8(decoded))
    } else {
        None
    }
}

/// Calls `urlencoding::decode`; its result, or `None` for its error, is `percent_decode` of
/// the argument. A text without `%` comes back unchanged, since the crate then returns its
/// input as it is.
#[verifier::external_body]
fn url_decode(s: &[char]) -> (r: Option<Vec<char>>)
    ensures
        r matches Some(v) ==> percent_decode(s@) == Some(v@),
        r is None ==> percent_decode(s@) is None,
        r is Some || has_char(s@, '%'),
        r matches Some(v) ==> (has_char(s@, '%') || v@ == s@),
{
    let text: String = s.iter().collect();
    match urlencoding::decode(&text) {
        Ok(decoded) => Some(decoded.chars().collect()),
        Err(_) => None,
    }
}

/// The value of a numeric field, or zero when it does not parse (`unwrap_or(0)`).
pub open spec fn number_or_zero(s: Seq<char>, max: nat) -> nat {
    match parse_unsigned(s, max) {
        Some(v) => v,
        None => 0,
    }
}

/// Parses a numeric field of at most `max`, giving zero when it does not parse.
fn parse_or_zero(s: &[char], max: u64) -> (r: u64)
    ensures
        r as nat == number_or_zero(s@, max as nat),
{
    match parse_unsigned_chars(s, max) {
        Some(v) => v,
        None => 0,
    }
}

/// Whether `s` is the one-character text `1`.
fn is_one(s: &Vec<char>) -> (r: bool)
    ensures
        r == (s@ == seq!['1']),
{
    if s.len() == 1 && s[0] == '1' {
        assert(s@ =~= seq!['1']);
        true
    } else {
        false
    }
}

/// An artist of the music library.
#[derive(Debug, Clone, PartialEq)]
pub struct Credit {
    pub id: EntryId,
    pub name: String,
    pub url: Option<String>,
    pub yt_url: Option<String>,
}

/// An artist with its texts as character sequences.
pub struct CreditView {
    pub id: EntryId,
    pub name: Seq<char>,
    pub url: Option<Seq<char>>,
    pub yt_url: Option<Seq<char>>,
}

/// The view of an optional text.
pub open spec fn opt_view(o: Option<String>) -> Option<Seq<char>> {
    match o {
        Some(s) => Some(s@),
        None => None,
    }
}

impl View for Credit {
    type V = CreditView;

    open spec fn view(&self) -> CreditView {
        CreditView { id: self.id, name: self.name@, url: opt_view(self.url), yt_url: opt_view(self.yt_url) }
    }
}

/// The link prefix of a YouTube channel.
pub open spec fn youtube_prefix() -> Seq<char> {
    "https://youtube.com/channel/"@
}

/// The artist that `id,name,url,youtube_channel_id` stands for. Every field is trimmed; an id
/// that does not parse is zero; an empty url is none and any other is percent-decoded (none
/// when that fails); an empty channel id is none and any other gives a channel link.
pub open spec fn music_credit_from_text(s: Seq<char>) -> Result<CreditView, LibraryError> {
    let p = split(s, ',');
    if p.len() != 4 {
        Err(LibraryError::InvalidEntryData)
    } else {
        let url = trim(p[2]);
        let channel = trim(p[3]);
        Ok(CreditView {
            id: number_or_zero(trim(p[0]), max_u32()) as u32,
            name: trim(p[1]),
            url: if url.len() == 0 { None } else { percent_decode(url) },
            yt_url: if channel.len() == 0 { None } else { Some(youtube_prefix() + channel) },
        })
    }
}

impl Credit {
    /// Reads an artist from its text form `id,name,url,youtube_channel_id`.
    pub fn from_str(string: &str) -> (r: Result<Credit, LibraryError>)
        ensures
            match r {
                Ok(c) => music_credit_from_text(string@) == Ok::<CreditView, LibraryError>(c@),
                Err(e) => music_credit_from_text(string@) == Err::<CreditView, LibraryError>(e),
            },
    {
        let chars = str_chars(string);
        Self::from_chars(&chars)
    }

    /// Reads an artist from the characters of its text form.
    pub fn from_chars(chars: &Vec<char>) -> (r: Result<Credit, LibraryError>)
        ensures
            match r {
                Ok(c) => music_credit_from_text(chars@) == Ok::<CreditView, LibraryError>(c@),
                Err(e) => music_credit_from_text(chars@) == Err::<CreditView, LibraryError>(e),
            },
    {
        let parts = split_chars(chars.as_slice(), ',');
        let ghost ps = split(chars@, ',');
        assert(pieces_view(parts@) == ps);
        if parts.len() != 4 {
            return Err(LibraryError::InvalidEntryData);
        }
        assert(parts[0]@ == ps[0] && parts[1]@ == ps[1] && parts[2]@ == ps[2] && parts[3]@ == ps[3]);
        let id_text = trim_chars(parts[0].as_slice());
        let id = parse_or_zero(id_text.as_slice(), 0xffff_ffff);
        let name_text = trim_chars(parts[1].as_slice());
        let url_text = trim_chars(parts[2].as_slice());
        let url = if url_text.len() == 0 {
            None
        } else {
            match url_decode(url_text.as_slice()) {
                Some(u) => Some(chars_to_string(u.as_slice())),
                None => None,
            }
        };
        let channel = trim_chars(parts[3].as_slice());
        let yt_url = if channel.len() == 0 {
            None
        } else {
            let mut link = str_chars("https://youtube.com/channel/");
            link.extend_from_slice(channel.as_slice());
            assert(link@ == youtube_prefix() + channel@);
            Some(chars_to_string(link.as_slice()))
        };
        let credit = Credit { id: id as u32, name: chars_to_string(name_text.as_slice()), url, yt_url };
        assert(opt_view(credit.url) == (if trim(ps[2]).len() == 0 { None } else { percent_decode(trim(ps[2])) }));
        assert(credit@ == music_credit_from_text(chars@)->Ok_0);
        Ok(credit)
    }
}


/// The tag ids among `.`-separated pieces: pieces that are not a `u16` are skipped.
pub open spec fn tag_ids_of(pieces: Seq<Seq<char>>) -> Seq<TagId>
    decreases pieces.len(),
{
    if pieces.len() == 0 {
        Seq::empty()
    } else {
        let rest = tag_ids_of(pieces.drop_last());
        match parse_unsigned(pieces.last(), max_u16()) {
            Some(v) => rest.push(v as u16),
            None => rest,
        }
    }
}

/// A song of the music library.
#[derive(Debug, Clone, PartialEq)]
pub struct Song {
    pub id: EntryId,
    pub name: String,
    pub credit_id: EntryId,
    pub bytes: BytesSize,
    /// The length of the song in whole seconds.
    pub duration_secs: u64,
    pub tags: Vec<TagId>,
    pub ncs: bool,
    pub unk2: String,
    pub url: String,
    pub new: bool,
    pub unk4: String,
    pub unk5: String,
}

/// A song with its texts as character sequences.
pub struct SongView {
    pub id: EntryId,
    pub name: Seq<char>,
    pub credit_id: EntryId,
    pub bytes: BytesSize,
    pub duration_secs: u64,
    pub tags: Seq<TagId>,
    pub ncs: bool,
    pub unk2: Seq<char>,
    pub url: Seq<char>,
    pub new: bool,
    pub unk4: Seq<char>,
    pub unk5: Seq<char>,
}

impl View for Song {
    type V = SongView;

    open spec fn view(&self) -> SongView {
        SongView {
            id: self.id,
            name: self.name@,
            credit_id: self.credit_id,
            bytes: self.bytes,
            duration_secs: self.duration_secs,
            tags: self.tags@,
            ncs: self.ncs,
            unk2: self.unk2@,
            url: self.url@,
            new: self.new,
            unk4: self.unk4@,
            unk5: self.unk5@,
        }
    }
}

/// The song that a text stands for. Its documented form has six comma-separated fields,
/// `id,name,credit_id,bytes,duration,tags`, which is also the form a song is written in; the
/// library file may add six more, `ncs,unk2,url,new,unk4,unk5`. Numbers that do not parse are
/// zero; `tags` is a `.`-separated list of tag ids; `ncs` and `new` hold when their field is
/// `1`. Fields missing from the short form are empty or false. Any other number of fields is
/// refused.
pub open spec fn song_from_text(s: Seq<char>) -> Result<SongView, LibraryError> {
    let p = split(s, ',');
    if p.len() != 6 && p.len() != 12 {
        Err(LibraryError::InvalidEntryData)
    } else {
        let full = p.len() == 12;
        Ok(SongView {
            id: number_or_zero(p[0], max_u32()) as u32,
            name: p[1],
            credit_id: number_or_zero(p[2], max_u32()) as u32,
            bytes: number_or_zero(p[3], max_u64()) as u64,
            duration_secs: number_or_zero(p[4], max_u64()) as u64,
            tags: tag_ids_of(split(p[5], '.')),
            ncs: full && p[6] == seq!['1'],
            unk2: if full { p[7] } else { Seq::empty() },
            url: if full { p[8] } else { Seq::empty() },
            new: full && p[9] == seq!['1'],
            unk4: if full { p[10] } else { Seq::empty() },
            unk5: if full { p[11] } else { Seq::empty() },
        })
    }
}

/// Reads the tag ids of a `.`-separated list, skipping pieces that are not a `u16`.
fn parse_tag_ids(text: &[char]) -> (r: Vec<TagId>)
    ensures
        r@ == tag_ids_of(split(text@, '.')),
{
    let pieces = split_chars(text, '.');
    let ghost ps = split(text@, '.');
    let mut out: Vec<TagId> = Vec::new();
    let mut i: usize = 0;
    assert(ps.take(0) =~= Seq::<Seq<char>>::empty());
    while i < pieces.len()
        invariant
            ps == split(text@, '.'),
            pieces_view(pieces@) == ps,
            i <= pieces.len(),
            out@ == tag_ids_of(ps.take(i as int)),
        decreases pieces.len() - i,
    {
        assert(pieces[i as int]@ == ps[i as int]);
        assert(ps.take(i + 1).drop_last() =~= ps.take(i as int));
        match parse_unsigned_chars(pieces[i].as_slice(), 0xffff) {
            Some(v) => out.push(v as u16),
            None => {},
        }
        i = i + 1;
    }
    assert(ps.take(pieces.len() as int) =~= ps);
    out
}

impl Song {
    /// Reads a song from its text form of six (or, in the library file, twelve)
    /// comma-separated fields.
    pub fn from_str(string: &str) -> (r: Result<Song, LibraryError>)
        ensures
            match r {
                Ok(v) => song_from_text(string@) == Ok::<SongView, LibraryError>(v@),
                Err(e) => song_from_text(string@) == Err::<SongView, LibraryError>(e),
            },
    {
        let chars = str_chars(string);
        Self::from_chars(&chars)
    }

    /// Reads a song from the characters of its text form.
    pub fn from_chars(chars: &Vec<char>) -> (r: Result<Song, LibraryError>)
        ensures
            match r {
                Ok(v) => song_from_text(chars@) == Ok::<SongView, LibraryError>(v@),
                Err(e) => song_from_text(chars@) == Err::<SongView, LibraryError>(e),
            },
    {
        let p = split_chars(chars.as_slice(), ',');
        let ghost ps = split(chars@, ',');
        assert(pieces_view(p@) == ps);
        if p.len() != 6 && p.len() != 12 {
            return Err(LibraryError::InvalidEntryData);
        }
        assert(forall|i: int| 0 <= i < p.len() ==> p[i]@ == #[trigger] ps[i]);
        let full = p.len() == 12;
        let song = Song {
            id: parse_or_zero(p[0].as_slice(), 0xffff_ffff) as u32,
            name: chars_to_string(p[1].as_slice()),
            credit_id: parse_or_zero(p[2].as_slice(), 0xffff_ffff) as u32,
            bytes: parse_or_zero(p[3].as_slice(), 0xffff_ffff_ffff_ffff),
            duration_secs: parse_or_zero(p[4].as_slice(), 0xffff_ffff_ffff_ffff),
            tags: parse_tag_ids(p[5].as_slice()),
            ncs: full && is_one(&p[6]),
            unk2: if full { chars_to_string(p[7].as_slice()) } else { String::new() },
            url: if full { chars_to_string(p[8].as_slice()) } else { String::new() },
            new: full && is_one(&p[9]),
            unk4: if full { chars_to_string(p[10].as_slice()) } else { String::new() },
            unk5: if full { chars_to_string(p[11].as_slice()) } else { String::new() },
        };
        assert(ps[0] == p[0]@ && ps[2] == p[2]@ && ps[3] == p[3]@ && ps[4] == p[4]@ && ps[5] == p[5]@);
        if full {
            assert(ps[6] == p[6]@ && ps[9] == p[9]@);
        }
        Ok(song)
    }
}

/// The text a tag list gets in a song's text form: `.id` for each tag.
pub open spec fn tags_text(tags: Seq<TagId>) -> Seq<char>
    decreases tags.len(),
{
    if tags.len() == 0 {
        Seq::empty()
    } else {
        tags_text(tags.drop_last()) + seq!['.'] + decimal(tags.last() as nat)
    }
}

/// The text form a song is shown with: `id,name,credit_id,bytes,seconds,` followed by `.id`
/// for each tag and a final `.`.
pub open spec fn song_text(s: SongView) -> Seq<char> {
    decimal(s.id as nat) + seq![','] + s.name + seq![','] + decimal(s.credit_id as nat) + seq![',']
        + decimal(s.bytes as nat) + seq![','] + decimal(s.duration_secs as nat) + seq![',']
        + tags_text(s.tags) + seq!['.']
}

impl Song {
    /// The text form of the song: `id,name,credit_id,bytes,seconds,.tag.tag.`
    pub fn to_string(&self) -> (r: String)
        ensures
            r@ == song_text(self@),
    {
        let mut out: Vec<char> = Vec::new();
        push_decimal(self.id as u64, &mut out);
        out.push(',');
        let name = str_chars(self.name.as_str());
        out.extend_from_slice(name.as_slice());
        out.push(',');
        push_decimal(self.credit_id as u64, &mut out);
        out.push(',');
        push_decimal(self.bytes, &mut out);
        out.push(',');
        push_decimal(self.duration_secs, &mut out);
        out.push(',');
        let ghost head = out@;
        let mut i: usize = 0;
        assert(self.tags@.take(0) =~= Seq::<TagId>::empty());
        assert(out@ =~= head + tags_text(self.tags@.take(0)));
        while i < self.tags.len()
            invariant
                i <= self.tags.len(),
                out@ == head + tags_text(self.tags@.take(i as int)),
            decreases self.tags.len() - i,
        {
            assert(self.tags@.take(i + 1).drop_last() =~= self.tags@.take(i as int));
            out.push('.');
            push_decimal(self.tags[i] as u64, &mut out);
            i = i + 1;
            assert(out@ =~= head + tags_text(self.tags@.take(i as int)));
        }
        assert(self.tags@.take(self.tags.len() as int) =~= self.tags@);
        out.push('.');
        assert(out@ =~= song_text(self@));
        chars_to_string(out.as_slice())
    }
}

/// A tag of the music library.
#[derive(Debug, Clone, PartialEq)]
pub struct Tag {
    pub id: TagId,
    pub name: String,
}

/// A tag with its name as a character sequence.
pub struct TagView {
    pub id: TagId,
    pub name: Seq<char>,
}

impl View for Tag {
    type V = TagView;

    open spec fn view(&self) -> TagView {
        TagView { id: self.id, name: self.name@ }
    }
}

/// The tag that `id,name` stands for: the id runs up to the first comma (zero when it does not
/// parse) and the name is everything after it.
pub open spec fn tag_from_text(s: Seq<char>) -> Result<TagView, LibraryError> {
    match split_once(s, ',') {
        Some((id, name)) => Ok(TagView { id: number_or_zero(id, max_u16()) as u16, name }),
        None => Err(LibraryError::InvalidTag),
    }
}

impl Tag {
    /// Reads a tag from its text form `id,name`.
    pub fn from_str(string: &str) -> (r: Result<Tag, LibraryError>)
        ensures
            match r {
                Ok(t) => tag_from_text(string@) == Ok::<TagView, LibraryError>(t@),
                Err(e) => tag_from_text(string@) == Err::<TagView, LibraryError>(e),
            },
    {
        let chars = str_chars(string);
        Self::from_chars(&chars)
    }

    /// Reads a tag from the characters of its text form.
    pub fn from_chars(chars: &Vec<char>) -> (r: Result<Tag, LibraryError>)
        ensures
            match r {
                Ok(t) => tag_from_text(chars@) == Ok::<TagView, LibraryError>(t@),
                Err(e) => tag_from_text(chars@) == Err::<TagView, LibraryError>(e),
            },
    {
        match split_once_chars(chars.as_slice(), ',') {
            Some((id, name)) => Ok(Tag {
                id: parse_or_zero(id.as_slice(), 0xffff) as u16,
                name: chars_to_string(name.as_slice()),
            }),
            None => Err(LibraryError::InvalidTag),
        }
    }
}

/// The `.`-separated pieces of a tag list's text: an empty piece, then each id in decimal.
pub open spec fn tag_pieces(tags: Seq<TagId>) -> Seq<Seq<char>> {
    seq![Seq::<char>::empty()] + tags.map_values(|t: TagId| decimal(t as nat))
}

/// The text of a tag list holds no comma, and splits at its dots into `tag_pieces`.
pub proof fn lemma_tags_text_pieces(tags: Seq<TagId>)
    ensures
        !has_char(tags_text(tags), ','),
        split(tags_text(tags), '.') == tag_pieces(tags),
    decreases tags.len(),
{
    if tags.len() == 0 {
        lemma_split_single(Seq::<char>::empty(), '.');
        assert(tag_pieces(tags) =~= seq![Seq::<char>::empty()]);
    } else {
        let rest = tags.drop_last();
        let d = decimal(tags.last() as nat);
        lemma_tags_text_pieces(rest);
        lemma_decimal_has_no(tags.last() as nat, '.');
        lemma_decimal_has_no(tags.last() as nat, ',');
        lemma_split_single(d, '.');
        lemma_split_append(tags_text(rest), '.', d);
        assert(tag_pieces(tags) =~= tag_pieces(rest).push(d));
        assert(!has_char(tags_text(tags), ',')) by {
            if has_char(tags_text(tags), ',') {
                let i = choose|i: int| 0 <= i < tags_text(tags).len() && tags_text(tags)[i] == ',';
                if i < tags_text(rest).len() {
                    assert(tags_text(rest)[i] == ',');
                } else if i > tags_text(rest).len() {
                    assert(d[i - tags_text(rest).len() - 1] == ',');
                }
            }
        }
    }
}

/// Reading the pieces of a tag list, with an empty piece after them, gives the tags back.
pub proof fn lemma_tag_pieces_read_back(tags: Seq<TagId>)
    ensures
        tag_ids_of(tag_pieces(tags)) == tags,
        tag_ids_of(tag_pieces(tags).push(Seq::<char>::empty())) == tags,
    decreases tags.len(),
{
    let e = Seq::<char>::empty();
    assert(parse_unsigned(e, max_u16()) is None);
    if tags.len() == 0 {
        let ps = seq![e];
        assert(tag_pieces(tags) =~= ps);
        assert(ps.drop_last() =~= Seq::<Seq<char>>::empty());
        assert(ps.last() == e);
        assert(tag_ids_of(ps) == tag_ids_of(ps.drop_last()));
        assert(tag_ids_of(tag_pieces(tags)) =~= tags);
    } else {
        let rest = tags.drop_last();
        let x = tags.last();
        lemma_tag_pieces_read_back(rest);
        let ps = tag_pieces(tags);
        assert(ps =~= tag_pieces(rest).push(decimal(x as nat)));
        assert(ps.drop_last() =~= tag_pieces(rest));
        assert(ps.last() == decimal(x as nat));
        lemma_parse_decimal(x as nat, max_u16());
        assert(tag_ids_of(ps) == tag_ids_of(ps.drop_last()).push(x));
        assert(tags =~= rest.push(x));
    }
    let q = tag_pieces(tags).push(e);
    assert(q.drop_last() =~= tag_pieces(tags));
    assert(q.last() == e);
    assert(tag_ids_of(q) == tag_ids_of(q.drop_last()));
}

/// Law: reading the text a song is written in gives the song back, with the fields that the
/// short form leaves out empty or false, provided its name holds no comma.
pub proof fn lemma_song_round_trip(s: SongView)
    requires
        !has_char(s.name, ','),
    ensures
        song_from_text(song_text(s)) == Ok::<SongView, LibraryError>(SongView {
            id: s.id,
            name: s.name,
            credit_id: s.credit_id,
            bytes: s.bytes,
            duration_secs: s.duration_secs,
            tags: s.tags,
            ncs: false,
            unk2: Seq::empty(),
            url: Seq::empty(),
            new: false,
            unk4: Seq::empty(),
            unk5: Seq::empty(),
        }),
{
    let d0 = decimal(s.id as nat);
    let d2 = decimal(s.credit_id as nat);
    let d3 = decimal(s.bytes as nat);
    let d4 = decimal(s.duration_secs as nat);
    let t = tags_text(s.tags);
    let f5 = t + seq!['.'];
    let r4 = d4 + seq![','] + f5;
    let r3 = d3 + seq![','] + r4;
    let r2 = d2 + seq![','] + r3;
    let r1 = s.name + seq![','] + r2;
    let all = d0 + seq![','] + r1;
    assert(song_text(s) =~= all);
    lemma_tags_text_pieces(s.tags);
    assert(!has_char(f5, ',')) by {
        if has_char(f5, ',') {
            let i = choose|i: int| 0 <= i < f5.len() && f5[i] == ',';
            if i < t.len() {
                assert(t[i] == ',');
            }
        }
    }
    lemma_decimal_has_no(s.id as nat, ',');
    lemma_decimal_has_no(s.credit_id as nat, ',');
    lemma_decimal_has_no(s.bytes as nat, ',');
    lemma_decimal_has_no(s.duration_secs as nat, ',');
    lemma_split_single(d0, ',');
    lemma_split_single(s.name, ',');
    lemma_split_single(d2, ',');
    lemma_split_single(d3, ',');
    lemma_split_single(d4, ',');
    lemma_split_single(f5, ',');
    lemma_split_append(d4, ',', f5);
    lemma_split_append(d3, ',', r4);
    lemma_split_append(d2, ',', r3);
    lemma_split_append(s.name, ',', r2);
    lemma_split_append(d0, ',', r1);
    assert(split(all, ',') =~= seq![d0, s.name, d2, d3, d4, f5]);
    lemma_parse_decimal(s.id as nat, max_u32());
    lemma_parse_decimal(s.credit_id as nat, max_u32());
    lemma_parse_decimal(s.bytes as nat, max_u64());
    lemma_parse_decimal(s.duration_secs as nat, max_u64());
    lemma_split_single(Seq::<char>::empty(), '.');
    assert(f5 =~= t + seq!['.'] + Seq::<char>::empty());
    lemma_split_append(t, '.', Seq::<char>::empty());
    assert(split(f5, '.') =~= tag_pieces(s.tags).push(Seq::<char>::empty()));
    lemma_tag_pieces_read_back(s.tags);
}

impl ParseRecord for Credit {
    open spec fn record_from_text(s: Seq<char>) -> Option<CreditView> {
        match music_credit_from_text(s) {
            Ok(c) => Some(c),
            Err(_) => None,
        }
    }

    fn parse_record(chars: &Vec<char>) -> (r: Option<Credit>) {
        match Credit::from_chars(chars) {
            Ok(c) => Some(c),
            Err(_) => None,
        }
    }
}

impl ParseRecord for Song {
    open spec fn record_from_text(s: Seq<char>) -> Option<SongView> {
        match song_from_text(s) {
            Ok(v) => Some(v),
            Err(_) => None,
        }
    }

    fn parse_record(chars: &Vec<char>) -> (r: Option<Song>) {
        match Song::from_chars(chars) {
            Ok(v) => Some(v),
            Err(_) => None,
        }
    }
}

impl ParseRecord for Tag {
    open spec fn record_from_text(s: Seq<char>) -> Option<TagView> {
        match tag_from_text(s) {
            Ok(t) => Some(t),
            Err(_) => None,
        }
    }

    fn parse_record(chars: &Vec<char>) -> (r: Option<Tag>) {
        match Tag::from_chars(chars) {
            Ok(t) => Some(t),
            Err(_) => None,
        }
    }
}

/// The music library: its version and its artists, songs and tags, in file order.
#[derive(Debug)]
pub struct MusicLibrary {
    pub version: EntryId,
    pub credits: Vec<Credit>,
    pub songs: Vec<Song>,
    pub tags: Vec<Tag>,
}

/// The music library with its records as views.
pub struct MusicLibraryView {
    pub version: EntryId,
    pub credits: Seq<CreditView>,
    pub songs: Seq<SongView>,
    pub tags: Seq<TagView>,
}

impl View for MusicLibrary {
    type V = MusicLibraryView;

    open spec fn view(&self) -> MusicLibraryView {
        MusicLibraryView {
            version: self.version,
            credits: record_views(self.credits@),
            songs: record_views(self.songs@),
            tags: record_views(self.tags@),
        }
    }
}

/// The characters that bytes stand for when each byte is one character (ISO 8859-1).
pub open spec fn latin1(bytes: Seq<u8>) -> Seq<char> {
    bytes.map_values(|b: u8| b as char)
}

/// The music library that a text `version|credits|songs|tags` stands for: exactly four
/// `|`-separated parts, a `u32` version, and `;`-separated lists whose unreadable pieces are
/// skipped.
pub open spec fn music_library_from_text(text: Seq<char>) -> Result<MusicLibraryView, LibraryError> {
    let p = split(text, '|');
    if p.len() != 4 {
        Err(LibraryError::InvalidEntryData)
    } else {
        match parse_unsigned(p[0], max_u32()) {
            None => Err(LibraryError::InvalidNumber),
            Some(v) => Ok(MusicLibraryView {
                version: v as u32,
                credits: parsed_records::<Credit>(split(p[1], ';')),
                songs: parsed_records::<Song>(split(p[2], ';')),
                tags: parsed_records::<Tag>(split(p[3], ';')),
            }),
        }
    }
}

/// The music library that the (decoded) library file contents stand for, each byte read as
/// one character.
pub open spec fn music_library_from_bytes(bytes: Seq<u8>) -> Result<MusicLibraryView, LibraryError> {
    music_library_from_text(latin1(bytes))
}

/// Reads each byte as one character.
fn latin1_chars(bytes: &[u8]) -> (r: Vec<char>)
    ensures
        r@ == latin1(bytes@),
{
    let mut out: Vec<char> = Vec::new();
    let mut i: usize = 0;
    while i < bytes.len()
        invariant
            i <= bytes.len(),
            out@ == latin1(bytes@).take(i as int),
        decreases bytes.len() - i,
    {
        out.push(bytes[i] as char);
        i = i + 1;
        assert(out@ =~= latin1(bytes@).take(i as int));
    }
    assert(latin1(bytes@).take(bytes.len() as int) =~= latin1(bytes@));
    out
}

/// Reads the music library from the library file's contents after their decoding: each byte
/// is one character, the text has four `|`-separated parts, the version is a `u32`.
pub fn parse_music_library_from_bytes(bytes: &[u8]) -> (r: Result<MusicLibrary, LibraryError>)
    ensures
        match r {
            Ok(lib) => music_library_from_bytes(bytes@) == Ok::<MusicLibraryView, LibraryError>(lib@),
            Err(e) => music_library_from_bytes(bytes@) == Err::<MusicLibraryView, LibraryError>(e),
        },
{
    let chars = latin1_chars(bytes);
    let parts = split_chars(chars.as_slice(), '|');
    let ghost ps = split(chars@, '|');
    assert(pieces_view(parts@) == ps);
    if parts.len() != 4 {
        return Err(LibraryError::InvalidEntryData);
    }
    assert(forall|i: int| 0 <= i < 4 ==> parts[i]@ == #[trigger] ps[i]);
    let version = match parse_unsigned_chars(parts[0].as_slice(), 0xffff_ffff) {
        Some(v) => v as u32,
        None => return Err(LibraryError::InvalidNumber),
    };
    Ok(MusicLibrary {
        version,
        credits: parse_semicolon_separated::<Credit>(parts[1].as_slice()),
        songs: parse_semicolon_separated::<Song>(parts[2].as_slice()),
        tags: parse_semicolon_separated::<Tag>(parts[3].as_slice()),
    })
}

/// The sum of the sizes of songs.
pub open spec fn songs_bytes(songs: Seq<SongView>) -> nat
    decreases songs.len(),
{
    if songs.len() == 0 {
        0
    } else {
        songs_bytes(songs.drop_last()) + songs.last().bytes as nat
    }
}

/// The sum of the lengths of songs, in seconds.
pub open spec fn songs_seconds(songs: Seq<SongView>) -> nat
    decreases songs.len(),
{
    if songs.len() == 0 {
        0
    } else {
        songs_seconds(songs.drop_last()) + songs.last().duration_secs as nat
    }
}

/// A sum over a prefix is at most the sum over the whole list.
pub proof fn lemma_songs_sums_prefix(songs: Seq<SongView>, i: int)
    requires
        0 <= i <= songs.len(),
    ensures
        songs_bytes(songs.take(i)) <= songs_bytes(songs),
        songs_seconds(songs.take(i)) <= songs_seconds(songs),
    decreases songs.len() - i,
{
    if i < songs.len() {
        lemma_songs_sums_prefix(songs, i + 1);
        assert(songs.take(i + 1).drop_last() =~= songs.take(i));
    } else {
        assert(songs.take(i) =~= songs);
    }
}

/// The sums over two lists of songs put one after the other add up.
pub proof fn lemma_songs_sums_append(a: Seq<SongView>, b: Seq<SongView>)
    ensures
        songs_bytes(a + b) == songs_bytes(a) + songs_bytes(b),
        songs_seconds(a + b) == songs_seconds(a) + songs_seconds(b),
    decreases b.len(),
{
    if b.len() == 0 {
        assert(a + b =~= a);
    } else {
        lemma_songs_sums_append(a, b.drop_last());
        assert((a + b).drop_last() =~= a + b.drop_last());
        assert((a + b).last() == b.last());
    }
}

/// The sums over a list of songs do not depend on their order.
pub proof fn lemma_songs_sums_permutation(a: Seq<SongView>, b: Seq<SongView>)
    requires
        a.to_multiset() == b.to_multiset(),
    ensures
        songs_bytes(a) == songs_bytes(b),
        songs_seconds(a) == songs_seconds(b),
    decreases a.len(),
{
    broadcast use vstd::seq_lib::group_to_multiset_ensures, vstd::multiset::group_multiset_axioms;

    if a.len() == 0 {
        assert(a.to_multiset().len() == 0);
        assert(b.to_multiset().len() == 0);
        assert(b.len() == 0);
        assert(b =~= Seq::<SongView>::empty());
    } else {
        let x = a.last();
        let init = a.drop_last();
        assert(a =~= init.push(x));
        assert(a.to_multiset().count(x) > 0);
        assert(b.contains(x));
        let j = choose|j: int| 0 <= j < b.len() && b[j] == x;
        let rest = b.remove(j);
        assert(rest.to_multiset() == b.to_multiset().remove(x));
        assert(init.to_multiset() =~= a.to_multiset().remove(x));
        lemma_songs_sums_permutation(init, rest);
        let left = b.subrange(0, j);
        let right = b.subrange(j + 1, b.len() as int);
        assert(rest =~= left + right);
        assert(b =~= left + seq![x] + right);
        lemma_songs_sums_append(left, right);
        lemma_songs_sums_append(left + seq![x], right);
        lemma_songs_sums_append(left, seq![x]);
        assert(seq![x].drop_last() =~= Seq::<SongView>::empty());
        let one = seq![x];
        assert(one.last() == x);
        assert(songs_bytes(one.drop_last()) == 0);
        assert(songs_seconds(one.drop_last()) == 0);
        assert(songs_bytes(seq![x]) == x.bytes as nat);
        assert(songs_seconds(seq![x]) == x.duration_secs as nat);
        assert(songs_bytes(a) == songs_bytes(init) + x.bytes as nat);
        assert(songs_seconds(a) == songs_seconds(init) + x.duration_secs as nat);
        assert(songs_bytes(b) == songs_bytes(left) + songs_bytes(seq![x]) + songs_bytes(right));
        assert(songs_seconds(b) == songs_seconds(left) + songs_seconds(seq![x]) + songs_seconds(right));
    }
}

/// Law: the total size and length of a list holding exactly the songs of two lists are the
/// sums of their totals, whatever the order; a list without songs totals zero.
pub proof fn lemma_song_totals_additive(a: Seq<SongView>, b: Seq<SongView>, c: Seq<SongView>)
    requires
        c.to_multiset() == a.to_multiset().add(b.to_multiset()),
    ensures
        songs_bytes(c) == songs_bytes(a) + songs_bytes(b),
        songs_seconds(c) == songs_seconds(a) + songs_seconds(b),
        songs_bytes(Seq::<SongView>::empty()) == 0,
        songs_seconds(Seq::<SongView>::empty()) == 0,
{
    vstd::seq_lib::lemma_multiset_commutative(a, b);
    lemma_songs_sums_permutation(a + b, c);
    lemma_songs_sums_append(a, b);
}

impl MusicLibrary {
    /// The total size of the songs. The sum must fit in a `u64`, as summing `u64`s requires.
    pub fn total_bytes(&self) -> (r: BytesSize)
        requires
            songs_bytes(self@.songs) <= max_u64(),
        ensures
            r as nat == songs_bytes(self@.songs),
    {
        let ghost ss = self@.songs;
        let mut sum: u64 = 0;
        let mut i: usize = 0;
        assert(ss.take(0) =~= Seq::<SongView>::empty());
        while i < self.songs.len()
            invariant
                ss == self@.songs,
                songs_bytes(ss) <= max_u64(),
                i <= self.songs.len(),
                sum as nat == songs_bytes(ss.take(i as int)),
            decreases self.songs.len() - i,
        {
            assert(ss.take(i + 1).drop_last() =~= ss.take(i as int));
            proof { lemma_songs_sums_prefix(ss, i + 1); }
            sum = sum + self.songs[i].bytes;
            i = i + 1;
        }
        assert(ss.take(self.songs.len() as int) =~= ss);
        sum
    }

    /// The total length of the songs in seconds. The sum must fit in a `u64`, as the sum of
    /// `Duration`s does.
    pub fn total_duration(&self) -> (r: u64)
        requires
            songs_seconds(self@.songs) <= max_u64(),
        ensures
            r as nat == songs_seconds(self@.songs),
    {
        let ghost ss = self@.songs;
        let mut sum: u64 = 0;
        let mut i: usize = 0;
        assert(ss.take(0) =~= Seq::<SongView>::empty());
        while i < self.songs.len()
            invariant
                ss == self@.songs,
                songs_seconds(ss) <= max_u64(),
                i <= self.songs.len(),
                sum as nat == songs_seconds(ss.take(i as int)),
            decreases self.songs.len() - i,
        {
            assert(ss.take(i + 1).drop_last() =~= ss.take(i as int));
            proof { lemma_songs_sums_prefix(ss, i + 1); }
            sum = sum + self.songs[i].duration_secs;
            i = i + 1;
        }
        assert(ss.take(self.songs.len() as int) =~= ss);
        sum
    }

    /// Whether a newer library should be fetched: always when there is no readable local
    /// library; otherwise only when the version the server reported (`remote_version`, none
    /// when the request failed) differs from the local version in decimal.
    pub fn should_try_update(library: Option<&MusicLibrary>, remote_version: Option<String>) -> (r: bool)
        ensures
            r == match library {
                None => true,
                Some(lib) => match remote_version {
                    None => false,
                    Some(v) => v@ != decimal(lib.version as nat),
                },
            },
    {
        match library {
            None => true,
            Some(lib) => match remote_version {
                None => false,
                Some(v) => {
                    let mut local: Vec<char> = Vec::new();
                    push_decimal(lib.version as u64, &mut local);
                    let remote = str_chars(v.as_str());
                    !chars_equal(remote.as_slice(), local.as_slice())
                },
            },
        }
    }
}

} // verus!
