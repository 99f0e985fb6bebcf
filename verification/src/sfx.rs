//! Sound-effect library records: their text form, the library index built from them,
//! and queries on it.

use vstd::prelude::*;

use crate::error::LibraryError;
use vstd::utf8::{decode_utf8, valid_utf8};
use crate::records::{parse_semicolon_separated, parsed_records, record_views, ParseRecord};
use crate::maps::{map_get, map_insert, map_remove, new_map};
use crate::text::{chars_equal, split_once, split_once_chars, chars_to_string, decimal, has_char, lemma_decimal_digits, lemma_parse_decimal, lemma_split_append, lemma_split_single, push_decimal, is_digit, parse_unsigned, parse_unsigned_chars, pieces_view, split, split_chars, str_chars};
use crate::{max_u32, max_u64, BytesSize, EntryId};

verus! {

/// What a sound-effect library record is: a category, or a sound with its size and length.
#[derive(Debug, Clone, Copy, PartialEq, Eq, Structural)]
pub enum EntryKind {
    Category,
    Sound { bytes: BytesSize, duration_ms: u64 },
}

/// One record of the sound-effect library.
#[derive(Debug, Clone, PartialEq)]
pub struct SfxLibraryEntry {
    pub id: EntryId,
    pub name: String,
    pub parent_id: EntryId,
    pub kind: EntryKind,
}

/// A sound-effect record with its name as a character sequence.
pub struct EntryView {
    pub id: EntryId,
    pub name: Seq<char>,
    pub parent_id: EntryId,
    pub kind: EntryKind,
}

impl View for SfxLibraryEntry {
    type V = EntryView;

    open spec fn view(&self) -> EntryView {
        EntryView { id: self.id, name: self.name@, parent_id: self.parent_id, kind: self.kind }
    }
}

/// The kind field of a sound record.
pub open spec fn sound_key() -> Seq<char> {
    seq!['0']
}

/// The kind field of a category record.
pub open spec fn category_key() -> Seq<char> {
    seq!['1']
}

/// The value of a numeric field, once it is known to parse.
pub open spec fn field_value(s: Seq<char>, max: nat) -> nat {
    parse_unsigned(s, max)->Some_0
}

/// The record that the text `id,name,kind,parent_id,bytes,centiseconds` stands for, or the
/// error that reading it gives. Fields are checked in this order: the number of fields, `id`,
/// `parent_id`, then the kind with, for sounds, `bytes` and `centiseconds`.
pub open spec fn entry_from_text(s: Seq<char>) -> Result<EntryView, LibraryError> {
    let parts = split(s, ',');
    if parts.len() != 6 {
        Err(LibraryError::InvalidEntryData)
    } else if parse_unsigned(parts[0], max_u32()) is None
        || parse_unsigned(parts[3], max_u32()) is None {
        Err(LibraryError::InvalidNumber)
    } else if parts[2] == sound_key() {
        if parse_unsigned(parts[4], max_u64()) is None
            || parse_unsigned(parts[5], max_u64()) is None {
            Err(LibraryError::InvalidNumber)
        } else {
            Ok(EntryView {
                id: field_value(parts[0], max_u32()) as u32,
                name: parts[1],
                parent_id: field_value(parts[3], max_u32()) as u32,
                kind: EntryKind::Sound {
                    bytes: field_value(parts[4], max_u64()) as u64,
                    duration_ms: (10 * field_value(parts[5], max_u64())) as u64,
                },
            })
        }
    } else if parts[2] == category_key() {
        Ok(EntryView {
            id: field_value(parts[0], max_u32()) as u32,
            name: parts[1],
            parent_id: field_value(parts[3], max_u32()) as u32,
            kind: EntryKind::Category,
        })
    } else {
        Err(LibraryError::UnknownEntryKind)
    }
}

/// Whether reading the record `s` reaches a sound length in centiseconds whose value in
/// milliseconds does not fit a `u64`; the multiplication by ten then overflows.
pub open spec fn entry_overflows(s: Seq<char>) -> bool {
    let parts = split(s, ',');
    &&& parts.len() == 6
    &&& parse_unsigned(parts[0], max_u32()) is Some
    &&& parse_unsigned(parts[3], max_u32()) is Some
    &&& parts[2] == sound_key()
    &&& parse_unsigned(parts[4], max_u64()) is Some
    &&& parse_unsigned(parts[5], max_u64()) is Some
    &&& 10 * field_value(parts[5], max_u64()) > max_u64()
}

/// The text form of a record: `id,name,kind,parent_id,bytes,centiseconds`, where a category
/// has kind `1` and zero bytes and length, and a sound has kind `0`.
pub open spec fn entry_text(e: EntryView) -> Seq<char> {
    let (key, bytes, centis) = match e.kind {
        EntryKind::Sound { bytes, duration_ms } => (sound_key(), bytes as nat, (duration_ms / 10) as nat),
        EntryKind::Category => (category_key(), 0nat, 0nat),
    };
    decimal(e.id as nat) + seq![','] + e.name + seq![','] + key + seq![','] + decimal(
        e.parent_id as nat,
    ) + seq![','] + decimal(bytes) + seq![','] + decimal(centis)
}

/// Parses a numeric field of at most `max`.
fn parse_field(s: &Vec<char>, max: u64) -> (r: Result<u64, LibraryError>)
    ensures
        match r {
            Ok(v) => parse_unsigned(s@, max as nat) == Some(v as nat),
            Err(e) => parse_unsigned(s@, max as nat) is None && e == LibraryError::InvalidNumber,
        },
{
    match parse_unsigned_chars(s.as_slice(), max) {
        Some(v) => Ok(v),
        None => Err(LibraryError::InvalidNumber),
    }
}

/// Whether `s` is the one-character text `c`.
fn is_key(s: &Vec<char>, c: char) -> (r: bool)
    ensures
        r == (s@ == seq![c]),
{
    if s.len() == 1 && s[0] == c {
        assert(s@ =~= seq![c]);
        true
    } else {
        false
    }
}

impl SfxLibraryEntry {
    /// Reads a record from its text form `id,name,kind,parent_id,bytes,centiseconds`.
    pub fn from_str(string: &str) -> (r: Result<SfxLibraryEntry, LibraryError>)
        requires
            !entry_overflows(string@),
        ensures
            match r {
                Ok(e) => entry_from_text(string@) == Ok::<EntryView, LibraryError>(e@),
                Err(err) => entry_from_text(string@) == Err::<EntryView, LibraryError>(err),
            },
    {
        let chars = str_chars(string);
        Self::from_chars(&chars)
    }

    /// Reads a record from the characters of its text form.
    pub fn from_chars(chars: &Vec<char>) -> (r: Result<SfxLibraryEntry, LibraryError>)
        requires
            !entry_overflows(chars@),
        ensures
            match r {
                Ok(e) => entry_from_text(chars@) == Ok::<EntryView, LibraryError>(e@),
                Err(err) => entry_from_text(chars@) == Err::<EntryView, LibraryError>(err),
            },
    {
        match Self::from_chars_checked(chars) {
            Some(r) => r,
            None => {
                assert(false);
                Err(LibraryError::InvalidNumber)
            }
        }
    }

    /// Reads a record from the characters of its text form; `None` when its sound length in
    /// milliseconds does not fit a `u64`.
    pub fn from_chars_checked(chars: &Vec<char>) -> (r: Option<Result<SfxLibraryEntry, LibraryError>>)
        ensures
            r is None <==> entry_overflows(chars@),
            match r {
                Some(Ok(e)) => entry_from_text(chars@) == Ok::<EntryView, LibraryError>(e@),
                Some(Err(err)) => entry_from_text(chars@) == Err::<EntryView, LibraryError>(err),
                None => true,
            },
    {
        let parts = split_chars(chars.as_slice(), ',');
        let ghost ps = split(chars@, ',');
        assert(pieces_view(parts@) == ps);
        if parts.len() != 6 {
            return Some(Err(LibraryError::InvalidEntryData));
        }
        assert(parts[0]@ == ps[0] && parts[1]@ == ps[1] && parts[2]@ == ps[2]);
        assert(parts[3]@ == ps[3] && parts[4]@ == ps[4] && parts[5]@ == ps[5]);
        let id = match parse_field(&parts[0], 0xffff_ffff) {
            Ok(v) => v,
            Err(e) => return Some(Err(e)),
        };
        let parent_id = match parse_field(&parts[3], 0xffff_ffff) {
            Ok(v) => v,
            Err(e) => return Some(Err(e)),
        };
        let name = chars_to_string(parts[1].as_slice());
        let kind = if is_key(&parts[2], '0') {
            let bytes = match parse_field(&parts[4], 0xffff_ffff_ffff_ffff) {
                Ok(v) => v,
                Err(e) => return Some(Err(e)),
            };
            let centis = match parse_field(&parts[5], 0xffff_ffff_ffff_ffff) {
                Ok(v) => v,
                Err(e) => return Some(Err(e)),
            };
            match centis.checked_mul(10) {
                Some(duration_ms) => EntryKind::Sound { bytes, duration_ms },
                None => return None,
            }
        } else if is_key(&parts[2], '1') {
            EntryKind::Category
        } else {
            return Some(Err(LibraryError::UnknownEntryKind));
        };
        Some(Ok(SfxLibraryEntry { id: id as u32, name, parent_id: parent_id as u32, kind }))
    }

    /// The text form of the record: `id,name,kind,parent_id,bytes,centiseconds`.
    pub fn to_string(&self) -> (r: String)
        ensures
            r@ == entry_text(self@),
    {
        let (key, bytes, centis): (char, u64, u64) = match self.kind {
            EntryKind::Sound { bytes, duration_ms } => ('0', bytes, duration_ms / 10),
            EntryKind::Category => ('1', 0, 0),
        };
        let mut out: Vec<char> = Vec::new();
        push_decimal(self.id as u64, &mut out);
        out.push(',');
        let name = str_chars(self.name.as_str());
        out.extend_from_slice(name.as_slice());
        out.push(',');
        out.push(key);
        out.push(',');
        push_decimal(self.parent_id as u64, &mut out);
        out.push(',');
        push_decimal(bytes, &mut out);
        out.push(',');
        push_decimal(centis, &mut out);
        let ghost k = if key == '0' { sound_key() } else { category_key() };
        assert(seq![key] =~= k);
        assert(out@ =~= entry_text(self@));
        chars_to_string(out.as_slice())
    }
}

/// The decimal form of a number holds no separator other than a digit.
pub proof fn lemma_decimal_has_no(n: nat, sep: char)
    requires
        !is_digit(sep),
    ensures
        !has_char(decimal(n), sep),
{
    lemma_decimal_digits(n);
    if has_char(decimal(n), sep) {
        let i = choose|i: int| 0 <= i < decimal(n).len() && decimal(n)[i] == sep;
        assert(is_digit(decimal(n)[i]));
    }
}

/// Law: reading the text form of a record gives the record back, provided its name holds no
/// comma and, for a sound, its length is a whole number of centiseconds.
pub proof fn lemma_entry_round_trip(e: EntryView)
    requires
        !has_char(e.name, ','),
        e.kind matches EntryKind::Sound { duration_ms, .. } ==> duration_ms % 10 == 0,
    ensures
        entry_from_text(entry_text(e)) == Ok::<EntryView, LibraryError>(e),
        !entry_overflows(entry_text(e)),
{
    let (key, bytes, centis) = match e.kind {
        EntryKind::Sound { bytes, duration_ms } => (sound_key(), bytes as nat, (duration_ms / 10) as nat),
        EntryKind::Category => (category_key(), 0nat, 0nat),
    };
    let d0 = decimal(e.id as nat);
    let d3 = decimal(e.parent_id as nat);
    let d4 = decimal(bytes);
    let d5 = decimal(centis);
    let r4 = d4 + seq![','] + d5;
    let r3 = d3 + seq![','] + r4;
    let r2 = key + seq![','] + r3;
    let r1 = e.name + seq![','] + r2;
    let t = d0 + seq![','] + r1;
    assert(entry_text(e) =~= t);
    lemma_decimal_has_no(e.id as nat, ',');
    lemma_decimal_has_no(e.parent_id as nat, ',');
    lemma_decimal_has_no(bytes, ',');
    lemma_decimal_has_no(centis, ',');
    assert(!has_char(key, ',')) by {
        if has_char(key, ',') {
            let i = choose|i: int| 0 <= i < key.len() && key[i] == ',';
            assert(key[0] != ',');
        }
    }
    lemma_split_single(d0, ',');
    lemma_split_single(e.name, ',');
    lemma_split_single(key, ',');
    lemma_split_single(d3, ',');
    lemma_split_single(d4, ',');
    lemma_split_single(d5, ',');
    lemma_split_append(d4, ',', d5);
    lemma_split_append(d3, ',', r4);
    lemma_split_append(key, ',', r3);
    lemma_split_append(e.name, ',', r2);
    lemma_split_append(d0, ',', r1);
    let parts = split(t, ',');
    assert(parts =~= seq![d0, e.name, key, d3, d4, d5]);
    lemma_parse_decimal(e.id as nat, max_u32());
    lemma_parse_decimal(e.parent_id as nat, max_u32());
    lemma_parse_decimal(bytes, max_u64());
    lemma_parse_decimal(centis, max_u64());
    assert(sound_key() != category_key()) by {
        assert(sound_key()[0] != category_key()[0]);
    }
}


/// A credit line of the sound-effect library: an artist and a link to them.
#[derive(Debug, PartialEq)]
pub struct Credit {
    pub name: String,
    pub link: String,
}

/// A credit with its fields as character sequences.
pub struct CreditView {
    pub name: Seq<char>,
    pub link: Seq<char>,
}

impl View for Credit {
    type V = CreditView;

    open spec fn view(&self) -> CreditView {
        CreditView { name: self.name@, link: self.link@ }
    }
}

/// The credit that the text `name,link` stands for: the name runs up to the first comma and
/// the link is everything after it.
pub open spec fn credit_from_text(s: Seq<char>) -> Result<CreditView, LibraryError> {
    match split_once(s, ',') {
        Some((name, link)) => Ok(CreditView { name, link }),
        None => Err(LibraryError::InvalidCredit),
    }
}

impl Credit {
    /// Reads a credit from its text form `name,link`.
    pub fn from_str(string: &str) -> (r: Result<Credit, LibraryError>)
        ensures
            match r {
                Ok(c) => credit_from_text(string@) == Ok::<CreditView, LibraryError>(c@),
                Err(e) => credit_from_text(string@) == Err::<CreditView, LibraryError>(e),
            },
    {
        let chars = str_chars(string);
        Self::from_chars(&chars)
    }

    /// Reads a credit from the characters of its text form.
    pub fn from_chars(chars: &Vec<char>) -> (r: Result<Credit, LibraryError>)
        ensures
            match r {
                Ok(c) => credit_from_text(chars@) == Ok::<CreditView, LibraryError>(c@),
                Err(e) => credit_from_text(chars@) == Err::<CreditView, LibraryError>(e),
            },
    {
        match split_once_chars(chars.as_slice(), ',') {
            Some((name, link)) => Ok(Credit {
                name: chars_to_string(name.as_slice()),
                link: chars_to_string(link.as_slice()),
            }),
            None => Err(LibraryError::InvalidCredit),
        }
    }
}


impl ParseRecord for Credit {
    open spec fn record_from_text(s: Seq<char>) -> Option<CreditView> {
        match credit_from_text(s) {
            Ok(c) => Some(c),
            Err(_) => None,
        }
    }

    fn parse_record(chars: &Vec<char>) -> (r: Option<Credit>) {
        match Credit::from_chars(chars) {
            Ok(c) => Some(c),
            Err(_) => None,
        }
    }
}

/// The records held by a list, each as its view.
pub open spec fn entry_views(v: Seq<SfxLibraryEntry>) -> Seq<EntryView> {
    v.map_values(|e: SfxLibraryEntry| e@)
}


/// The size of a record: its bytes for a sound, zero for a category.
pub open spec fn sound_bytes(e: EntryView) -> nat {
    match e.kind {
        EntryKind::Sound { bytes, .. } => bytes as nat,
        EntryKind::Category => 0,
    }
}

/// The length of a record in milliseconds: its length for a sound, zero for a category.
pub open spec fn sound_duration(e: EntryView) -> nat {
    match e.kind {
        EntryKind::Sound { duration_ms, .. } => duration_ms as nat,
        EntryKind::Category => 0,
    }
}

/// The summed size of the sounds among `es`.
pub open spec fn total_bytes_of(es: Seq<EntryView>) -> nat
    decreases es.len(),
{
    if es.len() == 0 {
        0
    } else {
        total_bytes_of(es.drop_last()) + sound_bytes(es.last())
    }
}

/// The summed length in milliseconds of the sounds among `es`.
pub open spec fn total_duration_of(es: Seq<EntryView>) -> nat
    decreases es.len(),
{
    if es.len() == 0 {
        0
    } else {
        total_duration_of(es.drop_last()) + sound_duration(es.last())
    }
}

/// The ids of the sounds among `es`, in order.
pub open spec fn sound_ids_of(es: Seq<EntryView>) -> Seq<EntryId>
    decreases es.len(),
{
    if es.len() == 0 {
        Seq::empty()
    } else if es.last().kind is Sound {
        sound_ids_of(es.drop_last()).push(es.last().id)
    } else {
        sound_ids_of(es.drop_last())
    }
}

/// Each record under its id; of two records with one id, the later one stays.
pub open spec fn entry_map_of(es: Seq<EntryView>) -> Map<EntryId, EntryView>
    decreases es.len(),
{
    if es.len() == 0 {
        Map::empty()
    } else {
        entry_map_of(es.drop_last()).insert(es.last().id, es.last())
    }
}

/// For each parent id, the ids of the records naming it as parent, in order.
pub open spec fn child_map_of(es: Seq<EntryView>) -> Map<EntryId, Seq<EntryId>>
    decreases es.len(),
{
    if es.len() == 0 {
        Map::empty()
    } else {
        let m = child_map_of(es.drop_last());
        let p = es.last().parent_id;
        let before = if m.contains_key(p) { m[p] } else { Seq::empty() };
        m.insert(p, before.push(es.last().id))
    }
}

/// The longest time a `Duration` holds, in whole milliseconds.
pub open spec fn max_duration_ms() -> nat {
    max_u64() * 1000 + 999
}

/// Whether the sizes and lengths of `es` add up within a `u64` and a `Duration`.
pub open spec fn totals_fit(es: Seq<EntryView>) -> bool {
    total_bytes_of(es) <= max_u64() && total_duration_of(es) <= max_duration_ms()
}

/// The sound-effect library index.
pub struct SfxLibraryView {
    pub root_id: EntryId,
    pub sound_ids: Seq<EntryId>,
    pub entries: Map<EntryId, EntryView>,
    pub child_map: Map<EntryId, Seq<EntryId>>,
    pub total_bytes: nat,
    pub total_duration_ms: nat,
    pub credits: Seq<CreditView>,
}

/// The index built from a non-empty list of records: the first record is the root.
pub open spec fn library_of(es: Seq<EntryView>, cs: Seq<CreditView>) -> SfxLibraryView {
    SfxLibraryView {
        root_id: es[0].id,
        sound_ids: sound_ids_of(es),
        entries: entry_map_of(es),
        child_map: child_map_of(es),
        total_bytes: total_bytes_of(es),
        total_duration_ms: total_duration_of(es),
        credits: cs,
    }
}

/// The sound-effect library: its records indexed by id and by parent, the ids of its sounds,
/// their total size and length, and the credits.
pub struct SfxLibrary {
    pub root_id: EntryId,
    pub sound_ids: Vec<EntryId>,
    pub entries: ahash::HashMap<EntryId, SfxLibraryEntry>,
    pub child_map: ahash::HashMap<EntryId, Vec<EntryId>>,
    pub total_bytes: BytesSize,
    /// The summed length of the sounds, in milliseconds.
    pub total_duration_ms: u128,
    pub credits: Vec<Credit>,
}

impl View for SfxLibrary {
    type V = SfxLibraryView;

    open spec fn view(&self) -> SfxLibraryView {
        SfxLibraryView {
            root_id: self.root_id,
            sound_ids: self.sound_ids@,
            entries: self.entries@.map_values(|e: SfxLibraryEntry| e@),
            child_map: self.child_map@.map_values(|v: Vec<EntryId>| v@),
            total_bytes: self.total_bytes as nat,
            total_duration_ms: self.total_duration_ms as nat,
            credits: record_views(self.credits@),
        }
    }
}

impl SfxLibrary {
    /// The index is consistent: the root and every sound are present, every record is stored
    /// under its own id, and every child list names records stored with that parent.
    pub open spec fn wf(&self) -> bool {
        let v = self@;
        &&& v.entries.contains_key(v.root_id)
        &&& forall|k: EntryId| #[trigger] v.entries.contains_key(k) ==> v.entries[k].id == k
        &&& forall|i: int| 0 <= i < v.sound_ids.len() ==> v.entries.contains_key(#[trigger] v.sound_ids[i])
        &&& forall|p: EntryId, i: int| #[trigger] v.child_map.contains_key(p) && 0 <= i < v.child_map[p].len()
            ==> v.entries.contains_key(#[trigger] v.child_map[p][i])
    }
}

/// Sizes and lengths of a prefix never exceed those of the whole list.
pub proof fn lemma_totals_prefix(es: Seq<EntryView>, i: int)
    requires
        0 <= i <= es.len(),
    ensures
        total_bytes_of(es.take(i)) <= total_bytes_of(es),
        total_duration_of(es.take(i)) <= total_duration_of(es),
    decreases es.len() - i,
{
    if i < es.len() {
        lemma_totals_prefix(es, i + 1);
        assert(es.take(i + 1).drop_last() =~= es.take(i));
    } else {
        assert(es.take(i) =~= es);
    }
}

/// Every record's id is a key of the index built from the list, and every key holds a record
/// with that id.
pub proof fn lemma_entry_map_ids(es: Seq<EntryView>)
    ensures
        forall|i: int| 0 <= i < es.len() ==> entry_map_of(es).contains_key(#[trigger] es[i].id),
        forall|k: EntryId| #[trigger] entry_map_of(es).contains_key(k) ==> entry_map_of(es)[k].id == k,
    decreases es.len(),
{
    if es.len() > 0 {
        lemma_entry_map_ids(es.drop_last());
        assert forall|i: int| 0 <= i < es.len() implies entry_map_of(es).contains_key(#[trigger] es[i].id) by {
            if i < es.len() - 1 {
                assert(es.drop_last()[i] == es[i]);
            }
        }
    }
}

/// Every id in the sound list and in the child lists is the id of some record of the list.
pub proof fn lemma_ids_are_records(es: Seq<EntryView>)
    ensures
        forall|i: int| 0 <= i < sound_ids_of(es).len() ==> exists|j: int| 0 <= j < es.len() && es[j].id == #[trigger] sound_ids_of(es)[i],
        forall|p: EntryId, i: int| #[trigger] child_map_of(es).contains_key(p) && 0 <= i < child_map_of(es)[p].len()
            ==> exists|j: int| 0 <= j < es.len() && es[j].id == #[trigger] child_map_of(es)[p][i],
    decreases es.len(),
{
    if es.len() > 0 {
        let init = es.drop_last();
        lemma_ids_are_records(init);
        assert forall|i: int| 0 <= i < sound_ids_of(es).len() implies exists|j: int| 0 <= j < es.len() && es[j].id == #[trigger] sound_ids_of(es)[i] by {
            if i < sound_ids_of(init).len() {
                let j = choose|j: int| 0 <= j < init.len() && init[j].id == sound_ids_of(init)[i];
                assert(es[j] == init[j]);
            } else {
                assert(es[es.len() - 1].id == sound_ids_of(es)[i]);
            }
        }
        assert forall|p: EntryId, i: int| #[trigger] child_map_of(es).contains_key(p) && 0 <= i < child_map_of(es)[p].len()
            implies exists|j: int| 0 <= j < es.len() && es[j].id == #[trigger] child_map_of(es)[p][i] by {
            let m = child_map_of(init);
            let q = es.last().parent_id;
            let before = if m.contains_key(q) { m[q] } else { Seq::empty() };
            if p == q && i == before.len() {
                assert(es[es.len() - 1].id == child_map_of(es)[p][i]);
            } else {
                assert(m.contains_key(p));
                assert(child_map_of(es)[p][i] == m[p][i]);
                let j = choose|j: int| 0 <= j < init.len() && init[j].id == m[p][i];
                assert(es[j] == init[j]);
            }
        }
    }
}

/// The index built from a non-empty list is consistent.
pub proof fn lemma_library_of_wf(es: Seq<EntryView>)
    requires
        es.len() > 0,
    ensures
        entry_map_of(es).contains_key(es[0].id),
        forall|k: EntryId| #[trigger] entry_map_of(es).contains_key(k) ==> entry_map_of(es)[k].id == k,
        forall|i: int| 0 <= i < sound_ids_of(es).len() ==> entry_map_of(es).contains_key(#[trigger] sound_ids_of(es)[i]),
        forall|p: EntryId, i: int| #[trigger] child_map_of(es).contains_key(p) && 0 <= i < child_map_of(es)[p].len()
            ==> entry_map_of(es).contains_key(#[trigger] child_map_of(es)[p][i]),
{
    lemma_entry_map_ids(es);
    lemma_ids_are_records(es);
    assert forall|i: int| 0 <= i < sound_ids_of(es).len() implies entry_map_of(es).contains_key(#[trigger] sound_ids_of(es)[i]) by {
        let j = choose|j: int| 0 <= j < es.len() && es[j].id == sound_ids_of(es)[i];
    }
    assert forall|p: EntryId, i: int| #[trigger] child_map_of(es).contains_key(p) && 0 <= i < child_map_of(es)[p].len()
        implies entry_map_of(es).contains_key(#[trigger] child_map_of(es)[p][i]) by {
        let j = choose|j: int| 0 <= j < es.len() && es[j].id == child_map_of(es)[p][i];
    }
}


/// The ids of the records among `es` whose parent is `p`, in order.
pub open spec fn children_of(es: Seq<EntryView>, p: EntryId) -> Seq<EntryId>
    decreases es.len(),
{
    if es.len() == 0 {
        Seq::empty()
    } else if es.last().parent_id == p {
        children_of(es.drop_last(), p).push(es.last().id)
    } else {
        children_of(es.drop_last(), p)
    }
}

/// Whether no two records of `es` have the same id.
pub open spec fn distinct_ids(es: Seq<EntryView>) -> bool {
    forall|i: int, j: int| 0 <= i < j < es.len() ==> #[trigger] es[i].id != #[trigger] es[j].id
}

/// The id map holds exactly the ids of the records, each record under its own id when no two
/// records share one.
proof fn lemma_entry_map_contents(es: Seq<EntryView>)
    ensures
        forall|k: EntryId| #[trigger] entry_map_of(es).contains_key(k) <==> exists|i: int| 0 <= i < es.len() && es[i].id == k,
        distinct_ids(es) ==> forall|i: int| 0 <= i < es.len() ==> #[trigger] entry_map_of(es)[es[i].id] == es[i],
    decreases es.len(),
{
    if es.len() > 0 {
        let init = es.drop_last();
        lemma_entry_map_contents(init);
        assert forall|k: EntryId| #[trigger] entry_map_of(es).contains_key(k) <==> exists|i: int| 0 <= i < es.len() && es[i].id == k by {
            if entry_map_of(es).contains_key(k) && k != es.last().id {
                assert(entry_map_of(init).contains_key(k));
                let i = choose|i: int| 0 <= i < init.len() && init[i].id == k;
                assert(es[i] == init[i]);
            }
            if exists|i: int| 0 <= i < es.len() && es[i].id == k {
                let i = choose|i: int| 0 <= i < es.len() && es[i].id == k;
                if i < init.len() {
                    assert(init[i] == es[i]);
                    assert(entry_map_of(init).contains_key(k));
                }
            }
        }
        if distinct_ids(es) {
            assert(distinct_ids(init)) by {
                assert forall|i: int, j: int| 0 <= i < j < init.len() implies #[trigger] init[i].id != #[trigger] init[j].id by {
                    assert(init[i] == es[i] && init[j] == es[j]);
                }
            }
            assert forall|i: int| 0 <= i < es.len() implies #[trigger] entry_map_of(es)[es[i].id] == es[i] by {
                if i < init.len() {
                    assert(init[i] == es[i]);
                    assert(es[i].id != es[es.len() - 1].id);
                    assert(entry_map_of(init)[init[i].id] == init[i]);
                }
            }
        }
    }
}

/// The child index lists, under each parent, exactly the records naming it as parent, and
/// holds no list for any other id.
proof fn lemma_child_map_contents(es: Seq<EntryView>)
    ensures
        forall|p: EntryId| #[trigger] child_map_of(es).contains_key(p) <==> exists|i: int| 0 <= i < es.len() && es[i].parent_id == p,
        forall|p: EntryId|
            (if child_map_of(es).contains_key(p) { child_map_of(es)[p] } else { Seq::empty() }) == #[trigger] children_of(es, p),
    decreases es.len(),
{
    if es.len() > 0 {
        let init = es.drop_last();
        lemma_child_map_contents(init);
        assert forall|p: EntryId| #[trigger] child_map_of(es).contains_key(p) <==> exists|i: int| 0 <= i < es.len() && es[i].parent_id == p by {
            if child_map_of(es).contains_key(p) && p != es.last().parent_id {
                assert(child_map_of(init).contains_key(p));
                let i = choose|i: int| 0 <= i < init.len() && init[i].parent_id == p;
                assert(es[i] == init[i]);
            }
            if exists|i: int| 0 <= i < es.len() && es[i].parent_id == p {
                let i = choose|i: int| 0 <= i < es.len() && es[i].parent_id == p;
                if i < init.len() {
                    assert(init[i] == es[i]);
                    assert(child_map_of(init).contains_key(p));
                }
            }
        }
        assert forall|p: EntryId|
            (if child_map_of(es).contains_key(p) { child_map_of(es)[p] } else { Seq::empty() }) == #[trigger] children_of(es, p) by {
            assert(children_of(init, p) == (if child_map_of(init).contains_key(p) { child_map_of(init)[p] } else { Seq::empty() }));
        }
    }
}

/// The children of `p` are the ids of the records with parent `p`; without two records
/// sharing an id, each is listed once.
proof fn lemma_children_of_members(es: Seq<EntryView>, p: EntryId)
    ensures
        forall|k: EntryId| children_of(es, p).contains(k) <==> exists|i: int| 0 <= i < es.len() && #[trigger] es[i].id == k && es[i].parent_id == p,
        distinct_ids(es) ==> children_of(es, p).no_duplicates(),
    decreases es.len(),
{
    if es.len() > 0 {
        let init = es.drop_last();
        lemma_children_of_members(init, p);
        let c = children_of(init, p);
        assert forall|k: EntryId| children_of(es, p).contains(k) <==> exists|i: int| 0 <= i < es.len() && #[trigger] es[i].id == k && es[i].parent_id == p by {
            if children_of(es, p).contains(k) {
                if c.contains(k) {
                    let i = choose|i: int| 0 <= i < init.len() && #[trigger] init[i].id == k && init[i].parent_id == p;
                    assert(es[i] == init[i]);
                } else {
                    let j = choose|j: int| 0 <= j < children_of(es, p).len() && children_of(es, p)[j] == k;
                    if es.last().parent_id == p && j < c.len() {
                        assert(c[j] == k);
                    }
                    assert(es[es.len() - 1].id == k);
                }
            }
            if exists|i: int| 0 <= i < es.len() && #[trigger] es[i].id == k && es[i].parent_id == p {
                let i = choose|i: int| 0 <= i < es.len() && #[trigger] es[i].id == k && es[i].parent_id == p;
                if i < init.len() {
                    assert(init[i] == es[i]);
                    assert(c.contains(k));
                    let j = choose|j: int| 0 <= j < c.len() && c[j] == k;
                    if es.last().parent_id == p {
                        assert(children_of(es, p)[j] == k);
                    }
                } else {
                    assert(children_of(es, p)[c.len() as int] == k);
                }
            }
        }
        if distinct_ids(es) {
            assert(distinct_ids(init)) by {
                assert forall|i: int, j: int| 0 <= i < j < init.len() implies #[trigger] init[i].id != #[trigger] init[j].id by {
                    assert(init[i] == es[i] && init[j] == es[j]);
                }
            }
            if es.last().parent_id == p {
                let last = es.last().id;
                assert(!c.contains(last)) by {
                    if c.contains(last) {
                        let i = choose|i: int| 0 <= i < init.len() && #[trigger] init[i].id == last && init[i].parent_id == p;
                        assert(es[i] == init[i]);
                    }
                }
                assert forall|a: int, b: int| 0 <= a < b < children_of(es, p).len() implies children_of(es, p)[a] != children_of(es, p)[b] by {
                    if b == c.len() {
                        assert(children_of(es, p)[a] == c[a]);
                    } else {
                        assert(children_of(es, p)[a] == c[a] && children_of(es, p)[b] == c[b]);
                    }
                }
            }
        }
    }
}

/// Law: the index built from a non-empty list holds, under each id, a record with that id,
/// and exactly the ids of the records; when no two records share an id, each record is stored
/// under its own id. Under each parent it lists, in order, the ids of the records naming that
/// parent, each once when ids are distinct, and it lists nothing under any other id.
pub proof fn lemma_library_index(es: Seq<EntryView>, cs: Seq<CreditView>)
    requires
        es.len() > 0,
    ensures
        forall|k: EntryId| #[trigger] library_of(es, cs).entries.contains_key(k) <==> exists|i: int| 0 <= i < es.len() && es[i].id == k,
        distinct_ids(es) ==> forall|i: int| 0 <= i < es.len() ==> #[trigger] library_of(es, cs).entries[es[i].id] == es[i],
        forall|p: EntryId| #[trigger] library_of(es, cs).child_map.contains_key(p) <==> exists|i: int| 0 <= i < es.len() && es[i].parent_id == p,
        forall|p: EntryId| #[trigger] library_of(es, cs).child_map.contains_key(p) ==> library_of(es, cs).child_map[p] == children_of(es, p),
        forall|p: EntryId, k: EntryId| #[trigger] children_of(es, p).contains(k) <==> exists|i: int| 0 <= i < es.len() && es[i].id == k && es[i].parent_id == p,
        distinct_ids(es) ==> forall|p: EntryId| #[trigger] children_of(es, p).no_duplicates(),
{
    lemma_entry_map_contents(es);
    lemma_child_map_contents(es);
    assert forall|p: EntryId| #[trigger] library_of(es, cs).child_map.contains_key(p) implies library_of(es, cs).child_map[p] == children_of(es, p) by {
        assert(children_of(es, p) == (if child_map_of(es).contains_key(p) { child_map_of(es)[p] } else { Seq::empty() }));
    }
    assert forall|p: EntryId, k: EntryId| #[trigger] children_of(es, p).contains(k) <==> exists|i: int| 0 <= i < es.len() && es[i].id == k && es[i].parent_id == p by {
        lemma_children_of_members(es, p);
        if exists|i: int| 0 <= i < es.len() && es[i].id == k && es[i].parent_id == p {
            let i = choose|i: int| 0 <= i < es.len() && es[i].id == k && es[i].parent_id == p;
            assert(es[i].id == k);
        }
    }
    if distinct_ids(es) {
        assert forall|p: EntryId| #[trigger] children_of(es, p).no_duplicates() by {
            lemma_children_of_members(es, p);
        }
    }
}

/// Builds the library index from its records and credits: the first record is the root, every
/// record is stored under its id (a later record replaces an earlier one with the same id) and
/// listed under its parent, in order, and the sizes and lengths of the sounds are added up.
pub fn build_sfx_library(entries: Vec<SfxLibraryEntry>, credits: Vec<Credit>) -> (r: Result<SfxLibrary, LibraryError>)
    requires
        totals_fit(entry_views(entries@)),
    ensures
        match r {
            Ok(lib) => entries@.len() > 0 && lib@ == library_of(entry_views(entries@), record_views(credits@)) && lib.wf(),
            Err(e) => entries@.len() == 0 && e == LibraryError::NoEntries,
        },
{
    if entries.len() == 0 {
        return Err(LibraryError::NoEntries);
    }
    let root_id = entries[0].id;
    let ghost es = entry_views(entries@);
    let ghost ents = entries@;
    let mut sound_ids: Vec<EntryId> = Vec::new();
    let mut entry_map: ahash::HashMap<EntryId, SfxLibraryEntry> = new_map();
    let mut child_map: ahash::HashMap<EntryId, Vec<EntryId>> = new_map();
    let mut total_bytes: u64 = 0;
    let mut total_duration: u128 = 0;
    let mut i: usize = 0;
    let n: usize = entries.len();
    assert(es.take(0) =~= Seq::<EntryView>::empty());
    assert(entry_map@.map_values(|e: SfxLibraryEntry| e@) =~= entry_map_of(es.take(0)));
    assert(child_map@.map_values(|v: Vec<EntryId>| v@) =~= child_map_of(es.take(0)));
    for entry in it: entries.into_iter()
        invariant
            n == ents.len(),
            it.seq() == ents,
            es == entry_views(ents),
            totals_fit(es),
            i == it.index(),
            i <= n,
            sound_ids@ == sound_ids_of(es.take(i as int)),
            entry_map@.map_values(|e: SfxLibraryEntry| e@) == entry_map_of(es.take(i as int)),
            child_map@.map_values(|v: Vec<EntryId>| v@) == child_map_of(es.take(i as int)),
            total_bytes as nat == total_bytes_of(es.take(i as int)),
            total_duration as nat == total_duration_of(es.take(i as int)),
    {
        let ghost prefix = es.take(i as int);
        let ghost next = es.take(i + 1);
        assert(entry == ents[i as int]);
        assert(next.drop_last() =~= prefix);
        assert(next.last() == entry@);
        proof {
            lemma_totals_prefix(es, i + 1);
        }
        if let EntryKind::Sound { bytes, duration_ms } = entry.kind {
            total_bytes = total_bytes + bytes;
            total_duration = total_duration + duration_ms as u128;
            sound_ids.push(entry.id);
        }
        let ghost old_children = child_map@;
        let mut siblings: Vec<EntryId> = match map_remove(&mut child_map, entry.parent_id) {
            Some(v) => v,
            None => Vec::new(),
        };
        siblings.push(entry.id);
        map_insert(&mut child_map, entry.parent_id, siblings);
        proof {
            let p = entry.parent_id;
            let m = child_map_of(prefix);
            assert(old_children.map_values(|v: Vec<EntryId>| v@).contains_key(p) == old_children.contains_key(p));
            assert(child_map@.map_values(|v: Vec<EntryId>| v@) =~= m.insert(p, (if m.contains_key(p) { m[p] } else { Seq::empty() }).push(entry.id)));
        }
        let ghost old_entries = entry_map@;
        let id = entry.id;
        map_insert(&mut entry_map, id, entry);
        assert(entry_map@.map_values(|e: SfxLibraryEntry| e@) =~= entry_map_of(prefix).insert(id, ents[i as int]@));
        i = i + 1;
    }
    assert(es.take(n as int) =~= es);
    proof {
        lemma_library_of_wf(es);
    }
    let lib = SfxLibrary {
        root_id,
        sound_ids,
        entries: entry_map,
        child_map,
        total_bytes,
        total_duration_ms: total_duration,
        credits,
    };
    assert(lib@ == library_of(es, record_views(credits@)));
    Ok(lib)
}


/// The records read from the pieces that hold one; pieces that do not are skipped.
pub open spec fn parsed_entries(pieces: Seq<Seq<char>>) -> Seq<EntryView>
    decreases pieces.len(),
{
    if pieces.len() == 0 {
        Seq::empty()
    } else {
        let rest = parsed_entries(pieces.drop_last());
        match entry_from_text(pieces.last()) {
            Ok(e) => rest.push(e),
            Err(_) => rest,
        }
    }
}

/// Whether some piece is a sound record whose length overflows.
pub open spec fn some_entry_overflows(pieces: Seq<Seq<char>>) -> bool {
    exists|i: int| 0 <= i < pieces.len() && entry_overflows(#[trigger] pieces[i])
}

/// The library text split at its first `|` into records and credits; without a `|` it is all
/// records.
pub open spec fn library_parts(text: Seq<char>) -> (Seq<char>, Seq<char>) {
    match split_once(text, '|') {
        Some(parts) => parts,
        None => (text, Seq::empty()),
    }
}

/// The records of a library text: its `;`-separated pieces before the first `|`.
pub open spec fn text_entries(text: Seq<char>) -> Seq<EntryView> {
    parsed_entries(split(library_parts(text).0, ';'))
}

/// The credits of a library text: its `;`-separated pieces after the first `|`.
pub open spec fn text_credits(text: Seq<char>) -> Seq<CreditView> {
    parsed_records::<Credit>(split(library_parts(text).1, ';'))
}

/// Whether a library text can be read without arithmetic overflow: no sound length
/// overflows, and the sizes and lengths add up within their types.
pub open spec fn sfx_text_fits(text: Seq<char>) -> bool {
    &&& !some_entry_overflows(split(library_parts(text).0, ';'))
    &&& totals_fit(text_entries(text))
}

/// The library that a text stands for.
pub open spec fn sfx_library_from_text(text: Seq<char>) -> Result<SfxLibraryView, LibraryError> {
    let es = text_entries(text);
    if es.len() == 0 {
        Err(LibraryError::NoEntries)
    } else {
        Ok(library_of(es, text_credits(text)))
    }
}

/// The library that the (decoded) library file contents stand for.
pub open spec fn sfx_library_from_bytes(bytes: Seq<u8>) -> Result<SfxLibraryView, LibraryError> {
    if !valid_utf8(bytes) {
        Err(LibraryError::InvalidUtf8)
    } else {
        sfx_library_from_text(decode_utf8(bytes))
    }
}

/// Whether the (decoded) library file contents can be read without arithmetic overflow.
pub open spec fn sfx_bytes_fit(bytes: Seq<u8>) -> bool {
    valid_utf8(bytes) ==> sfx_text_fits(decode_utf8(bytes))
}

/// Calls `std::str::from_utf8` and collects the characters: `None` exactly when the bytes are
/// not valid UTF-8, otherwise the characters they encode.
#[verifier::external_body]
fn utf8_chars(bytes: &[u8]) -> (r: Option<Vec<char>>)
    ensures
        match r {
            Some(v) => valid_utf8(bytes@) && v@ == decode_utf8(bytes@),
            None => !valid_utf8(bytes@),
        },
{
    match std::str::from_utf8(bytes) {
        Ok(s) => Some(s.chars().collect()),
        Err(_) => None,
    }
}

/// Reads the records of the `;`-separated pieces of `text`, skipping pieces that hold none;
/// `None` when a sound length overflows.
fn parse_entries_checked(text: &[char]) -> (r: Option<Vec<SfxLibraryEntry>>)
    ensures
        r is None <==> some_entry_overflows(split(text@, ';')),
        r matches Some(v) ==> entry_views(v@) == parsed_entries(split(text@, ';')),
{
    let pieces = split_chars(text, ';');
    let ghost ps = split(text@, ';');
    let mut out: Vec<SfxLibraryEntry> = Vec::new();
    let mut i: usize = 0;
    assert(ps.take(0) =~= Seq::<Seq<char>>::empty());
    assert(entry_views(out@) =~= Seq::<EntryView>::empty());
    while i < pieces.len()
        invariant
            ps == split(text@, ';'),
            pieces_view(pieces@) == ps,
            i <= pieces.len(),
            entry_views(out@) == parsed_entries(ps.take(i as int)),
            forall|j: int| 0 <= j < i ==> !entry_overflows(#[trigger] ps[j]),
        decreases pieces.len() - i,
    {
        assert(pieces[i as int]@ == ps[i as int]);
        assert(ps.take(i + 1).drop_last() =~= ps.take(i as int));
        match SfxLibraryEntry::from_chars_checked(&pieces[i]) {
            None => {
                assert(pieces_view(pieces@).len() == pieces@.len());
                assert(entry_overflows(ps[i as int]));
                assert(some_entry_overflows(ps));
                return None;
            },
            Some(Ok(e)) => {
                out.push(e);
                assert(entry_views(out@) =~= parsed_entries(ps.take(i as int)).push(e@));
            },
            Some(Err(_)) => {},
        }
        i = i + 1;
    }
    assert(ps.take(pieces.len() as int) =~= ps);
    Some(out)
}

/// Whether the sizes and lengths of the records add up within a `u64` and a `Duration`.
fn totals_within_limits(entries: &Vec<SfxLibraryEntry>) -> (r: bool)
    ensures
        r == totals_fit(entry_views(entries@)),
{
    let ghost es = entry_views(entries@);
    let mut bytes: u64 = 0;
    let mut duration: u128 = 0;
    let mut i: usize = 0;
    assert(es.take(0) =~= Seq::<EntryView>::empty());
    while i < entries.len()
        invariant
            es == entry_views(entries@),
            i <= entries.len(),
            bytes as nat == total_bytes_of(es.take(i as int)),
            duration as nat == total_duration_of(es.take(i as int)),
            duration as nat <= max_duration_ms(),
        decreases entries.len() - i,
    {
        assert(es.take(i + 1).drop_last() =~= es.take(i as int));
        assert(es[i as int] == entries[i as int]@);
        if let EntryKind::Sound { bytes: b, duration_ms: d } = entries[i].kind {
            match bytes.checked_add(b) {
                Some(v) => bytes = v,
                None => {
                    proof { lemma_totals_prefix(es, i + 1); }
                    return false;
                },
            }
            duration = duration + d as u128;
            if duration > 18_446_744_073_709_551_615_999 {
                proof { lemma_totals_prefix(es, i + 1); }
                return false;
            }
        }
        i = i + 1;
    }
    assert(es.take(entries.len() as int) =~= es);
    true
}

/// Reads the library from the library file's contents after their decoding: the text is split
/// at its first `|` into records and credits, each a `;`-separated list whose unreadable pieces
/// are skipped. `None` when the text cannot be read without arithmetic overflow.
pub fn parse_sfx_library_checked(bytes: &[u8]) -> (r: Option<Result<SfxLibrary, LibraryError>>)
    ensures
        r is None <==> !sfx_bytes_fit(bytes@),
        match r {
            Some(Ok(lib)) => sfx_library_from_bytes(bytes@) == Ok::<SfxLibraryView, LibraryError>(lib@) && lib.wf(),
            Some(Err(e)) => sfx_library_from_bytes(bytes@) == Err::<SfxLibraryView, LibraryError>(e),
            None => true,
        },
{
    let chars = match utf8_chars(bytes) {
        Some(c) => c,
        None => return Some(Err(LibraryError::InvalidUtf8)),
    };
    let ghost text = chars@;
    let (library_text, credits_text) = match split_once_chars(chars.as_slice(), '|') {
        Some(parts) => parts,
        None => (chars, Vec::new()),
    };
    assert(library_text@ == library_parts(text).0);
    assert(credits_text@ =~= library_parts(text).1);
    let entries = match parse_entries_checked(library_text.as_slice()) {
        Some(es) => es,
        None => return None,
    };
    if !totals_within_limits(&entries) {
        return None;
    }
    let credits = parse_semicolon_separated::<Credit>(credits_text.as_slice());
    Some(build_sfx_library(entries, credits))
}

/// Reads the library from the library file's contents after their decoding, as
/// `parse_sfx_library_checked` does, for contents that read without arithmetic overflow.
pub fn parse_sfx_library_from_bytes(bytes: &[u8]) -> (r: Result<SfxLibrary, LibraryError>)
    requires
        sfx_bytes_fit(bytes@),
    ensures
        match r {
            Ok(lib) => sfx_library_from_bytes(bytes@) == Ok::<SfxLibraryView, LibraryError>(lib@) && lib.wf(),
            Err(e) => sfx_library_from_bytes(bytes@) == Err::<SfxLibraryView, LibraryError>(e),
        },
{
    match parse_sfx_library_checked(bytes) {
        Some(r) => r,
        None => Err(LibraryError::InvalidUtf8),
    }
}


/// The records stored under `ids`, in order, skipping ids with no record.
pub open spec fn present_entries(ids: Seq<EntryId>, entries: Map<EntryId, EntryView>) -> Seq<EntryView>
    decreases ids.len(),
{
    if ids.len() == 0 {
        Seq::empty()
    } else {
        let rest = present_entries(ids.drop_last(), entries);
        if entries.contains_key(ids.last()) {
            rest.push(entries[ids.last()])
        } else {
            rest
        }
    }
}

/// The ids listed under `parent` in the child index; none when it has no list.
pub open spec fn child_ids(lib: SfxLibraryView, parent: EntryId) -> Seq<EntryId> {
    if lib.child_map.contains_key(parent) {
        lib.child_map[parent]
    } else {
        Seq::empty()
    }
}

/// The records held by a list of references, each as its view.
pub open spec fn ref_views(v: Seq<&SfxLibraryEntry>) -> Seq<EntryView> {
    v.map_values(|e: &SfxLibraryEntry| e@)
}

impl SfxLibraryEntry {
    /// The size of a sound; `None` for a category.
    pub fn bytes(&self) -> (r: Option<BytesSize>)
        ensures
            r == (match self.kind {
                EntryKind::Category => None,
                EntryKind::Sound { bytes, .. } => Some(bytes),
            }),
    {
        match self.kind {
            EntryKind::Category => None,
            EntryKind::Sound { bytes, .. } => Some(bytes),
        }
    }

    /// The length of a sound in milliseconds; `None` for a category.
    pub fn duration(&self) -> (r: Option<u64>)
        ensures
            r == (match self.kind {
                EntryKind::Category => None,
                EntryKind::Sound { duration_ms, .. } => Some(duration_ms),
            }),
    {
        match self.kind {
            EntryKind::Category => None,
            EntryKind::Sound { duration_ms, .. } => Some(duration_ms),
        }
    }
}

impl SfxLibrary {
    /// Looks up the records stored under `ids`, in order, skipping ids with no record.
    fn lookup_all<'a>(&'a self, ids: &Vec<EntryId>) -> (r: Vec<&'a SfxLibraryEntry>)
        ensures
            ref_views(r@) == present_entries(ids@, self@.entries),
    {
        let mut out: Vec<&'a SfxLibraryEntry> = Vec::new();
        let mut i: usize = 0;
        assert(ids@.take(0) =~= Seq::<EntryId>::empty());
        assert(ref_views(out@) =~= Seq::<EntryView>::empty());
        while i < ids.len()
            invariant
                i <= ids.len(),
                ref_views(out@) == present_entries(ids@.take(i as int), self@.entries),
            decreases ids.len() - i,
        {
            assert(ids@.take(i + 1).drop_last() =~= ids@.take(i as int));
            assert(ids@.take(i + 1).last() == ids[i as int]);
            match map_get(&self.entries, ids[i]) {
                Some(e) => {
                    out.push(e);
                    assert(ref_views(out@) =~= present_entries(ids@.take(i as int), self@.entries).push(e@));
                },
                None => {},
            }
            i = i + 1;
        }
        assert(ids@.take(ids.len() as int) =~= ids@);
        out
    }

    /// The root record, whose name is the library version.
    pub fn get_root(&self) -> (r: &SfxLibraryEntry)
        requires
            self.wf(),
        ensures
            r@ == self@.entries[self@.root_id],
    {
        match map_get(&self.entries, self.root_id) {
            Some(e) => e,
            None => {
                assert(false);
                map_get(&self.entries, self.root_id).unwrap()
            },
        }
    }

    /// The records by id.
    pub fn entries(&self) -> (r: &ahash::HashMap<EntryId, SfxLibraryEntry>)
        ensures
            r@ == self.entries@,
    {
        &self.entries
    }

    /// The records listed under `entry` as their parent, in library order.
    pub fn iter_children<'a>(&'a self, entry: &SfxLibraryEntry) -> (r: Vec<&'a SfxLibraryEntry>)
        ensures
            ref_views(r@) == present_entries(child_ids(self@, entry.id), self@.entries),
    {
        match map_get(&self.child_map, entry.id) {
            Some(ids) => self.lookup_all(ids),
            None => {
                assert(present_entries(Seq::<EntryId>::empty(), self@.entries) =~= Seq::<EntryView>::empty());
                Vec::new()
            },
        }
    }

    /// The ids of the sounds, in library order.
    pub fn sound_ids(&self) -> (r: &Vec<EntryId>)
        ensures
            r@ == self@.sound_ids,
    {
        &self.sound_ids
    }

    /// The sound records, in library order.
    pub fn iter_sounds<'a>(&'a self) -> (r: Vec<&'a SfxLibraryEntry>)
        ensures
            ref_views(r@) == present_entries(self@.sound_ids, self@.entries),
    {
        self.lookup_all(&self.sound_ids)
    }

    /// The summed size of the sounds.
    pub fn total_bytes(&self) -> (r: BytesSize)
        ensures
            r == self.total_bytes,
    {
        self.total_bytes
    }

    /// The summed length of the sounds, in milliseconds.
    pub fn total_duration(&self) -> (r: u128)
        ensures
            r == self.total_duration_ms,
    {
        self.total_duration_ms
    }

    /// The library version: the name of the root record.
    pub fn get_version(&self) -> (r: &str)
        requires
            self.wf(),
        ensures
            r@ == self@.entries[self@.root_id].name,
    {
        self.get_root().name.as_str()
    }

    /// The credits, in library order.
    pub fn credits(&self) -> (r: &Vec<Credit>)
        ensures
            r@ == self.credits@,
    {
        &self.credits
    }
}

impl SfxLibrary {
    /// Whether a newer library should be fetched: always when there is no readable local
    /// library; otherwise only when the version the server reported (`remote_version`, none
    /// when the request failed) differs from the local version, the root record's name.
    pub fn should_try_update(library: Option<&SfxLibrary>, remote_version: Option<String>) -> (r: bool)
        requires
            library matches Some(lib) ==> lib.wf(),
        ensures
            r == match library {
                None => true,
                Some(lib) => match remote_version {
                    None => false,
                    Some(v) => v@ != lib@.entries[lib@.root_id].name,
                },
            },
    {
        match library {
            None => true,
            Some(lib) => match remote_version {
                None => false,
                Some(v) => {
                    let local = str_chars(lib.get_version());
                    let remote = str_chars(v.as_str());
                    !chars_equal(remote.as_slice(), local.as_slice())
                },
            },
        }
    }
}

} // verus!
