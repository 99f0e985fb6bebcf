//! Sound-effect files in the Geometry Dash folder: their names, and the ids that the names of
//! downloaded files stand for.

use vstd::prelude::*;

use crate::maps::{new_set, set_contains, set_insert, set_members};
use crate::max_u32;
use crate::text::{decimal, lemma_decimal_digits, lemma_parse_decimal, parse_unsigned, parse_unsigned_chars, push_decimal, str_chars};
use crate::EntryId;

verus! {

/// The file of a sound effect, named after its id.
#[derive(Debug, Clone, Copy, PartialEq, Eq, Structural)]
pub struct FileEntry(pub EntryId);

/// The file extension of sound effects, with its dot.
pub open spec fn ogg_suffix() -> Seq<char> {
    seq!['.', 'o', 'g', 'g']
}

/// The name of the file of the sound `id`: `s{id}.ogg`.
pub open spec fn file_name_of(id: EntryId) -> Seq<char> {
    seq!['s'] + decimal(id as nat) + ogg_suffix()
}

/// The sound id that a file name stands for: a name `s{n}.ogg` whose `n` reads as a `u32`.
pub open spec fn sound_id_of_file(name: Seq<char>) -> Option<EntryId> {
    if name.len() >= 5 && name[0] == 's' && name.subrange(name.len() - 4, name.len() as int) == ogg_suffix() {
        match parse_unsigned(name.subrange(1, name.len() - 4), max_u32()) {
            Some(n) => Some(n as u32),
            None => None,
        }
    } else {
        None
    }
}

impl FileEntry {
    /// The file of the sound `id`.
    pub fn new(id: EntryId) -> (r: FileEntry)
        ensures
            r.0 == id,
    {
        FileEntry(id)
    }

    /// The sound id.
    pub fn id(&self) -> (r: EntryId)
        ensures
            r == self.0,
    {
        self.0
    }

    /// The file's name, `s{id}.ogg`.
    pub fn get_file_name(&self) -> (r: String)
        ensures
            r@ == file_name_of(self.0),
    {
        let mut name: Vec<char> = Vec::new();
        name.push('s');
        push_decimal(self.0 as u64, &mut name);
        name.push('.');
        name.push('o');
        name.push('g');
        name.push('g');
        assert(name@ =~= file_name_of(self.0));
        crate::text::chars_to_string(name.as_slice())
    }
}

/// Whether `name` ends with `.ogg`.
fn ends_with_ogg(name: &Vec<char>) -> (r: bool)
    ensures
        r == (name@.len() >= 4 && name@.subrange(name@.len() - 4, name@.len() as int) == ogg_suffix()),
{
    let n = name.len();
    if n < 4 {
        return false;
    }
    let r = name[n - 4] == '.' && name[n - 3] == 'o' && name[n - 2] == 'g' && name[n - 1] == 'g';
    assert(r == (name@.subrange(n - 4, n as int) =~= ogg_suffix()));
    r
}

/// The sound id that the name of a file in the Geometry Dash folder stands for, if it is the
/// name of a sound-effect file: `s{n}.ogg` with `n` a `u32`.
pub fn sound_id_of_file_name(name: &str) -> (r: Option<EntryId>)
    ensures
        r == sound_id_of_file(name@),
{
    let chars = str_chars(name);
    if chars.len() >= 5 && chars[0] == 's' && ends_with_ogg(&chars) {
        let middle = crate::text::slice_range(chars.as_slice(), 1, chars.len() - 4);
        match parse_unsigned_chars(middle.as_slice(), 0xffff_ffff) {
            Some(n) => Some(n as u32),
            None => None,
        }
    } else {
        None
    }
}

/// The ids of the sound-effect files among some file names.
pub open spec fn downloaded_ids_of(names: Seq<Seq<char>>) -> Set<EntryId> {
    Set::new(|id: EntryId| exists|i: int| 0 <= i < names.len() && sound_id_of_file(#[trigger] names[i]) == Some(id))
}

/// The views of a list of names.
pub open spec fn name_views(names: Seq<String>) -> Seq<Seq<char>> {
    names.map_values(|n: String| n@)
}

/// The ids of the sound-effect files among the names of the files in the Geometry Dash folder.
pub fn downloaded_ids(file_names: &Vec<String>) -> (r: ahash::HashSet<EntryId>)
    ensures
        r@ == downloaded_ids_of(name_views(file_names@)),
{
    let ghost names = name_views(file_names@);
    let mut ids = new_set();
    let mut i: usize = 0;
    while i < file_names.len()
        invariant
            names == name_views(file_names@),
            i <= file_names.len(),
            ids@ == downloaded_ids_of(names.take(i as int)),
        decreases file_names.len() - i,
    {
        let ghost before = ids@;
        assert(names[i as int] == file_names[i as int]@);
        match sound_id_of_file_name(file_names[i].as_str()) {
            Some(id) => {
                set_insert(&mut ids, id);
                assert forall|x: EntryId| ids@.contains(x) <==> downloaded_ids_of(names.take(i + 1)).contains(x) by {
                    if x == id {
                        assert(names.take(i + 1)[i as int] == names[i as int]);
                    }
                    if downloaded_ids_of(names.take(i + 1)).contains(x) {
                        let j = choose|j: int| 0 <= j < i + 1 && sound_id_of_file(#[trigger] names.take(i + 1)[j]) == Some(x);
                        assert(names.take(i + 1)[j] == names[j]);
                        if j < i {
                            assert(names.take(i as int)[j] == names[j]);
                        }
                    }
                    if before.contains(x) {
                        let j = choose|j: int| 0 <= j < i && sound_id_of_file(#[trigger] names.take(i as int)[j]) == Some(x);
                        assert(names.take(i + 1)[j] == names.take(i as int)[j]);
                    }
                }
            },
            None => {
                assert forall|x: EntryId| ids@.contains(x) <==> downloaded_ids_of(names.take(i + 1)).contains(x) by {
                    if downloaded_ids_of(names.take(i + 1)).contains(x) {
                        let j = choose|j: int| 0 <= j < i + 1 && sound_id_of_file(#[trigger] names.take(i + 1)[j]) == Some(x);
                        assert(names.take(i + 1)[j] == names[j]);
                        if j < i {
                            assert(names.take(i as int)[j] == names[j]);
                        }
                    }
                    if before.contains(x) {
                        let j = choose|j: int| 0 <= j < i && sound_id_of_file(#[trigger] names.take(i as int)[j]) == Some(x);
                        assert(names.take(i + 1)[j] == names.take(i as int)[j]);
                    }
                }
            },
        }
        assert(ids@ =~= downloaded_ids_of(names.take(i + 1)));
        i = i + 1;
    }
    assert(names.take(file_names.len() as int) =~= names);
    ids
}

/// The downloaded sounds that the library does not list: the members of `downloaded` that are
/// not among `sound_ids`, each once, in no stated order.
pub fn unlisted_sfx(downloaded: &ahash::HashSet<EntryId>, sound_ids: &Vec<EntryId>) -> (r: Vec<EntryId>)
    ensures
        r@.to_set() == downloaded@.difference(sound_ids@.to_set()),
        r@.no_duplicates(),
{
    let mut listed = new_set();
    let mut i: usize = 0;
    while i < sound_ids.len()
        invariant
            i <= sound_ids.len(),
            listed@ == sound_ids@.take(i as int).to_set(),
        decreases sound_ids.len() - i,
    {
        set_insert(&mut listed, sound_ids[i]);
        assert(sound_ids@.take(i + 1) =~= sound_ids@.take(i as int).push(sound_ids[i as int]));
        proof { sound_ids@.take(i as int).lemma_push_to_set_commute(sound_ids[i as int]); }
        i = i + 1;
    }
    assert(sound_ids@.take(sound_ids.len() as int) =~= sound_ids@);
    let members = set_members(downloaded);
    let mut out: Vec<EntryId> = Vec::new();
    let mut j: usize = 0;
    while j < members.len()
        invariant
            j <= members.len(),
            members@.no_duplicates(),
            listed@ == sound_ids@.to_set(),
            out@.no_duplicates(),
            forall|x: EntryId| out@.contains(x) <==> (members@.take(j as int).contains(x) && !listed@.contains(x)),
        decreases members.len() - j,
    {
        let id = members[j];
        let ghost before = out@;
        assert(members@.take(j + 1) =~= members@.take(j as int).push(id));
        if !set_contains(&listed, id) {
            assert(!members@.take(j as int).contains(id));
            out.push(id);
            assert(out@ == before.push(id));
            assert forall|x: EntryId| out@.contains(x) <==> (members@.take(j + 1).contains(x) && !listed@.contains(x)) by {
                if out@.contains(x) && x != id {
                    let k = choose|k: int| 0 <= k < out@.len() && #[trigger] out@[k] == x;
                    assert(k < before.len());
                    assert(before[k] == x);
                    assert(before.contains(x));
                    let m = choose|m: int| 0 <= m < j && #[trigger] members@.take(j as int)[m] == x;
                    assert(members@.take(j + 1)[m] == x);
                }
                if members@.take(j + 1).contains(x) && !listed@.contains(x) && x != id {
                    let k = choose|k: int| 0 <= k < j + 1 && #[trigger] members@.take(j + 1)[k] == x;
                    assert(members@.take(j as int)[k] == x);
                    assert(members@.take(j as int).contains(x));
                    assert(before.contains(x));
                    let m = choose|m: int| 0 <= m < before.len() && #[trigger] before[m] == x;
                    assert(out@[m] == x);
                }
                if x == id {
                    assert(out@[out@.len() - 1] == id);
                    assert(members@.take(j + 1)[j as int] == id);
                }
            }
        } else {
            assert forall|x: EntryId| out@.contains(x) <==> (members@.take(j + 1).contains(x) && !listed@.contains(x)) by {
                if members@.take(j + 1).contains(x) && x != id {
                    let k = choose|k: int| 0 <= k < j + 1 && #[trigger] members@.take(j + 1)[k] == x;
                    assert(members@.take(j as int)[k] == x);
                }
            }
        }
        j = j + 1;
    }
    assert(members@.take(members.len() as int) =~= members@);
    assert(out@.to_set() =~= downloaded@.difference(sound_ids@.to_set()));
    out
}

/// The name of a sound's file reads back as that sound's id.
pub proof fn lemma_file_name_round_trip(id: EntryId)
    ensures
        sound_id_of_file(file_name_of(id)) == Some(id),
{
    let name = file_name_of(id);
    let d = decimal(id as nat);
    lemma_decimal_digits(id as nat);
    lemma_parse_decimal(id as nat, max_u32());
    assert(name.subrange(name.len() - 4, name.len() as int) =~= ogg_suffix());
    assert(name.subrange(1, name.len() - 4) =~= d);
}

/// The ids a download of the id range `from..=to` fetches, in order; none when `from` is
/// above `to`.
pub fn download_ids(from: EntryId, to: EntryId) -> (r: Vec<EntryId>)
    ensures
        r@.len() == (if from <= to { to - from + 1 } else { 0 }),
        forall|i: int| 0 <= i < r@.len() ==> #[trigger] r@[i] == from + i,
{
    let mut out: Vec<EntryId> = Vec::new();
    if from > to {
        return out;
    }
    let mut id: u64 = from as u64;
    while id <= to as u64
        invariant
            from <= to,
            from <= id <= to as u64 + 1,
            out@.len() == id - from,
            forall|i: int| 0 <= i < out@.len() ==> #[trigger] out@[i] == from + i,
        decreases to as u64 + 1 - id,
    {
        out.push(id as u32);
        id = id + 1;
    }
    out
}

} // verus!
