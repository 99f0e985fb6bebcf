//! The artists and tags offered as choices for narrowing the music list: the records of the
//! available ids, sorted by name.

use vstd::prelude::*;

use core::cmp::Ordering;

use crate::music::{Credit, Tag, TagId};
use crate::search::{compare_names, lemma_text_order_antisymmetric, lemma_text_order_transitive, text_order};
use crate::EntryId;

verus! {

/// A record shown by its name.
pub trait NamedRecord {
    /// The record's name.
    spec fn record_name(&self) -> Seq<char>;

    /// The record's name.
    fn name_text(&self) -> (r: &str)
        ensures
            r@ == self.record_name(),
    ;
}

impl NamedRecord for Credit {
    open spec fn record_name(&self) -> Seq<char> {
        self.name@
    }

    fn name_text(&self) -> (r: &str) {
        self.name.as_str()
    }
}

impl NamedRecord for Tag {
    open spec fn record_name(&self) -> Seq<char> {
        self.name@
    }

    fn name_text(&self) -> (r: &str) {
        self.name.as_str()
    }
}

/// Whether records are in order of their names.
pub open spec fn sorted_by_name<T: NamedRecord>(s: Seq<&T>) -> bool {
    forall|i: int, j: int|
        0 <= i < j < s.len() ==> text_order(#[trigger] s[i].record_name(), #[trigger] s[j].record_name()) != Ordering::Greater
}

/// Sorts records by name: the result holds the same records, in order of their names.
pub fn sort_by_name<'a, T: NamedRecord>(records: Vec<&'a T>) -> (r: Vec<&'a T>)
    ensures
        r@.to_multiset() == records@.to_multiset(),
        sorted_by_name(r@),
{
    broadcast use vstd::seq_lib::group_to_multiset_ensures;

    let ghost all = records@;
    let mut out: Vec<&'a T> = Vec::new();
    let ghost mut k: int = 0;
    assert(all.take(0) =~= Seq::<&T>::empty());
    for x in it: records.into_iter()
        invariant
            it.seq() == all,
            k == it.index(),
            0 <= k <= all.len(),
            out@.to_multiset() == all.take(k).to_multiset(),
            sorted_by_name(out@),
    {
        assert(x == all[k]);
        let mut p: usize = 0;
        let ghost mut q: int = 0;
        loop
            invariant
                q == p,
                p <= out.len(),
                sorted_by_name(out@),
                forall|j: int| 0 <= j < q ==> text_order(#[trigger] out@[j].record_name(), x.record_name()) != Ordering::Greater,
            ensures
                q == p,
                p <= out.len(),
                forall|j: int| 0 <= j < q ==> text_order(#[trigger] out@[j].record_name(), x.record_name()) != Ordering::Greater,
                p < out.len() ==> text_order(out@[q].record_name(), x.record_name()) == Ordering::Greater,
            decreases out.len() - p,
        {
            if p == out.len() {
                break;
            }
            match compare_names(out[p].name_text(), x.name_text()) {
                Ordering::Greater => {
                    break;
                },
                _ => {},
            }
            p = p + 1;
            proof { q = q + 1; }
        }
        let ghost before = out@;
        out.insert(p, x);
        assert(out@ == before.insert(q, x));
        assert(all.take(k + 1) =~= all.take(k).push(x));
        proof {
            vstd::seq_lib::to_multiset_insert(before, q, x);
            vstd::seq_lib::to_multiset_build(all.take(k), x);
        }
        assert forall|a: int, b: int| 0 <= a < b < out@.len() implies text_order(
            #[trigger] out@[a].record_name(),
            #[trigger] out@[b].record_name(),
        ) != Ordering::Greater by {
            if b < q {
                assert(out@[a] == before[a] && out@[b] == before[b]);
            } else if b == q {
                assert(out@[a] == before[a] && out@[b] == x);
            } else if a < q {
                assert(out@[a] == before[a] && out@[b] == before[b - 1]);
                assert(text_order(before[a].record_name(), before[b - 1].record_name()) != Ordering::Greater);
            } else if a == q {
                assert(out@[a] == x && out@[b] == before[b - 1]);
                lemma_text_order_antisymmetric(before[q].record_name(), x.record_name());
                if b - 1 > q {
                    assert(text_order(before[q].record_name(), before[b - 1].record_name()) != Ordering::Greater);
                    lemma_text_order_transitive(x.record_name(), before[q].record_name(), before[b - 1].record_name());
                }
            } else {
                assert(out@[a] == before[a - 1] && out@[b] == before[b - 1]);
                assert(text_order(before[a - 1].record_name(), before[b - 1].record_name()) != Ordering::Greater);
            }
        }
        proof { k = k + 1; }
    }
    assert(all.take(k) =~= all);
    out
}

/// The credits whose id is among `ids`, in library order.
pub open spec fn credits_with_ids(credits: Seq<Credit>, ids: Seq<EntryId>) -> Seq<Credit>
    decreases credits.len(),
{
    if credits.len() == 0 {
        Seq::empty()
    } else if ids.contains(credits.last().id) {
        credits_with_ids(credits.drop_last(), ids).push(credits.last())
    } else {
        credits_with_ids(credits.drop_last(), ids)
    }
}

/// The tags whose id is among `ids`, in library order.
pub open spec fn tags_with_ids(tags: Seq<Tag>, ids: Seq<TagId>) -> Seq<Tag>
    decreases tags.len(),
{
    if tags.len() == 0 {
        Seq::empty()
    } else if ids.contains(tags.last().id) {
        tags_with_ids(tags.drop_last(), ids).push(tags.last())
    } else {
        tags_with_ids(tags.drop_last(), ids)
    }
}

/// The records that references point to.
pub open spec fn records_of<T>(refs: Seq<&T>) -> Seq<T> {
    refs.map_values(|r: &T| *r)
}

/// Whether `id` is among `ids`.
fn has_id(ids: &Vec<EntryId>, id: EntryId) -> (r: bool)
    ensures
        r == ids@.contains(id),
{
    let mut i: usize = 0;
    while i < ids.len()
        invariant
            i <= ids.len(),
            forall|j: int| 0 <= j < i ==> ids@[j] != id,
        decreases ids.len() - i,
    {
        if ids[i] == id {
            assert(ids@[i as int] == id);
            return true;
        }
        i = i + 1;
    }
    false
}

/// Whether `id` is among `ids`.
fn has_tag_id(ids: &Vec<TagId>, id: TagId) -> (r: bool)
    ensures
        r == ids@.contains(id),
{
    let mut i: usize = 0;
    while i < ids.len()
        invariant
            i <= ids.len(),
            forall|j: int| 0 <= j < i ==> ids@[j] != id,
        decreases ids.len() - i,
    {
        if ids[i] == id {
            assert(ids@[i as int] == id);
            return true;
        }
        i = i + 1;
    }
    false
}

/// The credits of `ids`, in library order.
fn pick_credits<'a>(ids: &Vec<EntryId>, credits: &'a Vec<Credit>) -> (r: Vec<&'a Credit>)
    ensures
        records_of(r@) == credits_with_ids(credits@, ids@),
{
    let mut out: Vec<&'a Credit> = Vec::new();
    let mut i: usize = 0;
    assert(credits@.take(0) =~= Seq::<Credit>::empty());
    assert(records_of(out@) =~= Seq::<Credit>::empty());
    while i < credits.len()
        invariant
            i <= credits.len(),
            records_of(out@) == credits_with_ids(credits@.take(i as int), ids@),
        decreases credits.len() - i,
    {
        assert(credits@.take(i + 1).drop_last() =~= credits@.take(i as int));
        assert(credits@.take(i + 1).last() == credits@[i as int]);
        if has_id(ids, credits[i].id) {
            let ghost before = out@;
            out.push(&credits[i]);
            assert(records_of(out@) =~= records_of(before).push(credits@[i as int]));
        }
        i = i + 1;
    }
    assert(credits@.take(credits.len() as int) =~= credits@);
    out
}

/// The tags of `ids`, in library order.
fn pick_tags<'a>(ids: &Vec<TagId>, tags: &'a Vec<Tag>) -> (r: Vec<&'a Tag>)
    ensures
        records_of(r@) == tags_with_ids(tags@, ids@),
{
    let mut out: Vec<&'a Tag> = Vec::new();
    let mut i: usize = 0;
    assert(tags@.take(0) =~= Seq::<Tag>::empty());
    assert(records_of(out@) =~= Seq::<Tag>::empty());
    while i < tags.len()
        invariant
            i <= tags.len(),
            records_of(out@) == tags_with_ids(tags@.take(i as int), ids@),
        decreases tags.len() - i,
    {
        assert(tags@.take(i + 1).drop_last() =~= tags@.take(i as int));
        assert(tags@.take(i + 1).last() == tags@[i as int]);
        if has_tag_id(ids, tags[i].id) {
            let ghost before = out@;
            out.push(&tags[i]);
            assert(records_of(out@) =~= records_of(before).push(tags@[i as int]));
        }
        i = i + 1;
    }
    assert(tags@.take(tags.len() as int) =~= tags@);
    out
}

/// The artists offered as choices: the credits of the available artist ids, sorted by name.
/// Ids without a credit offer nothing.
pub fn artist_choices<'a>(ids: &Vec<EntryId>, credits: &'a Vec<Credit>) -> (r: Vec<&'a Credit>)
    ensures
        sorted_by_name(r@),
        exists|picked: Seq<&Credit>|
            records_of(picked) == credits_with_ids(credits@, ids@) && #[trigger] picked.to_multiset() == r@.to_multiset(),
{
    let picked = pick_credits(ids, credits);
    let ghost p = picked@;
    let r = sort_by_name(picked);
    assert(p.to_multiset() == r@.to_multiset());
    r
}

/// The tags offered as choices: the tag records of the available tag ids, sorted by name.
/// Ids without a tag record offer nothing.
pub fn tag_choices<'a>(ids: &Vec<TagId>, tags: &'a Vec<Tag>) -> (r: Vec<&'a Tag>)
    ensures
        sorted_by_name(r@),
        exists|picked: Seq<&Tag>|
            records_of(picked) == tags_with_ids(tags@, ids@) && #[trigger] picked.to_multiset() == r@.to_multiset(),
{
    let picked = pick_tags(ids, tags);
    let ghost p = picked@;
    let r = sort_by_name(picked);
    assert(p.to_multiset() == r@.to_multiset());
    r
}

/// The ids of tag records.
pub fn tag_ids_of_records(tags: &Vec<&Tag>) -> (r: Vec<TagId>)
    ensures
        r@.len() == tags@.len(),
        forall|i: int| 0 <= i < r@.len() ==> #[trigger] r@[i] == tags@[i].id,
{
    let mut out: Vec<TagId> = Vec::new();
    let mut i: usize = 0;
    while i < tags.len()
        invariant
            i <= tags.len(),
            out@.len() == i,
            forall|j: int| 0 <= j < i ==> #[trigger] out@[j] == tags@[j].id,
        decreases tags.len() - i,
    {
        out.push(tags[i].id);
        i = i + 1;
    }
    out
}

} // verus!
