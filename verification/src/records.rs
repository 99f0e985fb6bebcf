//! Lists of records in text form: `;`-separated pieces, each read on its own; pieces that do
//! not hold a record are skipped.

use vstd::prelude::*;

use crate::text::{lemma_split_append, pieces_view, split, split_chars};

verus! {

/// A record that can be read from the characters of its text form.
pub trait ParseRecord: Sized + View {
    /// The record, as its view, that a text stands for, or none when the text holds none.
    spec fn record_from_text(s: Seq<char>) -> Option<<Self as View>::V>;

    /// Reads a record from the characters of its text form.
    fn parse_record(chars: &Vec<char>) -> (r: Option<Self>)
        ensures
            match r {
                Some(v) => Self::record_from_text(chars@) == Some(v@),
                None => Self::record_from_text(chars@) is None,
            },
    ;
}

/// The views of the records of a list.
pub open spec fn record_views<T: View>(v: Seq<T>) -> Seq<<T as View>::V> {
    v.map_values(|x: T| x@)
}

/// The records read from the pieces that hold one, in order; the others are skipped.
pub open spec fn parsed_records<T: ParseRecord>(pieces: Seq<Seq<char>>) -> Seq<<T as View>::V>
    decreases pieces.len(),
{
    if pieces.len() == 0 {
        Seq::empty()
    } else {
        let rest = parsed_records::<T>(pieces.drop_last());
        match T::record_from_text(pieces.last()) {
            Some(v) => rest.push(v),
            None => rest,
        }
    }
}

/// Reads the records of the `;`-separated pieces of `text`, skipping the pieces that hold none.
pub fn parse_semicolon_separated<T: ParseRecord>(text: &[char]) -> (r: Vec<T>)
    ensures
        record_views(r@) == parsed_records::<T>(split(text@, ';')),
{
    let pieces = split_chars(text, ';');
    let ghost ps = split(text@, ';');
    let mut out: Vec<T> = Vec::new();
    let mut i: usize = 0;
    assert(ps.take(0) =~= Seq::<Seq<char>>::empty());
    assert(record_views(out@) =~= Seq::<<T as View>::V>::empty());
    while i < pieces.len()
        invariant
            pieces_view(pieces@) == ps,
            i <= pieces.len(),
            record_views(out@) == parsed_records::<T>(ps.take(i as int)),
        decreases pieces.len() - i,
    {
        assert(pieces[i as int]@ == ps[i as int]);
        assert(ps.take(i + 1).drop_last() =~= ps.take(i as int));
        match T::parse_record(&pieces[i]) {
            Some(v) => {
                let ghost before = out@;
                out.push(v);
                assert(record_views(out@) =~= record_views(before).push(v@));
            },
            None => {},
        }
        i = i + 1;
    }
    assert(ps.take(pieces.len() as int) =~= ps);
    out
}

/// Reading two lists of pieces one after the other gives the records of the first, then
/// those of the second; at most one record comes of each piece.
pub proof fn lemma_parsed_records_append<T: ParseRecord>(x: Seq<Seq<char>>, y: Seq<Seq<char>>)
    ensures
        parsed_records::<T>(x + y) == parsed_records::<T>(x) + parsed_records::<T>(y),
        parsed_records::<T>(x).len() <= x.len(),
    decreases x.len() + y.len(),
{
    if y.len() == 0 {
        assert(x + y =~= x);
        assert(parsed_records::<T>(x) + parsed_records::<T>(y) =~= parsed_records::<T>(x));
        if x.len() > 0 {
            lemma_parsed_records_append::<T>(x.drop_last(), y);
        }
    } else {
        lemma_parsed_records_append::<T>(x, y.drop_last());
        assert((x + y).drop_last() =~= x + y.drop_last());
        assert((x + y).last() == y.last());
        let px = parsed_records::<T>(x);
        let py = parsed_records::<T>(y.drop_last());
        match T::record_from_text(y.last()) {
            Some(v) => {
                assert(px + py.push(v) =~= (px + py).push(v));
            },
            None => {},
        }
    }
}

/// Law: reading the list `a;b` gives the records of `a` followed by those of `b`; unreadable
/// pieces are dropped, so there are never more records than `;`-separated pieces.
pub proof fn lemma_parse_joined<T: ParseRecord>(a: Seq<char>, b: Seq<char>)
    ensures
        parsed_records::<T>(split(a + seq![';'] + b, ';')) == parsed_records::<T>(split(a, ';')) + parsed_records::<T>(
            split(b, ';'),
        ),
        parsed_records::<T>(split(a, ';')).len() <= split(a, ';').len(),
{
    lemma_split_append(a, ';', b);
    lemma_parsed_records_append::<T>(split(a, ';'), split(b, ';'));
}

} // verus!
