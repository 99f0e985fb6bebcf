//! Durations as the statistics page shows them.

use vstd::prelude::*;

use crate::text::{
    all_digits, chars_to_string, decimal, digit_char, digit_value, digits_value, is_digit, lemma_decimal_digits, lemma_digit_char,
    push_decimal,
};

verus! {

/// A duration in hundredths of a second.
#[derive(Debug, Clone, Copy, PartialEq, Eq, Structural)]
pub struct Centiseconds(pub i64);

/// The largest number of centiseconds whose text is exact: beyond it, dividing by 100 in
/// floating point would no longer round to the right hundredth.
pub open spec fn max_exact_centiseconds() -> int {
    0x10_0000_0000_0000
}

/// The text of `c` centiseconds: the seconds with two decimals and an `s`, such as `3.45s`,
/// with a `-` in front when negative.
pub open spec fn centiseconds_text(c: int) -> Seq<char> {
    let n = if c < 0 { -c } else { c };
    let sign = if c < 0 { seq!['-'] } else { Seq::<char>::empty() };
    sign + decimal((n / 100) as nat) + seq!['.', digit_char(((n % 100) / 10) as nat), digit_char((n % 10) as nat), 's']
}

impl Centiseconds {
    /// The duration in seconds with two decimals and an `s`, such as `67.89s`.
    pub fn to_string(&self) -> (r: String)
        requires
            -max_exact_centiseconds() <= self.0 <= max_exact_centiseconds(),
        ensures
            r@ == centiseconds_text(self.0 as int),
    {
        let c = self.0;
        let mut out: Vec<char> = Vec::new();
        let n: u64 = if c < 0 {
            out.push('-');
            (-c) as u64
        } else {
            c as u64
        };
        push_decimal(n / 100, &mut out);
        out.push('.');
        out.push(digit_of((n % 100) / 10));
        out.push(digit_of(n % 10));
        out.push('s');
        assert(out@ =~= centiseconds_text(c as int));
        chars_to_string(out.as_slice())
    }
}

/// The digit character of `d < 10`.
fn digit_of(d: u64) -> (c: char)
    requires
        d < 10,
    ensures
        c == digit_char(d as nat),
{
    let mut out: Vec<char> = Vec::new();
    push_decimal(d, &mut out);
    assert(decimal(d as nat) =~= seq![digit_char(d as nat)]);
    out[0]
}

/// Law: the text of a duration reads back as that duration: it starts with `-` exactly when
/// the duration is negative; after that come decimal digits, a dot, two digits and an `s`, and
/// the digits before the dot times one hundred, plus the two digits after it, give the number
/// of centiseconds, whole seconds in full.
pub proof fn lemma_centiseconds_text_value(c: int)
    ensures
        (centiseconds_text(c).len() > 0 && centiseconds_text(c)[0] == '-') == (c < 0),
        ({
            let t = centiseconds_text(c);
            let body = if c < 0 { t.skip(1) } else { t };
            let n = body.len();
            &&& n >= 5
            &&& body[n - 1] == 's'
            &&& body[n - 4] == '.'
            &&& all_digits(body.take(n - 4))
            &&& is_digit(body[n - 3])
            &&& is_digit(body[n - 2])
            &&& digits_value(body.take(n - 4)) * 100 + digit_value(body[n - 3]) * 10 + digit_value(body[n - 2])
                == (if c < 0 { -c } else { c })
        }),
{
    let a = if c < 0 { -c } else { c };
    let w = (a / 100) as nat;
    let d1 = ((a % 100) / 10) as nat;
    let d2 = (a % 10) as nat;
    lemma_decimal_digits(w);
    lemma_digit_char(d1);
    lemma_digit_char(d2);
    let tail = seq!['.', digit_char(d1), digit_char(d2), 's'];
    let body = decimal(w) + tail;
    let t = centiseconds_text(c);
    if c < 0 {
        assert(t =~= seq!['-'] + body);
        assert(t.skip(1) =~= body);
    } else {
        assert(t =~= body);
        assert(is_digit(decimal(w)[0]));
    }
    let n = body.len();
    assert(body.take(n - 4) =~= decimal(w));
    assert(body[n - 3] == digit_char(d1));
    assert(body[n - 2] == digit_char(d2));
    assert(a == (a / 100) * 100 + a % 100);
    assert(a % 100 == ((a % 100) / 10) * 10 + a % 10);
}

} // verus!
