//! How long a running tool has been working, as the progress display shows it.

use vstd::prelude::*;

use crate::text::{
    all_digits, chars_to_string, decimal, digit_value, digits_value, is_digit, lemma_decimal_digits, push_decimal,
};

verus! {

/// A number with at least two digits, padded with a leading zero (`{:02}`).
pub open spec fn two_digits(n: nat) -> Seq<char> {
    if n < 10 {
        seq!['0'] + decimal(n)
    } else {
        decimal(n)
    }
}

/// The text of an elapsed time in seconds. The minutes are taken modulo an hour and the hours
/// are counted from those minutes, so the hours part is always zero and never shown: the text
/// is `MM:SS`.
pub open spec fn elapsed_text(elapsed_seconds: nat) -> Seq<char> {
    let seconds = elapsed_seconds % 60;
    let minutes = (elapsed_seconds / 60) % 60;
    let hours = minutes / 60;
    if hours > 0 {
        two_digits(hours) + seq![':'] + two_digits(minutes) + seq![':'] + two_digits(seconds)
    } else {
        two_digits(minutes) + seq![':'] + two_digits(seconds)
    }
}

/// Appends `n` with at least two digits.
fn push_two_digits(n: u64, out: &mut Vec<char>)
    ensures
        final(out)@ == old(out)@ + two_digits(n as nat),
{
    if n < 10 {
        out.push('0');
    }
    push_decimal(n, out);
}

/// The elapsed time of a tool, `MM:SS`, from the whole seconds since it started.
pub fn format_time(elapsed_seconds: u64) -> (r: String)
    ensures
        r@ == elapsed_text(elapsed_seconds as nat),
{
    let seconds = elapsed_seconds % 60;
    let minutes = (elapsed_seconds / 60) % 60;
    let hours = minutes / 60;
    let mut out: Vec<char> = Vec::new();
    if hours > 0 {
        push_two_digits(hours, &mut out);
        out.push(':');
    }
    push_two_digits(minutes, &mut out);
    out.push(':');
    push_two_digits(seconds, &mut out);
    assert(out@ =~= elapsed_text(elapsed_seconds as nat));
    chars_to_string(out.as_slice())
}

/// The hours part of the elapsed time is never shown, however long the tool runs.
pub proof fn lemma_elapsed_text_has_no_hours(elapsed_seconds: nat)
    ensures
        elapsed_text(elapsed_seconds) == two_digits((elapsed_seconds / 60) % 60) + seq![':'] + two_digits(elapsed_seconds % 60),
{
}

/// The text of a number below one hundred, padded to two digits, is two digits whose value
/// is the number.
proof fn lemma_two_digits_value(n: nat)
    requires
        n < 100,
    ensures
        two_digits(n).len() == 2,
        is_digit(two_digits(n)[0]),
        is_digit(two_digits(n)[1]),
        digit_value(two_digits(n)[0]) * 10 + digit_value(two_digits(n)[1]) == n,
{
    lemma_decimal_digits(n);
    if n < 10 {
        assert(decimal(n) == seq![crate::text::digit_char(n)]);
        crate::text::lemma_digit_char(n);
        crate::text::lemma_digit_char(0);
        assert(two_digits(n)[0] == '0');
        assert(two_digits(n)[1] == decimal(n)[0]);
    } else {
        assert(decimal(n) == decimal(n / 10).push(crate::text::digit_char(n % 10)));
        assert(n / 10 < 10);
        assert(decimal(n / 10) == seq![crate::text::digit_char(n / 10)]);
        crate::text::lemma_digit_char(n / 10);
        crate::text::lemma_digit_char(n % 10);
        assert(n == (n / 10) * 10 + n % 10);
    }
}

/// Law: the elapsed-time text is `MM:SS`: two digits of minutes, a colon and two digits of
/// seconds, whose values are the minutes and seconds of the elapsed time within its hour.
pub proof fn lemma_elapsed_text_value(elapsed_seconds: nat)
    ensures
        elapsed_text(elapsed_seconds).len() == 5,
        elapsed_text(elapsed_seconds)[2] == ':',
        ({
            let t = elapsed_text(elapsed_seconds);
            &&& is_digit(t[0]) && is_digit(t[1]) && is_digit(t[3]) && is_digit(t[4])
            &&& digit_value(t[0]) * 10 + digit_value(t[1]) == (elapsed_seconds / 60) % 60
            &&& digit_value(t[3]) * 10 + digit_value(t[4]) == elapsed_seconds % 60
            &&& (digit_value(t[0]) * 10 + digit_value(t[1])) * 60 + digit_value(t[3]) * 10 + digit_value(t[4])
                == elapsed_seconds % 3600
        }),
{
    let m = (elapsed_seconds / 60) % 60;
    let s = elapsed_seconds % 60;
    lemma_two_digits_value(m);
    lemma_two_digits_value(s);
    let t = elapsed_text(elapsed_seconds);
    assert(t =~= two_digits(m) + seq![':'] + two_digits(s));
    assert(t[0] == two_digits(m)[0] && t[1] == two_digits(m)[1]);
    assert(t[3] == two_digits(s)[0] && t[4] == two_digits(s)[1]);
    assert(elapsed_seconds % 3600 == ((elapsed_seconds / 60) % 60) * 60 + elapsed_seconds % 60) by (nonlinear_arith);
}

} // verus!
