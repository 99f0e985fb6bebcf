//! Names and colours of the colour themes: the identifiers a theme is known by, and the
//! `#rrggbb` colours of its definition.

use vstd::prelude::*;

use crate::text::{chars_to_string, str_chars};

verus! {

/// Whether `c` is an ASCII letter.
pub open spec fn is_ascii_letter(c: char) -> bool {
    ('a' <= c && c <= 'z') || ('A' <= c && c <= 'Z')
}

/// The upper-case form of an ASCII letter; other characters stay.
pub open spec fn ascii_upper(c: char) -> char {
    if 'a' <= c && c <= 'z' {
        ((c as u32) - 32) as char
    } else {
        c
    }
}

/// Each character that is not an ASCII letter replaced by `_`.
pub open spec fn underscored(s: Seq<char>) -> Seq<char> {
    s.map_values(|c: char| if is_ascii_letter(c) { c } else { '_' })
}

/// `str::replace("__", "_")`: from the front, each pair of underscores not overlapping an
/// earlier pair becomes one underscore.
pub open spec fn collapse_pairs(s: Seq<char>) -> Seq<char>
    decreases s.len(),
{
    if s.len() == 0 {
        s
    } else if s.len() >= 2 && s[0] == '_' && s[1] == '_' {
        seq!['_'] + collapse_pairs(s.skip(2))
    } else {
        seq![s[0]] + collapse_pairs(s.skip(1))
    }
}

/// The constant name of a theme: `{group}_{name}` with every character other than an ASCII
/// letter made `_`, pairs of underscores collapsed twice, and the letters in upper case.
pub open spec fn theme_const_name_of(group: Seq<char>, name: Seq<char>) -> Seq<char> {
    collapse_pairs(collapse_pairs(underscored(group + seq!['_'] + name))).map_values(|c: char| ascii_upper(c))
}

/// The variant name of a theme: the group with its first letter in upper case, then the name,
/// keeping only ASCII letters.
pub open spec fn theme_variant_name_of(group: Seq<char>, name: Seq<char>) -> Seq<char> {
    (seq![ascii_upper(group[0])] + group.skip(1) + name).filter(|c: char| is_ascii_letter(c))
}

/// Whether `c` is an ASCII letter.
fn ascii_letter(c: char) -> (r: bool)
    ensures
        r == is_ascii_letter(c),
{
    ('a' <= c && c <= 'z') || ('A' <= c && c <= 'Z')
}

/// The upper-case form of an ASCII letter.
fn to_ascii_upper(c: char) -> (r: char)
    ensures
        r == ascii_upper(c),
{
    if 'a' <= c && c <= 'z' {
        let code: u32 = (c as u32) - 32;
        assert(code == (c as u32) - 32);
        char_of(code)
    } else {
        c
    }
}

/// The character with a code of an ASCII letter.
fn char_of(code: u32) -> (r: char)
    requires
        65 <= code <= 90,
    ensures
        r == code as char,
{
    let b: u8 = code as u8;
    b as char
}

/// Appends `collapse_pairs` of `s` from position `i` on.
fn push_collapsed(s: &Vec<char>, i: usize, out: &mut Vec<char>)
    requires
        i <= s.len(),
    ensures
        final(out)@ == old(out)@ + collapse_pairs(s@.skip(i as int)),
    decreases s.len() - i,
{
    let ghost rest = s@.skip(i as int);
    if i == s.len() {
        assert(rest =~= Seq::<char>::empty());
        assert(out@ =~= out@ + collapse_pairs(rest));
        return;
    }
    assert(rest[0] == s@[i as int]);
    if i + 1 < s.len() && s[i] == '_' && s[i + 1] == '_' {
        assert(rest[1] == s@[i + 1]);
        assert(rest.skip(2) =~= s@.skip(i + 2));
        let ghost before = out@;
        out.push('_');
        push_collapsed(s, i + 2, out);
        assert(out@ =~= before + collapse_pairs(rest));
    } else {
        assert(rest.skip(1) =~= s@.skip(i + 1));
        let ghost before = out@;
        out.push(s[i]);
        push_collapsed(s, i + 1, out);
        assert(out@ =~= before + collapse_pairs(rest));
    }
}

/// `collapse_pairs` of a text.
fn collapsed(s: &Vec<char>) -> (r: Vec<char>)
    ensures
        r@ == collapse_pairs(s@),
{
    let mut out: Vec<char> = Vec::new();
    push_collapsed(s, 0, &mut out);
    assert(s@.skip(0) =~= s@);
    assert(out@ =~= collapse_pairs(s@));
    out
}

/// The constant name a theme of `group` called `name` is known by, such as
/// `DOKI_THEME_REM` for the group `Doki Theme` and the name `Rem`.
pub fn theme_const_name(group: &str, name: &str) -> (r: String)
    ensures
        r@ == theme_const_name_of(group@, name@),
{
    let mut text = str_chars(group);
    text.push('_');
    let name_chars = str_chars(name);
    text.extend_from_slice(name_chars.as_slice());
    let ghost joined = text@;
    assert(joined == group@ + seq!['_'] + name@);
    let mut i: usize = 0;
    while i < text.len()
        invariant
            i <= text.len(),
            text@.len() == joined.len(),
            forall|j: int| 0 <= j < i ==> text@[j] == underscored(joined)[j],
            forall|j: int| i <= j < text@.len() ==> text@[j] == joined[j],
        decreases text.len() - i,
    {
        if !ascii_letter(text[i]) {
            text.set(i, '_');
        }
        i = i + 1;
    }
    assert(text@ =~= underscored(joined));
    let once = collapsed(&text);
    let twice = collapsed(&once);
    let mut upper: Vec<char> = Vec::new();
    let mut k: usize = 0;
    while k < twice.len()
        invariant
            k <= twice.len(),
            upper@ == twice@.take(k as int).map_values(|c: char| ascii_upper(c)),
        decreases twice.len() - k,
    {
        let c = to_ascii_upper(twice[k]);
        upper.push(c);
        k = k + 1;
        assert(upper@ =~= twice@.take(k as int).map_values(|c: char| ascii_upper(c)));
    }
    assert(twice@.take(twice.len() as int) =~= twice@);
    chars_to_string(upper.as_slice())
}

/// The variant name a theme of `group` called `name` is known by, such as `DokiThemeRem`.
/// The group must start with an ASCII character, as taking the rest of the group after its
/// first byte requires.
pub fn theme_variant_name(group: &str, name: &str) -> (r: String)
    requires
        group@.len() > 0,
        (group@[0] as u32) < 128,
    ensures
        r@ == theme_variant_name_of(group@, name@),
{
    let g = str_chars(group);
    let n = str_chars(name);
    let mut all: Vec<char> = Vec::new();
    all.push(to_ascii_upper(g[0]));
    let mut i: usize = 1;
    while i < g.len()
        invariant
            1 <= i <= g.len(),
            all@ == seq![ascii_upper(g@[0])] + g@.subrange(1, i as int),
        decreases g.len() - i,
    {
        all.push(g[i]);
        i = i + 1;
        assert(all@ =~= seq![ascii_upper(g@[0])] + g@.subrange(1, i as int));
    }
    all.extend_from_slice(n.as_slice());
    assert(all@ =~= seq![ascii_upper(group@[0])] + group@.skip(1) + name@);
    let mut out: Vec<char> = Vec::new();
    let mut k: usize = 0;
    reveal(Seq::filter);
    assert(all@.take(0).filter(|c: char| is_ascii_letter(c)) =~= Seq::<char>::empty());
    while k < all.len()
        invariant
            k <= all.len(),
            out@ == all@.take(k as int).filter(|c: char| is_ascii_letter(c)),
        decreases all.len() - k,
    {
        assert(all@.take(k + 1).drop_last() =~= all@.take(k as int));
        reveal(Seq::filter);
        if ascii_letter(all[k]) {
            out.push(all[k]);
        }
        k = k + 1;
    }
    assert(all@.take(all.len() as int) =~= all@);
    chars_to_string(out.as_slice())
}

/// The value of a hexadecimal digit.
pub open spec fn hex_digit_value(c: char) -> Option<nat> {
    if '0' <= c && c <= '9' {
        Some((c as u32 - 48) as nat)
    } else if 'a' <= c && c <= 'f' {
        Some((c as u32 - 87) as nat)
    } else if 'A' <= c && c <= 'F' {
        Some((c as u32 - 55) as nat)
    } else {
        None
    }
}

/// What `u8::from_str_radix(text, 16)` gives for a two-character text: an optional leading
/// `+` and hexadecimal digits.
pub open spec fn hex_byte(a: char, b: char) -> Option<u8> {
    if a == '+' {
        match hex_digit_value(b) {
            Some(v) => Some(v as u8),
            None => None,
        }
    } else {
        match (hex_digit_value(a), hex_digit_value(b)) {
            (Some(x), Some(y)) => Some((16 * x + y) as u8),
            _ => None,
        }
    }
}

/// The colour of a `#rrggbb` text: the three bytes written in hexadecimal at positions 1 to 6.
/// Nothing when the text has fewer than seven characters, one of its first seven characters is
/// not ASCII, or a byte is not hexadecimal: then slicing the text or reading a byte fails.
pub open spec fn hex_color_of(s: Seq<char>) -> Option<(u8, u8, u8)> {
    if s.len() < 7 || exists|i: int| 0 <= i < 7 && (s[i] as u32) >= 128 {
        None
    } else {
        match (hex_byte(s[1], s[2]), hex_byte(s[3], s[4]), hex_byte(s[5], s[6])) {
            (Some(r), Some(g), Some(b)) => Some((r, g, b)),
            _ => None,
        }
    }
}

/// The value of a hexadecimal digit.
fn hex_digit(c: char) -> (r: Option<u8>)
    ensures
        match hex_digit_value(c) {
            Some(v) => r == Some(v as u8) && v < 16,
            None => r is None,
        },
{
    if '0' <= c && c <= '9' {
        Some(((c as u32) - 48) as u8)
    } else if 'a' <= c && c <= 'f' {
        Some(((c as u32) - 87) as u8)
    } else if 'A' <= c && c <= 'F' {
        Some(((c as u32) - 55) as u8)
    } else {
        None
    }
}

/// Reads a byte written with two hexadecimal characters.
fn read_hex_byte(a: char, b: char) -> (r: Option<u8>)
    ensures
        r == hex_byte(a, b),
{
    if a == '+' {
        hex_digit(b)
    } else {
        match (hex_digit(a), hex_digit(b)) {
            (Some(x), Some(y)) => Some(16 * x + y),
            _ => None,
        }
    }
}

/// Reads a `#rrggbb` colour of a theme definition; `None` where reading it fails.
pub fn parse_hex_color(text: &str) -> (r: Option<(u8, u8, u8)>)
    ensures
        r == hex_color_of(text@),
{
    let s = str_chars(text);
    if s.len() < 7 {
        return None;
    }
    let mut i: usize = 0;
    while i < 7
        invariant
            s@ == text@,
            s@.len() >= 7,
            i <= 7,
            forall|j: int| 0 <= j < i ==> (s@[j] as u32) < 128,
        decreases 7 - i,
    {
        if (s[i] as u32) >= 128 {
            assert(s@[i as int] == text@[i as int]);
            assert(exists|j: int| 0 <= j < 7 && (text@[j] as u32) >= 128);
            return None;
        }
        i = i + 1;
    }
    match (read_hex_byte(s[1], s[2]), read_hex_byte(s[3], s[4]), read_hex_byte(s[5], s[6])) {
        (Some(r), Some(g), Some(b)) => Some((r, g, b)),
        _ => None,
    }
}

/// The colour a theme definition leaves out gets: `#abcdef`.
pub open spec fn fallback_color_text() -> Seq<char> {
    "#abcdef"@
}

/// Reads a colour of a theme definition: its `#rrggbb` text, or `#abcdef` (rgb 171, 205, 239)
/// when the definition has no text for it; `None` where reading it fails.
pub fn theme_color(value: Option<&str>) -> (r: Option<(u8, u8, u8)>)
    ensures
        r == hex_color_of(
            match value {
                Some(v) => v@,
                None => fallback_color_text(),
            },
        ),
        value is None ==> r == Some((171u8, 205u8, 239u8)),
{
    match value {
        Some(v) => parse_hex_color(v),
        None => {
            let fallback = "#abcdef";
            proof {
                reveal_strlit("#abcdef");
            }
            let r = parse_hex_color(fallback);
            assert(fallback@ =~= seq!['#', 'a', 'b', 'c', 'd', 'e', 'f']);
            assert(forall|i: int| 0 <= i < 7 ==> (fallback@[i] as u32) < 128);
            assert(hex_byte('a', 'b') == Some(171u8));
            assert(hex_byte('c', 'd') == Some(205u8));
            assert(hex_byte('e', 'f') == Some(239u8));
            r
        },
    }
}

} // verus!
