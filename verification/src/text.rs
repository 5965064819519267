//! Text helpers: trimming, substitution of tokens, decimal numbers.

use vstd::prelude::*;
use vstd::string::*;
use crate::lists::chars_of;

verus! {

/// White space: the characters with the Unicode property of that name, by
/// their code points. They are tab to carriage return, space, next line,
/// no-break space, the Ogham space mark, the spaces from en quad to hair
/// space, line and paragraph separator, the narrow no-break space, the
/// medium mathematical space and the ideographic space.
pub open spec fn is_space(c: char) -> bool {
    let v = c as u32;
    ||| 0x09 <= v <= 0x0d
    ||| v == 0x20
    ||| v == 0x85
    ||| v == 0xa0
    ||| v == 0x1680
    ||| 0x2000 <= v <= 0x200a
    ||| v == 0x2028
    ||| v == 0x2029
    ||| v == 0x202f
    ||| v == 0x205f
    ||| v == 0x3000
}

/// A backslash or a double quote.
pub open spec fn is_quote(c: char) -> bool {
    c == '\\' || c == '"'
}

/// The characters that are taken off a text's ends: quotes and backslashes
/// where `quotes` is set, white space where it is not.
pub open spec fn strips(c: char, quotes: bool) -> bool {
    if quotes {
        is_quote(c)
    } else {
        is_space(c)
    }
}

/// `s` without the strippable characters at its end.
pub open spec fn strip_end(s: Seq<char>, quotes: bool) -> Seq<char>
    decreases s.len(),
{
    if s.len() > 0 && strips(s.last(), quotes) {
        strip_end(s.drop_last(), quotes)
    } else {
        s
    }
}

/// `s` without the strippable characters at its start.
pub open spec fn strip_start(s: Seq<char>, quotes: bool) -> Seq<char>
    decreases s.len(),
{
    if s.len() > 0 && strips(s[0], quotes) {
        strip_start(s.drop_first(), quotes)
    } else {
        s
    }
}

/// `s` without the strippable characters at both ends.
pub open spec fn stripped(s: Seq<char>, quotes: bool) -> Seq<char> {
    strip_start(strip_end(s, quotes), quotes)
}

/// Whether a character is taken off a text's ends.
pub fn strips_char(c: char, quotes: bool) -> (r: bool)
    ensures
        r == strips(c, quotes),
{
    if quotes {
        c == '\\' || c == '"'
    } else {
        let v = c as u32;
        (0x09 <= v && v <= 0x0d) || v == 0x20 || v == 0x85 || v == 0xa0 || v == 0x1680 || (0x2000
            <= v && v <= 0x200a) || v == 0x2028 || v == 0x2029 || v == 0x202f || v == 0x205f || v
            == 0x3000
    }
}

/// Takes the strippable characters off both ends of a text.
pub fn strip<'a>(s: &'a str, quotes: bool) -> (r: &'a str)
    ensures
        r@ == stripped(s@, quotes),
{
    let chars = chars_of(s);
    let mut e: usize = chars.len();
    assert(s@.take(e as int) =~= s@);
    while e > 0 && strips_char(chars[e - 1], quotes)
        invariant
            e <= chars.len(),
            chars@ == s@,
            strip_end(s@, quotes) == strip_end(s@.take(e as int), quotes),
        decreases e,
    {
        proof {
            assert(s@.take(e as int).drop_last() =~= s@.take(e - 1));
        }
        e = e - 1;
    }
    assert(strip_end(s@, quotes) == s@.take(e as int));
    let mut b: usize = 0;
    assert(s@.subrange(0, e as int) =~= s@.take(e as int));
    while b < e && strips_char(chars[b], quotes)
        invariant
            b <= e <= chars.len(),
            chars@ == s@,
            stripped(s@, quotes) == strip_start(s@.subrange(b as int, e as int), quotes),
        decreases e - b,
    {
        proof {
            assert(s@.subrange(b as int, e as int).drop_first() =~= s@.subrange(b + 1, e as int));
        }
        b = b + 1;
    }
    s.substring_char(b, e)
}

/// Takes the strippable characters off the end of a text.
pub fn strip_tail<'a>(s: &'a str, quotes: bool) -> (r: &'a str)
    ensures
        r@ == strip_end(s@, quotes),
{
    let chars = chars_of(s);
    let mut e: usize = chars.len();
    assert(s@.take(e as int) =~= s@);
    while e > 0 && strips_char(chars[e - 1], quotes)
        invariant
            e <= chars.len(),
            chars@ == s@,
            strip_end(s@, quotes) == strip_end(s@.take(e as int), quotes),
        decreases e,
    {
        proof {
            assert(s@.take(e as int).drop_last() =~= s@.take(e - 1));
        }
        e = e - 1;
    }
    assert(s@.subrange(0, e as int) =~= s@.take(e as int));
    s.substring_char(0, e)
}

/// `text` with each occurrence of `pat` replaced by `with`, the occurrences
/// taken from left to right and not overlapping. An empty `pat` occurs
/// nowhere.
pub open spec fn replaced(text: Seq<char>, pat: Seq<char>, with: Seq<char>) -> Seq<char>
    decreases text.len(),
{
    if pat.len() == 0 || text.len() < pat.len() {
        text
    } else if text.subrange(0, pat.len() as int) == pat {
        with + replaced(text.subrange(pat.len() as int, text.len() as int), pat, with)
    } else {
        seq![text[0]] + replaced(text.drop_first(), pat, with)
    }
}

/// Whether `pat` stands in `text` at place `at`.
fn matches_at(text: &Vec<char>, at: usize, pat: &Vec<char>) -> (r: bool)
    requires
        at + pat.len() <= text.len(),
    ensures
        r == (text@.subrange(at as int, at + pat.len()) == pat@),
{
    let m = pat.len();
    let mut j: usize = 0;
    while j < m
        invariant
            m == pat.len(),
            j <= m,
            at + m <= text.len(),
            forall|k: int| 0 <= k < j ==> text@[at + k] == pat@[k],
        decreases m - j,
    {
        if text[at + j] != pat[j] {
            assert(text@.subrange(at as int, at + m)[j as int] != pat@[j as int]);
            return false;
        }
        j = j + 1;
    }
    assert(text@.subrange(at as int, at + m) =~= pat@);
    true
}

/// Replaces each occurrence of `pat` in `text` by `with`.
pub fn replace_all(text: &str, pat: &str, with: &str) -> (r: String)
    ensures
        r@ == replaced(text@, pat@, with@),
{
    let t = chars_of(text);
    let p = chars_of(pat);
    let n = t.len();
    let m = p.len();
    if m == 0 || n < m {
        return String::from_str(text);
    }
    let mut out = String::new();
    let mut i: usize = 0;
    assert(text@.subrange(0, n as int) =~= text@);
    assert(out@ + replaced(text@, pat@, with@) =~= replaced(text@, pat@, with@));
    while i <= n - m
        invariant
            i <= n,
            0 < m <= n,
            n == t.len(),
            m == p.len(),
            t@ == text@,
            p@ == pat@,
            out@ + replaced(text@.subrange(i as int, n as int), pat@, with@) == replaced(
                text@,
                pat@,
                with@,
            ),
        decreases n - i,
    {
        let ghost rest = text@.subrange(i as int, n as int);
        let ghost before = out@;
        if matches_at(&t, i, &p) {
            out.append(with);
            proof {
                assert(rest.subrange(0, m as int) =~= text@.subrange(i as int, i + m));
                assert(rest.subrange(m as int, rest.len() as int) =~= text@.subrange(
                    i + m,
                    n as int,
                ));
                assert(out@ + replaced(text@.subrange(i + m, n as int), pat@, with@) =~= before
                    + replaced(rest, pat@, with@));
            }
            i = i + m;
        } else {
            out.append(text.substring_char(i, i + 1));
            proof {
                assert(rest.subrange(0, m as int) =~= text@.subrange(i as int, i + m));
                assert(rest.drop_first() =~= text@.subrange(i + 1, n as int));
                assert(text@.subrange(i as int, i + 1) =~= seq![rest[0]]);
                assert(out@ + replaced(text@.subrange(i + 1, n as int), pat@, with@) =~= before
                    + replaced(rest, pat@, with@));
            }
            i = i + 1;
        }
    }
    out.append(text.substring_char(i, n));
    out
}

/// `s` ends with `suffix`.
pub open spec fn has_suffix(s: Seq<char>, suffix: Seq<char>) -> bool {
    suffix.len() <= s.len() && s.subrange(s.len() - suffix.len(), s.len() as int) == suffix
}

/// Whether a text ends with `suffix`.
pub fn ends_with(s: &str, suffix: &str) -> (r: bool)
    ensures
        r == has_suffix(s@, suffix@),
{
    let t = chars_of(s);
    let p = chars_of(suffix);
    if p.len() > t.len() {
        false
    } else {
        matches_at(&t, t.len() - p.len(), &p)
    }
}

/// Whether a text starts with `c`.
pub fn starts_with_char(s: &str, c: char) -> (r: bool)
    ensures
        r == (s@.len() > 0 && s@[0] == c),
{
    s.unicode_len() > 0 && s.get_char(0) == c
}

/// The decimal digit of a value below ten.
pub open spec fn digit(v: int) -> char {
    if v == 0 {
        '0'
    } else if v == 1 {
        '1'
    } else if v == 2 {
        '2'
    } else if v == 3 {
        '3'
    } else if v == 4 {
        '4'
    } else if v == 5 {
        '5'
    } else if v == 6 {
        '6'
    } else if v == 7 {
        '7'
    } else if v == 8 {
        '8'
    } else {
        '9'
    }
}

/// The decimal digits of a natural number, without leading zeros.
pub open spec fn digits(n: nat) -> Seq<char>
    decreases n,
{
    if n < 10 {
        seq![digit(n as int)]
    } else {
        digits(n / 10).push(digit((n % 10) as int))
    }
}

/// A whole number in decimal, with a minus sign where it is negative.
pub open spec fn decimal(n: int) -> Seq<char> {
    if n < 0 {
        seq!['-'] + digits((-n) as nat)
    } else {
        digits(n as nat)
    }
}

fn digit_text(d: u64) -> (r: &'static str)
    requires
        d < 10,
    ensures
        r@ == seq![digit(d as int)],
{
    if d == 0 {
        proof { reveal_strlit("0"); }
        assert("0"@ =~= seq!['0']);
        "0"
    } else if d == 1 {
        proof { reveal_strlit("1"); }
        assert("1"@ =~= seq!['1']);
        "1"
    } else if d == 2 {
        proof { reveal_strlit("2"); }
        assert("2"@ =~= seq!['2']);
        "2"
    } else if d == 3 {
        proof { reveal_strlit("3"); }
        assert("3"@ =~= seq!['3']);
        "3"
    } else if d == 4 {
        proof { reveal_strlit("4"); }
        assert("4"@ =~= seq!['4']);
        "4"
    } else if d == 5 {
        proof { reveal_strlit("5"); }
        assert("5"@ =~= seq!['5']);
        "5"
    } else if d == 6 {
        proof { reveal_strlit("6"); }
        assert("6"@ =~= seq!['6']);
        "6"
    } else if d == 7 {
        proof { reveal_strlit("7"); }
        assert("7"@ =~= seq!['7']);
        "7"
    } else if d == 8 {
        proof { reveal_strlit("8"); }
        assert("8"@ =~= seq!['8']);
        "8"
    } else {
        proof { reveal_strlit("9"); }
        assert("9"@ =~= seq!['9']);
        "9"
    }
}

fn append_digits(out: &mut String, v: u64)
    ensures
        final(out)@ == old(out)@ + digits(v as nat),
    decreases v,
{
    if v >= 10 {
        append_digits(out, v / 10);
    }
    out.append(digit_text(v % 10));
    assert(out@ =~= old(out)@ + digits(v as nat));
}

/// Writes a number in decimal.
pub fn decimal_string(n: i32) -> (r: String)
    ensures
        r@ == decimal(n as int),
{
    let mut out = String::new();
    if n < 0 {
        proof { reveal_strlit("-"); }
        assert("-"@ =~= seq!['-']);
        out.append("-");
        let v: u64 = (-(n as i64)) as u64;
        append_digits(&mut out, v);
    } else {
        append_digits(&mut out, n as u64);
    }
    assert(out@ =~= decimal(n as int));
    out
}

} // verus!
