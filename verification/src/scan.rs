//! Character-level scanning used by the configuration parsers: trimming,
//! ASCII case folding, prefixes, and decimal and hexadecimal numbers.
use vstd::prelude::*;
use crate::text::chars_vec;
use crate::unicode::{char_is_whitespace, unicode_is_whitespace};

verus! {

/// Which characters a trim removes.
#[derive(Debug, Clone, Copy, PartialEq, Eq, Structural)]
pub enum TrimSet {
    /// Unicode whitespace.
    Whitespace,
    /// `'` and `"`.
    Quotes,
    /// `'`, `"`, `,` and space.
    QuotesCommasSpaces,
    /// `'`, `"` and `,`.
    QuotesCommas,
}

/// Whether a trim with `set` removes `c`.
pub open spec fn in_set(set: TrimSet, c: char) -> bool {
    match set {
        TrimSet::Whitespace => unicode_is_whitespace(c),
        TrimSet::Quotes => c == '\'' || c == '"',
        TrimSet::QuotesCommasSpaces => c == '\'' || c == '"' || c == ',' || c == ' ',
        TrimSet::QuotesCommas => c == '\'' || c == '"' || c == ',',
    }
}

/// Whether a trim with `set` removes `c`.
pub fn set_has(set: TrimSet, c: char) -> (r: bool)
    ensures
        r == in_set(set, c),
{
    match set {
        TrimSet::Whitespace => char_is_whitespace(c),
        TrimSet::Quotes => c == '\'' || c == '"',
        TrimSet::QuotesCommasSpaces => c == '\'' || c == '"' || c == ',' || c == ' ',
        TrimSet::QuotesCommas => c == '\'' || c == '"' || c == ',',
    }
}

/// `s` without its leading characters of `set`.
pub open spec fn trim_start(s: Seq<char>, set: TrimSet) -> Seq<char>
    decreases s.len(),
{
    if s.len() > 0 && in_set(set, s[0]) {
        trim_start(s.drop_first(), set)
    } else {
        s
    }
}

/// `s` without its trailing characters of `set`.
pub open spec fn trim_end(s: Seq<char>, set: TrimSet) -> Seq<char>
    decreases s.len(),
{
    if s.len() > 0 && in_set(set, s.last()) {
        trim_end(s.drop_last(), set)
    } else {
        s
    }
}

/// `s` without its leading and trailing characters of `set`.
pub open spec fn trim_by(s: Seq<char>, set: TrimSet) -> Seq<char> {
    trim_end(trim_start(s, set), set)
}

/// The bounds of `chars[lo..hi]` trimmed of `set`.
pub fn trim_range(chars: &Vec<char>, lo: usize, hi: usize, set: TrimSet) -> (r: (usize, usize))
    requires
        lo <= hi <= chars@.len(),
    ensures
        lo <= r.0 <= r.1 <= hi,
        chars@.subrange(r.0 as int, r.1 as int) == trim_by(chars@.subrange(lo as int, hi as int), set),
{
    let ghost s = chars@.subrange(lo as int, hi as int);
    let mut i = lo;
    while i < hi && set_has(set, chars[i])
        invariant
            lo <= i <= hi <= chars@.len(),
            s == chars@.subrange(lo as int, hi as int),
            trim_start(s, set) == trim_start(chars@.subrange(i as int, hi as int), set),
        decreases hi - i,
    {
        assert(chars@.subrange(i as int, hi as int).drop_first() =~= chars@.subrange(i + 1, hi as int));
        i += 1;
    }
    let mut j = hi;
    while j > i && set_has(set, chars[j - 1])
        invariant
            lo <= i <= j <= hi <= chars@.len(),
            trim_start(s, set) == chars@.subrange(i as int, hi as int),
            trim_by(s, set) == trim_end(chars@.subrange(i as int, j as int), set),
        decreases j - i,
    {
        assert(chars@.subrange(i as int, j as int).drop_last() =~= chars@.subrange(i as int, j - 1));
        j -= 1;
    }
    (i, j)
}

/// The characters of `s` trimmed of `set`, as a string.
pub fn trim_str(s: &str, set: TrimSet) -> (r: Vec<char>)
    ensures
        r@ == trim_by(s@, set),
{
    let chars = chars_vec(s);
    let (a, b) = trim_range(&chars, 0, chars.len(), set);
    assert(chars@.subrange(0, chars@.len() as int) =~= s@);
    slice_chars(&chars, a, b)
}

/// A copy of `chars[lo..hi]`.
pub fn slice_chars(chars: &Vec<char>, lo: usize, hi: usize) -> (r: Vec<char>)
    requires
        lo <= hi <= chars@.len(),
    ensures
        r@ == chars@.subrange(lo as int, hi as int),
{
    let mut out: Vec<char> = Vec::new();
    let mut i = lo;
    while i < hi
        invariant
            lo <= i <= hi <= chars@.len(),
            out@ == chars@.subrange(lo as int, i as int),
        decreases hi - i,
    {
        out.push(chars[i]);
        i += 1;
        assert(out@ =~= chars@.subrange(lo as int, i as int));
    }
    out
}

/// ASCII upper-case letters folded to lower case; other characters kept.
pub open spec fn ascii_lower(c: char) -> char {
    if 'A' <= c && c <= 'Z' {
        ((c as u32) + 32) as char
    } else {
        c
    }
}

/// A sequence folded to ASCII lower case.
pub open spec fn lower_seq(s: Seq<char>) -> Seq<char> {
    s.map_values(|c: char| ascii_lower(c))
}

/// One character folded to ASCII lower case.
pub fn to_ascii_lower(c: char) -> (r: char)
    ensures
        r == ascii_lower(c),
{
    if 'A' <= c && c <= 'Z' {
        let code = (c as u8) + 32;
        code as char
    } else {
        c
    }
}

/// A copy of `chars` folded to ASCII lower case.
pub fn lowercase(chars: &Vec<char>) -> (r: Vec<char>)
    ensures
        r@ == lower_seq(chars@),
{
    let mut out: Vec<char> = Vec::new();
    let mut i: usize = 0;
    while i < chars.len()
        invariant
            i <= chars@.len(),
            out@ == lower_seq(chars@.take(i as int)),
        decreases chars@.len() - i,
    {
        out.push(to_ascii_lower(chars[i]));
        i += 1;
        assert(out@ =~= lower_seq(chars@.take(i as int)));
    }
    assert(chars@.take(chars@.len() as int) =~= chars@);
    out
}

/// Whether `s` begins with `p`.
pub open spec fn has_prefix(s: Seq<char>, p: Seq<char>) -> bool {
    s.len() >= p.len() && s.take(p.len() as int) == p
}

/// Whether `s` begins with `p`.
pub fn starts_with(s: &Vec<char>, p: &Vec<char>) -> (r: bool)
    ensures
        r == has_prefix(s@, p@),
{
    if s.len() < p.len() {
        return false;
    }
    let mut i: usize = 0;
    while i < p.len()
        invariant
            i <= p@.len() <= s@.len(),
            s@.take(i as int) == p@.take(i as int),
        decreases p@.len() - i,
    {
        if s[i] != p[i] {
            assert(s@.take(p@.len() as int)[i as int] != p@[i as int]);
            return false;
        }
        i += 1;
        assert(s@.take(i as int) =~= p@.take(i as int));
    }
    assert(p@.take(p@.len() as int) =~= p@);
    true
}

/// Whether two character sequences are equal.
pub fn chars_equal(a: &Vec<char>, b: &Vec<char>) -> (r: bool)
    ensures
        r == (a@ == b@),
{
    if a.len() != b.len() {
        return false;
    }
    let r = starts_with(a, b);
    proof {
        if a@ == b@ {
            assert(a@.take(b@.len() as int) =~= a@);
        }
        if r {
            assert(a@.take(b@.len() as int) =~= a@);
        }
    }
    r
}

/// Whether `s` is the text of `lit`.
pub fn is_text(s: &Vec<char>, lit: &str) -> (r: bool)
    ensures
        r == (s@ == lit@),
{
    let l = chars_vec(lit);
    chars_equal(s, &l)
}

/// `s` without the prefix `lit`, if it begins with it.
pub fn strip_text(s: &Vec<char>, lit: &str) -> (r: Option<Vec<char>>)
    ensures
        r matches Some(rest) ==> has_prefix(s@, lit@) && rest@ == s@.skip(lit@.len() as int),
        r is None ==> !has_prefix(s@, lit@),
{
    let l = chars_vec(lit);
    if starts_with(s, &l) {
        let rest = slice_chars(s, l.len(), s.len());
        assert(rest@ =~= s@.skip(lit@.len() as int));
        Some(rest)
    } else {
        None
    }
}

/// The value of a decimal digit.
pub open spec fn digit_value(c: char) -> nat {
    (c as u32 - '0' as u32) as nat
}

/// Whether a character is an ASCII decimal digit.
pub open spec fn is_digit(c: char) -> bool {
    '0' <= c && c <= '9'
}

/// The value of a run of decimal digits.
pub open spec fn dec_value(s: Seq<char>) -> nat
    decreases s.len(),
{
    if s.len() == 0 {
        0
    } else {
        10 * dec_value(s.drop_last()) + digit_value(s.last())
    }
}

/// The digits of a number: `s` without one leading `+`.
pub open spec fn unsigned_digits(s: Seq<char>) -> Seq<char> {
    if s.len() > 0 && s[0] == '+' {
        s.drop_first()
    } else {
        s
    }
}

/// Whether every character of `s` is a decimal digit.
pub open spec fn all_digits(s: Seq<char>) -> bool {
    forall|i: int| 0 <= i < s.len() ==> is_digit(#[trigger] s[i])
}

/// What `u8::from_str` gives for `s`: an optional `+`, then one or more
/// decimal digits whose value is at most 255.
pub open spec fn parse_u8_spec(s: Seq<char>) -> Option<u8> {
    let d = unsigned_digits(s);
    if d.len() > 0 && all_digits(d) && dec_value(d) <= 255 {
        Some(dec_value(d) as u8)
    } else {
        None
    }
}

proof fn lemma_dec_value_prefix(s: Seq<char>, i: int)
    requires
        0 <= i <= s.len(),
    ensures
        dec_value(s.take(i)) <= dec_value(s),
    decreases s.len() - i,
{
    if i < s.len() {
        lemma_dec_value_prefix(s.drop_last(), if i <= s.len() - 1 { i } else { s.len() - 1 });
        assert(s.drop_last().take(i) =~= s.take(i));
    } else {
        assert(s.take(i) =~= s);
    }
}

/// Whether `s[start..]` holds only decimal digits.
fn all_digits_from(s: &Vec<char>, start: usize) -> (r: bool)
    requires
        start <= s@.len(),
    ensures
        r == (forall|j: int| start <= j < s@.len() ==> is_digit(#[trigger] s@[j])),
{
    let mut i = start;
    while i < s.len()
        invariant
            start <= i <= s@.len(),
            forall|j: int| start <= j < i ==> is_digit(#[trigger] s@[j]),
        decreases s@.len() - i,
    {
        let c = s[i];
        if !('0' <= c && c <= '9') {
            assert(!is_digit(s@[i as int]));
            return false;
        }
        i += 1;
    }
    true
}

/// Parses a decimal `u8` as `u8::from_str` does.
pub fn parse_u8(s: &Vec<char>) -> (r: Option<u8>)
    ensures
        r == parse_u8_spec(s@),
{
    let mut start: usize = 0;
    if s.len() > 0 && s[0] == '+' {
        start = 1;
    }
    let ghost d = unsigned_digits(s@);
    assert(d =~= s@.skip(start as int));
    if start == s.len() {
        return None;
    }
    if !all_digits_from(s, start) {
        proof {
            let j = choose|j: int| start <= j < s@.len() && !is_digit(#[trigger] s@[j]);
            assert(d[j - start] == s@[j]);
            assert(!is_digit(d[j - start]));
            assert(!all_digits(d));
        }
        return None;
    }
    assert forall|k: int| 0 <= k < d.len() implies is_digit(#[trigger] d[k]) by {
        assert(d[k] == s@[start + k]);
    }
    assert(all_digits(d));
    let mut value: u32 = 0;
    let mut i = start;
    while i < s.len()
        invariant
            start <= i <= s@.len(),
            start < s@.len(),
            d == s@.skip(start as int),
            d == unsigned_digits(s@),
            all_digits(d),
            value == dec_value(d.take(i - start)),
            value <= 255,
            forall|k: int| 0 <= k < d.len() ==> is_digit(#[trigger] d[k]),
        decreases s@.len() - i,
    {
        let c = s[i];
        assert(d[i - start] == c);
        assert(is_digit(d[i - start]));
        let digit = (c as u32) - ('0' as u32);
        assert(d.take(i - start + 1).drop_last() =~= d.take(i - start));
        assert(d.take(i - start + 1).last() == c);
        value = value * 10 + digit;
        assert(value == dec_value(d.take(i - start + 1)));
        i += 1;
        if value > 255 {
            proof {
                lemma_dec_value_prefix(d, i - start);
            }
            return None;
        }
    }
    assert(d.take(i - start) =~= d);
    Some(value as u8)
}

/// Whether a character is an ASCII hexadecimal digit.
pub open spec fn is_hex(c: char) -> bool {
    ('0' <= c && c <= '9') || ('a' <= c && c <= 'f') || ('A' <= c && c <= 'F')
}

/// The value of a hexadecimal digit.
pub open spec fn hex_value(c: char) -> nat {
    if '0' <= c && c <= '9' {
        (c as u32 - '0' as u32) as nat
    } else if 'a' <= c && c <= 'f' {
        (c as u32 - 'a' as u32 + 10) as nat
    } else {
        (c as u32 - 'A' as u32 + 10) as nat
    }
}

/// The value of a hexadecimal digit, if `c` is one.
pub fn hex_digit(c: char) -> (r: Option<u8>)
    ensures
        r matches Some(v) ==> is_hex(c) && v == hex_value(c),
        r is None ==> !is_hex(c),
{
    if '0' <= c && c <= '9' {
        Some(((c as u32) - ('0' as u32)) as u8)
    } else if 'a' <= c && c <= 'f' {
        Some(((c as u32) - ('a' as u32) + 10) as u8)
    } else if 'A' <= c && c <= 'F' {
        Some(((c as u32) - ('A' as u32) + 10) as u8)
    } else {
        None
    }
}

} // verus!
