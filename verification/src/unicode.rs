//! Character and string facts that come from `std` and `unicode-width`.
use vstd::prelude::*;
use unicode_width::UnicodeWidthChar;
use unicode_width::UnicodeWidthStr;

verus! {

/// The display width that `unicode-width` assigns to one character.
pub uninterp spec fn unicode_char_width(c: char) -> Option<usize>;

/// The display width that `unicode-width` assigns to a whole string.
pub uninterp spec fn unicode_str_width(s: Seq<char>) -> usize;

/// True for the printable ASCII characters `' '..='~'`.
pub open spec fn is_printable_ascii(c: char) -> bool {
    ' ' <= c && c <= '~'
}

/// Calls `UnicodeWidthChar::width` of `unicode-width`. The contract claims that
/// the result is a function of the character alone, that control characters
/// (below U+0020 and U+007F..U+009F) have no width, that printable ASCII is one
/// column wide and that every other character has some width of at most 3
/// columns, as the crate's source and rules state.
#[verifier::external_body]
pub(crate) fn char_width(c: char) -> (r: Option<usize>)
    ensures
        r == unicode_char_width(c),
        (c < '\u{20}' || ('\u{7f}' <= c && c < '\u{a0}')) ==> r is None,
        is_printable_ascii(c) ==> r == Some(1usize),
        c >= '\u{a0}' ==> (r is Some && r->0 <= 3),
{
    UnicodeWidthChar::width(c)
}

/// Calls `UnicodeWidthStr::width` of `unicode-width`. The result is a function
/// of the string alone; for a string of printable ASCII characters it is the
/// number of characters (each such character is one column and the crate's
/// ligature rules all involve other characters or `"\r\n"`). Nothing more is
/// stated of other strings.
#[verifier::external_body]
pub(crate) fn str_width(s: &str) -> (r: usize)
    ensures
        r == unicode_str_width(s@),
        (forall|i: int| 0 <= i < s@.len() ==> is_printable_ascii(#[trigger] s@[i])) ==> r == s@.len(),
{
    UnicodeWidthStr::width(s)
}

/// Calls `String::push` of `std`: appends one character.
#[verifier::external_body]
pub(crate) fn string_push(s: &mut String, c: char)
    ensures
        final(s)@ == old(s)@.push(c),
{
    s.push(c);
}

/// The number of bytes of the character's UTF-8 encoding (what
/// `char::len_utf8` of `std` returns): one below U+0080, two below U+0800,
/// three below U+10000, four above.
pub fn char_len_utf8(c: char) -> (r: usize)
    ensures
        r == vstd::utf8::encode_utf8(seq![c]).len(),
{
    proof {
        let cs = seq![c];
        assert(cs.drop_first() =~= Seq::<char>::empty());
        assert(vstd::utf8::encode_utf8(cs.drop_first()) =~= Seq::<u8>::empty());
        assert(vstd::utf8::encode_utf8(cs) =~= vstd::utf8::encode_scalar(c as u32));
        assert(!(0xD800 <= (c as u32) && (c as u32) <= 0xDFFF));
        assert((c as u32) <= 0x10FFFF);
    }
    let v = c as u32;
    if v < 0x80 {
        1
    } else if v < 0x800 {
        2
    } else if v < 0x10000 {
        3
    } else {
        4
    }
}

/// The Unicode `White_Space` property, which `char::is_whitespace` of `std`
/// reports: U+0009..U+000D, U+0020, U+0085, U+00A0, U+1680,
/// U+2000..U+200A, U+2028, U+2029, U+202F, U+205F and U+3000.
pub open spec fn unicode_is_whitespace(c: char) -> bool {
    let v = c as u32;
    ||| (0x09 <= v && v <= 0x0d)
    ||| v == 0x20
    ||| v == 0x85
    ||| v == 0xa0
    ||| v == 0x1680
    ||| (0x2000 <= v && v <= 0x200a)
    ||| v == 0x2028
    ||| v == 0x2029
    ||| v == 0x202f
    ||| v == 0x205f
    ||| v == 0x3000
}

/// The result of `char::is_alphanumeric` (Unicode `Alphabetic` or `Numeric`).
pub uninterp spec fn unicode_is_alphanumeric(c: char) -> bool;

/// Whether the character has the `White_Space` property, as
/// `char::is_whitespace` of `std` answers.
pub fn char_is_whitespace(c: char) -> (r: bool)
    ensures
        r == unicode_is_whitespace(c),
{
    let v = c as u32;
    (0x09 <= v && v <= 0x0d) || v == 0x20 || v == 0x85 || v == 0xa0 || v == 0x1680
        || (0x2000 <= v && v <= 0x200a) || v == 0x2028 || v == 0x2029 || v == 0x202f || v == 0x205f
        || v == 0x3000
}

/// Calls `char::is_alphanumeric` of `std`, which answers whether the
/// character has the Unicode `Alphabetic` property or a numeric general
/// category. The result is named, a function of the character alone; of
/// ASCII the contract claims what the Unicode character database gives for
/// those properties: exactly the letters `A`..`Z`, `a`..`z` and the digits
/// `0`..`9` are alphanumeric. Nothing is stated of other characters.
#[verifier::external_body]
pub(crate) fn char_is_alphanumeric(c: char) -> (r: bool)
    ensures
        r == unicode_is_alphanumeric(c),
        (c as u32) < 0x80 ==> (r <==> (('0' <= c && c <= '9') || ('A' <= c && c <= 'Z') || ('a' <= c && c <= 'z'))),
{
    c.is_alphanumeric()
}

} // verus!

verus! {

/// The ASCII digit for a value below ten.
pub open spec fn digit_char(d: nat) -> char {
    if d == 0 { '0' }
    else if d == 1 { '1' }
    else if d == 2 { '2' }
    else if d == 3 { '3' }
    else if d == 4 { '4' }
    else if d == 5 { '5' }
    else if d == 6 { '6' }
    else if d == 7 { '7' }
    else if d == 8 { '8' }
    else { '9' }
}

/// The decimal representation of a natural number, without sign or padding.
pub open spec fn decimal(n: nat) -> Seq<char>
    decreases n,
{
    if n < 10 {
        seq![digit_char(n)]
    } else {
        decimal(n / 10).push(digit_char(n % 10))
    }
}

fn digit_char_of(d: usize) -> (r: char)
    requires
        d < 10,
    ensures
        r == digit_char(d as nat),
{
    if d == 0 { '0' }
    else if d == 1 { '1' }
    else if d == 2 { '2' }
    else if d == 3 { '3' }
    else if d == 4 { '4' }
    else if d == 5 { '5' }
    else if d == 6 { '6' }
    else if d == 7 { '7' }
    else if d == 8 { '8' }
    else { '9' }
}

/// The decimal digits of a number, as `to_string` writes a `usize`.
pub fn usize_to_decimal(n: usize) -> (r: String)
    ensures
        r@ == decimal(n as nat),
{
    let mut m: usize = n;
    let mut low: Vec<char> = Vec::new();
    while m >= 10
        invariant
            decimal(n as nat) == decimal(m as nat) + low@.reverse(),
        decreases m,
    {
        let d = digit_char_of(m % 10);
        proof {
            assert(low@.push(d).reverse() =~= seq![d] + low@.reverse());
            assert(decimal(m as nat) == decimal((m / 10) as nat).push(digit_char((m % 10) as nat)));
            assert(decimal((m / 10) as nat).push(d) + low@.reverse() =~= decimal((m / 10) as nat) + low@.push(d).reverse());
        }
        low.push(d);
        m = m / 10;
    }
    let mut out = String::new();
    string_push(&mut out, digit_char_of(m));
    let mut i: usize = low.len();
    while i > 0
        invariant
            i <= low@.len(),
            out@ == seq![digit_char(m as nat)] + low@.reverse().take(low@.len() - i),
            m < 10,
        decreases i,
    {
        i -= 1;
        string_push(&mut out, low[i]);
        proof {
            let rl = low@.reverse();
            assert(rl[low@.len() - 1 - i] == low@[i as int]);
            assert(rl.take(low@.len() - i) =~= rl.take(low@.len() - i - 1).push(low@[i as int]));
        }
    }
    proof {
        assert(low@.reverse().take(low@.len() as int) =~= low@.reverse());
        assert(decimal(m as nat) == seq![digit_char(m as nat)]);
    }
    out
}

} // verus!
