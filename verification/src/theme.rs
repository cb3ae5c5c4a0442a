//! Colors and colorschemes: the theme's color slots, the configuration's
//! color syntax, base16 schemes and the built-in scheme names.
use vstd::prelude::*;
use vstd::string::StringExecFns;
use crate::annotations::split_lines;
use crate::emphasis::DiffLineKind;
use crate::inline::byte_pos;
use crate::scan::{
    all_digits, has_prefix, hex_digit, hex_value, in_set, is_hex, is_text, lower_seq, lowercase,
    parse_u8, parse_u8_spec, slice_chars, starts_with, strip_text, trim_by, trim_range, trim_start,
    TrimSet,
};
use crate::text::chars_vec;
use crate::unicode::{char_is_whitespace, string_push, unicode_is_whitespace};

verus! {

broadcast use vstd::string::group_string_axioms;

/// A terminal color.
#[derive(Debug, Clone, Copy, PartialEq, Eq, Structural)]
pub enum Color {
    Reset,
    Black,
    Red,
    Green,
    Yellow,
    Blue,
    Magenta,
    Cyan,
    Gray,
    DarkGray,
    LightRed,
    LightGreen,
    LightYellow,
    LightBlue,
    LightMagenta,
    LightCyan,
    White,
    Rgb(u8, u8, u8),
    Indexed(u8),
}

/// A 24-bit color.
#[derive(Debug, Clone, Copy, PartialEq, Eq, Structural)]
pub struct RgbColor {
    pub red: u8,
    pub green: u8,
    pub blue: u8,
}

impl RgbColor {
    /// The color with these components.
    pub fn new(red: u8, green: u8, blue: u8) -> (r: Self)
        ensures
            r == (RgbColor { red, green, blue }),
    {
        RgbColor { red, green, blue }
    }

    /// The terminal color of these components.
    pub fn color(self) -> (r: Color)
        ensures
            r == Color::Rgb(self.red, self.green, self.blue),
    {
        Color::Rgb(self.red, self.green, self.blue)
    }
}

/// An error in the colorscheme configuration, with its message.
#[derive(Debug, Clone, PartialEq, Eq)]
pub enum ThemeError {
    Usage(String),
}

/// The color of six hexadecimal digits at the start of `s`, if it has them.
pub open spec fn hex_rgb(s: Seq<char>) -> Option<RgbColor> {
    if s.len() >= 6 && (forall|i: int| 0 <= i < 6 ==> is_hex(#[trigger] s[i])) {
        Some(
            RgbColor {
                red: (16 * hex_value(s[0]) + hex_value(s[1])) as u8,
                green: (16 * hex_value(s[2]) + hex_value(s[3])) as u8,
                blue: (16 * hex_value(s[4]) + hex_value(s[5])) as u8,
            },
        )
    } else {
        None
    }
}

fn hex_pair(a: char, b: char) -> (r: Option<u8>)
    ensures
        r matches Some(v) ==> is_hex(a) && is_hex(b) && v == 16 * hex_value(a) + hex_value(b),
        r is None ==> !(is_hex(a) && is_hex(b)),
{
    let hi = match hex_digit(a) {
        Some(v) => v,
        None => return None,
    };
    let lo = match hex_digit(b) {
        Some(v) => v,
        None => return None,
    };
    Some(hi * 16 + lo)
}

/// The color of the six hexadecimal digits at the start of `s`.
pub fn hex_rgb_of(s: &Vec<char>) -> (r: Option<RgbColor>)
    ensures
        r == hex_rgb(s@),
{
    if s.len() < 6 {
        return None;
    }
    let red = hex_pair(s[0], s[1]);
    let green = hex_pair(s[2], s[3]);
    let blue = hex_pair(s[4], s[5]);
    match (red, green, blue) {
        (Some(red), Some(green), Some(blue)) => {
            assert forall|i: int| 0 <= i < 6 implies is_hex(#[trigger] s@[i]) by {
                if i == 0 || i == 1 {
                } else if i == 2 || i == 3 {
                } else {
                }
            }
            Some(RgbColor { red, green, blue })
        },
        _ => {
            proof {
                if red is None {
                    if !is_hex(s@[0]) {
                        assert(!is_hex(s@[0]));
                    } else {
                        assert(!is_hex(s@[1]));
                    }
                } else if green is None {
                    if !is_hex(s@[2]) {
                        assert(!is_hex(s@[2]));
                    } else {
                        assert(!is_hex(s@[3]));
                    }
                } else {
                    if !is_hex(s@[4]) {
                        assert(!is_hex(s@[4]));
                    } else {
                        assert(!is_hex(s@[5]));
                    }
                }
            }
            None
        },
    }
}

/// Parses `#`-less hexadecimal `rrggbb` at the start of `digits`; anything
/// may follow the six digits.
pub fn parse_hex_digits(digits: &str) -> (r: Option<RgbColor>)
    ensures
        r == hex_rgb(digits@),
{
    let chars = chars_vec(digits);
    hex_rgb_of(&chars)
}

/// The index of the first `c` in `s`, or the length of `s` when there is none.
pub open spec fn first_pos(s: Seq<char>, c: char) -> int
    decreases s.len(),
{
    if s.len() == 0 {
        0
    } else if s[0] == c {
        0
    } else {
        1 + first_pos(s.drop_first(), c)
    }
}

proof fn lemma_first_pos(s: Seq<char>, c: char)
    ensures
        0 <= first_pos(s, c) <= s.len(),
        first_pos(s, c) < s.len() ==> s[first_pos(s, c)] == c,
        forall|j: int| 0 <= j < first_pos(s, c) ==> s[j] != c,
    decreases s.len(),
{
    if s.len() > 0 && s[0] != c {
        lemma_first_pos(s.drop_first(), c);
        assert forall|j: int| 0 <= j < first_pos(s, c) implies s[j] != c by {
            if j > 0 {
                assert(s[j] == s.drop_first()[j - 1]);
            }
        }
    }
}

/// The index of the first `c` in `s[lo..hi]`, or `hi`.
fn find_char(s: &Vec<char>, lo: usize, hi: usize, c: char) -> (r: usize)
    requires
        lo <= hi <= s@.len(),
    ensures
        r == lo + first_pos(s@.subrange(lo as int, hi as int), c),
        lo <= r <= hi,
        r < hi ==> s@[r as int] == c,
{
    let ghost t = s@.subrange(lo as int, hi as int);
    proof {
        lemma_first_pos(t, c);
    }
    let mut i = lo;
    while i < hi && s[i] != c
        invariant
            lo <= i <= hi <= s@.len(),
            t == s@.subrange(lo as int, hi as int),
            forall|j: int| lo <= j < i ==> s@[j] != c,
            0 <= first_pos(t, c) <= t.len(),
            first_pos(t, c) < t.len() ==> t[first_pos(t, c)] == c,
            forall|j: int| 0 <= j < first_pos(t, c) ==> t[j] != c,
        decreases hi - i,
    {
        i += 1;
    }
    proof {
        let p = first_pos(t, c);
        if lo + p < i {
            assert(t[p] == s@[lo + p]);
        }
        if i < lo + p {
            assert(t[i - lo] == s@[i as int]);
        }
    }
    i
}

/// The number of leading characters of `s` that are not whitespace.
pub open spec fn word_len(s: Seq<char>) -> int
    decreases s.len(),
{
    if s.len() == 0 || unicode_is_whitespace(s[0]) {
        0
    } else {
        1 + word_len(s.drop_first())
    }
}

/// The first whitespace-separated word of `s`, if there is one.
pub open spec fn first_word(s: Seq<char>) -> Option<Seq<char>> {
    let t = trim_start(s, TrimSet::Whitespace);
    if t.len() == 0 {
        None
    } else {
        Some(t.take(word_len(t)))
    }
}

/// What `parse_hex_color` gives for a value: the six digits after its first
/// `#`, or else the first word of the value stripped of quotes and commas.
pub open spec fn hex_color_spec(value: Seq<char>) -> Option<RgbColor> {
    let v = trim_by(value, TrimSet::Whitespace);
    let hash = first_pos(v, '#');
    if hash < v.len() {
        hex_rgb(v.skip(hash + 1))
    } else {
        match first_word(trim_by(v, TrimSet::QuotesCommasSpaces)) {
            Some(w) => hex_rgb(trim_by(w, TrimSet::QuotesCommas)),
            None => None,
        }
    }
}

proof fn lemma_word_len(s: Seq<char>)
    ensures
        0 <= word_len(s) <= s.len(),
        forall|j: int| 0 <= j < word_len(s) ==> !unicode_is_whitespace(#[trigger] s[j]),
        word_len(s) < s.len() ==> unicode_is_whitespace(s[word_len(s)]),
    decreases s.len(),
{
    if s.len() > 0 && !unicode_is_whitespace(s[0]) {
        lemma_word_len(s.drop_first());
        assert forall|j: int| 0 <= j < word_len(s) implies !unicode_is_whitespace(#[trigger] s[j]) by {
            if j > 0 {
                assert(s[j] == s.drop_first()[j - 1]);
            }
        }
    }
}

/// The bounds of the first word of `s[lo..hi]`, if there is one.
fn first_word_range(s: &Vec<char>, lo: usize, hi: usize) -> (r: Option<(usize, usize)>)
    requires
        lo <= hi <= s@.len(),
    ensures
        match r {
            Some((a, b)) => lo <= a <= b <= hi && first_word(s@.subrange(lo as int, hi as int)) == Some(s@.subrange(a as int, b as int)),
            None => first_word(s@.subrange(lo as int, hi as int)) is None,
        },
{
    let ghost t = s@.subrange(lo as int, hi as int);
    let mut i = lo;
    while i < hi && char_is_whitespace(s[i])
        invariant
            lo <= i <= hi <= s@.len(),
            t == s@.subrange(lo as int, hi as int),
            trim_start(t, TrimSet::Whitespace) == trim_start(s@.subrange(i as int, hi as int), TrimSet::Whitespace),
        decreases hi - i,
    {
        assert(s@.subrange(i as int, hi as int).drop_first() =~= s@.subrange(i + 1, hi as int));
        i += 1;
    }
    let ghost u = s@.subrange(i as int, hi as int);
    assert(trim_start(t, TrimSet::Whitespace) == u);
    if i == hi {
        return None;
    }
    proof {
        lemma_word_len(u);
    }
    let mut j = i;
    while j < hi && !char_is_whitespace(s[j])
        invariant
            i <= j <= hi <= s@.len(),
            u == s@.subrange(i as int, hi as int),
            j - i <= word_len(u),
            0 <= word_len(u) <= u.len(),
            forall|k: int| 0 <= k < word_len(u) ==> !unicode_is_whitespace(#[trigger] u[k]),
            word_len(u) < u.len() ==> unicode_is_whitespace(u[word_len(u)]),
        decreases hi - j,
    {
        proof {
            if j - i == word_len(u) {
                assert(u[j - i] == s@[j as int]);
            }
        }
        j += 1;
    }
    proof {
        if j - i < word_len(u) {
            assert(u[j - i] == s@[j as int]);
            assert(!unicode_is_whitespace(u[j - i]));
        }
        assert(u.take(word_len(u)) =~= s@.subrange(i as int, j as int));
    }
    Some((i, j))
}

/// The color of `value[lo..hi]` as `parse_hex_color` reads it.
fn hex_color_in(s: &Vec<char>, lo: usize, hi: usize) -> (r: Option<RgbColor>)
    requires
        lo <= hi <= s@.len(),
    ensures
        r == hex_color_spec(s@.subrange(lo as int, hi as int)),
{
    let (a, b) = trim_range(s, lo, hi, TrimSet::Whitespace);
    let ghost v = s@.subrange(a as int, b as int);
    let hash = find_char(s, a, b, '#');
    if hash < b {
        proof {
            lemma_first_pos(v, '#');
        }
        let digits = slice_chars(s, hash + 1, b);
        assert(digits@ =~= v.skip(hash - a + 1));
        return hex_rgb_of(&digits);
    }
    let (c, d) = trim_range(s, a, b, TrimSet::QuotesCommasSpaces);
    match first_word_range(s, c, d) {
        Some((e, f)) => {
            let (g, h) = trim_range(s, e, f, TrimSet::QuotesCommas);
            let token = slice_chars(s, g, h);
            hex_rgb_of(&token)
        },
        None => None,
    }
}

/// Parses the color of a colorscheme value: the six hexadecimal digits after
/// its first `#` or, without a `#`, its first word stripped of quotes and
/// commas.
pub fn parse_hex_color(value: &str) -> (r: Option<RgbColor>)
    ensures
        r == hex_color_spec(value@),
{
    let chars = chars_vec(value);
    assert(chars@.subrange(0, chars@.len() as int) =~= value@);
    hex_color_in(&chars, 0, chars.len())
}

/// The base16 slot a key names: `base0` and one hexadecimal digit.
pub open spec fn base16_index_spec(key: Seq<char>) -> Option<usize> {
    if key.len() == 6 && key.take(4) == seq!['b', 'a', 's', 'e'] && key[4] == '0' && is_hex(key[5]) {
        Some(hex_value(key[5]) as usize)
    } else {
        None
    }
}

/// The base16 slot of `key[lo..hi]`.
fn base16_index_in(s: &Vec<char>, lo: usize, hi: usize) -> (r: Option<usize>)
    requires
        lo <= hi <= s@.len(),
    ensures
        r == base16_index_spec(s@.subrange(lo as int, hi as int)),
{
    let key = slice_chars(s, lo, hi);
    proof {
        reveal_strlit("base");
        assert("base"@ =~= seq!['b', 'a', 's', 'e']);
    }
    let rest = match strip_text(&key, "base") {
        Some(rest) => rest,
        None => return None,
    };
    if rest.len() != 2 || rest[0] != '0' {
        return None;
    }
    match hex_digit(rest[1]) {
        Some(v) => Some(v as usize),
        None => None,
    }
}

/// The base16 slot a key names: `base00` through `base0F` (either case of
/// the last digit).
pub fn base16_index(key: &str) -> (r: Option<usize>)
    ensures
        r == base16_index_spec(key@),
{
    let chars = chars_vec(key);
    assert(chars@.subrange(0, chars@.len() as int) =~= key@);
    base16_index_in(&chars, 0, chars.len())
}

/// A line split at its first `:`, or at its first `=` when it has no `:`.
pub open spec fn split_key_value(l: Seq<char>) -> Option<(Seq<char>, Seq<char>)> {
    let colon = first_pos(l, ':');
    let equals = first_pos(l, '=');
    if colon < l.len() {
        Some((l.take(colon), l.skip(colon + 1)))
    } else if equals < l.len() {
        Some((l.take(equals), l.skip(equals + 1)))
    } else {
        None
    }
}

/// What `parse_base16_line` gives for a line: the slot its key names and
/// the color of its value.
pub open spec fn base16_line_spec(line: Seq<char>) -> Option<(usize, RgbColor)> {
    match split_key_value(trim_by(line, TrimSet::Whitespace)) {
        Some((k, v)) => {
            let key = lower_seq(trim_by(trim_by(k, TrimSet::Whitespace), TrimSet::Quotes));
            match base16_index_spec(key) {
                Some(index) => match hex_color_spec(v) {
                    Some(color) => Some((index, color)),
                    None => None,
                },
                None => None,
            }
        },
        None => None,
    }
}

/// One line of a base16 scheme, in YAML (`key: value`) or TOML
/// (`key = value`) form.
pub fn parse_base16_line(line: &str) -> (r: Option<(usize, RgbColor)>)
    ensures
        r == base16_line_spec(line@),
{
    let chars = chars_vec(line);
    assert(chars@.subrange(0, chars@.len() as int) =~= line@);
    base16_line_in(&chars, 0, chars.len())
}

fn base16_line_in(s: &Vec<char>, lo: usize, hi: usize) -> (r: Option<(usize, RgbColor)>)
    requires
        lo <= hi <= s@.len(),
    ensures
        r == base16_line_spec(s@.subrange(lo as int, hi as int)),
{
    let (a, b) = trim_range(s, lo, hi, TrimSet::Whitespace);
    let ghost l = s@.subrange(a as int, b as int);
    let colon = find_char(s, a, b, ':');
    let sep = if colon < b {
        colon
    } else {
        let equals = find_char(s, a, b, '=');
        if equals < b {
            equals
        } else {
            return None;
        }
    };
    proof {
        assert(l.take(sep - a) =~= s@.subrange(a as int, sep as int));
        assert(l.skip(sep - a + 1) =~= s@.subrange(sep + 1, b as int));
    }
    let (c, d) = trim_range(s, a, sep, TrimSet::Whitespace);
    let (e, f) = trim_range(s, c, d, TrimSet::Quotes);
    let raw_key = slice_chars(s, e, f);
    let key = lowercase(&raw_key);
    let index = match base16_index_in(&key, 0, key.len()) {
        Some(index) => index,
        None => {
            assert(key@.subrange(0, key@.len() as int) =~= key@);
            return None;
        },
    };
    assert(key@.subrange(0, key@.len() as int) =~= key@);
    match hex_color_in(s, sep + 1, b) {
        Some(color) => Some((index, color)),
        None => None,
    }
}

/// The colors of the diff view.
#[derive(Debug, Clone, Copy, PartialEq, Eq, Structural)]
pub struct DiffTheme {
    pub foreground: Color,
    pub background: Color,
    pub header: Color,
    pub file: Color,
    pub hunk: Color,
    pub notice: Color,
    pub cursor: Color,
    pub cursor_line_bg: Color,
    pub muted: Color,
    pub gutter_bg: Color,
    pub empty_diff: Color,
    pub search_match_fg: Color,
    pub search_match_bg: Color,
    pub statusline_fg: Color,
    pub statusline_bg: Color,
    pub statusline_accent_fg: Color,
    pub statusline_accent_bg: Color,
    pub statusline_info_fg: Color,
    pub statusline_info_bg: Color,
    pub addition_fg: Color,
    pub addition_gutter_bg: Color,
    pub addition_bg: Color,
    pub addition_inline_bg: Color,
    pub deletion_fg: Color,
    pub deletion_gutter_bg: Color,
    pub deletion_bg: Color,
    pub deletion_inline_bg: Color,
    pub transparent_background: bool,
    pub syntax: SyntaxPalette,
}

/// Syntax highlighting colors, one optional color per syntax class.
#[derive(Debug, Clone, Copy, PartialEq, Eq, Structural)]
pub struct SyntaxPalette {
    pub attribute: Option<Color>,
    pub comment: Option<Color>,
    pub constant: Option<Color>,
    pub constructor: Option<Color>,
    pub function: Option<Color>,
    pub keyword: Option<Color>,
    pub label: Option<Color>,
    pub module: Option<Color>,
    pub number: Option<Color>,
    pub operator: Option<Color>,
    pub property: Option<Color>,
    pub punctuation: Option<Color>,
    pub string: Option<Color>,
    pub tag: Option<Color>,
    pub typ: Option<Color>,
    pub variable: Option<Color>,
}

/// Per-slot color overrides from the configuration, as written there.
pub struct ColorOverrides {
    pub bg: Option<String>,
    pub fg: Option<String>,
    pub header: Option<String>,
    pub file: Option<String>,
    pub hunk: Option<String>,
    pub notice: Option<String>,
    pub cursor: Option<String>,
    pub cursor_line_bg: Option<String>,
    pub muted: Option<String>,
    pub gutter_bg: Option<String>,
    pub empty_diff: Option<String>,
    pub search_match_fg: Option<String>,
    pub search_match_bg: Option<String>,
    pub statusline_fg: Option<String>,
    pub statusline_bg: Option<String>,
    pub statusline_accent_fg: Option<String>,
    pub statusline_accent_bg: Option<String>,
    pub statusline_info_fg: Option<String>,
    pub statusline_info_bg: Option<String>,
    pub addition_fg: Option<String>,
    pub addition_gutter_bg: Option<String>,
    pub addition_bg: Option<String>,
    pub addition_inline_bg: Option<String>,
    pub deletion_fg: Option<String>,
    pub deletion_gutter_bg: Option<String>,
    pub deletion_bg: Option<String>,
    pub deletion_inline_bg: Option<String>,
    pub attribute: Option<String>,
    pub comment: Option<String>,
    pub constant: Option<String>,
    pub constructor: Option<String>,
    pub function: Option<String>,
    pub keyword: Option<String>,
    pub label: Option<String>,
    pub module: Option<String>,
    pub number: Option<String>,
    pub operator: Option<String>,
    pub property: Option<String>,
    pub punctuation: Option<String>,
    pub string: Option<String>,
    pub tag: Option<String>,
    pub typ: Option<String>,
    pub variable: Option<String>,
}

/// The number of color slots a theme has and the configuration can override.
pub const COLOR_SLOTS: usize = 43;

/// The configuration name of color slot `i`.
pub open spec fn slot_name(i: int) -> Seq<char> {
    if i == 0 {
        "bg"@
    } else if i == 1 {
        "fg"@
    } else if i == 2 {
        "header"@
    } else if i == 3 {
        "file"@
    } else if i == 4 {
        "hunk"@
    } else if i == 5 {
        "notice"@
    } else if i == 6 {
        "cursor"@
    } else if i == 7 {
        "cursor_line_bg"@
    } else if i == 8 {
        "muted"@
    } else if i == 9 {
        "gutter_bg"@
    } else if i == 10 {
        "empty_diff"@
    } else if i == 11 {
        "search_match_fg"@
    } else if i == 12 {
        "search_match_bg"@
    } else if i == 13 {
        "statusline_fg"@
    } else if i == 14 {
        "statusline_bg"@
    } else if i == 15 {
        "statusline_accent_fg"@
    } else if i == 16 {
        "statusline_accent_bg"@
    } else if i == 17 {
        "statusline_info_fg"@
    } else if i == 18 {
        "statusline_info_bg"@
    } else if i == 19 {
        "addition_fg"@
    } else if i == 20 {
        "addition_gutter_bg"@
    } else if i == 21 {
        "addition_bg"@
    } else if i == 22 {
        "addition_inline_bg"@
    } else if i == 23 {
        "deletion_fg"@
    } else if i == 24 {
        "deletion_gutter_bg"@
    } else if i == 25 {
        "deletion_bg"@
    } else if i == 26 {
        "deletion_inline_bg"@
    } else if i == 27 {
        "attribute"@
    } else if i == 28 {
        "comment"@
    } else if i == 29 {
        "constant"@
    } else if i == 30 {
        "constructor"@
    } else if i == 31 {
        "function"@
    } else if i == 32 {
        "keyword"@
    } else if i == 33 {
        "label"@
    } else if i == 34 {
        "module"@
    } else if i == 35 {
        "number"@
    } else if i == 36 {
        "operator"@
    } else if i == 37 {
        "property"@
    } else if i == 38 {
        "punctuation"@
    } else if i == 39 {
        "string"@
    } else if i == 40 {
        "tag"@
    } else if i == 41 {
        "type"@
    } else {
        "variable"@
    }
}

/// The configuration name of color slot `i`.
pub fn slot_name_text(i: usize) -> (r: &'static str)
    requires
        i < COLOR_SLOTS,
    ensures
        r@ == slot_name(i as int),
{
    if i == 0 {
        "bg"
    } else if i == 1 {
        "fg"
    } else if i == 2 {
        "header"
    } else if i == 3 {
        "file"
    } else if i == 4 {
        "hunk"
    } else if i == 5 {
        "notice"
    } else if i == 6 {
        "cursor"
    } else if i == 7 {
        "cursor_line_bg"
    } else if i == 8 {
        "muted"
    } else if i == 9 {
        "gutter_bg"
    } else if i == 10 {
        "empty_diff"
    } else if i == 11 {
        "search_match_fg"
    } else if i == 12 {
        "search_match_bg"
    } else if i == 13 {
        "statusline_fg"
    } else if i == 14 {
        "statusline_bg"
    } else if i == 15 {
        "statusline_accent_fg"
    } else if i == 16 {
        "statusline_accent_bg"
    } else if i == 17 {
        "statusline_info_fg"
    } else if i == 18 {
        "statusline_info_bg"
    } else if i == 19 {
        "addition_fg"
    } else if i == 20 {
        "addition_gutter_bg"
    } else if i == 21 {
        "addition_bg"
    } else if i == 22 {
        "addition_inline_bg"
    } else if i == 23 {
        "deletion_fg"
    } else if i == 24 {
        "deletion_gutter_bg"
    } else if i == 25 {
        "deletion_bg"
    } else if i == 26 {
        "deletion_inline_bg"
    } else if i == 27 {
        "attribute"
    } else if i == 28 {
        "comment"
    } else if i == 29 {
        "constant"
    } else if i == 30 {
        "constructor"
    } else if i == 31 {
        "function"
    } else if i == 32 {
        "keyword"
    } else if i == 33 {
        "label"
    } else if i == 34 {
        "module"
    } else if i == 35 {
        "number"
    } else if i == 36 {
        "operator"
    } else if i == 37 {
        "property"
    } else if i == 38 {
        "punctuation"
    } else if i == 39 {
        "string"
    } else if i == 40 {
        "tag"
    } else if i == 41 {
        "type"
    } else {
        "variable"
    }
}

/// The color of slot `i` of a theme; the syntax slots may hold none.
pub open spec fn theme_slot(t: DiffTheme, i: int) -> Option<Color> {
    if i == 0 {
        Some(t.background)
    } else if i == 1 {
        Some(t.foreground)
    } else if i == 2 {
        Some(t.header)
    } else if i == 3 {
        Some(t.file)
    } else if i == 4 {
        Some(t.hunk)
    } else if i == 5 {
        Some(t.notice)
    } else if i == 6 {
        Some(t.cursor)
    } else if i == 7 {
        Some(t.cursor_line_bg)
    } else if i == 8 {
        Some(t.muted)
    } else if i == 9 {
        Some(t.gutter_bg)
    } else if i == 10 {
        Some(t.empty_diff)
    } else if i == 11 {
        Some(t.search_match_fg)
    } else if i == 12 {
        Some(t.search_match_bg)
    } else if i == 13 {
        Some(t.statusline_fg)
    } else if i == 14 {
        Some(t.statusline_bg)
    } else if i == 15 {
        Some(t.statusline_accent_fg)
    } else if i == 16 {
        Some(t.statusline_accent_bg)
    } else if i == 17 {
        Some(t.statusline_info_fg)
    } else if i == 18 {
        Some(t.statusline_info_bg)
    } else if i == 19 {
        Some(t.addition_fg)
    } else if i == 20 {
        Some(t.addition_gutter_bg)
    } else if i == 21 {
        Some(t.addition_bg)
    } else if i == 22 {
        Some(t.addition_inline_bg)
    } else if i == 23 {
        Some(t.deletion_fg)
    } else if i == 24 {
        Some(t.deletion_gutter_bg)
    } else if i == 25 {
        Some(t.deletion_bg)
    } else if i == 26 {
        Some(t.deletion_inline_bg)
    } else if i == 27 {
        t.syntax.attribute
    } else if i == 28 {
        t.syntax.comment
    } else if i == 29 {
        t.syntax.constant
    } else if i == 30 {
        t.syntax.constructor
    } else if i == 31 {
        t.syntax.function
    } else if i == 32 {
        t.syntax.keyword
    } else if i == 33 {
        t.syntax.label
    } else if i == 34 {
        t.syntax.module
    } else if i == 35 {
        t.syntax.number
    } else if i == 36 {
        t.syntax.operator
    } else if i == 37 {
        t.syntax.property
    } else if i == 38 {
        t.syntax.punctuation
    } else if i == 39 {
        t.syntax.string
    } else if i == 40 {
        t.syntax.tag
    } else if i == 41 {
        t.syntax.typ
    } else {
        t.syntax.variable
    }
}

/// The override of slot `i`, as written in the configuration.
pub open spec fn override_value(c: ColorOverrides, i: int) -> Option<Seq<char>> {
    let v = if i == 0 {
        c.bg
    } else if i == 1 {
        c.fg
    } else if i == 2 {
        c.header
    } else if i == 3 {
        c.file
    } else if i == 4 {
        c.hunk
    } else if i == 5 {
        c.notice
    } else if i == 6 {
        c.cursor
    } else if i == 7 {
        c.cursor_line_bg
    } else if i == 8 {
        c.muted
    } else if i == 9 {
        c.gutter_bg
    } else if i == 10 {
        c.empty_diff
    } else if i == 11 {
        c.search_match_fg
    } else if i == 12 {
        c.search_match_bg
    } else if i == 13 {
        c.statusline_fg
    } else if i == 14 {
        c.statusline_bg
    } else if i == 15 {
        c.statusline_accent_fg
    } else if i == 16 {
        c.statusline_accent_bg
    } else if i == 17 {
        c.statusline_info_fg
    } else if i == 18 {
        c.statusline_info_bg
    } else if i == 19 {
        c.addition_fg
    } else if i == 20 {
        c.addition_gutter_bg
    } else if i == 21 {
        c.addition_bg
    } else if i == 22 {
        c.addition_inline_bg
    } else if i == 23 {
        c.deletion_fg
    } else if i == 24 {
        c.deletion_gutter_bg
    } else if i == 25 {
        c.deletion_bg
    } else if i == 26 {
        c.deletion_inline_bg
    } else if i == 27 {
        c.attribute
    } else if i == 28 {
        c.comment
    } else if i == 29 {
        c.constant
    } else if i == 30 {
        c.constructor
    } else if i == 31 {
        c.function
    } else if i == 32 {
        c.keyword
    } else if i == 33 {
        c.label
    } else if i == 34 {
        c.module
    } else if i == 35 {
        c.number
    } else if i == 36 {
        c.operator
    } else if i == 37 {
        c.property
    } else if i == 38 {
        c.punctuation
    } else if i == 39 {
        c.string
    } else if i == 40 {
        c.tag
    } else if i == 41 {
        c.typ
    } else {
        c.variable
    };
    match v {
        Some(s) => Some(s@),
        None => None,
    }
}

impl ColorOverrides {
    /// The override of slot `i`.
    pub fn value(&self, i: usize) -> (r: &Option<String>)
        requires
            i < COLOR_SLOTS,
        ensures
            match *r {
                Some(s) => override_value(*self, i as int) == Some(s@),
                None => override_value(*self, i as int) is None,
            },
    {
        if i == 0 {
            &self.bg
        } else if i == 1 {
            &self.fg
        } else if i == 2 {
            &self.header
        } else if i == 3 {
            &self.file
        } else if i == 4 {
            &self.hunk
        } else if i == 5 {
            &self.notice
        } else if i == 6 {
            &self.cursor
        } else if i == 7 {
            &self.cursor_line_bg
        } else if i == 8 {
            &self.muted
        } else if i == 9 {
            &self.gutter_bg
        } else if i == 10 {
            &self.empty_diff
        } else if i == 11 {
            &self.search_match_fg
        } else if i == 12 {
            &self.search_match_bg
        } else if i == 13 {
            &self.statusline_fg
        } else if i == 14 {
            &self.statusline_bg
        } else if i == 15 {
            &self.statusline_accent_fg
        } else if i == 16 {
            &self.statusline_accent_bg
        } else if i == 17 {
            &self.statusline_info_fg
        } else if i == 18 {
            &self.statusline_info_bg
        } else if i == 19 {
            &self.addition_fg
        } else if i == 20 {
            &self.addition_gutter_bg
        } else if i == 21 {
            &self.addition_bg
        } else if i == 22 {
            &self.addition_inline_bg
        } else if i == 23 {
            &self.deletion_fg
        } else if i == 24 {
            &self.deletion_gutter_bg
        } else if i == 25 {
            &self.deletion_bg
        } else if i == 26 {
            &self.deletion_inline_bg
        } else if i == 27 {
            &self.attribute
        } else if i == 28 {
            &self.comment
        } else if i == 29 {
            &self.constant
        } else if i == 30 {
            &self.constructor
        } else if i == 31 {
            &self.function
        } else if i == 32 {
            &self.keyword
        } else if i == 33 {
            &self.label
        } else if i == 34 {
            &self.module
        } else if i == 35 {
            &self.number
        } else if i == 36 {
            &self.operator
        } else if i == 37 {
            &self.property
        } else if i == 38 {
            &self.punctuation
        } else if i == 39 {
            &self.string
        } else if i == 40 {
            &self.tag
        } else if i == 41 {
            &self.typ
        } else {
            &self.variable
        }
    }
}

impl DiffTheme {
    /// Sets slot `i` to `color`; the other slots and settings are kept.
    pub fn set_slot(&mut self, i: usize, color: Color)
        requires
            i < COLOR_SLOTS,
        ensures
            theme_slot(*final(self), i as int) == Some(color),
            forall|j: int| 0 <= j < COLOR_SLOTS && j != i ==> theme_slot(*final(self), j) == theme_slot(*old(self), j),
            final(self).transparent_background == old(self).transparent_background,
    {
        if i == 0 {
            self.background = color;
        } else if i == 1 {
            self.foreground = color;
        } else if i == 2 {
            self.header = color;
        } else if i == 3 {
            self.file = color;
        } else if i == 4 {
            self.hunk = color;
        } else if i == 5 {
            self.notice = color;
        } else if i == 6 {
            self.cursor = color;
        } else if i == 7 {
            self.cursor_line_bg = color;
        } else if i == 8 {
            self.muted = color;
        } else if i == 9 {
            self.gutter_bg = color;
        } else if i == 10 {
            self.empty_diff = color;
        } else if i == 11 {
            self.search_match_fg = color;
        } else if i == 12 {
            self.search_match_bg = color;
        } else if i == 13 {
            self.statusline_fg = color;
        } else if i == 14 {
            self.statusline_bg = color;
        } else if i == 15 {
            self.statusline_accent_fg = color;
        } else if i == 16 {
            self.statusline_accent_bg = color;
        } else if i == 17 {
            self.statusline_info_fg = color;
        } else if i == 18 {
            self.statusline_info_bg = color;
        } else if i == 19 {
            self.addition_fg = color;
        } else if i == 20 {
            self.addition_gutter_bg = color;
        } else if i == 21 {
            self.addition_bg = color;
        } else if i == 22 {
            self.addition_inline_bg = color;
        } else if i == 23 {
            self.deletion_fg = color;
        } else if i == 24 {
            self.deletion_gutter_bg = color;
        } else if i == 25 {
            self.deletion_bg = color;
        } else if i == 26 {
            self.deletion_inline_bg = color;
        } else if i == 27 {
            self.syntax.attribute = Some(color);
        } else if i == 28 {
            self.syntax.comment = Some(color);
        } else if i == 29 {
            self.syntax.constant = Some(color);
        } else if i == 30 {
            self.syntax.constructor = Some(color);
        } else if i == 31 {
            self.syntax.function = Some(color);
        } else if i == 32 {
            self.syntax.keyword = Some(color);
        } else if i == 33 {
            self.syntax.label = Some(color);
        } else if i == 34 {
            self.syntax.module = Some(color);
        } else if i == 35 {
            self.syntax.number = Some(color);
        } else if i == 36 {
            self.syntax.operator = Some(color);
        } else if i == 37 {
            self.syntax.property = Some(color);
        } else if i == 38 {
            self.syntax.punctuation = Some(color);
        } else if i == 39 {
            self.syntax.string = Some(color);
        } else if i == 40 {
            self.syntax.tag = Some(color);
        } else if i == 41 {
            self.syntax.typ = Some(color);
        } else {
            self.syntax.variable = Some(color);
        }
    }
}
/// The base16 scheme's colors used by the themes.
#[derive(Debug, Clone, Copy, PartialEq, Eq, Structural)]
pub struct Base16Scheme {
    pub base00: RgbColor,
    pub base01: RgbColor,
    pub base03: RgbColor,
    pub base04: RgbColor,
    pub base05: RgbColor,
    pub base06: RgbColor,
    pub base08: RgbColor,
    pub base09: RgbColor,
    pub base0a: RgbColor,
    pub base0b: RgbColor,
    pub base0c: RgbColor,
    pub base0d: RgbColor,
    pub base0e: RgbColor,
}

/// The color that the last line naming slot `idx` gives it, if any does.
pub open spec fn scheme_slot(ls: Seq<Seq<char>>, idx: int) -> Option<RgbColor>
    decreases ls.len(),
{
    if ls.len() == 0 {
        None
    } else {
        match base16_line_spec(ls.last()) {
            Some((i, c)) => if i as int == idx {
                Some(c)
            } else {
                scheme_slot(ls.drop_last(), idx)
            },
            None => scheme_slot(ls.drop_last(), idx),
        }
    }
}

/// What `parse_base16_scheme` gives for a file: a scheme when every slot
/// `base00` to `base0F` is named by some line.
pub open spec fn base16_scheme_spec(s: Seq<char>) -> Option<Base16Scheme> {
    let ls = split_lines(s);
    if forall|i: int| 0 <= i < 16 ==> (#[trigger] scheme_slot(ls, i)) is Some {
        Some(
            Base16Scheme {
                base00: scheme_slot(ls, 0)->0,
                base01: scheme_slot(ls, 1)->0,
                base03: scheme_slot(ls, 3)->0,
                base04: scheme_slot(ls, 4)->0,
                base05: scheme_slot(ls, 5)->0,
                base06: scheme_slot(ls, 6)->0,
                base08: scheme_slot(ls, 8)->0,
                base09: scheme_slot(ls, 9)->0,
                base0a: scheme_slot(ls, 10)->0,
                base0b: scheme_slot(ls, 11)->0,
                base0c: scheme_slot(ls, 12)->0,
                base0d: scheme_slot(ls, 13)->0,
                base0e: scheme_slot(ls, 14)->0,
            },
        )
    } else {
        None
    }
}

/// Records what one line of a scheme says.
fn apply_base16_line(s: &Vec<char>, lo: usize, hi: usize, colors: &mut Vec<Option<RgbColor>>, Ghost(done): Ghost<Seq<Seq<char>>>)
    requires
        lo <= hi <= s@.len(),
        old(colors)@.len() == 16,
        forall|k: int| 0 <= k < 16 ==> #[trigger] old(colors)@[k] == scheme_slot(done, k),
    ensures
        final(colors)@.len() == 16,
        forall|k: int| 0 <= k < 16 ==> #[trigger] final(colors)@[k] == scheme_slot(done.push(s@.subrange(lo as int, hi as int)), k),
{
    let ghost line = s@.subrange(lo as int, hi as int);
    let ghost next = done.push(line);
    assert(next.drop_last() =~= done);
    assert(next.last() == line);
    match base16_line_in(s, lo, hi) {
        Some((index, color)) => {
            assert(index < 16);
            colors.set(index, Some(color));
        },
        None => {},
    }
}

/// Parses a base16 scheme written as YAML or TOML lines `baseXX: rrggbb`;
/// a later line for a slot wins, and all sixteen slots must be given.
pub fn parse_base16_scheme(contents: &str) -> (r: Option<Base16Scheme>)
    ensures
        r == base16_scheme_spec(contents@),
{
    let ghost s = contents@;
    let chars = chars_vec(contents);
    let mut colors: Vec<Option<RgbColor>> = Vec::new();
    let mut k: usize = 0;
    while k < 16
        invariant
            k <= 16,
            colors@.len() == k,
            forall|j: int| 0 <= j < k ==> #[trigger] colors@[j] is None,
        decreases 16 - k,
    {
        colors.push(None);
        k += 1;
    }
    let ghost mut done: Seq<Seq<char>> = Seq::empty();
    let mut start: usize = 0;
    let mut i: usize = 0;
    proof {
        assert(s.take(0) =~= Seq::<char>::empty());
        assert(chars@.subrange(0, 0) =~= Seq::<char>::empty());
        assert(split_lines(s.take(0)) =~= done.push(chars@.subrange(0, 0)));
    }
    while i < chars.len()
        invariant
            start <= i <= chars@.len(),
            chars@ == s,
            colors@.len() == 16,
            split_lines(s.take(i as int)) == done.push(chars@.subrange(start as int, i as int)),
            forall|j: int| 0 <= j < 16 ==> #[trigger] colors@[j] == scheme_slot(done, j),
        decreases chars@.len() - i,
    {
        proof {
            assert(s.take(i as int + 1).drop_last() =~= s.take(i as int));
            assert(s.take(i as int + 1).last() == chars@[i as int]);
        }
        if chars[i] == '\n' {
            apply_base16_line(&chars, start, i, &mut colors, Ghost(done));
            proof {
                done = done.push(chars@.subrange(start as int, i as int));
                assert(chars@.subrange(i + 1, i + 1) =~= Seq::<char>::empty());
                assert(split_lines(s.take(i as int + 1)) =~= done.push(chars@.subrange(i + 1, i + 1)));
            }
            start = i + 1;
        } else {
            proof {
                assert(chars@.subrange(start as int, i + 1) =~= chars@.subrange(start as int, i as int).push(chars@[i as int]));
                assert(split_lines(s.take(i as int + 1)) =~= done.push(chars@.subrange(start as int, i + 1)));
            }
        }
        i += 1;
    }
    apply_base16_line(&chars, start, chars.len(), &mut colors, Ghost(done));
    proof {
        assert(s.take(chars@.len() as int) =~= s);
        done = done.push(chars@.subrange(start as int, chars@.len() as int));
        assert(done == split_lines(s));
    }
    let mut j: usize = 0;
    while j < 16
        invariant
            j <= 16,
            s == contents@,
            colors@.len() == 16,
            forall|m: int| 0 <= m < 16 ==> #[trigger] colors@[m] == scheme_slot(split_lines(s), m),
            forall|m: int| 0 <= m < j ==> (#[trigger] colors@[m]) is Some,
        decreases 16 - j,
    {
        if colors[j].is_none() {
            proof {
                assert(colors@[j as int] == scheme_slot(split_lines(s), j as int));
                assert(scheme_slot(split_lines(s), j as int) is None);
                assert(!(forall|m: int| 0 <= m < 16 ==> (#[trigger] scheme_slot(split_lines(s), m)) is Some));
            }
            return None;
        }
        j += 1;
    }
    let scheme = Base16Scheme {
        base00: colors[0].unwrap(),
        base01: colors[1].unwrap(),
        base03: colors[3].unwrap(),
        base04: colors[4].unwrap(),
        base05: colors[5].unwrap(),
        base06: colors[6].unwrap(),
        base08: colors[8].unwrap(),
        base09: colors[9].unwrap(),
        base0a: colors[10].unwrap(),
        base0b: colors[11].unwrap(),
        base0c: colors[12].unwrap(),
        base0d: colors[13].unwrap(),
        base0e: colors[14].unwrap(),
    };
    proof {
        let ls = split_lines(s);
        assert forall|m: int| 0 <= m < 16 implies (#[trigger] scheme_slot(ls, m)) is Some by {
            assert(colors@[m] == scheme_slot(ls, m));
        }
        assert(colors@[0] == scheme_slot(ls, 0));
        assert(colors@[1] == scheme_slot(ls, 1));
        assert(colors@[3] == scheme_slot(ls, 3));
        assert(colors@[4] == scheme_slot(ls, 4));
        assert(colors@[5] == scheme_slot(ls, 5));
        assert(colors@[6] == scheme_slot(ls, 6));
        assert(colors@[8] == scheme_slot(ls, 8));
        assert(colors@[9] == scheme_slot(ls, 9));
        assert(colors@[10] == scheme_slot(ls, 10));
        assert(colors@[11] == scheme_slot(ls, 11));
        assert(colors@[12] == scheme_slot(ls, 12));
        assert(colors@[13] == scheme_slot(ls, 13));
        assert(colors@[14] == scheme_slot(ls, 14));
    }
    Some(scheme)
}

/// What `parse_config_hex_color` reads: after trimming, the digits after a
/// leading `#` (quotes removed) or `0x`, or else the unquoted value.
pub open spec fn config_hex_spec(value: Seq<char>) -> Option<RgbColor> {
    let t = trim_by(value, TrimSet::Whitespace);
    let q = trim_by(t, TrimSet::Quotes);
    let v = if has_prefix(q, seq!['#']) {
        q.skip(1)
    } else if has_prefix(t, seq!['0', 'x']) {
        t.skip(2)
    } else {
        q
    };
    hex_rgb(v)
}

/// Parses a `#rrggbb`, `0xrrggbb` or `rrggbb` color from the configuration.
pub fn parse_config_hex_color(value: &str) -> (r: Option<RgbColor>)
    ensures
        r == config_hex_spec(value@),
{
    let chars = chars_vec(value);
    let (a, b) = trim_range(&chars, 0, chars.len(), TrimSet::Whitespace);
    assert(chars@.subrange(0, chars@.len() as int) =~= value@);
    let t = slice_chars(&chars, a, b);
    let (c, d) = trim_range(&t, 0, t.len(), TrimSet::Quotes);
    assert(t@.subrange(0, t@.len() as int) =~= t@);
    let q = slice_chars(&t, c, d);
    proof {
        reveal_strlit("#");
        reveal_strlit("0x");
        assert("#"@ =~= seq!['#']);
        assert("0x"@ =~= seq!['0', 'x']);
    }
    let v = match strip_text(&q, "#") {
        Some(rest) => rest,
        None => match strip_text(&t, "0x") {
            Some(rest) => rest,
            None => q,
        },
    };
    hex_rgb_of(&v)
}

/// The number after an `ansi-`, `ansi:`, `indexed-` or `indexed:` prefix (or
/// with no prefix), as `u8::from_str` reads it.
pub open spec fn ansi_index_spec(v: Seq<char>) -> Option<u8> {
    let d = if has_prefix(v, "ansi-"@) {
        v.skip("ansi-"@.len() as int)
    } else if has_prefix(v, "ansi:"@) {
        v.skip("ansi:"@.len() as int)
    } else if has_prefix(v, "indexed-"@) {
        v.skip("indexed-"@.len() as int)
    } else if has_prefix(v, "indexed:"@) {
        v.skip("indexed:"@.len() as int)
    } else {
        v
    };
    parse_u8_spec(d)
}

/// Parses an indexed terminal color such as `ansi-13` or `indexed:200`.
pub fn parse_ansi_index(value: &str) -> (r: Option<u8>)
    ensures
        r == ansi_index_spec(value@),
{
    let v = chars_vec(value);
    let digits = match strip_text(&v, "ansi-") {
        Some(rest) => rest,
        None => match strip_text(&v, "ansi:") {
            Some(rest) => rest,
            None => match strip_text(&v, "indexed-") {
                Some(rest) => rest,
                None => match strip_text(&v, "indexed:") {
                    Some(rest) => rest,
                    None => v,
                },
            },
        },
    };
    parse_u8(&digits)
}

/// `s` with `_` written as `-`.
pub open spec fn dashed(s: Seq<char>) -> Seq<char> {
    s.map_values(|c: char| if c == '_' { '-' } else { c })
}

/// The color a name stands for (with `_` and `-` alike).
pub open spec fn named_color_spec(v: Seq<char>) -> Option<Color> {
    let n = dashed(v);
    if n == "black"@ {
        Some(Color::Black)
    } else if n == "red"@ {
        Some(Color::Red)
    } else if n == "green"@ {
        Some(Color::Green)
    } else if n == "yellow"@ {
        Some(Color::Yellow)
    } else if n == "blue"@ {
        Some(Color::Blue)
    } else if n == "magenta"@ || n == "purple"@ {
        Some(Color::Magenta)
    } else if n == "cyan"@ {
        Some(Color::Cyan)
    } else if n == "gray"@ || n == "grey"@ {
        Some(Color::Gray)
    } else if n == "dark-gray"@ || n == "dark-grey"@ || n == "bright-black"@ {
        Some(Color::DarkGray)
    } else if n == "white"@ || n == "bright-white"@ {
        Some(Color::White)
    } else if n == "bright-red"@ || n == "light-red"@ {
        Some(Color::LightRed)
    } else if n == "bright-green"@ || n == "light-green"@ {
        Some(Color::LightGreen)
    } else if n == "bright-yellow"@ || n == "light-yellow"@ {
        Some(Color::LightYellow)
    } else if n == "bright-blue"@ || n == "light-blue"@ {
        Some(Color::LightBlue)
    } else if n == "bright-magenta"@ || n == "light-magenta"@ || n == "bright-purple"@ || n == "light-purple"@ {
        Some(Color::LightMagenta)
    } else if n == "bright-cyan"@ || n == "light-cyan"@ {
        Some(Color::LightCyan)
    } else {
        None
    }
}

/// Each terminal color name names its own color, whether written with `-`
/// or `_`: a value names a color exactly when, with `_` read as `-`, it is
/// one of that color's names (`cyan` for cyan, `gray` or `grey` for gray,
/// `bright-red` or `light-red` for light red, and so on), so different
/// colors have different names.
pub proof fn color_names_name_their_colors(v: Seq<char>)
    ensures
        named_color_spec(v) == Some(Color::Black) <==> (dashed(v) == "black"@),
        named_color_spec(v) == Some(Color::Red) <==> (dashed(v) == "red"@),
        named_color_spec(v) == Some(Color::Green) <==> (dashed(v) == "green"@),
        named_color_spec(v) == Some(Color::Yellow) <==> (dashed(v) == "yellow"@),
        named_color_spec(v) == Some(Color::Blue) <==> (dashed(v) == "blue"@),
        named_color_spec(v) == Some(Color::Magenta) <==> (dashed(v) == "magenta"@ || dashed(v) == "purple"@),
        named_color_spec(v) == Some(Color::Cyan) <==> (dashed(v) == "cyan"@),
        named_color_spec(v) == Some(Color::Gray) <==> (dashed(v) == "gray"@ || dashed(v) == "grey"@),
        named_color_spec(v) == Some(Color::DarkGray) <==> (dashed(v) == "dark-gray"@ || dashed(v) == "dark-grey"@ || dashed(v) == "bright-black"@),
        named_color_spec(v) == Some(Color::White) <==> (dashed(v) == "white"@ || dashed(v) == "bright-white"@),
        named_color_spec(v) == Some(Color::LightRed) <==> (dashed(v) == "bright-red"@ || dashed(v) == "light-red"@),
        named_color_spec(v) == Some(Color::LightGreen) <==> (dashed(v) == "bright-green"@ || dashed(v) == "light-green"@),
        named_color_spec(v) == Some(Color::LightYellow) <==> (dashed(v) == "bright-yellow"@ || dashed(v) == "light-yellow"@),
        named_color_spec(v) == Some(Color::LightBlue) <==> (dashed(v) == "bright-blue"@ || dashed(v) == "light-blue"@),
        named_color_spec(v) == Some(Color::LightMagenta) <==> (dashed(v) == "bright-magenta"@ || dashed(v) == "light-magenta"@ || dashed(v) == "bright-purple"@ || dashed(v) == "light-purple"@),
        named_color_spec(v) == Some(Color::LightCyan) <==> (dashed(v) == "bright-cyan"@ || dashed(v) == "light-cyan"@),
{
    reveal_strlit("black");
    reveal_strlit("red");
    reveal_strlit("green");
    reveal_strlit("yellow");
    reveal_strlit("blue");
    reveal_strlit("magenta");
    reveal_strlit("purple");
    reveal_strlit("cyan");
    reveal_strlit("gray");
    reveal_strlit("grey");
    reveal_strlit("dark-gray");
    reveal_strlit("dark-grey");
    reveal_strlit("bright-black");
    reveal_strlit("white");
    reveal_strlit("bright-white");
    reveal_strlit("bright-red");
    reveal_strlit("light-red");
    reveal_strlit("bright-green");
    reveal_strlit("light-green");
    reveal_strlit("bright-yellow");
    reveal_strlit("light-yellow");
    reveal_strlit("bright-blue");
    reveal_strlit("light-blue");
    reveal_strlit("bright-magenta");
    reveal_strlit("light-magenta");
    reveal_strlit("bright-purple");
    reveal_strlit("light-purple");
    reveal_strlit("bright-cyan");
    reveal_strlit("light-cyan");
    assert("black"@.len() == 5 && "black"@[0] == 'b' && "black"@[2] == 'a');
    assert("red"@.len() == 3 && "red"@[0] == 'r' && "red"@[2] == 'd');
    assert("green"@.len() == 5 && "green"@[0] == 'g' && "green"@[2] == 'e');
    assert("yellow"@.len() == 6 && "yellow"@[0] == 'y' && "yellow"@[2] == 'l');
    assert("blue"@.len() == 4 && "blue"@[0] == 'b' && "blue"@[2] == 'u');
    assert("magenta"@.len() == 7 && "magenta"@[0] == 'm' && "magenta"@[2] == 'g' && "magenta"@[6] == 'a');
    assert("purple"@.len() == 6 && "purple"@[0] == 'p' && "purple"@[2] == 'r');
    assert("cyan"@.len() == 4 && "cyan"@[0] == 'c' && "cyan"@[2] == 'a');
    assert("gray"@.len() == 4 && "gray"@[0] == 'g' && "gray"@[2] == 'a');
    assert("grey"@.len() == 4 && "grey"@[0] == 'g' && "grey"@[2] == 'e');
    assert("dark-gray"@.len() == 9 && "dark-gray"@[0] == 'd' && "dark-gray"@[2] == 'r' && "dark-gray"@[6] == 'r' && "dark-gray"@[7] == 'a');
    assert("dark-grey"@.len() == 9 && "dark-grey"@[0] == 'd' && "dark-grey"@[2] == 'r' && "dark-grey"@[6] == 'r' && "dark-grey"@[7] == 'e');
    assert("bright-black"@.len() == 12 && "bright-black"@[0] == 'b' && "bright-black"@[2] == 'i' && "bright-black"@[6] == '-' && "bright-black"@[7] == 'b');
    assert("white"@.len() == 5 && "white"@[0] == 'w' && "white"@[2] == 'i');
    assert("bright-white"@.len() == 12 && "bright-white"@[0] == 'b' && "bright-white"@[2] == 'i' && "bright-white"@[6] == '-' && "bright-white"@[7] == 'w');
    assert("bright-red"@.len() == 10 && "bright-red"@[0] == 'b' && "bright-red"@[2] == 'i' && "bright-red"@[6] == '-' && "bright-red"@[7] == 'r');
    assert("light-red"@.len() == 9 && "light-red"@[0] == 'l' && "light-red"@[2] == 'g' && "light-red"@[6] == 'r' && "light-red"@[7] == 'e');
    assert("bright-green"@.len() == 12 && "bright-green"@[0] == 'b' && "bright-green"@[2] == 'i' && "bright-green"@[6] == '-' && "bright-green"@[7] == 'g');
    assert("light-green"@.len() == 11 && "light-green"@[0] == 'l' && "light-green"@[2] == 'g' && "light-green"@[6] == 'g' && "light-green"@[7] == 'r');
    assert("bright-yellow"@.len() == 13 && "bright-yellow"@[0] == 'b' && "bright-yellow"@[2] == 'i' && "bright-yellow"@[6] == '-' && "bright-yellow"@[7] == 'y');
    assert("light-yellow"@.len() == 12 && "light-yellow"@[0] == 'l' && "light-yellow"@[2] == 'g' && "light-yellow"@[6] == 'y' && "light-yellow"@[7] == 'e');
    assert("bright-blue"@.len() == 11 && "bright-blue"@[0] == 'b' && "bright-blue"@[2] == 'i' && "bright-blue"@[6] == '-' && "bright-blue"@[7] == 'b');
    assert("light-blue"@.len() == 10 && "light-blue"@[0] == 'l' && "light-blue"@[2] == 'g' && "light-blue"@[6] == 'b' && "light-blue"@[7] == 'l');
    assert("bright-magenta"@.len() == 14 && "bright-magenta"@[0] == 'b' && "bright-magenta"@[2] == 'i' && "bright-magenta"@[6] == '-' && "bright-magenta"@[7] == 'm');
    assert("light-magenta"@.len() == 13 && "light-magenta"@[0] == 'l' && "light-magenta"@[2] == 'g' && "light-magenta"@[6] == 'm' && "light-magenta"@[7] == 'a');
    assert("bright-purple"@.len() == 13 && "bright-purple"@[0] == 'b' && "bright-purple"@[2] == 'i' && "bright-purple"@[6] == '-' && "bright-purple"@[7] == 'p');
    assert("light-purple"@.len() == 12 && "light-purple"@[0] == 'l' && "light-purple"@[2] == 'g' && "light-purple"@[6] == 'p' && "light-purple"@[7] == 'u');
    assert("bright-cyan"@.len() == 11 && "bright-cyan"@[0] == 'b' && "bright-cyan"@[2] == 'i' && "bright-cyan"@[6] == '-' && "bright-cyan"@[7] == 'c');
    assert("light-cyan"@.len() == 10 && "light-cyan"@[0] == 'l' && "light-cyan"@[2] == 'g' && "light-cyan"@[6] == 'c' && "light-cyan"@[7] == 'y');
}

fn dash_underscores(v: &Vec<char>) -> (r: Vec<char>)
    ensures
        r@ == dashed(v@),
{
    let mut out: Vec<char> = Vec::new();
    let mut i: usize = 0;
    while i < v.len()
        invariant
            i <= v@.len(),
            out@ == dashed(v@.take(i as int)),
        decreases v@.len() - i,
    {
        let c = v[i];
        out.push(if c == '_' { '-' } else { c });
        i += 1;
        assert(out@ =~= dashed(v@.take(i as int)));
    }
    assert(v@.take(v@.len() as int) =~= v@);
    out
}

/// Parses a named terminal color such as `bright-red` or `dark_gray`.
pub fn parse_named_color(value: &str) -> (r: Option<Color>)
    ensures
        r == named_color_spec(value@),
{
    let v = chars_vec(value);
    let n = dash_underscores(&v);
    if is_text(&n, "black") {
        Some(Color::Black)
    } else if is_text(&n, "red") {
        Some(Color::Red)
    } else if is_text(&n, "green") {
        Some(Color::Green)
    } else if is_text(&n, "yellow") {
        Some(Color::Yellow)
    } else if is_text(&n, "blue") {
        Some(Color::Blue)
    } else if is_text(&n, "magenta") || is_text(&n, "purple") {
        Some(Color::Magenta)
    } else if is_text(&n, "cyan") {
        Some(Color::Cyan)
    } else if is_text(&n, "gray") || is_text(&n, "grey") {
        Some(Color::Gray)
    } else if is_text(&n, "dark-gray") || is_text(&n, "dark-grey") || is_text(&n, "bright-black") {
        Some(Color::DarkGray)
    } else if is_text(&n, "white") || is_text(&n, "bright-white") {
        Some(Color::White)
    } else if is_text(&n, "bright-red") || is_text(&n, "light-red") {
        Some(Color::LightRed)
    } else if is_text(&n, "bright-green") || is_text(&n, "light-green") {
        Some(Color::LightGreen)
    } else if is_text(&n, "bright-yellow") || is_text(&n, "light-yellow") {
        Some(Color::LightYellow)
    } else if is_text(&n, "bright-blue") || is_text(&n, "light-blue") {
        Some(Color::LightBlue)
    } else if is_text(&n, "bright-magenta") || is_text(&n, "light-magenta") || is_text(&n, "bright-purple")
        || is_text(&n, "light-purple") {
        Some(Color::LightMagenta)
    } else if is_text(&n, "bright-cyan") || is_text(&n, "light-cyan") {
        Some(Color::LightCyan)
    } else {
        None
    }
}

/// The color a configuration value names: `default`, `reset` or `none`
/// (any case) for the terminal's own color, else a hexadecimal color, an
/// indexed color or a color name.
pub open spec fn config_color_spec(value: Seq<char>) -> Option<Color> {
    let trimmed = trim_by(value, TrimSet::Whitespace);
    let lower = lower_seq(trimmed);
    if lower == "default"@ || lower == "reset"@ || lower == "none"@ {
        Some(Color::Reset)
    } else {
        match config_hex_spec(trimmed) {
            Some(c) => Some(Color::Rgb(c.red, c.green, c.blue)),
            None => match ansi_index_spec(lower) {
                Some(i) => Some(Color::Indexed(i)),
                None => named_color_spec(lower),
            },
        }
    }
}

/// The message for a color value that names no color.
pub open spec fn invalid_color_message(name: Seq<char>, value: Seq<char>) -> Seq<char> {
    "invalid color for "@ + name + ": "@ + value + "; expected #rrggbb, ansi-N, or a named color"@
}

fn string_of(chars: &Vec<char>) -> (r: String)
    ensures
        r@ == chars@,
{
    let mut out = String::new();
    let mut i: usize = 0;
    while i < chars.len()
        invariant
            i <= chars@.len(),
            out@ == chars@.take(i as int),
        decreases chars@.len() - i,
    {
        string_push(&mut out, chars[i]);
        i += 1;
        assert(out@ =~= chars@.take(i as int));
    }
    assert(chars@.take(chars@.len() as int) =~= chars@);
    out
}

/// Parses the color value of configuration key `name`.
pub fn parse_config_color(value: &str, name: &str) -> (r: Result<Color, ThemeError>)
    ensures
        match r {
            Ok(c) => config_color_spec(value@) == Some(c),
            Err(ThemeError::Usage(m)) => config_color_spec(value@) is None && m@ == invalid_color_message(name@, value@),
        },
{
    let chars = chars_vec(value);
    let (a, b) = trim_range(&chars, 0, chars.len(), TrimSet::Whitespace);
    assert(chars@.subrange(0, chars@.len() as int) =~= value@);
    let trimmed = slice_chars(&chars, a, b);
    let lower = lowercase(&trimmed);
    if is_text(&lower, "default") || is_text(&lower, "reset") || is_text(&lower, "none") {
        return Ok(Color::Reset);
    }
    let trimmed_text = string_of(&trimmed);
    if let Some(color) = parse_config_hex_color(trimmed_text.as_str()) {
        return Ok(color.color());
    }
    let lower_text = string_of(&lower);
    if let Some(index) = parse_ansi_index(lower_text.as_str()) {
        return Ok(Color::Indexed(index));
    }
    if let Some(color) = parse_named_color(lower_text.as_str()) {
        return Ok(color);
    }
    let mut message = String::from_str("invalid color for ");
    message.append(name);
    message.append(": ");
    message.append(value);
    message.append("; expected #rrggbb, ansi-N, or a named color");
    Err(ThemeError::Usage(message))
}

/// Parses an optional color value of configuration key `name`.
pub fn config_color(value: &Option<String>, name: &str) -> (r: Result<Option<Color>, ThemeError>)
    ensures
        match *value {
            None => r == Ok::<Option<Color>, ThemeError>(None),
            Some(v) => match r {
                Ok(Some(c)) => config_color_spec(v@) == Some(c),
                Ok(None) => false,
                Err(ThemeError::Usage(m)) => config_color_spec(v@) is None && m@ == invalid_color_message(name@, v@),
            },
        },
{
    match value {
        None => Ok(None),
        Some(v) => match parse_config_color(v.as_str(), name) {
            Ok(c) => Ok(Some(c)),
            Err(e) => Err(e),
        },
    }
}

/// Slot `i` of the overrides is absent or names a color.
pub open spec fn slot_ok(c: ColorOverrides, i: int) -> bool {
    match override_value(c, i) {
        Some(v) => config_color_spec(v) is Some,
        None => true,
    }
}

/// Slot `i` of theme `t` after the overrides `c`.
pub open spec fn overridden_slot(t: DiffTheme, c: ColorOverrides, i: int) -> Option<Color> {
    match override_value(c, i) {
        Some(v) => config_color_spec(v),
        None => theme_slot(t, i),
    }
}

impl DiffTheme {
    /// The theme with the configuration's color overrides laid over it. The
    /// first override (in slot order) that names no color is reported.
    pub fn with_color_overrides(self, colors: &ColorOverrides) -> (r: Result<DiffTheme, ThemeError>)
        ensures
            r is Ok <==> forall|i: int| 0 <= i < COLOR_SLOTS ==> #[trigger] slot_ok(*colors, i),
            r matches Ok(t) ==> t.transparent_background == self.transparent_background
                && forall|i: int| 0 <= i < COLOR_SLOTS ==> #[trigger] theme_slot(t, i) == overridden_slot(self, *colors, i),
            r matches Err(ThemeError::Usage(m)) ==> exists|i: int| 0 <= i < COLOR_SLOTS
                && (forall|j: int| 0 <= j < i ==> #[trigger] slot_ok(*colors, j))
                && !slot_ok(*colors, i)
                && m@ == invalid_color_message(slot_name(i), override_value(*colors, i)->0),
    {
        let mut theme = self;
        let mut i: usize = 0;
        while i < COLOR_SLOTS
            invariant
                i <= COLOR_SLOTS,
                theme.transparent_background == self.transparent_background,
                forall|j: int| 0 <= j < i ==> #[trigger] slot_ok(*colors, j),
                forall|j: int| 0 <= j < i ==> #[trigger] theme_slot(theme, j) == overridden_slot(self, *colors, j),
                forall|j: int| i <= j < COLOR_SLOTS ==> #[trigger] theme_slot(theme, j) == theme_slot(self, j),
            decreases COLOR_SLOTS - i,
        {
            let value = colors.value(i);
            match config_color(value, slot_name_text(i)) {
                Err(e) => {
                    proof {
                        assert(!slot_ok(*colors, i as int));
                    }
                    return Err(e);
                },
                Ok(Some(color)) => {
                    theme.set_slot(i, color);
                },
                Ok(None) => {},
            }
            i += 1;
        }
        Ok(theme)
    }

    /// The theme with a transparent background, or not.
    pub fn with_transparent_background(self, transparent: bool) -> (r: DiffTheme)
        ensures
            r == (DiffTheme { transparent_background: transparent, ..self }),
    {
        let mut theme = self;
        theme.transparent_background = transparent;
        theme
    }
}

/// A syntax highlighting class.
#[derive(Debug, Clone, Copy, PartialEq, Eq, Structural)]
pub enum SyntaxClass {
    Attribute,
    Comment,
    Constant,
    Constructor,
    Function,
    Keyword,
    Label,
    Module,
    Number,
    Operator,
    Property,
    Punctuation,
    String,
    Tag,
    Type,
    Variable,
}

impl SyntaxPalette {
    /// The color of a syntax class, if the palette gives it one.
    pub fn color(self, class: SyntaxClass) -> (r: Option<Color>)
        ensures
            r == match class {
                SyntaxClass::Attribute => self.attribute,
                SyntaxClass::Comment => self.comment,
                SyntaxClass::Constant => self.constant,
                SyntaxClass::Constructor => self.constructor,
                SyntaxClass::Function => self.function,
                SyntaxClass::Keyword => self.keyword,
                SyntaxClass::Label => self.label,
                SyntaxClass::Module => self.module,
                SyntaxClass::Number => self.number,
                SyntaxClass::Operator => self.operator,
                SyntaxClass::Property => self.property,
                SyntaxClass::Punctuation => self.punctuation,
                SyntaxClass::String => self.string,
                SyntaxClass::Tag => self.tag,
                SyntaxClass::Type => self.typ,
                SyntaxClass::Variable => self.variable,
            },
    {
        match class {
            SyntaxClass::Attribute => self.attribute,
            SyntaxClass::Comment => self.comment,
            SyntaxClass::Constant => self.constant,
            SyntaxClass::Constructor => self.constructor,
            SyntaxClass::Function => self.function,
            SyntaxClass::Keyword => self.keyword,
            SyntaxClass::Label => self.label,
            SyntaxClass::Module => self.module,
            SyntaxClass::Number => self.number,
            SyntaxClass::Operator => self.operator,
            SyntaxClass::Property => self.property,
            SyntaxClass::Punctuation => self.punctuation,
            SyntaxClass::String => self.string,
            SyntaxClass::Tag => self.tag,
            SyntaxClass::Type => self.typ,
            SyntaxClass::Variable => self.variable,
        }
    }
}

impl SyntaxPalette {
    /// The palette of the terminal's own indexed colors.
    pub open spec fn ansi_spec() -> SyntaxPalette {
        SyntaxPalette {
            attribute: Some(Color::Indexed(12)),
            comment: Some(Color::Indexed(8)),
            constant: Some(Color::Indexed(11)),
            constructor: Some(Color::Indexed(14)),
            function: Some(Color::Indexed(12)),
            keyword: Some(Color::Indexed(13)),
            label: Some(Color::Indexed(12)),
            module: Some(Color::Indexed(12)),
            number: Some(Color::Indexed(11)),
            operator: Some(Color::Indexed(13)),
            property: Some(Color::Indexed(12)),
            punctuation: Some(Color::Indexed(8)),
            string: Some(Color::Indexed(10)),
            tag: Some(Color::Indexed(9)),
            typ: Some(Color::Indexed(14)),
            variable: None,
        }
    }
}

impl SyntaxPalette {
    /// The palette of the terminal's own indexed colors.
    pub fn ansi() -> (r: SyntaxPalette)
        ensures
            r == Self::ansi_spec(),
            r == (SyntaxPalette {
                attribute: Some(Color::Indexed(12)),
                comment: Some(Color::Indexed(8)),
                constant: Some(Color::Indexed(11)),
                constructor: Some(Color::Indexed(14)),
                function: Some(Color::Indexed(12)),
                keyword: Some(Color::Indexed(13)),
                label: Some(Color::Indexed(12)),
                module: Some(Color::Indexed(12)),
                number: Some(Color::Indexed(11)),
                operator: Some(Color::Indexed(13)),
                property: Some(Color::Indexed(12)),
                punctuation: Some(Color::Indexed(8)),
                string: Some(Color::Indexed(10)),
                tag: Some(Color::Indexed(9)),
                typ: Some(Color::Indexed(14)),
                variable: None,
            }),
    {
        SyntaxPalette {
            attribute: Some(Color::Indexed(12)),
            comment: Some(Color::Indexed(8)),
            constant: Some(Color::Indexed(11)),
            constructor: Some(Color::Indexed(14)),
            function: Some(Color::Indexed(12)),
            keyword: Some(Color::Indexed(13)),
            label: Some(Color::Indexed(12)),
            module: Some(Color::Indexed(12)),
            number: Some(Color::Indexed(11)),
            operator: Some(Color::Indexed(13)),
            property: Some(Color::Indexed(12)),
            punctuation: Some(Color::Indexed(8)),
            string: Some(Color::Indexed(10)),
            tag: Some(Color::Indexed(9)),
            typ: Some(Color::Indexed(14)),
            variable: None,
        }
    }

    /// The palette of a base16 scheme.
    pub fn base16(scheme: Base16Scheme) -> (r: SyntaxPalette)
        ensures
            r == (SyntaxPalette {
                attribute: Some(Color::Rgb(scheme.base0c.red, scheme.base0c.green, scheme.base0c.blue)),
                comment: Some(Color::Rgb(scheme.base03.red, scheme.base03.green, scheme.base03.blue)),
                constant: Some(Color::Rgb(scheme.base09.red, scheme.base09.green, scheme.base09.blue)),
                constructor: Some(Color::Rgb(scheme.base0a.red, scheme.base0a.green, scheme.base0a.blue)),
                function: Some(Color::Rgb(scheme.base0d.red, scheme.base0d.green, scheme.base0d.blue)),
                keyword: Some(Color::Rgb(scheme.base0e.red, scheme.base0e.green, scheme.base0e.blue)),
                label: Some(Color::Rgb(scheme.base0d.red, scheme.base0d.green, scheme.base0d.blue)),
                module: Some(Color::Rgb(scheme.base0d.red, scheme.base0d.green, scheme.base0d.blue)),
                number: Some(Color::Rgb(scheme.base09.red, scheme.base09.green, scheme.base09.blue)),
                operator: Some(Color::Rgb(scheme.base0e.red, scheme.base0e.green, scheme.base0e.blue)),
                property: Some(Color::Rgb(scheme.base0c.red, scheme.base0c.green, scheme.base0c.blue)),
                punctuation: Some(Color::Rgb(scheme.base04.red, scheme.base04.green, scheme.base04.blue)),
                string: Some(Color::Rgb(scheme.base0b.red, scheme.base0b.green, scheme.base0b.blue)),
                tag: Some(Color::Rgb(scheme.base08.red, scheme.base08.green, scheme.base08.blue)),
                typ: Some(Color::Rgb(scheme.base0a.red, scheme.base0a.green, scheme.base0a.blue)),
                variable: None,
            }),
    {
        SyntaxPalette {
            attribute: Some(scheme.base0c.color()),
            comment: Some(scheme.base03.color()),
            constant: Some(scheme.base09.color()),
            constructor: Some(scheme.base0a.color()),
            function: Some(scheme.base0d.color()),
            keyword: Some(scheme.base0e.color()),
            label: Some(scheme.base0d.color()),
            module: Some(scheme.base0d.color()),
            number: Some(scheme.base09.color()),
            operator: Some(scheme.base0e.color()),
            property: Some(scheme.base0c.color()),
            punctuation: Some(scheme.base04.color()),
            string: Some(scheme.base0b.color()),
            tag: Some(scheme.base08.color()),
            typ: Some(scheme.base0a.color()),
            variable: None,
        }
    }
}

impl DiffTheme {
    /// The theme of the terminal's own indexed colors.
    pub fn ansi() -> (r: DiffTheme)
        ensures
            r == (DiffTheme {
                foreground: Color::Reset,
                background: Color::Reset,
                header: Color::Indexed(15),
                file: Color::Indexed(15),
                hunk: Color::Indexed(13),
                notice: Color::Indexed(2),
                cursor: Color::Indexed(15),
                cursor_line_bg: Color::Indexed(237),
                muted: Color::Indexed(8),
                gutter_bg: Color::Indexed(0),
                empty_diff: Color::Indexed(8),
                search_match_fg: Color::Indexed(0),
                search_match_bg: Color::Indexed(3),
                statusline_fg: Color::Indexed(15),
                statusline_bg: Color::Indexed(0),
                statusline_accent_fg: Color::Indexed(0),
                statusline_accent_bg: Color::Indexed(13),
                statusline_info_fg: Color::Indexed(15),
                statusline_info_bg: Color::Indexed(8),
                addition_fg: Color::Indexed(2),
                addition_gutter_bg: Color::Indexed(0),
                addition_bg: Color::Reset,
                addition_inline_bg: Color::Indexed(22),
                deletion_fg: Color::Indexed(1),
                deletion_gutter_bg: Color::Indexed(0),
                deletion_bg: Color::Reset,
                deletion_inline_bg: Color::Indexed(52),
                transparent_background: false,
                syntax: SyntaxPalette::ansi_spec(),
            }),
    {
        DiffTheme {
            foreground: Color::Reset,
            background: Color::Reset,
            header: Color::Indexed(15),
            file: Color::Indexed(15),
            hunk: Color::Indexed(13),
            notice: Color::Indexed(2),
            cursor: Color::Indexed(15),
            cursor_line_bg: Color::Indexed(237),
            muted: Color::Indexed(8),
            gutter_bg: Color::Indexed(0),
            empty_diff: Color::Indexed(8),
            search_match_fg: Color::Indexed(0),
            search_match_bg: Color::Indexed(3),
            statusline_fg: Color::Indexed(15),
            statusline_bg: Color::Indexed(0),
            statusline_accent_fg: Color::Indexed(0),
            statusline_accent_bg: Color::Indexed(13),
            statusline_info_fg: Color::Indexed(15),
            statusline_info_bg: Color::Indexed(8),
            addition_fg: Color::Indexed(2),
            addition_gutter_bg: Color::Indexed(0),
            addition_bg: Color::Reset,
            addition_inline_bg: Color::Indexed(22),
            deletion_fg: Color::Indexed(1),
            deletion_gutter_bg: Color::Indexed(0),
            deletion_bg: Color::Reset,
            deletion_inline_bg: Color::Indexed(52),
            transparent_background: false,
            syntax: SyntaxPalette::ansi(),
        }
    }
}
/// The foreground of a line's gutter: the addition or deletion color, or
/// the plain foreground.
pub fn line_gutter_fg(kind: DiffLineKind, theme: DiffTheme) -> (r: Color)
    ensures
        r == match kind {
            DiffLineKind::Addition => theme.addition_fg,
            DiffLineKind::Deletion => theme.deletion_fg,
            _ => theme.foreground,
        },
{
    match kind {
        DiffLineKind::Addition => theme.addition_fg,
        DiffLineKind::Deletion => theme.deletion_fg,
        DiffLineKind::Context | DiffLineKind::Meta => theme.foreground,
    }
}

/// The built-in colorschemes.
#[derive(Debug, Clone, Copy, PartialEq, Eq, Structural)]
pub enum BuiltinTheme {
    System,
    CatppuccinLatte,
    CatppuccinFrappe,
    CatppuccinMacchiato,
    CatppuccinMocha,
    GruvboxDark,
    GruvboxLight,
    GithubDark,
    GithubDarkHighContrast,
    GithubLight,
    GithubLightHighContrast,
    Tokyonight,
}

/// The built-in scheme a (trimmed, lower-cased) name selects.
pub open spec fn builtin_choice_spec(n: Seq<char>) -> Option<BuiltinTheme> {
    if n == "system"@ || n == "default"@ || n == ""@ {
        Some(BuiltinTheme::System)
    } else if n == "catppuccin-latte"@ || n == "latte"@ {
        Some(BuiltinTheme::CatppuccinLatte)
    } else if n == "catppuccin-frappe"@ || n == "frappe"@ {
        Some(BuiltinTheme::CatppuccinFrappe)
    } else if n == "catppuccin-macchiato"@ || n == "macchiato"@ {
        Some(BuiltinTheme::CatppuccinMacchiato)
    } else if n == "catppuccin"@ || n == "catppuccin-mocha"@ || n == "mocha"@ {
        Some(BuiltinTheme::CatppuccinMocha)
    } else if n == "gruvbox"@ || n == "gruvbox-dark"@ {
        Some(BuiltinTheme::GruvboxDark)
    } else if n == "gruvbox-light"@ {
        Some(BuiltinTheme::GruvboxLight)
    } else if n == "github"@ || n == "github-dark"@ {
        Some(BuiltinTheme::GithubDark)
    } else if n == "github-dark-high-contrast"@ || n == "github-high-contrast"@ {
        Some(BuiltinTheme::GithubDarkHighContrast)
    } else if n == "github-light"@ {
        Some(BuiltinTheme::GithubLight)
    } else if n == "github-light-high-contrast"@ {
        Some(BuiltinTheme::GithubLightHighContrast)
    } else if n == "tokyonight"@ || n == "tokyo-night"@ || n == "tokyonight-night"@ {
        Some(BuiltinTheme::Tokyonight)
    } else {
        None
    }
}

/// The name a colorscheme is looked up by: trimmed and lower-cased, `system`
/// when none is given.
pub open spec fn scheme_key(name: Option<Seq<char>>) -> Seq<char> {
    match name {
        Some(n) => lower_seq(trim_by(n, TrimSet::Whitespace)),
        None => lower_seq(trim_by("system"@, TrimSet::Whitespace)),
    }
}

/// The built-in colorscheme a name selects, or the error that it names none.
pub fn builtin_theme_choice(name: Option<&str>) -> (r: Result<BuiltinTheme, ThemeError>)
    ensures
        match r {
            Ok(t) => builtin_choice_spec(scheme_key(opt_view(name))) == Some(t),
            Err(ThemeError::Usage(m)) => builtin_choice_spec(scheme_key(opt_view(name))) is None
                && m@ == "unknown colorscheme '"@ + scheme_key(opt_view(name)) + "'"@,
        },
{
    let text = match name {
        Some(n) => n,
        None => "system",
    };
    let chars = chars_vec(text);
    let (a, b) = trim_range(&chars, 0, chars.len(), TrimSet::Whitespace);
    assert(chars@.subrange(0, chars@.len() as int) =~= text@);
    let trimmed = slice_chars(&chars, a, b);
    let n = lowercase(&trimmed);
    if is_text(&n, "system") || is_text(&n, "default") || is_text(&n, "") {
        Ok(BuiltinTheme::System)
    } else if is_text(&n, "catppuccin-latte") || is_text(&n, "latte") {
        Ok(BuiltinTheme::CatppuccinLatte)
    } else if is_text(&n, "catppuccin-frappe") || is_text(&n, "frappe") {
        Ok(BuiltinTheme::CatppuccinFrappe)
    } else if is_text(&n, "catppuccin-macchiato") || is_text(&n, "macchiato") {
        Ok(BuiltinTheme::CatppuccinMacchiato)
    } else if is_text(&n, "catppuccin") || is_text(&n, "catppuccin-mocha") || is_text(&n, "mocha") {
        Ok(BuiltinTheme::CatppuccinMocha)
    } else if is_text(&n, "gruvbox") || is_text(&n, "gruvbox-dark") {
        Ok(BuiltinTheme::GruvboxDark)
    } else if is_text(&n, "gruvbox-light") {
        Ok(BuiltinTheme::GruvboxLight)
    } else if is_text(&n, "github") || is_text(&n, "github-dark") {
        Ok(BuiltinTheme::GithubDark)
    } else if is_text(&n, "github-dark-high-contrast") || is_text(&n, "github-high-contrast") {
        Ok(BuiltinTheme::GithubDarkHighContrast)
    } else if is_text(&n, "github-light") {
        Ok(BuiltinTheme::GithubLight)
    } else if is_text(&n, "github-light-high-contrast") {
        Ok(BuiltinTheme::GithubLightHighContrast)
    } else if is_text(&n, "tokyonight") || is_text(&n, "tokyo-night") || is_text(&n, "tokyonight-night") {
        Ok(BuiltinTheme::Tokyonight)
    } else {
        let mut message = String::from_str("unknown colorscheme '");
        let key = string_of(&n);
        message.append(key.as_str());
        message.append("'");
        Err(ThemeError::Usage(message))
    }
}

/// The characters of an optional text.
pub open spec fn opt_view(name: Option<&str>) -> Option<Seq<char>> {
    match name {
        Some(n) => Some(n@),
        None => None,
    }
}

/// Laying a configuration without any color over a theme leaves the theme
/// as it was: every color slot is either overridden or kept, and nothing
/// else changes.
pub proof fn overrides_without_colors_keep_the_theme(theme: DiffTheme, colors: ColorOverrides, t: DiffTheme)
    requires
        forall|i: int| 0 <= i < COLOR_SLOTS ==> (#[trigger] override_value(colors, i)) is None,
        t.transparent_background == theme.transparent_background,
        forall|i: int| 0 <= i < COLOR_SLOTS ==> #[trigger] theme_slot(t, i) == overridden_slot(theme, colors, i),
    ensures
        t == theme,
{
    assert forall|i: int| 0 <= i < COLOR_SLOTS implies #[trigger] theme_slot(t, i) == theme_slot(theme, i) by {
        assert(override_value(colors, i) is None);
        assert(theme_slot(t, i) == overridden_slot(theme, colors, i));
    }
    assert(theme_slot(t, 0) == theme_slot(theme, 0));
    assert(theme_slot(t, 1) == theme_slot(theme, 1));
    assert(theme_slot(t, 2) == theme_slot(theme, 2));
    assert(theme_slot(t, 3) == theme_slot(theme, 3));
    assert(theme_slot(t, 4) == theme_slot(theme, 4));
    assert(theme_slot(t, 5) == theme_slot(theme, 5));
    assert(theme_slot(t, 6) == theme_slot(theme, 6));
    assert(theme_slot(t, 7) == theme_slot(theme, 7));
    assert(theme_slot(t, 8) == theme_slot(theme, 8));
    assert(theme_slot(t, 9) == theme_slot(theme, 9));
    assert(theme_slot(t, 10) == theme_slot(theme, 10));
    assert(theme_slot(t, 11) == theme_slot(theme, 11));
    assert(theme_slot(t, 12) == theme_slot(theme, 12));
    assert(theme_slot(t, 13) == theme_slot(theme, 13));
    assert(theme_slot(t, 14) == theme_slot(theme, 14));
    assert(theme_slot(t, 15) == theme_slot(theme, 15));
    assert(theme_slot(t, 16) == theme_slot(theme, 16));
    assert(theme_slot(t, 17) == theme_slot(theme, 17));
    assert(theme_slot(t, 18) == theme_slot(theme, 18));
    assert(theme_slot(t, 19) == theme_slot(theme, 19));
    assert(theme_slot(t, 20) == theme_slot(theme, 20));
    assert(theme_slot(t, 21) == theme_slot(theme, 21));
    assert(theme_slot(t, 22) == theme_slot(theme, 22));
    assert(theme_slot(t, 23) == theme_slot(theme, 23));
    assert(theme_slot(t, 24) == theme_slot(theme, 24));
    assert(theme_slot(t, 25) == theme_slot(theme, 25));
    assert(theme_slot(t, 26) == theme_slot(theme, 26));
    assert(theme_slot(t, 27) == theme_slot(theme, 27));
    assert(theme_slot(t, 28) == theme_slot(theme, 28));
    assert(theme_slot(t, 29) == theme_slot(theme, 29));
    assert(theme_slot(t, 30) == theme_slot(theme, 30));
    assert(theme_slot(t, 31) == theme_slot(theme, 31));
    assert(theme_slot(t, 32) == theme_slot(theme, 32));
    assert(theme_slot(t, 33) == theme_slot(theme, 33));
    assert(theme_slot(t, 34) == theme_slot(theme, 34));
    assert(theme_slot(t, 35) == theme_slot(theme, 35));
    assert(theme_slot(t, 36) == theme_slot(theme, 36));
    assert(theme_slot(t, 37) == theme_slot(theme, 37));
    assert(theme_slot(t, 38) == theme_slot(theme, 38));
    assert(theme_slot(t, 39) == theme_slot(theme, 39));
    assert(theme_slot(t, 40) == theme_slot(theme, 40));
    assert(theme_slot(t, 41) == theme_slot(theme, 41));
    assert(theme_slot(t, 42) == theme_slot(theme, 42));
    assert(t.syntax == theme.syntax);
}

} // verus!
