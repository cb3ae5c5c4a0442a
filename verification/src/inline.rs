//! Inline emphasis of the tokens that changed between a deleted and an added
//! line.
use vstd::prelude::*;
use vstd::string::StringSliceAdditionalSpecFns;
use vstd::utf8::{encode_scalar, encode_utf8};
use crate::text::chars_vec;
use crate::unicode::{
    char_is_alphanumeric, char_is_whitespace, char_len_utf8, unicode_is_alphanumeric,
    unicode_is_whitespace,
};

verus! {

broadcast use vstd::string::group_string_axioms;

/// Lines longer than this many bytes get no inline emphasis.
pub const MAX_INLINE_DIFF_LINE_BYTES: usize = 4096;

/// Lines with more tokens than this get no inline emphasis.
pub const MAX_INLINE_DIFF_TOKENS: usize = 256;

/// A byte range of a line that is emphasised.
#[derive(Debug, Clone, Copy, PartialEq, Eq, Structural)]
pub struct InlineRange {
    pub byte_start: usize,
    pub byte_end: usize,
}

/// A token of a line, as a byte range.
#[derive(Debug, Clone, Copy, PartialEq, Eq, Structural)]
pub struct InlineToken {
    pub byte_start: usize,
    pub byte_end: usize,
}

/// The class of a character for tokenizing: runs of word or whitespace
/// characters form one token, every other character is a token of its own.
#[derive(Debug, Clone, Copy, PartialEq, Eq, Structural)]
pub enum InlineCharClass {
    Word,
    Whitespace,
    Other,
}

/// The class of an ASCII byte: whitespace (including vertical tab), word
/// (`_`, letters and digits) or other.
pub open spec fn ascii_class_spec(b: u8) -> InlineCharClass {
    if b == 0x20 || b == 0x09 || b == 0x0a || b == 0x0c || b == 0x0d || b == 0x0b {
        InlineCharClass::Whitespace
    } else if b == 0x5f || (0x30 <= b <= 0x39) || (0x41 <= b <= 0x5a) || (0x61 <= b <= 0x7a) {
        InlineCharClass::Word
    } else {
        InlineCharClass::Other
    }
}

/// The class of a character by its Unicode properties.
pub open spec fn char_class_spec(c: char) -> InlineCharClass {
    if unicode_is_whitespace(c) {
        InlineCharClass::Whitespace
    } else if c == '_' || unicode_is_alphanumeric(c) {
        InlineCharClass::Word
    } else {
        InlineCharClass::Other
    }
}

/// Classifies an ASCII byte.
pub fn inline_ascii_class(byte: u8) -> (r: InlineCharClass)
    ensures
        r == ascii_class_spec(byte),
{
    if byte == 0x20 || byte == 0x09 || byte == 0x0a || byte == 0x0c || byte == 0x0d || byte == 0x0b {
        InlineCharClass::Whitespace
    } else if byte == 0x5f || (0x30 <= byte && byte <= 0x39) || (0x41 <= byte && byte <= 0x5a) || (0x61 <= byte && byte <= 0x7a) {
        InlineCharClass::Word
    } else {
        InlineCharClass::Other
    }
}

/// Classifies a character. On ASCII the class is the one `inline_ascii_class`
/// gives its byte.
pub fn inline_char_class(ch: char) -> (r: InlineCharClass)
    ensures
        r == char_class_spec(ch),
        (ch as u32) < 0x80 ==> r == ascii_class_spec((ch as u32) as u8),
{
    if char_is_whitespace(ch) {
        InlineCharClass::Whitespace
    } else if ch == '_' || char_is_alphanumeric(ch) {
        InlineCharClass::Word
    } else {
        InlineCharClass::Other
    }
}

/// Where the run of equally classed units starting at `start` ends, looking
/// from `e` on.
pub open spec fn run_end(cls: Seq<InlineCharClass>, start: int, e: int) -> int
    decreases cls.len() - e,
{
    if e >= cls.len() || cls[e] != cls[start] {
        e
    } else {
        run_end(cls, start, e + 1)
    }
}

/// The end of the token that starts at `start`.
pub open spec fn token_end(cls: Seq<InlineCharClass>, start: int) -> int {
    if cls[start] == InlineCharClass::Other {
        start + 1
    } else {
        run_end(cls, start, start + 1)
    }
}

proof fn lemma_run_end(cls: Seq<InlineCharClass>, start: int, e: int)
    requires
        0 <= start < e <= cls.len(),
    ensures
        e <= run_end(cls, start, e) <= cls.len(),
    decreases cls.len() - e,
{
    if e < cls.len() && cls[e] == cls[start] {
        lemma_run_end(cls, start, e + 1);
    }
}

/// Splits a sequence of classes into tokens, as unit index ranges, starting at
/// `start`.
pub open spec fn tokenize(cls: Seq<InlineCharClass>, start: int) -> Seq<(int, int)>
    decreases cls.len() - start,
    when 0 <= start
{
    if start >= cls.len() {
        Seq::empty()
    } else {
        let e = token_end(cls, start);
        if e <= start || e > cls.len() {
            Seq::empty()
        } else {
            seq![(start, e)] + tokenize(cls, e)
        }
    }
}

/// Byte offset of the character at index `i`.
pub open spec fn byte_pos(s: Seq<char>, i: int) -> int {
    encode_utf8(s.take(i)).len() as int
}

/// The ASCII tokens of a byte string.
pub open spec fn ascii_tokens_spec(bytes: Seq<u8>) -> Seq<InlineToken> {
    tokenize(bytes.map_values(|b: u8| ascii_class_spec(b)), 0).map_values(
        |t: (int, int)| InlineToken { byte_start: t.0 as usize, byte_end: t.1 as usize },
    )
}

/// The tokens of a text of any characters, as byte ranges.
pub open spec fn char_tokens_spec(s: Seq<char>) -> Seq<InlineToken> {
    tokenize(s.map_values(|c: char| char_class_spec(c)), 0).map_values(
        |t: (int, int)| InlineToken {
            byte_start: byte_pos(s, t.0) as usize,
            byte_end: byte_pos(s, t.1) as usize,
        },
    )
}

/// The tokens of `text`: the ASCII rules for ASCII text, the Unicode rules
/// otherwise.
pub open spec fn tokens_of(s: Seq<char>) -> Seq<InlineToken> {
    if vstd::utf8::is_ascii_chars(s) {
        ascii_tokens_spec(encode_utf8(s))
    } else {
        char_tokens_spec(s)
    }
}

/// The tokens of a string.
pub open spec fn inline_tokens_spec(text: &str) -> Seq<InlineToken> {
    tokens_of(text@)
}

/// Tokenizes an ASCII text by bytes.
pub fn inline_tokens_ascii(text: &str) -> (r: Vec<InlineToken>)
    ensures
        r@ == ascii_tokens_spec(text.spec_bytes()),
{
    let bytes = text.as_bytes();
    let ghost cls = bytes@.map_values(|b: u8| ascii_class_spec(b));
    let mut tokens: Vec<InlineToken> = Vec::new();
    let mut start: usize = 0;
    while start < bytes.len()
        invariant
            start <= bytes@.len(),
            bytes@ == text.spec_bytes(),
            cls == bytes@.map_values(|b: u8| ascii_class_spec(b)),
            tokenize(cls, 0).map_values(|t: (int, int)| InlineToken { byte_start: t.0 as usize, byte_end: t.1 as usize })
                == tokens@ + tokenize(cls, start as int).map_values(|t: (int, int)| InlineToken { byte_start: t.0 as usize, byte_end: t.1 as usize }),
        decreases bytes@.len() - start,
    {
        let class = inline_ascii_class(bytes[start]);
        let mut end = start + 1;
        if class != InlineCharClass::Other {
            while end < bytes.len() && inline_ascii_class(bytes[end]) == class
                invariant
                    start < end <= bytes@.len(),
                    cls == bytes@.map_values(|b: u8| ascii_class_spec(b)),
                    class == cls[start as int],
                    run_end(cls, start as int, start as int + 1) == run_end(cls, start as int, end as int),
                decreases bytes@.len() - end,
            {
                end += 1;
            }
        }
        proof {
            lemma_run_end(cls, start as int, start as int + 1);
            let f = |t: (int, int)| InlineToken { byte_start: t.0 as usize, byte_end: t.1 as usize };
            assert(token_end(cls, start as int) == end as int);
            assert(tokenize(cls, start as int) == seq![(start as int, end as int)] + tokenize(cls, end as int));
            assert((seq![(start as int, end as int)] + tokenize(cls, end as int)).map_values(f)
                =~= seq![f((start as int, end as int))] + tokenize(cls, end as int).map_values(f));
        }
        tokens.push(InlineToken { byte_start: start, byte_end: end });
        start = end;
    }
    proof {
        let f = |t: (int, int)| InlineToken { byte_start: t.0 as usize, byte_end: t.1 as usize };
        assert(tokenize(cls, start as int) =~= Seq::<(int, int)>::empty());
        assert(tokens@ + tokenize(cls, start as int).map_values(f) =~= tokens@);
    }
    tokens
}

/// UTF-8 encoding distributes over concatenation.
pub proof fn lemma_encode_concat(a: Seq<char>, b: Seq<char>)
    ensures
        encode_utf8(a + b) == encode_utf8(a) + encode_utf8(b),
    decreases a.len(),
{
    if a.len() == 0 {
        assert(a + b =~= b);
        assert(encode_utf8(a) =~= Seq::<u8>::empty());
        assert(Seq::<u8>::empty() + encode_utf8(b) =~= encode_utf8(b));
    } else {
        assert((a + b).drop_first() =~= a.drop_first() + b);
        assert((a + b)[0] == a[0]);
        lemma_encode_concat(a.drop_first(), b);
        assert(encode_utf8(a + b) =~= encode_utf8(a) + encode_utf8(b));
    }
}

/// Byte offsets grow by each character's encoding length.
pub proof fn lemma_byte_pos_step(s: Seq<char>, i: int)
    requires
        0 <= i < s.len(),
    ensures
        byte_pos(s, i + 1) == byte_pos(s, i) + encode_utf8(seq![s[i]]).len(),
        byte_pos(s, i + 1) <= byte_pos(s, s.len() as int),
{
    assert(s.take(i + 1) =~= s.take(i) + seq![s[i]]);
    lemma_encode_concat(s.take(i), seq![s[i]]);
    assert(s.take(s.len() as int) =~= s.take(i + 1) + s.skip(i + 1));
    lemma_encode_concat(s.take(i + 1), s.skip(i + 1));
}

/// The byte offset of every character index, and of the end.
pub fn char_byte_offsets(text: &str, chars: &Vec<char>) -> (r: Vec<usize>)
    requires
        chars@ == text@,
    ensures
        r@.len() == chars@.len() + 1,
        forall|i: int| 0 <= i <= chars@.len() ==> r@[i] as int == byte_pos(text@, i),
{
    let ghost s = text@;
    let total = text.as_bytes().len();
    proof {
        assert(s.take(s.len() as int) =~= s);
        assert(byte_pos(s, s.len() as int) == total);
        assert(s.take(0) =~= Seq::<char>::empty());
        assert(byte_pos(s, 0) == 0);
    }
    let mut offs: Vec<usize> = Vec::new();
    offs.push(0);
    let mut pos: usize = 0;
    let mut i: usize = 0;
    while i < chars.len()
        invariant
            i <= chars@.len(),
            chars@ == s,
            s == text@,
            byte_pos(s, s.len() as int) == total,
            pos as int == byte_pos(s, i as int),
            offs@.len() == i + 1,
            forall|j: int| 0 <= j <= i ==> offs@[j] as int == byte_pos(s, j),
        decreases chars@.len() - i,
    {
        let n = char_len_utf8(chars[i]);
        proof {
            lemma_byte_pos_step(s, i as int);
        }
        pos = pos + n;
        offs.push(pos);
        i += 1;
    }
    offs
}

/// Tokenizes a text of any characters, giving byte ranges.
pub fn inline_tokens_chars(text: &str) -> (r: Vec<InlineToken>)
    ensures
        r@ == char_tokens_spec(text@),
{
    let chars = chars_vec(text);
    let offs = char_byte_offsets(text, &chars);
    let ghost s = text@;
    let ghost cls = s.map_values(|c: char| char_class_spec(c));
    let ghost f = |t: (int, int)| InlineToken { byte_start: byte_pos(s, t.0) as usize, byte_end: byte_pos(s, t.1) as usize };
    let mut tokens: Vec<InlineToken> = Vec::new();
    let mut start: usize = 0;
    while start < chars.len()
        invariant
            start <= chars@.len(),
            chars@ == s,
            offs@.len() == chars@.len() + 1,
            forall|i: int| 0 <= i <= chars@.len() ==> offs@[i] as int == byte_pos(s, i),
            cls == s.map_values(|c: char| char_class_spec(c)),
            f == (|t: (int, int)| InlineToken { byte_start: byte_pos(s, t.0) as usize, byte_end: byte_pos(s, t.1) as usize }),
            tokenize(cls, 0).map_values(f) == tokens@ + tokenize(cls, start as int).map_values(f),
        decreases chars@.len() - start,
    {
        let class = inline_char_class(chars[start]);
        let mut end = start + 1;
        if class != InlineCharClass::Other {
            while end < chars.len() && inline_char_class(chars[end]) == class
                invariant
                    start < end <= chars@.len(),
                    chars@ == s,
                    cls == s.map_values(|c: char| char_class_spec(c)),
                    class == cls[start as int],
                    run_end(cls, start as int, start as int + 1) == run_end(cls, start as int, end as int),
                decreases chars@.len() - end,
            {
                end += 1;
            }
        }
        proof {
            lemma_run_end(cls, start as int, start as int + 1);
            assert(token_end(cls, start as int) == end as int);
            assert(tokenize(cls, start as int) == seq![(start as int, end as int)] + tokenize(cls, end as int));
            assert((seq![(start as int, end as int)] + tokenize(cls, end as int)).map_values(f)
                =~= seq![f((start as int, end as int))] + tokenize(cls, end as int).map_values(f));
        }
        tokens.push(InlineToken { byte_start: offs[start], byte_end: offs[end] });
        start = end;
    }
    proof {
        assert(tokenize(cls, start as int) =~= Seq::<(int, int)>::empty());
        assert(tokens@ + tokenize(cls, start as int).map_values(f) =~= tokens@);
    }
    tokens
}

/// Tokenizes a line for inline emphasis.
pub fn inline_tokens(text: &str) -> (r: Vec<InlineToken>)
    ensures
        r@ == inline_tokens_spec(text),
{
    if text.is_ascii() {
        return inline_tokens_ascii(text);
    }
    inline_tokens_chars(text)
}


/// The bytes of a token.
pub open spec fn token_bytes(bytes: Seq<u8>, t: InlineToken) -> Seq<u8> {
    bytes.subrange(t.byte_start as int, t.byte_end as int)
}

/// Whether a token lies within a text of `len` bytes.
pub open spec fn token_in_bounds(t: InlineToken, len: nat) -> bool {
    t.byte_start <= t.byte_end && t.byte_end <= len
}

/// The texts of a line's tokens.
pub open spec fn token_texts(bytes: Seq<u8>, tokens: Seq<InlineToken>) -> Seq<Seq<u8>> {
    Seq::new(tokens.len(), |i: int| token_bytes(bytes, tokens[i]))
}

/// `n + 1`, saturating at `u16::MAX`.
pub open spec fn sat16_inc(n: nat) -> nat {
    if n + 1 > u16::MAX { u16::MAX as nat } else { n + 1 }
}

/// Length of a longest common subsequence of `a[..i]` and `b[..j]`, computed
/// by the usual recurrence with counts saturating at `u16::MAX`.
pub open spec fn lcs_table(a: Seq<Seq<u8>>, b: Seq<Seq<u8>>, i: nat, j: nat) -> nat
    decreases i + j,
{
    if i == 0 || j == 0 {
        0
    } else if a[i - 1] == b[j - 1] {
        sat16_inc(lcs_table(a, b, (i - 1) as nat, (j - 1) as nat))
    } else {
        let up = lcs_table(a, b, (i - 1) as nat, j);
        let left = lcs_table(a, b, i, (j - 1) as nat);
        if up >= left { up } else { left }
    }
}

/// The matched token pairs that walking back through the table from
/// `(i, j)` collects: equal tokens are matched, otherwise the walk moves to
/// the larger neighbour, preferring to drop an old token on a tie.
pub open spec fn lcs_pairs(a: Seq<Seq<u8>>, b: Seq<Seq<u8>>, i: nat, j: nat) -> Seq<(int, int)>
    decreases i + j,
{
    if i == 0 || j == 0 {
        Seq::empty()
    } else if a[i - 1] == b[j - 1] {
        lcs_pairs(a, b, (i - 1) as nat, (j - 1) as nat).push(((i - 1) as int, (j - 1) as int))
    } else if lcs_table(a, b, (i - 1) as nat, j) >= lcs_table(a, b, i, (j - 1) as nat) {
        lcs_pairs(a, b, (i - 1) as nat, j)
    } else {
        lcs_pairs(a, b, i, (j - 1) as nat)
    }
}

/// Whether some pair matches old token `k` (or, with `side` false, new token `k`).
pub open spec fn pairs_mark(pairs: Seq<(int, int)>, side: bool, k: int) -> bool {
    exists|x: int| 0 <= x < pairs.len() && (if side { (#[trigger] pairs[x]).0 } else { pairs[x].1 }) == k
}

proof fn lemma_lcs_table_bound(a: Seq<Seq<u8>>, b: Seq<Seq<u8>>, i: nat, j: nat)
    ensures
        lcs_table(a, b, i, j) <= u16::MAX,
    decreases i + j,
{
    if i > 0 && j > 0 {
        lemma_lcs_table_bound(a, b, (i - 1) as nat, (j - 1) as nat);
        lemma_lcs_table_bound(a, b, (i - 1) as nat, j);
        lemma_lcs_table_bound(a, b, i, (j - 1) as nat);
    }
}

/// `q` pairs positions of `a[..i]` with positions of `b[..j]` holding equal
/// tokens, strictly increasing on both sides: a common subsequence.
pub open spec fn common_subsequence(a: Seq<Seq<u8>>, b: Seq<Seq<u8>>, q: Seq<(int, int)>, i: int, j: int) -> bool {
    &&& forall|x: int| 0 <= x < q.len() ==> 0 <= (#[trigger] q[x]).0 < i && 0 <= q[x].1 < j && a[q[x].0] == b[q[x].1]
    &&& forall|x: int, y: int| 0 <= x < y < q.len() ==> (#[trigger] q[x]).0 < (#[trigger] q[y]).0 && q[x].1 < q[y].1
}

proof fn lemma_lcs_table_at_most_prefix(a: Seq<Seq<u8>>, b: Seq<Seq<u8>>, i: nat, j: nat)
    ensures
        lcs_table(a, b, i, j) <= i,
        lcs_table(a, b, i, j) <= j,
    decreases i + j,
{
    if i > 0 && j > 0 {
        lemma_lcs_table_at_most_prefix(a, b, (i - 1) as nat, (j - 1) as nat);
        lemma_lcs_table_at_most_prefix(a, b, (i - 1) as nat, j);
        lemma_lcs_table_at_most_prefix(a, b, i, (j - 1) as nat);
    }
}

proof fn lemma_common_shrinks(a: Seq<Seq<u8>>, b: Seq<Seq<u8>>, q: Seq<(int, int)>, i: int, j: int, i2: int, j2: int)
    requires
        common_subsequence(a, b, q, i, j),
        forall|x: int| 0 <= x < q.len() ==> (#[trigger] q[x]).0 < i2 && q[x].1 < j2,
    ensures
        common_subsequence(a, b, q, i2, j2),
{
}

proof fn lemma_common_at_most_table(a: Seq<Seq<u8>>, b: Seq<Seq<u8>>, q: Seq<(int, int)>, i: nat, j: nat)
    requires
        common_subsequence(a, b, q, i as int, j as int),
        i <= u16::MAX || j <= u16::MAX,
    ensures
        q.len() <= lcs_table(a, b, i, j),
    decreases i + j,
{
    if q.len() == 0 {
        return;
    }
    let last = q.last();
    let n = q.len() - 1;
    assert(0 <= last.0 < i && 0 <= last.1 < j);
    assert forall|x: int| 0 <= x < n implies (#[trigger] q[x]).0 < last.0 && q[x].1 < last.1 by {
        assert(q[x].0 < q[n].0);
    }
    let front = q.drop_last();
    assert forall|x: int| 0 <= x < front.len() implies (#[trigger] front[x]).0 < last.0 && front[x].1 < last.1 by {
        assert(front[x] == q[x]);
    }
    assert(common_subsequence(a, b, front, i as int, j as int)) by {
        assert forall|x: int, y: int| 0 <= x < y < front.len() implies (#[trigger] front[x]).0 < (#[trigger] front[y]).0 && front[x].1 < front[y].1 by {
            assert(front[x] == q[x] && front[y] == q[y]);
        }
        assert forall|x: int| 0 <= x < front.len() implies 0 <= (#[trigger] front[x]).0 < i && 0 <= front[x].1 < j && a[front[x].0] == b[front[x].1] by {
            assert(front[x] == q[x]);
        }
    }
    if a[i - 1] == b[j - 1] {
        lemma_lcs_table_at_most_prefix(a, b, (i - 1) as nat, (j - 1) as nat);
        if last.0 < i - 1 && last.1 < j - 1 {
            lemma_common_shrinks(a, b, q, i as int, j as int, i - 1, j - 1);
            lemma_common_at_most_table(a, b, q, (i - 1) as nat, (j - 1) as nat);
        } else {
            lemma_common_shrinks(a, b, front, i as int, j as int, i - 1, j - 1);
            lemma_common_at_most_table(a, b, front, (i - 1) as nat, (j - 1) as nat);
        }
    } else {
        if last.0 < i - 1 {
            lemma_common_shrinks(a, b, q, i as int, j as int, i - 1, j as int);
            lemma_common_at_most_table(a, b, q, (i - 1) as nat, j);
        } else {
            assert(last.1 != j - 1);
            lemma_common_shrinks(a, b, q, i as int, j as int, i as int, j - 1);
            lemma_common_at_most_table(a, b, q, i, (j - 1) as nat);
        }
    }
}

proof fn lemma_pairs_common(a: Seq<Seq<u8>>, b: Seq<Seq<u8>>, i: nat, j: nat)
    requires
        i <= u16::MAX || j <= u16::MAX,
    ensures
        common_subsequence(a, b, lcs_pairs(a, b, i, j), i as int, j as int),
        lcs_pairs(a, b, i, j).len() == lcs_table(a, b, i, j),
    decreases i + j,
{
    if i > 0 && j > 0 {
        if a[i - 1] == b[j - 1] {
            lemma_pairs_common(a, b, (i - 1) as nat, (j - 1) as nat);
            lemma_lcs_table_at_most_prefix(a, b, (i - 1) as nat, (j - 1) as nat);
            let prev = lcs_pairs(a, b, (i - 1) as nat, (j - 1) as nat);
            let p = lcs_pairs(a, b, i, j);
            assert(p == prev.push(((i - 1) as int, (j - 1) as int)));
            assert forall|x: int| 0 <= x < p.len() implies 0 <= (#[trigger] p[x]).0 < i && 0 <= p[x].1 < j && a[p[x].0] == b[p[x].1] by {
                if x < prev.len() {
                    assert(p[x] == prev[x]);
                }
            }
            assert forall|x: int, y: int| 0 <= x < y < p.len() implies (#[trigger] p[x]).0 < (#[trigger] p[y]).0 && p[x].1 < p[y].1 by {
                assert(p[x] == prev[x]);
                if y < prev.len() {
                    assert(p[y] == prev[y]);
                }
            }
        } else if lcs_table(a, b, (i - 1) as nat, j) >= lcs_table(a, b, i, (j - 1) as nat) {
            lemma_pairs_common(a, b, (i - 1) as nat, j);
        } else {
            lemma_pairs_common(a, b, i, (j - 1) as nat);
        }
    }
}

/// The matched pairs are a longest common subsequence of the two token
/// lists: they pair equal tokens in increasing order on both sides, and no
/// common subsequence of the two lists has more pairs. (Lists of up to
/// `u16::MAX` tokens on one side, which keeps the counts from saturating.)
pub proof fn matched_tokens_are_a_longest_common_subsequence(a: Seq<Seq<u8>>, b: Seq<Seq<u8>>, q: Seq<(int, int)>)
    requires
        a.len() <= u16::MAX || b.len() <= u16::MAX,
    ensures
        common_subsequence(a, b, lcs_pairs(a, b, a.len(), b.len()), a.len() as int, b.len() as int),
        common_subsequence(a, b, q, a.len() as int, b.len() as int) ==> q.len() <= lcs_pairs(a, b, a.len(), b.len()).len(),
{
    lemma_pairs_common(a, b, a.len(), b.len());
    if common_subsequence(a, b, q, a.len() as int, b.len() as int) {
        lemma_common_at_most_table(a, b, q, a.len(), b.len());
    }
}

/// Whether two tokens have the same bytes.
pub fn token_texts_equal(a: &[u8], ta: InlineToken, b: &[u8], tb: InlineToken) -> (r: bool)
    requires
        token_in_bounds(ta, a@.len()),
        token_in_bounds(tb, b@.len()),
    ensures
        r == (token_bytes(a@, ta) == token_bytes(b@, tb)),
{
    let la = ta.byte_end - ta.byte_start;
    let lb = tb.byte_end - tb.byte_start;
    if la != lb {
        assert(token_bytes(a@, ta).len() != token_bytes(b@, tb).len());
        return false;
    }
    let mut k: usize = 0;
    while k < la
        invariant
            k <= la,
            la == lb,
            la == ta.byte_end - ta.byte_start,
            lb == tb.byte_end - tb.byte_start,
            token_in_bounds(ta, a@.len()),
            token_in_bounds(tb, b@.len()),
            forall|x: int| 0 <= x < k ==> #[trigger] token_bytes(a@, ta)[x] == token_bytes(b@, tb)[x],
        decreases la - k,
    {
        if a[ta.byte_start + k] != b[tb.byte_start + k] {
            assert(token_bytes(a@, ta)[k as int] != token_bytes(b@, tb)[k as int]);
            return false;
        }
        k += 1;
    }
    assert(token_bytes(a@, ta) =~= token_bytes(b@, tb));
    true
}

/// Marks as unchanged the tokens of a longest common subsequence of the two
/// token lists, found by dynamic programming and walked back from the end.
pub fn mark_unchanged_lcs_tokens(
    old_text: &str,
    old_tokens: &[InlineToken],
    new_text: &str,
    new_tokens: &[InlineToken],
    old_changed: &mut Vec<bool>,
    new_changed: &mut Vec<bool>,
)
    requires
        forall|i: int| 0 <= i < old_tokens@.len() ==> token_in_bounds(#[trigger] old_tokens@[i], old_text.spec_bytes().len()),
        forall|i: int| 0 <= i < new_tokens@.len() ==> token_in_bounds(#[trigger] new_tokens@[i], new_text.spec_bytes().len()),
        old(old_changed)@.len() == old_tokens@.len(),
        old(new_changed)@.len() == new_tokens@.len(),
        (old_tokens@.len() + 1) * (new_tokens@.len() + 1) <= usize::MAX,
    ensures
        ({
            let a = token_texts(old_text.spec_bytes(), old_tokens@);
            let b = token_texts(new_text.spec_bytes(), new_tokens@);
            let pairs = lcs_pairs(a, b, old_tokens@.len() as nat, new_tokens@.len() as nat);
            &&& final(old_changed)@.len() == old(old_changed)@.len()
            &&& final(new_changed)@.len() == old(new_changed)@.len()
            &&& forall|k: int| 0 <= k < old_tokens@.len() ==> #[trigger] final(old_changed)@[k] == (!pairs_mark(pairs, true, k) && old(old_changed)@[k])
            &&& forall|k: int| 0 <= k < new_tokens@.len() ==> #[trigger] final(new_changed)@[k] == (!pairs_mark(pairs, false, k) && old(new_changed)@[k])
        }),
{
    let old_bytes = old_text.as_bytes();
    let new_bytes = new_text.as_bytes();
    let ghost a = token_texts(old_text.spec_bytes(), old_tokens@);
    let ghost b = token_texts(new_text.spec_bytes(), new_tokens@);
    let n = old_tokens.len();
    let m = new_tokens.len();
    let mut lengths: Vec<Vec<u16>> = Vec::new();
    let mut zero_row: Vec<u16> = Vec::new();
    assert(m + 1 <= usize::MAX) by (nonlinear_arith)
        requires
            (n + 1) * (m + 1) <= usize::MAX,
    ;
    let mut c: usize = 0;
    while c <= m
        invariant
            c <= m + 1,
            m + 1 <= usize::MAX,
            m == new_tokens@.len(),
            (old_tokens@.len() + 1) * (new_tokens@.len() + 1) <= usize::MAX,
            zero_row@.len() == c,
            forall|x: int| 0 <= x < c ==> zero_row@[x] == 0,
        decreases m + 1 - c,
    {
        zero_row.push(0);
        c += 1;
    }
    lengths.push(zero_row);
    let mut oi: usize = 0;
    while oi < n
        invariant
            oi <= n,
            n == old_tokens@.len(),
            m == new_tokens@.len(),
            old_bytes@ == old_text.spec_bytes(),
            new_bytes@ == new_text.spec_bytes(),
            a == token_texts(old_text.spec_bytes(), old_tokens@),
            b == token_texts(new_text.spec_bytes(), new_tokens@),
            forall|i: int| 0 <= i < old_tokens@.len() ==> token_in_bounds(#[trigger] old_tokens@[i], old_text.spec_bytes().len()),
            forall|i: int| 0 <= i < new_tokens@.len() ==> token_in_bounds(#[trigger] new_tokens@[i], new_text.spec_bytes().len()),
            lengths@.len() == oi + 1,
            forall|r: int| 0 <= r <= oi ==> (#[trigger] lengths@[r])@.len() == m + 1,
            forall|r: int, q: int| 0 <= r <= oi && 0 <= q <= m ==> (#[trigger] lengths@[r]@[q]) as nat == lcs_table(a, b, r as nat, q as nat),
        decreases n - oi,
    {
        let mut row: Vec<u16> = Vec::new();
        row.push(0);
        let mut ni: usize = 0;
        while ni < m
            invariant
                oi < n,
                ni <= m,
                n == old_tokens@.len(),
                m == new_tokens@.len(),
                old_bytes@ == old_text.spec_bytes(),
                new_bytes@ == new_text.spec_bytes(),
                a == token_texts(old_text.spec_bytes(), old_tokens@),
                b == token_texts(new_text.spec_bytes(), new_tokens@),
                forall|i: int| 0 <= i < old_tokens@.len() ==> token_in_bounds(#[trigger] old_tokens@[i], old_text.spec_bytes().len()),
                forall|i: int| 0 <= i < new_tokens@.len() ==> token_in_bounds(#[trigger] new_tokens@[i], new_text.spec_bytes().len()),
                lengths@.len() == oi + 1,
                forall|r: int| 0 <= r <= oi ==> (#[trigger] lengths@[r])@.len() == m + 1,
                forall|r: int, q: int| 0 <= r <= oi && 0 <= q <= m ==> (#[trigger] lengths@[r]@[q]) as nat == lcs_table(a, b, r as nat, q as nat),
                row@.len() == ni + 1,
                forall|q: int| 0 <= q <= ni ==> (#[trigger] row@[q]) as nat == lcs_table(a, b, (oi + 1) as nat, q as nat),
            decreases m - ni,
        {
            let same = token_texts_equal(old_bytes, old_tokens[oi], new_bytes, new_tokens[ni]);
            let diag = lengths[oi][ni];
            let up = lengths[oi][ni + 1];
            let left = row[ni];
            let value = if same {
                diag.saturating_add(1)
            } else if up >= left {
                up
            } else {
                left
            };
            proof {
                assert(a[oi as int] == token_bytes(old_text.spec_bytes(), old_tokens@[oi as int]));
                assert(b[ni as int] == token_bytes(new_text.spec_bytes(), new_tokens@[ni as int]));
                assert(value as nat == lcs_table(a, b, (oi + 1) as nat, (ni + 1) as nat));
            }
            row.push(value);
            ni += 1;
        }
        lengths.push(row);
        oi += 1;
    }
    let mut old_index = n;
    let mut new_index = m;
    let ghost mut pairs: Seq<(int, int)> = Seq::empty();
    assert(lcs_pairs(a, b, n as nat, m as nat) =~= lcs_pairs(a, b, n as nat, m as nat) + pairs);
    while old_index > 0 && new_index > 0
        invariant
            old_index <= n,
            new_index <= m,
            n == old_tokens@.len(),
            m == new_tokens@.len(),
            old_bytes@ == old_text.spec_bytes(),
            new_bytes@ == new_text.spec_bytes(),
            a == token_texts(old_text.spec_bytes(), old_tokens@),
            b == token_texts(new_text.spec_bytes(), new_tokens@),
            forall|i: int| 0 <= i < old_tokens@.len() ==> token_in_bounds(#[trigger] old_tokens@[i], old_text.spec_bytes().len()),
            forall|i: int| 0 <= i < new_tokens@.len() ==> token_in_bounds(#[trigger] new_tokens@[i], new_text.spec_bytes().len()),
            lengths@.len() == n + 1,
            forall|r: int| 0 <= r <= n ==> (#[trigger] lengths@[r])@.len() == m + 1,
            forall|r: int, q: int| 0 <= r <= n && 0 <= q <= m ==> (#[trigger] lengths@[r]@[q]) as nat == lcs_table(a, b, r as nat, q as nat),
            lcs_pairs(a, b, n as nat, m as nat) == lcs_pairs(a, b, old_index as nat, new_index as nat) + pairs,
            old_changed@.len() == n,
            new_changed@.len() == m,
            forall|k: int| 0 <= k < n ==> #[trigger] old_changed@[k] == (!pairs_mark(pairs, true, k) && old(old_changed)@[k]),
            forall|k: int| 0 <= k < m ==> #[trigger] new_changed@[k] == (!pairs_mark(pairs, false, k) && old(new_changed)@[k]),
        decreases old_index + new_index,
    {
        let same = token_texts_equal(old_bytes, old_tokens[old_index - 1], new_bytes, new_tokens[new_index - 1]);
        proof {
            assert(a[old_index - 1] == token_bytes(old_text.spec_bytes(), old_tokens@[old_index - 1]));
            assert(b[new_index - 1] == token_bytes(new_text.spec_bytes(), new_tokens@[new_index - 1]));
        }
        if same {
            let ghost p = ((old_index - 1) as int, (new_index - 1) as int);
            let ghost next = seq![p] + pairs;
            proof {
                assert(lcs_pairs(a, b, old_index as nat, new_index as nat)
                    == lcs_pairs(a, b, (old_index - 1) as nat, (new_index - 1) as nat).push(p));
                assert(lcs_pairs(a, b, (old_index - 1) as nat, (new_index - 1) as nat).push(p) + pairs
                    =~= lcs_pairs(a, b, (old_index - 1) as nat, (new_index - 1) as nat) + next);
            }
            old_changed.set(old_index - 1, false);
            new_changed.set(new_index - 1, false);
            proof {
                assert forall|k: int| 0 <= k < n implies #[trigger] old_changed@[k] == (!pairs_mark(next, true, k) && old(old_changed)@[k]) by {
                    if pairs_mark(pairs, true, k) {
                        let x = choose|x: int| 0 <= x < pairs.len() && (#[trigger] pairs[x]).0 == k;
                        assert(next[x + 1] == pairs[x]);
                    }
                    if pairs_mark(next, true, k) && k != p.0 {
                        let x = choose|x: int| 0 <= x < next.len() && (#[trigger] next[x]).0 == k;
                        assert(pairs[x - 1] == next[x]);
                    }
                    if k == p.0 {
                        assert(next[0].0 == k);
                    }
                }
                assert forall|k: int| 0 <= k < m implies #[trigger] new_changed@[k] == (!pairs_mark(next, false, k) && old(new_changed)@[k]) by {
                    if pairs_mark(pairs, false, k) {
                        let x = choose|x: int| 0 <= x < pairs.len() && (#[trigger] pairs[x]).1 == k;
                        assert(next[x + 1] == pairs[x]);
                    }
                    if pairs_mark(next, false, k) && k != p.1 {
                        let x = choose|x: int| 0 <= x < next.len() && (#[trigger] next[x]).1 == k;
                        assert(pairs[x - 1] == next[x]);
                    }
                    if k == p.1 {
                        assert(next[0].1 == k);
                    }
                }
                pairs = next;
            }
            old_index -= 1;
            new_index -= 1;
        } else if lengths[old_index - 1][new_index] >= lengths[old_index][new_index - 1] {
            old_index -= 1;
        } else {
            new_index -= 1;
        }
    }
    proof {
        assert(lcs_pairs(a, b, old_index as nat, new_index as nat) =~= Seq::<(int, int)>::empty());
        assert(lcs_pairs(a, b, n as nat, m as nat) =~= pairs);
    }
}


proof fn lemma_tokenize_bounds(cls: Seq<InlineCharClass>, start: int)
    requires
        0 <= start,
    ensures
        forall|x: int| 0 <= x < tokenize(cls, start).len() ==> start <= (#[trigger] tokenize(cls, start)[x]).0
            < tokenize(cls, start)[x].1 <= cls.len(),
    decreases cls.len() - start,
{
    if start < cls.len() {
        let e = token_end(cls, start);
        if !(e <= start || e > cls.len()) {
            lemma_tokenize_bounds(cls, e);
            let t = tokenize(cls, start);
            assert forall|x: int| 0 <= x < t.len() implies start <= (#[trigger] t[x]).0 < t[x].1 <= cls.len() by {
                if x > 0 {
                    assert(t[x] == tokenize(cls, e)[x - 1]);
                }
            }
        }
    }
}

/// Byte offsets grow with the character index.
pub proof fn lemma_byte_pos_mono(s: Seq<char>, i: int, j: int)
    requires
        0 <= i <= j <= s.len(),
    ensures
        byte_pos(s, i) <= byte_pos(s, j),
        i < j ==> byte_pos(s, i) < byte_pos(s, j),
    decreases j - i,
{
    if i < j {
        lemma_byte_pos_step(s, j - 1);
        lemma_encode_one(s[j - 1]);
        lemma_byte_pos_mono(s, i, j - 1);
    }
}

/// Every character takes at least one byte.
pub proof fn lemma_encode_one(c: char)
    ensures
        encode_utf8(seq![c]).len() >= 1,
{
    assert(seq![c].drop_first() =~= Seq::<char>::empty());
    assert(encode_utf8(seq![c]) == encode_scalar(c as u32) + encode_utf8(seq![c].drop_first()));
}

/// Every token of a line lies within the line's bytes.
pub proof fn lemma_inline_tokens_in_bounds(text: &str)
    requires
        text.spec_bytes().len() <= usize::MAX,
    ensures
        forall|x: int| 0 <= x < inline_tokens_spec(text).len() ==> token_in_bounds(
            #[trigger] inline_tokens_spec(text)[x],
            text.spec_bytes().len(),
        ),
{
    if vstd::string::is_ascii(text) {
        let cls = text.spec_bytes().map_values(|b: u8| ascii_class_spec(b));
        lemma_tokenize_bounds(cls, 0);
    } else {
        let s = text@;
        let cls = s.map_values(|c: char| char_class_spec(c));
        lemma_tokenize_bounds(cls, 0);
        assert(s.take(s.len() as int) =~= s);
        assert forall|x: int| 0 <= x < inline_tokens_spec(text).len() implies token_in_bounds(
            #[trigger] inline_tokens_spec(text)[x],
            text.spec_bytes().len(),
        ) by {
            let t = tokenize(cls, 0)[x];
            lemma_byte_pos_mono(s, t.0, t.1);
            lemma_byte_pos_mono(s, t.1, s.len() as int);
        }
    }
}

/// The emphasised ranges for the first `i` tokens: changed tokens, with
/// byte-adjacent ones merged into one range; that is, one range per run of
/// touching changed tokens (`ranges_are_runs_of_changed_tokens`).
pub open spec fn ranges_spec(tokens: Seq<InlineToken>, changed: Seq<bool>, i: int) -> Seq<InlineRange>
    decreases i,
{
    if i <= 0 {
        Seq::empty()
    } else {
        let prev = ranges_spec(tokens, changed, i - 1);
        let t = tokens[i - 1];
        if !changed[i - 1] {
            prev
        } else if prev.len() > 0 && prev.last().byte_end == t.byte_start {
            prev.update(prev.len() - 1, InlineRange { byte_start: prev.last().byte_start, byte_end: t.byte_end })
        } else {
            prev.push(InlineRange { byte_start: t.byte_start, byte_end: t.byte_end })
        }
    }
}

/// Some range of `ranges` spans token `t`.
#[verifier::opaque]
pub open spec fn covered(ranges: Seq<InlineRange>, t: InlineToken) -> bool {
    exists|k: int| 0 <= k < ranges.len() && (#[trigger] ranges[k]).byte_start <= t.byte_start && t.byte_end <= ranges[k].byte_end
}

/// One of the first `i` tokens is changed and starts at byte `x`.
#[verifier::opaque]
pub open spec fn changed_start(tokens: Seq<InlineToken>, changed: Seq<bool>, i: int, x: usize) -> bool {
    exists|j: int| 0 <= j < i && changed[j] && (#[trigger] tokens[j]).byte_start == x
}

/// One of the first `i` tokens is changed and ends at byte `x`.
#[verifier::opaque]
pub open spec fn changed_end(tokens: Seq<InlineToken>, changed: Seq<bool>, i: int, x: usize) -> bool {
    exists|j: int| 0 <= j < i && changed[j] && (#[trigger] tokens[j]).byte_end == x
}

/// The properties of `r` as the emphasised ranges of the first `i` tokens
/// (see `ranges_are_runs_of_changed_tokens`).
pub open spec fn runs_of_changed(tokens: Seq<InlineToken>, changed: Seq<bool>, i: int, r: Seq<InlineRange>) -> bool {
    &&& r.len() <= i
    &&& forall|j: int| 0 <= j < i && changed[j] ==> covered(r, #[trigger] tokens[j])
    &&& forall|k: int| 0 <= k < r.len() ==> (#[trigger] r[k]).byte_start <= r[k].byte_end
    &&& forall|k: int| 0 <= k < r.len() ==> changed_start(tokens, changed, i, (#[trigger] r[k]).byte_start)
    &&& forall|k: int| 0 <= k < r.len() ==> changed_end(tokens, changed, i, (#[trigger] r[k]).byte_end)
    &&& forall|k: int| 0 <= k < r.len() - 1 ==> (#[trigger] r[k]).byte_end != r[k + 1].byte_start
}

proof fn lemma_runs_widen(tokens: Seq<InlineToken>, changed: Seq<bool>, i: int, r: Seq<InlineRange>)
    requires
        0 < i,
        forall|k: int| 0 <= k < r.len() ==> changed_start(tokens, changed, i - 1, (#[trigger] r[k]).byte_start),
        forall|k: int| 0 <= k < r.len() ==> changed_end(tokens, changed, i - 1, (#[trigger] r[k]).byte_end),
    ensures
        forall|k: int| 0 <= k < r.len() ==> changed_start(tokens, changed, i, (#[trigger] r[k]).byte_start),
        forall|k: int| 0 <= k < r.len() ==> changed_end(tokens, changed, i, (#[trigger] r[k]).byte_end),
{
    reveal(changed_start);
    reveal(changed_end);
    assert forall|k: int| 0 <= k < r.len() implies changed_start(tokens, changed, i, (#[trigger] r[k]).byte_start) by {
        assert(changed_start(tokens, changed, i - 1, r[k].byte_start));
        let j = choose|j: int| 0 <= j < i - 1 && changed[j] && (#[trigger] tokens[j]).byte_start == r[k].byte_start;
        assert(tokens[j].byte_start == r[k].byte_start);
    }
    assert forall|k: int| 0 <= k < r.len() implies changed_end(tokens, changed, i, (#[trigger] r[k]).byte_end) by {
        assert(changed_end(tokens, changed, i - 1, r[k].byte_end));
        let j = choose|j: int| 0 <= j < i - 1 && changed[j] && (#[trigger] tokens[j]).byte_end == r[k].byte_end;
        assert(tokens[j].byte_end == r[k].byte_end);
    }
}

proof fn lemma_runs_merge(tokens: Seq<InlineToken>, changed: Seq<bool>, i: int, prev: Seq<InlineRange>)
    requires
        0 < i <= tokens.len(),
        i <= changed.len(),
        changed[i - 1],
        tokens[i - 1].byte_start <= tokens[i - 1].byte_end,
        runs_of_changed(tokens, changed, i - 1, prev),
        prev.len() > 0,
        prev.last().byte_end == tokens[i - 1].byte_start,
    ensures
        runs_of_changed(tokens, changed, i, prev.update(prev.len() - 1, InlineRange { byte_start: prev.last().byte_start, byte_end: tokens[i - 1].byte_end })),
{
    let t = tokens[i - 1];
    let last = prev.len() - 1;
    let merged = InlineRange { byte_start: prev.last().byte_start, byte_end: t.byte_end };
    let cur = prev.update(last, merged);
    lemma_runs_widen(tokens, changed, i, prev);
    assert(prev[last].byte_start <= prev[last].byte_end);
    assert forall|j: int| 0 <= j < i && changed[j] implies covered(cur, #[trigger] tokens[j]) by {
        reveal(covered);
        if j == i - 1 {
            assert(cur[last] == merged);
        } else {
            assert(covered(prev, tokens[j]));
            let k = choose|k: int| 0 <= k < prev.len() && (#[trigger] prev[k]).byte_start <= tokens[j].byte_start && tokens[j].byte_end <= prev[k].byte_end;
            assert(cur[k].byte_start <= tokens[j].byte_start && tokens[j].byte_end <= cur[k].byte_end);
        }
    }
    assert forall|k: int| 0 <= k < cur.len() implies changed_start(tokens, changed, i, (#[trigger] cur[k]).byte_start) by {
        reveal(changed_start);
        assert(changed_start(tokens, changed, i, prev[k].byte_start));
    }
    assert forall|k: int| 0 <= k < cur.len() implies changed_end(tokens, changed, i, (#[trigger] cur[k]).byte_end) by {
        reveal(changed_end);
        if k == last {
            assert(tokens[i - 1].byte_end == cur[k].byte_end);
        } else {
            assert(changed_end(tokens, changed, i, prev[k].byte_end));
        }
    }
    assert forall|k: int| 0 <= k < cur.len() implies (#[trigger] cur[k]).byte_start <= cur[k].byte_end by {
        assert(prev[k].byte_start <= prev[k].byte_end);
    }
    assert forall|k: int| 0 <= k < cur.len() - 1 implies (#[trigger] cur[k]).byte_end != cur[k + 1].byte_start by {
        assert(prev[k].byte_end != prev[k + 1].byte_start);
    }
}

proof fn lemma_runs_push(tokens: Seq<InlineToken>, changed: Seq<bool>, i: int, prev: Seq<InlineRange>)
    requires
        0 < i <= tokens.len(),
        i <= changed.len(),
        changed[i - 1],
        tokens[i - 1].byte_start <= tokens[i - 1].byte_end,
        runs_of_changed(tokens, changed, i - 1, prev),
        !(prev.len() > 0 && prev.last().byte_end == tokens[i - 1].byte_start),
    ensures
        runs_of_changed(tokens, changed, i, prev.push(InlineRange { byte_start: tokens[i - 1].byte_start, byte_end: tokens[i - 1].byte_end })),
{
    let t = tokens[i - 1];
    let added = InlineRange { byte_start: t.byte_start, byte_end: t.byte_end };
    let cur = prev.push(added);
    lemma_runs_widen(tokens, changed, i, prev);
    assert forall|j: int| 0 <= j < i && changed[j] implies covered(cur, #[trigger] tokens[j]) by {
        reveal(covered);
        if j == i - 1 {
            assert(cur[prev.len() as int] == added);
        } else {
            assert(covered(prev, tokens[j]));
            let k = choose|k: int| 0 <= k < prev.len() && (#[trigger] prev[k]).byte_start <= tokens[j].byte_start && tokens[j].byte_end <= prev[k].byte_end;
            assert(cur[k] == prev[k]);
        }
    }
    assert forall|k: int| 0 <= k < cur.len() implies changed_start(tokens, changed, i, (#[trigger] cur[k]).byte_start) by {
        reveal(changed_start);
        if k == prev.len() {
            assert(tokens[i - 1].byte_start == cur[k].byte_start);
        } else {
            assert(changed_start(tokens, changed, i, prev[k].byte_start));
        }
    }
    assert forall|k: int| 0 <= k < cur.len() implies changed_end(tokens, changed, i, (#[trigger] cur[k]).byte_end) by {
        reveal(changed_end);
        if k == prev.len() {
            assert(tokens[i - 1].byte_end == cur[k].byte_end);
        } else {
            assert(changed_end(tokens, changed, i, prev[k].byte_end));
        }
    }
    assert forall|k: int| 0 <= k < cur.len() implies (#[trigger] cur[k]).byte_start <= cur[k].byte_end by {
        if k < prev.len() {
            assert(prev[k].byte_start <= prev[k].byte_end);
        }
    }
    assert forall|k: int| 0 <= k < cur.len() - 1 implies (#[trigger] cur[k]).byte_end != cur[k + 1].byte_start by {
        if k + 1 < prev.len() {
            assert(prev[k].byte_end != prev[k + 1].byte_start);
        }
    }
}

/// The emphasised ranges are the runs of changed tokens that touch: every
/// changed token lies inside a range; each range starts where a changed token
/// starts and ends where a changed token ends; no range ends where the next
/// one starts (touching tokens share a range); and there are no more ranges
/// than tokens.
pub proof fn ranges_are_runs_of_changed_tokens(tokens: Seq<InlineToken>, changed: Seq<bool>, i: int)
    requires
        0 <= i <= tokens.len(),
        i <= changed.len(),
        forall|j: int| 0 <= j < i ==> (#[trigger] tokens[j]).byte_start <= tokens[j].byte_end,
    ensures
        runs_of_changed(tokens, changed, i, ranges_spec(tokens, changed, i)),
    decreases i,
{
    if i > 0 {
        ranges_are_runs_of_changed_tokens(tokens, changed, i - 1);
        let prev = ranges_spec(tokens, changed, i - 1);
        let t = tokens[i - 1];
        assert(t.byte_start <= t.byte_end);
        if !changed[i - 1] {
            lemma_runs_widen(tokens, changed, i, prev);
            assert forall|j: int| 0 <= j < i && changed[j] implies covered(prev, #[trigger] tokens[j]) by {}
        } else if prev.len() > 0 && prev.last().byte_end == t.byte_start {
            lemma_runs_merge(tokens, changed, i, prev);
        } else {
            lemma_runs_push(tokens, changed, i, prev);
        }
    }
}

/// The number of token/flag pairs.
pub open spec fn zip_len(tokens: Seq<InlineToken>, changed: Seq<bool>) -> int {
    if tokens.len() < changed.len() { tokens.len() as int } else { changed.len() as int }
}

/// Turns the changed tokens into byte ranges, merging tokens that touch.
pub fn inline_ranges_from_tokens(tokens: &[InlineToken], changed: &[bool]) -> (r: Vec<InlineRange>)
    ensures
        r@ == ranges_spec(tokens@, changed@, zip_len(tokens@, changed@)),
{
    let mut ranges: Vec<InlineRange> = Vec::new();
    let count = if tokens.len() < changed.len() { tokens.len() } else { changed.len() };
    let mut i: usize = 0;
    while i < count
        invariant
            i <= count,
            count == zip_len(tokens@, changed@),
            count <= tokens@.len(),
            count <= changed@.len(),
            ranges@ == ranges_spec(tokens@, changed@, i as int),
        decreases count - i,
    {
        let token = tokens[i];
        if changed[i] {
            let n = ranges.len();
            if n > 0 && ranges[n - 1].byte_end == token.byte_start {
                let start = ranges[n - 1].byte_start;
                ranges.set(n - 1, InlineRange { byte_start: start, byte_end: token.byte_end });
            } else {
                ranges.push(InlineRange { byte_start: token.byte_start, byte_end: token.byte_end });
            }
        }
        i += 1;
    }
    ranges
}

/// The bytes of a token as a string slice.
pub fn inline_token_text(text: &str, token: InlineToken) -> (r: &str)
    requires
        token_in_bounds(token, text.spec_bytes().len()),
        vstd::utf8::is_char_boundary(text.spec_bytes(), token.byte_start as int),
        vstd::utf8::is_char_boundary(text.spec_bytes(), token.byte_end as int),
    ensures
        r.spec_bytes() == token_bytes(text.spec_bytes(), token),
{
    let ghost bytes = text.spec_bytes();
    proof {
        vstd::utf8::encode_utf8_valid_utf8(text@);
    }
    let (_, rest) = text.split_at(token.byte_start);
    let ghost rb = rest.spec_bytes();
    let mid = token.byte_end - token.byte_start;
    proof {
        vstd::utf8::valid_utf8_split(bytes, token.byte_start as int);
        assert(rb =~= bytes.subrange(token.byte_start as int, bytes.len() as int));
        if (mid as int) < rb.len() {
            vstd::utf8::is_char_boundary_iff_not_is_continuation_byte(bytes, token.byte_end as int);
            vstd::utf8::is_char_boundary_iff_not_is_continuation_byte(rb, mid as int);
            assert(rb[mid as int] == bytes[token.byte_end as int]);
        } else {
            vstd::utf8::is_char_boundary_start_end_of_seq(rb);
        }
    }
    let (piece, _) = rest.split_at(mid);
    assert(piece.spec_bytes() =~= token_bytes(bytes, token));
    piece
}

/// Whether two strings have the same bytes.
pub fn same_text(a: &str, b: &str) -> (r: bool)
    ensures
        r == (a.spec_bytes() == b.spec_bytes()),
{
    let x = a.as_bytes();
    let y = b.as_bytes();
    if x.len() != y.len() {
        return false;
    }
    let mut i: usize = 0;
    while i < x.len()
        invariant
            i <= x@.len(),
            x@.len() == y@.len(),
            x@ == a.spec_bytes(),
            y@ == b.spec_bytes(),
            forall|j: int| 0 <= j < i ==> x@[j] == y@[j],
        decreases x@.len() - i,
    {
        if x[i] != y[i] {
            return false;
        }
        i += 1;
    }
    assert(x@ =~= y@);
    true
}

/// Whether each token is left changed by walking back through the common
/// subsequence of the two token lists.
pub open spec fn changed_marks(pairs: Seq<(int, int)>, side: bool, n: nat) -> Seq<bool> {
    Seq::new(n, |k: int| !pairs_mark(pairs, side, k))
}

/// The emphasised ranges of a deleted and an added line: the tokens outside a
/// longest common token subsequence, merged where they touch. Identical lines,
/// lines over the byte limit and lines over the token limit get none.
pub open spec fn changed_ranges_spec(old: Seq<char>, new: Seq<char>) -> (Seq<InlineRange>, Seq<InlineRange>) {
    let ot = tokens_of(old);
    let nt = tokens_of(new);
    if encode_utf8(old) == encode_utf8(new) {
        (Seq::empty(), Seq::empty())
    } else if encode_utf8(old).len() > MAX_INLINE_DIFF_LINE_BYTES || encode_utf8(new).len() > MAX_INLINE_DIFF_LINE_BYTES {
        (Seq::empty(), Seq::empty())
    } else if ot.len() > MAX_INLINE_DIFF_TOKENS || nt.len() > MAX_INLINE_DIFF_TOKENS {
        (Seq::empty(), Seq::empty())
    } else {
        let pairs = lcs_pairs(
            token_texts(encode_utf8(old), ot),
            token_texts(encode_utf8(new), nt),
            ot.len(),
            nt.len(),
        );
        (
            ranges_spec(ot, changed_marks(pairs, true, ot.len()), ot.len() as int),
            ranges_spec(nt, changed_marks(pairs, false, nt.len()), nt.len() as int),
        )
    }
}

/// A vector of `n` copies of `true`.
pub fn all_true(n: usize) -> (r: Vec<bool>)
    ensures
        r@ == Seq::new(n as nat, |_i: int| true),
{
    let mut v: Vec<bool> = Vec::new();
    let mut i: usize = 0;
    while i < n
        invariant
            i <= n,
            v@ == Seq::new(i as nat, |_i: int| true),
        decreases n - i,
    {
        v.push(true);
        i += 1;
        assert(v@ =~= Seq::new(i as nat, |_i: int| true));
    }
    v
}

/// The changed token ranges of a deleted line and the added line it pairs
/// with.
pub fn changed_token_ranges(old: &str, new: &str) -> (r: (Vec<InlineRange>, Vec<InlineRange>))
    ensures
        (r.0@, r.1@) == changed_ranges_spec(old@, new@),
{
    if same_text(old, new) {
        return (Vec::new(), Vec::new());
    }
    let old_len = old.as_bytes().len();
    let new_len = new.as_bytes().len();
    if old_len > MAX_INLINE_DIFF_LINE_BYTES || new_len > MAX_INLINE_DIFF_LINE_BYTES {
        return (Vec::new(), Vec::new());
    }
    let old_tokens = inline_tokens(old);
    let new_tokens = inline_tokens(new);
    if old_tokens.len() > MAX_INLINE_DIFF_TOKENS || new_tokens.len() > MAX_INLINE_DIFF_TOKENS {
        return (Vec::new(), Vec::new());
    }
    let mut old_changed = all_true(old_tokens.len());
    let mut new_changed = all_true(new_tokens.len());
    proof {
        lemma_inline_tokens_in_bounds(old);
        lemma_inline_tokens_in_bounds(new);
        assert((old_tokens@.len() + 1) * (new_tokens@.len() + 1) <= 257 * 257) by (nonlinear_arith)
            requires old_tokens@.len() <= 256, new_tokens@.len() <= 256;
    }
    mark_unchanged_lcs_tokens(
        old,
        old_tokens.as_slice(),
        new,
        new_tokens.as_slice(),
        &mut old_changed,
        &mut new_changed,
    );
    let ghost pairs = lcs_pairs(
        token_texts(old.spec_bytes(), old_tokens@),
        token_texts(new.spec_bytes(), new_tokens@),
        old_tokens@.len() as nat,
        new_tokens@.len() as nat,
    );
    assert(old_changed@ =~= changed_marks(pairs, true, old_tokens@.len()));
    assert(new_changed@ =~= changed_marks(pairs, false, new_tokens@.len()));
    let old_ranges = inline_ranges_from_tokens(old_tokens.as_slice(), old_changed.as_slice());
    let new_ranges = inline_ranges_from_tokens(new_tokens.as_slice(), new_changed.as_slice());
    assert(zip_len(old_tokens@, old_changed@) == old_tokens@.len());
    assert(zip_len(new_tokens@, new_changed@) == new_tokens@.len());
    (old_ranges, new_ranges)
}

/// A byte offset that falls on a character boundary of `s`, within it.
pub open spec fn is_boundary(s: Seq<char>, b: int) -> bool {
    exists|k: int| 0 <= k <= s.len() && byte_pos(s, k) == b
}

/// The character index at byte offset `b`, a boundary of the text.
fn char_index_at(offs: &Vec<usize>, s: Ghost<Seq<char>>, b: usize) -> (r: usize)
    requires
        offs@.len() == s@.len() + 1,
        forall|j: int| 0 <= j <= s@.len() ==> offs@[j] as int == byte_pos(s@, j),
        is_boundary(s@, b as int),
    ensures
        r <= s@.len(),
        byte_pos(s@, r as int) == b,
        forall|k: int| 0 <= k <= s@.len() && byte_pos(s@, k) == b ==> k == r,
{
    let ghost kk = choose|k: int| 0 <= k <= s@.len() && byte_pos(s@, k) == b;
    let mut i: usize = 0;
    while offs[i] < b
        invariant
            offs@.len() == s@.len() + 1,
            forall|j: int| 0 <= j <= s@.len() ==> offs@[j] as int == byte_pos(s@, j),
            0 <= kk <= s@.len(),
            byte_pos(s@, kk) == b,
            i <= kk,
        decreases kk - i,
    {
        proof {
            if i == kk {
                assert(offs@[i as int] == b);
            }
        }
        assert(i < kk);
        assert(kk < offs@.len());
        assert(offs@.len() == offs.len());
        i += 1;
    }
    proof {
        if i < kk {
            lemma_byte_pos_mono(s@, i as int, kk);
        }
        assert forall|k: int| 0 <= k <= s@.len() && byte_pos(s@, k) == b implies k == i by {
            if k < i {
                lemma_byte_pos_mono(s@, k, i as int);
            }
            if k > i {
                lemma_byte_pos_mono(s@, i as int, k);
            }
        }
    }
    i
}

/// The text of each range of a line.
pub fn range_texts(text: &str, ranges: &[InlineRange]) -> (r: Vec<String>)
    requires
        forall|i: int| 0 <= i < ranges@.len() ==> (#[trigger] ranges@[i]).byte_start <= ranges@[i].byte_end
            && is_boundary(text@, ranges@[i].byte_start as int) && is_boundary(text@, ranges@[i].byte_end as int),
    ensures
        r@.len() == ranges@.len(),
        forall|i: int, a: int, b: int|
            #![trigger r@[i], byte_pos(text@, a), byte_pos(text@, b)]
            0 <= i < ranges@.len() && 0 <= a <= text@.len() && 0 <= b <= text@.len()
            && byte_pos(text@, a) == ranges@[i].byte_start && byte_pos(text@, b) == ranges@[i].byte_end
            ==> r@[i]@ == text@.subrange(a, b),
{
    let chars = chars_vec(text);
    let offs = char_byte_offsets(text, &chars);
    let mut out: Vec<String> = Vec::new();
    let mut i: usize = 0;
    while i < ranges.len()
        invariant
            i <= ranges@.len(),
            chars@ == text@,
            offs@.len() == text@.len() + 1,
            forall|j: int| 0 <= j <= text@.len() ==> offs@[j] as int == byte_pos(text@, j),
            forall|j: int| 0 <= j < ranges@.len() ==> (#[trigger] ranges@[j]).byte_start <= ranges@[j].byte_end
                && is_boundary(text@, ranges@[j].byte_start as int) && is_boundary(text@, ranges@[j].byte_end as int),
            out@.len() == i,
            forall|j: int, a: int, b: int|
                #![trigger out@[j], byte_pos(text@, a), byte_pos(text@, b)]
                0 <= j < i && 0 <= a <= text@.len() && 0 <= b <= text@.len()
                && byte_pos(text@, a) == ranges@[j].byte_start && byte_pos(text@, b) == ranges@[j].byte_end
                ==> out@[j]@ == text@.subrange(a, b),
        decreases ranges@.len() - i,
    {
        let range = ranges[i];
        let a = char_index_at(&offs, Ghost(text@), range.byte_start);
        let b = char_index_at(&offs, Ghost(text@), range.byte_end);
        if b < a {
            proof {
                lemma_byte_pos_mono(text@, b as int, a as int);
            }
        }
        let piece = crate::text::string_from_range(&chars, a, b);
        out.push(piece);
        i += 1;
    }
    out
}

} // verus!
