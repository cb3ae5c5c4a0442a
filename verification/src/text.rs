//! Fitting text into terminal columns.
use vstd::prelude::*;
use vstd::std_specs::iter::IteratorSpec;
use vstd::string::StringSliceAdditionalSpecFns;
use vstd::string::StrSliceExecFns;
use crate::unicode::{
    char_width, decimal, is_printable_ascii, str_width, string_push, unicode_char_width,
    usize_to_decimal,
};

verus! {

broadcast use vstd::string::group_string_axioms;

/// Columns one character takes when text is fitted: its `unicode-width`
/// width, with control characters counting zero.
pub open spec fn cwidth(c: char) -> nat {
    if is_printable_ascii(c) {
        1
    } else {
        match unicode_char_width(c) {
            Some(w) => w as nat,
            None => 0,
        }
    }
}

/// Sum of the column widths of a character sequence.
pub open spec fn seq_width(s: Seq<char>) -> nat
    decreases s.len(),
{
    if s.len() == 0 {
        0
    } else {
        seq_width(s.drop_last()) + cwidth(s.last())
    }
}

/// How many leading characters fit in `width` columns: characters are taken
/// while the next one still fits, which makes it the length of the longest
/// prefix that fits (`fit_count_is_the_longest_fitting_prefix`).
pub open spec fn fit_count(s: Seq<char>, width: nat) -> nat
    decreases s.len(),
{
    if s.len() == 0 {
        0
    } else if cwidth(s[0]) > width {
        0
    } else {
        1 + fit_count(s.drop_first(), (width - cwidth(s[0])) as nat)
    }
}

/// The characters kept when fitting `s` into `width` columns.
pub open spec fn fit_chars(s: Seq<char>, width: nat) -> Seq<char> {
    if width == 0 {
        Seq::empty()
    } else {
        s.take(fit_count(s, width) as int)
    }
}

/// Whether fitting `s` into `width` columns keeps all of it.
pub open spec fn fits_completely(s: Seq<char>, width: nat) -> bool {
    if width == 0 {
        s.len() == 0
    } else {
        fit_count(s, width) == s.len()
    }
}

/// A run of `n` copies of one character.
pub open spec fn repeat_char(c: char, n: nat) -> Seq<char> {
    Seq::new(n, |_i: int| c)
}

/// Columns taken by one character, as the renderer counts them.
pub fn display_width(c: char) -> (r: usize)
    ensures
        r == cwidth(c),
        r <= 3,
{
    match char_width(c) {
        Some(w) => w,
        None => 0,
    }
}

/// The characters of a string, in order.
pub fn chars_vec(s: &str) -> (r: Vec<char>)
    ensures
        r@ == s@,
{
    let mut it = s.chars();
    let mut out: Vec<char> = Vec::new();
    loop
        invariant
            it.remaining() == s@.skip(out@.len() as int),
            out@ == s@.take(out@.len() as int),
            out@.len() <= s@.len(),
        decreases s@.len() - out@.len(),
    {
        let ghost before = it.remaining();
        match it.next() {
            Some(c) => {
                out.push(c);
                assert(s@.skip(out@.len() as int) == before.drop_first());
                assert(out@ == s@.take(out@.len() as int));
            },
            None => {
                assert(out@ == s@);
                return out;
            },
        }
    }
}

/// A string holding the characters `chars[start..end]`.
pub fn string_from_range(chars: &Vec<char>, start: usize, end: usize) -> (r: String)
    requires
        start <= end <= chars@.len(),
    ensures
        r@ == chars@.subrange(start as int, end as int),
{
    let mut out = String::new();
    let mut i = start;
    while i < end
        invariant
            start <= i <= end <= chars@.len(),
            out@ == chars@.subrange(start as int, i as int),
        decreases end - i,
    {
        string_push(&mut out, chars[i]);
        i += 1;
        assert(out@ == chars@.subrange(start as int, i as int));
    }
    out
}

/// Appends `n` copies of `c` to `out`.
pub fn push_repeated(out: &mut String, c: char, n: usize)
    ensures
        final(out)@ == old(out)@ + repeat_char(c, n as nat),
{
    let mut i: usize = 0;
    while i < n
        invariant
            i <= n,
            out@ == old(out)@ + repeat_char(c, i as nat),
        decreases n - i,
    {
        string_push(out, c);
        i += 1;
        assert(out@ =~= old(out)@ + repeat_char(c, i as nat));
    }
}

/// A string of `width` spaces.
pub fn spaces(width: usize) -> (r: String)
    ensures
        r@ == repeat_char(' ', width as nat),
{
    let mut out = String::new();
    push_repeated(&mut out, ' ', width);
    assert(out@ =~= repeat_char(' ', width as nat));
    out
}

/// At most the whole sequence fits, within the width.
pub proof fn lemma_fit_count_bound(s: Seq<char>, width: nat)
    ensures
        fit_count(s, width) <= s.len(),
        seq_width(s.take(fit_count(s, width) as int)) <= width,
    decreases s.len(),
{
    if s.len() > 0 && cwidth(s[0]) <= width {
        lemma_fit_count_bound(s.drop_first(), (width - cwidth(s[0])) as nat);
        lemma_seq_width_front(s.take(fit_count(s, width) as int));
        assert(s.take(fit_count(s, width) as int).drop_first() =~= s.drop_first().take(
            fit_count(s.drop_first(), (width - cwidth(s[0])) as nat) as int,
        ));
    } else {
        assert(s.take(0) =~= Seq::<char>::empty());
    }
}

/// `fit_count` is the length of the longest prefix that fits: the prefix
/// of that length is no wider than `width`, and every longer prefix is wider.
pub proof fn fit_count_is_the_longest_fitting_prefix(s: Seq<char>, width: nat)
    ensures
        fit_count(s, width) <= s.len(),
        seq_width(s.take(fit_count(s, width) as int)) <= width,
        forall|k: int| fit_count(s, width) < k <= s.len() ==> seq_width(#[trigger] s.take(k)) > width,
    decreases s.len(),
{
    lemma_fit_count_bound(s, width);
    if s.len() > 0 {
        let rest = s.drop_first();
        if cwidth(s[0]) > width {
            assert forall|k: int| fit_count(s, width) < k <= s.len() implies seq_width(#[trigger] s.take(k)) > width by {
                lemma_seq_width_front(s.take(k));
            }
        } else {
            let w2 = (width - cwidth(s[0])) as nat;
            fit_count_is_the_longest_fitting_prefix(rest, w2);
            assert forall|k: int| fit_count(s, width) < k <= s.len() implies seq_width(#[trigger] s.take(k)) > width by {
                lemma_seq_width_front(s.take(k));
                assert(s.take(k).drop_first() =~= rest.take(k - 1));
                assert(s.take(k)[0] == s[0]);
            }
        }
    }
}

/// Width of a non-empty sequence is its first character plus the rest.
pub proof fn lemma_seq_width_front(s: Seq<char>)
    requires
        s.len() > 0,
    ensures
        seq_width(s) == cwidth(s[0]) + seq_width(s.drop_first()),
    decreases s.len(),
{
    if s.len() == 1 {
        assert(s.drop_last() =~= Seq::<char>::empty());
        assert(s.drop_first() =~= Seq::<char>::empty());
    } else {
        lemma_seq_width_front(s.drop_last());
        assert(s.drop_last().drop_first() =~= s.drop_first().drop_last());
    }
}

/// Width of a sequence extended by one character.
pub proof fn lemma_seq_width_push(s: Seq<char>, c: char)
    ensures
        seq_width(s.push(c)) == seq_width(s) + cwidth(c),
{
    assert(s.push(c).drop_last() =~= s);
}

/// Fits `text` into `width` columns: the kept text, its width in columns and
/// whether all of the text was kept.
pub fn fit_with_width(text: &str, width: usize) -> (r: (String, usize, bool))
    ensures
        r.0@ == fit_chars(text@, width as nat),
        r.1 == seq_width(r.0@),
        r.1 <= width,
        r.2 == fits_completely(text@, width as nat),
{
    if width == 0 {
        assert(seq_width(Seq::<char>::empty()) == 0);
        return (String::new(), 0, text.unicode_len() == 0);
    }
    let chars = chars_vec(text);
    let ghost s = text@;
    let mut out = String::new();
    let mut used: usize = 0;
    let mut i: usize = 0;
    assert(s.skip(0) =~= s);
    assert(s.take(0) =~= Seq::<char>::empty());
    while i < chars.len()
        invariant_except_break
            i <= chars@.len(),
            chars@ == s,
            out@ == s.take(i as int),
            used == seq_width(s.take(i as int)),
            used <= width,
            fit_count(s, width as nat) == i + fit_count(s.skip(i as int), (width - used) as nat),
        ensures
            i <= chars@.len(),
            out@ == s.take(i as int),
            used == seq_width(s.take(i as int)),
            used <= width,
            fit_count(s, width as nat) == i,
        decreases chars@.len() - i,
    {
        let c = chars[i];
        let w = display_width(c);
        assert(s.skip(i as int)[0] == c);
        if w > width - used {
            break;
        }
        proof {
            assert(s.skip(i as int).drop_first() =~= s.skip(i as int + 1));
            assert(s.take(i as int + 1) =~= s.take(i as int).push(c));
            lemma_seq_width_push(s.take(i as int), c);
        }
        used = used + w;
        string_push(&mut out, c);
        i = i + 1;
    }
    proof {
        if i == chars@.len() {
            assert(s.skip(i as int) =~= Seq::<char>::empty());
        }
    }
    let complete = i == chars.len();
    (out, used, complete)
}

/// The part of `text` that fits in `width` columns.
pub fn fit(text: &str, width: usize) -> (r: String)
    ensures
        r@ == fit_chars(text@, width as nat),
        seq_width(r@) <= width,
{
    fit_with_width(text, width).0
}

/// What `fit_with_ellipsis` shows for `s` in `width` columns.
pub open spec fn ellipsis_fit(s: Seq<char>, width: nat) -> Seq<char> {
    if width == 0 {
        Seq::empty()
    } else if fits_completely(s, width) {
        fit_chars(s, width)
    } else if width <= 3 {
        fit_chars(seq!['.', '.', '.'], width)
    } else {
        fit_chars(s, (width - 3) as nat) + seq!['.', '.', '.']
    }
}

/// Fits `text` into `width` columns, ending with `...` when it had to be cut.
pub fn fit_with_ellipsis(text: &str, width: usize) -> (r: String)
    ensures
        r@ == ellipsis_fit(text@, width as nat),
{
    if width == 0 {
        return String::new();
    }
    let (fitted, _, complete) = fit_with_width(text, width);
    if complete {
        return fitted;
    }
    let dots = "...";
    proof {
        reveal_strlit("...");
    }
    assert(dots@ =~= seq!['.', '.', '.']);
    if width <= 3 {
        return fit(dots, width);
    }
    let mut out = fit(text, width - 3);
    string_push(&mut out, '.');
    string_push(&mut out, '.');
    string_push(&mut out, '.');
    assert(out@ =~= fit_chars(text@, (width - 3) as nat) + seq!['.', '.', '.']);
    out
}

/// Inserts a comma before every group of three digits counted from the right.
pub open spec fn group_thousands(digits: Seq<char>, i: nat) -> Seq<char>
    decreases i,
{
    if i == 0 || i > digits.len() {
        Seq::empty()
    } else {
        let prev = group_thousands(digits, (i - 1) as nat);
        let index = i - 1;
        if index > 0 && (digits.len() - index) % 3 == 0 {
            prev.push(',').push(digits[index])
        } else {
            prev.push(digits[index])
        }
    }
}

/// `digits` cut into groups of three from the right, joined by commas.
pub open spec fn thousands_groups(digits: Seq<char>) -> Seq<char>
    decreases digits.len(),
{
    if digits.len() <= 3 {
        digits
    } else {
        thousands_groups(digits.take(digits.len() - 3)) + seq![','] + digits.skip(digits.len() - 3)
    }
}

proof fn lemma_group_short(digits: Seq<char>, i: nat)
    requires
        digits.len() <= 3,
        i <= digits.len(),
    ensures
        group_thousands(digits, i) == digits.take(i as int),
    decreases i,
{
    if i > 0 {
        lemma_group_short(digits, (i - 1) as nat);
        assert(digits.take(i as int) =~= digits.take(i - 1).push(digits[i - 1]));
    } else {
        assert(digits.take(0) =~= Seq::<char>::empty());
    }
}

proof fn lemma_group_prefix(digits: Seq<char>, m: nat, i: nat)
    requires
        m <= digits.len(),
        (digits.len() - m) % 3 == 0,
        i <= m,
    ensures
        group_thousands(digits, i) == group_thousands(digits.take(m as int), i),
    decreases i,
{
    if i > 0 {
        lemma_group_prefix(digits, m, (i - 1) as nat);
        let index = i - 1;
        assert(digits.take(m as int)[index] == digits[index]);
        assert((digits.len() - index) % 3 == (m - index) % 3);
    }
}

/// The commas `group_thousands` inserts split the digits into groups of three
/// counted from the right (`thousands_groups`).
pub proof fn grouped_digits_are_groups_of_three(digits: Seq<char>)
    ensures
        group_thousands(digits, digits.len()) == thousands_groups(digits),
    decreases digits.len(),
{
    let n = digits.len();
    if n <= 3 {
        lemma_group_short(digits, n);
        assert(digits.take(n as int) =~= digits);
    } else {
        let m = (n - 3) as nat;
        let head = digits.take(m as int);
        lemma_group_prefix(digits, m, m);
        grouped_digits_are_groups_of_three(head);
        assert(head.len() == m);
        assert((n - m) % 3 == 0);
        let mi = m as int;
        assert(group_thousands(digits, (m + 1) as nat) == group_thousands(digits, m).push(',').push(digits[mi]));
        assert(group_thousands(digits, (m + 2) as nat) == group_thousands(digits, (m + 1) as nat).push(digits[mi + 1]));
        assert(group_thousands(digits, (m + 3) as nat) == group_thousands(digits, (m + 2) as nat).push(digits[mi + 2]));
        assert(group_thousands(digits, n) =~= group_thousands(digits, m).push(',').push(digits[mi]).push(digits[mi + 1]).push(digits[mi + 2]));
        assert(thousands_groups(digits) =~= thousands_groups(head) + seq![','] + digits.skip(mi));
        assert(digits.skip(mi) =~= seq![digits[mi], digits[mi + 1], digits[mi + 2]]);
        assert(group_thousands(digits, n) =~= thousands_groups(digits));
    }
}

/// The decimal digits of `count` with thousands separated by commas.
pub open spec fn formatted_count(count: nat) -> Seq<char> {
    group_thousands(decimal(count), decimal(count).len())
}

/// Formats a count with comma thousands separators, e.g. `1,009,257`.
pub fn format_count(count: usize) -> (r: String)
    ensures
        r@ == formatted_count(count as nat),
        r@ == thousands_groups(decimal(count as nat)),
{
    proof {
        grouped_digits_are_groups_of_three(decimal(count as nat));
    }
    let digits_string = usize_to_decimal(count);
    let digits = chars_vec(digits_string.as_str());
    let ghost d = digits@;
    let mut formatted = String::new();
    let mut index: usize = 0;
    while index < digits.len()
        invariant
            index <= digits@.len(),
            d == digits@,
            d == decimal(count as nat),
            formatted@ == group_thousands(d, index as nat),
        decreases digits@.len() - index,
    {
        if index > 0 && (digits.len() - index) % 3 == 0 {
            string_push(&mut formatted, ',');
        }
        string_push(&mut formatted, digits[index]);
        index += 1;
    }
    formatted
}

/// The percentage shown for a scroll position, rounded down.
pub open spec fn progress_percent(scroll: nat, max_scroll: nat) -> nat
    recommends
        max_scroll > 0,
{
    let clamped = if scroll < max_scroll { scroll } else { max_scroll };
    let scaled = if clamped * 100 > usize::MAX { usize::MAX as nat } else { clamped * 100 };
    scaled / max_scroll
}

/// The percentage shown never exceeds a hundred, however far the scroll
/// position lies beyond the end.
pub proof fn progress_never_exceeds_a_hundred(scroll: nat, max_scroll: nat)
    requires
        max_scroll > 0,
    ensures
        progress_percent(scroll, max_scroll) <= 100,
        scroll >= max_scroll && max_scroll * 100 <= usize::MAX ==> progress_percent(scroll, max_scroll) == 100,
{
    let clamped = if scroll < max_scroll { scroll } else { max_scroll };
    let scaled = if clamped * 100 > usize::MAX { usize::MAX as nat } else { clamped * 100 };
    assert(scaled <= max_scroll * 100) by (nonlinear_arith)
        requires
            clamped <= max_scroll,
            scaled <= clamped * 100;
    assert(scaled / max_scroll <= 100) by (nonlinear_arith)
        requires
            scaled <= max_scroll * 100,
            max_scroll > 0;
    if scroll >= max_scroll && max_scroll * 100 <= usize::MAX {
        assert((max_scroll * 100) / max_scroll == 100) by (nonlinear_arith)
            requires
                max_scroll > 0;
    }
}

/// The percentage label for a scroll position: `100%` when nothing scrolls.
pub fn progress_label(scroll: usize, max_scroll: usize) -> (r: String)
    ensures
        max_scroll == 0 ==> r@ == decimal(100).push('%'),
        max_scroll > 0 ==> r@ == decimal(progress_percent(scroll as nat, max_scroll as nat)).push(
            '%',
        ),
{
    if max_scroll == 0 {
        let mut out = usize_to_decimal(100);
        string_push(&mut out, '%');
        return out;
    }
    let clamped = if scroll < max_scroll { scroll } else { max_scroll };
    let scaled = if clamped > usize::MAX / 100 { usize::MAX } else { clamped * 100 };
    let percent = scaled / max_scroll;
    let mut out = usize_to_decimal(percent);
    string_push(&mut out, '%');
    out
}


/// `a + b`, saturating at `usize::MAX`.
pub open spec fn sat_add(a: nat, b: nat) -> nat {
    if a + b > usize::MAX { usize::MAX as nat } else { a + b }
}

/// Scans `s` to skip `columns` display columns: characters are skipped while
/// fewer than `columns` columns have been skipped, and after that any
/// zero-width characters that follow. Gives the number of characters and of
/// columns skipped.
pub open spec fn skip_scan(s: Seq<char>, columns: nat, skipped: nat) -> (nat, nat)
    decreases s.len(),
{
    if s.len() == 0 {
        (0, skipped)
    } else if skipped >= columns {
        if cwidth(s[0]) == 0 {
            let r = skip_scan(s.drop_first(), columns, skipped);
            (r.0 + 1, r.1)
        } else {
            (0, skipped)
        }
    } else {
        let r = skip_scan(s.drop_first(), columns, sat_add(skipped, cwidth(s[0])));
        (r.0 + 1, r.1)
    }
}

proof fn lemma_skip_scan_bound(s: Seq<char>, columns: nat, skipped: nat)
    requires
        skipped <= usize::MAX,
    ensures
        skip_scan(s, columns, skipped).0 <= s.len(),
        skip_scan(s, columns, skipped).1 <= usize::MAX,
    decreases s.len(),
{
    if s.len() > 0 {
        if skipped >= columns {
            lemma_skip_scan_bound(s.drop_first(), columns, skipped);
        } else {
            lemma_skip_scan_bound(s.drop_first(), columns, sat_add(skipped, cwidth(s[0])));
        }
    }
}

/// Skips the first `columns` display columns of `text`: the rest of the text
/// and how many columns were skipped.
pub fn skip_display_prefix(text: &str, columns: usize) -> (r: (&str, usize))
    ensures
        columns == 0 ==> r.0@ == text@ && r.1 == 0,
        columns > 0 ==> r.0@ == text@.skip(skip_scan(text@, columns as nat, 0).0 as int)
            && r.1 == skip_scan(text@, columns as nat, 0).1,
{
    if columns == 0 {
        return (text, 0);
    }
    let chars = chars_vec(text);
    let ghost s = text@;
    let mut skipped: usize = 0;
    let mut i: usize = 0;
    assert(s.skip(0) =~= s);
    while i < chars.len()
        invariant_except_break
            i <= chars@.len(),
            chars@ == s,
            skip_scan(s, columns as nat, 0) == ((skip_scan(s.skip(i as int), columns as nat, skipped as nat).0 + i) as nat,
                skip_scan(s.skip(i as int), columns as nat, skipped as nat).1),
        ensures
            i <= chars@.len(),
            skip_scan(s, columns as nat, 0) == (i as nat, skipped as nat),
        decreases chars@.len() - i,
    {
        let c = chars[i];
        let w = display_width(c);
        assert(s.skip(i as int)[0] == c);
        assert(s.skip(i as int).drop_first() =~= s.skip(i as int + 1));
        if skipped >= columns {
            if w == 0 {
                i = i + 1;
                continue;
            }
            break;
        }
        skipped = skipped.saturating_add(w);
        i = i + 1;
    }
    proof {
        if i == chars@.len() {
            assert(s.skip(i as int) =~= Seq::<char>::empty());
        }
    }
    let n = text.unicode_len();
    (text.substring_char(i, n), skipped)
}

/// `text` fitted into `width` columns and padded with spaces to exactly
/// `width` columns.
pub open spec fn padded_fit(text: Seq<char>, width: nat) -> Seq<char> {
    fit_chars(text, width) + repeat_char(' ', (width - seq_width(fit_chars(text, width))) as nat)
}

/// Fits `text` into `width` columns after skipping `horizontal_scroll`
/// columns, padding with spaces to exactly `width` columns.
pub fn fit_padded_from(text: &str, horizontal_scroll: usize, width: usize) -> (r: String)
    ensures
        width == 0 ==> r@ == Seq::<char>::empty(),
        width > 0 && horizontal_scroll == 0 ==> r@ == padded_fit(text@, width as nat),
        width > 0 && horizontal_scroll > 0 ==> r@ == padded_fit(
            text@.skip(skip_scan(text@, horizontal_scroll as nat, 0).0 as int),
            width as nat,
        ),
{
    if width == 0 {
        return String::new();
    }
    let visible = if horizontal_scroll > 0 {
        skip_display_prefix(text, horizontal_scroll).0
    } else {
        text
    };
    let (mut out, len, _) = fit_with_width(visible, width);
    if len < width {
        push_repeated(&mut out, ' ', width - len);
    } else {
        assert(repeat_char(' ', 0) =~= Seq::<char>::empty());
        assert(out@ + repeat_char(' ', 0) =~= out@);
    }
    out
}

/// Fits `text` into exactly `width` columns, padding with spaces.
pub fn fit_padded(text: &str, width: usize) -> (r: String)
    ensures
        width == 0 ==> r@ == Seq::<char>::empty(),
        width > 0 ==> r@ == padded_fit(text@, width as nat),
{
    fit_padded_from(text, 0, width)
}

/// Whether a byte is printable ASCII, `b' '..=b'~'`.
pub open spec fn is_printable_byte(b: u8) -> bool {
    0x20 <= b && b <= 0x7e
}

/// Number of leading bytes of `text`, at most `max_bytes`, that are printable
/// ASCII.
pub fn single_width_ascii_prefix_len(text: &str, max_bytes: usize) -> (r: usize)
    ensures
        r <= max_bytes,
        r <= text.spec_bytes().len(),
        forall|j: int| 0 <= j < r ==> is_printable_byte(#[trigger] text.spec_bytes()[j]),
        r < max_bytes && r < text.spec_bytes().len() ==> !is_printable_byte(text.spec_bytes()[r as int]),
{
    let bytes = text.as_bytes();
    let mut count: usize = 0;
    while count < max_bytes && count < bytes.len()
        invariant
            count <= max_bytes,
            count <= bytes@.len(),
            bytes@ == text.spec_bytes(),
            forall|j: int| 0 <= j < count ==> is_printable_byte(#[trigger] bytes@[j]),
        decreases bytes@.len() - count,
    {
        let b = bytes[count];
        if !(0x20 <= b && b <= 0x7e) {
            return count;
        }
        count += 1;
    }
    count
}

/// Whether the byte of `text` at `index` exists and is printable ASCII.
pub fn next_byte_is_single_width_ascii(text: &str, index: usize) -> (r: bool)
    ensures
        r == (index < text.spec_bytes().len() && is_printable_byte(text.spec_bytes()[index as int])),
{
    let bytes = text.as_bytes();
    if index < bytes.len() {
        let b = bytes[index];
        0x20 <= b && b <= 0x7e
    } else {
        false
    }
}

/// The separator line of the error log: the title `error ` followed by a rule
/// that fills the width.
pub open spec fn error_separator(width: nat) -> Seq<char> {
    let title = seq!['e', 'r', 'r', 'o', 'r', ' '];
    if width == 0 {
        Seq::empty()
    } else if width <= 6 {
        fit_chars(title, width)
    } else {
        title + repeat_char('\u{2500}', (width - 6) as nat)
    }
}

/// The error log separator for a given width.
pub fn error_log_separator(width: usize) -> (r: String)
    ensures
        r@ == error_separator(width as nat),
{
    let title = "error ";
    proof {
        reveal_strlit("error ");
    }
    assert(title@ =~= seq!['e', 'r', 'r', 'o', 'r', ' ']);
    if width == 0 {
        return String::new();
    }
    let title_width = str_width(title);
    if width <= title_width {
        return fit(title, width);
    }
    let right = width - title_width;
    let mut out = String::new();
    string_push(&mut out, 'e');
    string_push(&mut out, 'r');
    string_push(&mut out, 'r');
    string_push(&mut out, 'o');
    string_push(&mut out, 'r');
    string_push(&mut out, ' ');
    assert(out@ =~= title@);
    push_repeated(&mut out, '\u{2500}', right);
    out
}

} // verus!
