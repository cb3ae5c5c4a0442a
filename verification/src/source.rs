//! The source text a highlighting job reads: a hunk side put together from
//! its lines, or a whole file named by where the diff came from.
use vstd::prelude::*;
use std::hash::Hash;
use std::hash::Hasher;
use vstd::string::StringExecFns;
use vstd::string::StrSliceExecFns;
use vstd::string::StringSliceAdditionalSpecFns;
use crate::annotations::split_lines;
use crate::emphasis::{DiffLine, DiffLineKind};
use crate::scan::is_text;
use crate::syntax_types::{DiffSide, SyntaxSkipReason};
use crate::text::{chars_vec, string_from_range};
use crate::unicode::{char_len_utf8, string_push};

verus! {

broadcast use vstd::string::group_string_axioms;

/// Whether a line of a hunk is part of one side's text.
pub open spec fn belongs_to_side(kind: DiffLineKind, side: DiffSide) -> bool {
    match side {
        DiffSide::Old => kind == DiffLineKind::Context || kind == DiffLineKind::Deletion,
        DiffSide::New => kind == DiffLineKind::Context || kind == DiffLineKind::Addition,
    }
}

/// Whether a line of a hunk is part of one side's text: context lines are
/// on both sides, deletions on the old and additions on the new.
pub fn line_belongs_to_side(kind: DiffLineKind, side: DiffSide) -> (r: bool)
    ensures
        r == belongs_to_side(kind, side),
{
    match side {
        DiffSide::Old => kind == DiffLineKind::Context || kind == DiffLineKind::Deletion,
        DiffSide::New => kind == DiffLineKind::Context || kind == DiffLineKind::Addition,
    }
}

/// The side whose highlighting a unified row shows: the old side for
/// deletions, the new side for additions and context, none for other rows.
pub fn unified_syntax_side(kind: DiffLineKind) -> (r: Option<DiffSide>)
    ensures
        r == match kind {
            DiffLineKind::Deletion => Some(DiffSide::Old),
            DiffLineKind::Addition => Some(DiffSide::New),
            DiffLineKind::Context => Some(DiffSide::New),
            DiffLineKind::Meta => None::<DiffSide>,
        },
{
    match kind {
        DiffLineKind::Deletion => Some(DiffSide::Old),
        DiffLineKind::Addition | DiffLineKind::Context => Some(DiffSide::New),
        DiffLineKind::Meta => None,
    }
}

/// A line's number on one side.
pub fn diff_line_number(line: &DiffLine, side: DiffSide) -> (r: Option<usize>)
    ensures
        r == match side {
            DiffSide::Old => line.old_line,
            DiffSide::New => line.new_line,
        },
{
    match side {
        DiffSide::Old => line.old_line,
        DiffSide::New => line.new_line,
    }
}

/// The size limits of a text that is highlighted.
#[derive(Debug, Clone, Copy, PartialEq, Eq, Structural)]
pub struct SyntaxLimits {
    pub max_line_bytes: usize,
    pub max_source_bytes: usize,
}

/// The text of one hunk side, and for each hunk line its line in that text.
pub struct HunkSource {
    pub text: String,
    pub line_map: Vec<Option<usize>>,
    pub source_lines: usize,
}

/// The number of UTF-8 bytes of a text.
pub open spec fn byte_len(s: Seq<char>) -> nat {
    vstd::utf8::encode_utf8(s).len()
}

/// The lines of one side among the first `n` hunk lines.
pub open spec fn side_texts(lines: Seq<DiffLine>, side: DiffSide, n: int) -> Seq<Seq<char>>
    decreases n,
{
    if n <= 0 {
        Seq::empty()
    } else if belongs_to_side(lines[n - 1].kind, side) {
        side_texts(lines, side, n - 1).push(lines[n - 1].text@)
    } else {
        side_texts(lines, side, n - 1)
    }
}

/// Lines joined with line feeds between them.
pub open spec fn join_lines(ls: Seq<Seq<char>>) -> Seq<char>
    decreases ls.len(),
{
    if ls.len() == 0 {
        Seq::empty()
    } else if ls.len() == 1 {
        ls[0]
    } else {
        join_lines(ls.drop_last()) + seq!['\n'] + ls.last()
    }
}

/// What `build_hunk_source` gives up on: a side line longer than the line
/// limit, or a text (up to some line) longer than the text limit, at the
/// first line where either happens; else a side with no lines.
pub open spec fn hunk_source_error(lines: Seq<DiffLine>, side: DiffSide, limits: SyntaxLimits, n: int) -> Option<SyntaxSkipReason>
    decreases n,
{
    if n <= 0 {
        None
    } else {
        match hunk_source_error(lines, side, limits, n - 1) {
            Some(e) => Some(e),
            None => if belongs_to_side(lines[n - 1].kind, side) && (byte_len(lines[n - 1].text@) > limits.max_line_bytes
                || byte_len(join_lines(side_texts(lines, side, n))) > limits.max_source_bytes) {
                Some(SyntaxSkipReason::TooLarge)
            } else {
                None
            },
        }
    }
}

/// The line of a side's text that hunk line `k` is, if it is on that side.
pub open spec fn side_line_of(lines: Seq<DiffLine>, side: DiffSide, k: int) -> Option<usize> {
    if belongs_to_side(lines[k].kind, side) {
        Some(side_texts(lines, side, k).len() as usize)
    } else {
        None
    }
}

proof fn lemma_join_push(ls: Seq<Seq<char>>, l: Seq<char>)
    ensures
        join_lines(ls.push(l)) == if ls.len() == 0 { l } else { join_lines(ls) + seq!['\n'] + l },
{
    assert(ls.push(l).drop_last() =~= ls);
}

proof fn lemma_error_sticks(lines: Seq<DiffLine>, side: DiffSide, limits: SyntaxLimits, m: int, n: int)
    requires
        m <= n,
        hunk_source_error(lines, side, limits, m) is Some,
    ensures
        hunk_source_error(lines, side, limits, n) == hunk_source_error(lines, side, limits, m),
    decreases n - m,
{
    if m < n {
        lemma_error_sticks(lines, side, limits, m, n - 1);
    }
}

proof fn lemma_side_texts_len(lines: Seq<DiffLine>, side: DiffSide, n: int)
    requires
        0 <= n,
    ensures
        side_texts(lines, side, n).len() <= n,
    decreases n,
{
    if n > 0 {
        lemma_side_texts_len(lines, side, n - 1);
    }
}

/// Puts together the text of one hunk side, with a line feed between lines,
/// and maps each hunk line to its line in that text. Gives up on texts too
/// large to highlight, and on a side without lines.
pub fn build_hunk_source(lines: &[DiffLine], side: DiffSide, limits: SyntaxLimits) -> (r: Result<HunkSource, SyntaxSkipReason>)
    ensures
        match r {
            Ok(source) => hunk_source_error(lines@, side, limits, lines@.len() as int) is None
                && side_texts(lines@, side, lines@.len() as int).len() > 0
                && source.text@ == join_lines(side_texts(lines@, side, lines@.len() as int))
                && source.source_lines == side_texts(lines@, side, lines@.len() as int).len()
                && source.line_map@.len() == lines@.len()
                && forall|k: int| 0 <= k < lines@.len() ==> #[trigger] source.line_map@[k] == side_line_of(lines@, side, k),
            Err(reason) => match hunk_source_error(lines@, side, limits, lines@.len() as int) {
                Some(e) => reason == e,
                None => reason == SyntaxSkipReason::NoSource && side_texts(lines@, side, lines@.len() as int).len() == 0,
            },
        },
{
    let mut text = String::new();
    let mut line_map: Vec<Option<usize>> = Vec::new();
    let mut source_lines: usize = 0;
    let mut index: usize = 0;
    while index < lines.len()
        invariant
            index <= lines@.len(),
            hunk_source_error(lines@, side, limits, index as int) is None,
            text@ == join_lines(side_texts(lines@, side, index as int)),
            source_lines == side_texts(lines@, side, index as int).len(),
            line_map@.len() == index,
            forall|k: int| 0 <= k < index ==> #[trigger] line_map@[k] == side_line_of(lines@, side, k),
        decreases lines@.len() - index,
    {
        let line = &lines[index];
        proof {
            lemma_side_texts_len(lines@, side, index as int);
        }
        if !line_belongs_to_side(line.kind, side) {
            line_map.push(None);
            index += 1;
            continue;
        }
        if line.text.as_str().as_bytes().len() > limits.max_line_bytes {
            proof {
                assert(hunk_source_error(lines@, side, limits, index + 1) == Some(SyntaxSkipReason::TooLarge));
                lemma_error_sticks(lines@, side, limits, index + 1, lines@.len() as int);
            }
            return Err(SyntaxSkipReason::TooLarge);
        }
        if source_lines > 0 {
            string_push(&mut text, '\n');
        }
        text.append(line.text.as_str());
        proof {
            lemma_join_push(side_texts(lines@, side, index as int), line.text@);
            assert(text@ == join_lines(side_texts(lines@, side, index + 1)));
        }
        if text.as_str().as_bytes().len() > limits.max_source_bytes {
            proof {
                assert(hunk_source_error(lines@, side, limits, index + 1) == Some(SyntaxSkipReason::TooLarge));
                lemma_error_sticks(lines@, side, limits, index + 1, lines@.len() as int);
            }
            return Err(SyntaxSkipReason::TooLarge);
        }
        proof {
            assert(lines@[index as int].text@ == line.text@);
            assert(byte_len(lines@[index as int].text@) <= limits.max_line_bytes);
            assert(byte_len(join_lines(side_texts(lines@, side, index + 1))) <= limits.max_source_bytes);
            assert(belongs_to_side(lines@[index as int].kind, side));
            assert(hunk_source_error(lines@, side, limits, index as int) is None);
            assert(hunk_source_error(lines@, side, limits, index + 1) is None);
        }
        line_map.push(Some(source_lines));
        source_lines += 1;
        index += 1;
    }
    if source_lines == 0 {
        return Err(SyntaxSkipReason::NoSource);
    }
    Ok(HunkSource { text, line_map, source_lines })
}

/// The line of a side's file that hunk line `k` is (one less than its line
/// number), if it is on that side and has a number above zero.
pub open spec fn file_line_of(lines: Seq<DiffLine>, side: DiffSide, k: int) -> Option<usize> {
    let number = match side {
        DiffSide::Old => lines[k].old_line,
        DiffSide::New => lines[k].new_line,
    };
    if !belongs_to_side(lines[k].kind, side) {
        None
    } else {
        match number {
            Some(n) => if n >= 1 { Some((n - 1) as usize) } else { None },
            None => None,
        }
    }
}

/// Maps each hunk line to its line in the side's whole file; a side with no
/// numbered line has no source.
pub fn build_full_file_line_map(lines: &[DiffLine], side: DiffSide) -> (r: Result<Vec<Option<usize>>, SyntaxSkipReason>)
    ensures
        match r {
            Ok(map) => map@.len() == lines@.len()
                && (forall|k: int| 0 <= k < lines@.len() ==> #[trigger] map@[k] == file_line_of(lines@, side, k))
                && exists|k: int| 0 <= k < lines@.len() && (#[trigger] file_line_of(lines@, side, k)) is Some,
            Err(reason) => reason == SyntaxSkipReason::NoSource
                && forall|k: int| 0 <= k < lines@.len() ==> (#[trigger] file_line_of(lines@, side, k)) is None,
        },
{
    let mut line_map: Vec<Option<usize>> = Vec::new();
    let mut found = false;
    let mut index: usize = 0;
    while index < lines.len()
        invariant
            index <= lines@.len(),
            line_map@.len() == index,
            forall|k: int| 0 <= k < index ==> #[trigger] line_map@[k] == file_line_of(lines@, side, k),
            found <==> exists|k: int| 0 <= k < index && (#[trigger] file_line_of(lines@, side, k)) is Some,
        decreases lines@.len() - index,
    {
        let line = &lines[index];
        let entry = if !line_belongs_to_side(line.kind, side) {
            None
        } else {
            match diff_line_number(line, side) {
                Some(n) => if n >= 1 { Some(n - 1) } else { None },
                None => None,
            }
        };
        assert(entry == file_line_of(lines@, side, index as int));
        if entry.is_some() {
            found = true;
        }
        line_map.push(entry);
        index += 1;
    }
    if !found {
        return Err(SyntaxSkipReason::NoSource);
    }
    Ok(line_map)
}

/// The paths a file has on the two sides of a diff.
pub struct FilePaths {
    pub old_path: Option<String>,
    pub new_path: Option<String>,
}

/// The optional characters of an optional string.
pub open spec fn opt_text(p: Option<String>) -> Option<Seq<char>> {
    match p {
        Some(s) => Some(s@),
        None => None,
    }
}

/// The optional characters of an optional text slice.
pub open spec fn opt_str(p: Option<&str>) -> Option<Seq<char>> {
    match p {
        Some(s) => Some(s@),
        None => None,
    }
}

fn path_ref(p: &Option<String>) -> (r: Option<&str>)
    ensures
        opt_str(r) == opt_text(*p),
{
    match p {
        Some(s) => Some(s.as_str()),
        None => None,
    }
}

/// The characters of the path a file has on one side, if any.
pub open spec fn side_path_view(file: FilePaths, side: DiffSide) -> Option<Seq<char>> {
    match side {
        DiffSide::Old => opt_text(file.old_path),
        DiffSide::New => opt_text(file.new_path),
    }
}

/// The characters of the path that names a side's language: the side's own
/// path, or the other side's when it has none.
pub open spec fn syntax_path_view(file: FilePaths, side: DiffSide) -> Option<Seq<char>> {
    match side {
        DiffSide::Old => if file.old_path is Some { opt_text(file.old_path) } else { opt_text(file.new_path) },
        DiffSide::New => if file.new_path is Some { opt_text(file.new_path) } else { opt_text(file.old_path) },
    }
}

/// The path a file has on one side, if any.
pub fn file_path_for_side(file: &FilePaths, side: DiffSide) -> (r: Option<&str>)
    ensures
        opt_str(r) == side_path_view(*file, side),
{
    match side {
        DiffSide::Old => path_ref(&file.old_path),
        DiffSide::New => path_ref(&file.new_path),
    }
}

/// The path that names a side's language: the side's own path, or the
/// other side's when it has none.
pub fn syntax_path(file: &FilePaths, side: DiffSide) -> (r: Option<&str>)
    ensures
        opt_str(r) == syntax_path_view(*file, side),
{
    match side {
        DiffSide::Old => if file.old_path.is_some() { path_ref(&file.old_path) } else { path_ref(&file.new_path) },
        DiffSide::New => if file.new_path.is_some() { path_ref(&file.new_path) } else { path_ref(&file.old_path) },
    }
}

/// Where a patch was read from: a file (by its displayed path), standard
/// input, or a text with a label.
pub enum PatchSource {
    File(String),
    Stdin,
    Text { label: String },
}

/// Where a diff came from; paths are held as they are displayed.
pub enum DiffSource {
    Patch(PatchSource),
    Show(String),
    Difftool { left: String, right: String, path: Option<String> },
    Worktree,
    Base(String),
    Branch { base: String, head: String },
    Range { left: String, right: String },
}

/// Which changes of the worktree a diff shows.
#[derive(Debug, Clone, Copy, PartialEq, Eq, Structural)]
pub enum DiffScope {
    All,
    Staged,
    Unstaged,
}

/// Where a side's whole file is read from.
pub enum FullFileSourceKind {
    Worktree { path: String },
    GitRevision { rev: String, path: String },
    GitIndex { path: String },
    GitMergeBase { base: String, head: String, path: String },
}

/// Where a side's whole file is read from, as characters.
pub ghost enum FullFileKindView {
    Worktree(Seq<char>),
    GitRevision(Seq<char>, Seq<char>),
    GitIndex(Seq<char>),
    GitMergeBase(Seq<char>, Seq<char>, Seq<char>),
}

/// The characters of a full-file source.
pub open spec fn kind_view(k: FullFileSourceKind) -> FullFileKindView {
    match k {
        FullFileSourceKind::Worktree { path } => FullFileKindView::Worktree(path@),
        FullFileSourceKind::GitRevision { rev, path } => FullFileKindView::GitRevision(rev@, path@),
        FullFileSourceKind::GitIndex { path } => FullFileKindView::GitIndex(path@),
        FullFileSourceKind::GitMergeBase { base, head, path } => FullFileKindView::GitMergeBase(base@, head@, path@),
    }
}

/// Where the whole file of a side is read from: nothing for patches, shown
/// commits and difftool diffs, nor outside a repository, nor for a side
/// without a path; the worktree, the index or a revision as the diff's
/// source and scope say; nothing for other scopes.
pub open spec fn full_file_spec(source: DiffSource, scope: DiffScope, path: Option<Seq<char>>, side: DiffSide, repo_is_dir: bool) -> Option<FullFileKindView> {
    match source {
        DiffSource::Patch(_) => None,
        DiffSource::Show(_) => None,
        DiffSource::Difftool { .. } => None,
        _ => if !repo_is_dir {
            None
        } else {
            match path {
                None => None,
                Some(p) => match (source, scope, side) {
                    (DiffSource::Worktree, DiffScope::All, DiffSide::Old) => Some(FullFileKindView::GitRevision("HEAD"@, p)),
                    (DiffSource::Worktree, DiffScope::All, DiffSide::New) => Some(FullFileKindView::Worktree(p)),
                    (DiffSource::Worktree, DiffScope::Staged, DiffSide::Old) => Some(FullFileKindView::GitRevision("HEAD"@, p)),
                    (DiffSource::Worktree, DiffScope::Staged, DiffSide::New) => Some(FullFileKindView::GitIndex(p)),
                    (DiffSource::Worktree, DiffScope::Unstaged, DiffSide::Old) => Some(FullFileKindView::GitIndex(p)),
                    (DiffSource::Worktree, DiffScope::Unstaged, DiffSide::New) => Some(FullFileKindView::Worktree(p)),
                    (DiffSource::Base(base), DiffScope::All, DiffSide::Old) => Some(FullFileKindView::GitMergeBase(base@, "HEAD"@, p)),
                    (DiffSource::Base(_), DiffScope::All, DiffSide::New) => Some(FullFileKindView::Worktree(p)),
                    (DiffSource::Branch { base, head }, DiffScope::All, DiffSide::Old) => Some(FullFileKindView::GitMergeBase(base@, head@, p)),
                    (DiffSource::Branch { base: _, head }, DiffScope::All, DiffSide::New) => Some(FullFileKindView::GitRevision(head@, p)),
                    (DiffSource::Range { left, right: _ }, DiffScope::All, DiffSide::Old) => Some(FullFileKindView::GitRevision(left@, p)),
                    (DiffSource::Range { left: _, right }, DiffScope::All, DiffSide::New) => Some(FullFileKindView::GitRevision(right@, p)),
                    _ => None,
                },
            }
        },
    }
}

fn copy_string(s: &String) -> (r: String)
    ensures
        r@ == s@,
{
    String::from_str(s.as_str())
}

/// Where the whole file of a side is read from, given whether the
/// repository directory exists.
pub fn full_file_source(source: &DiffSource, scope: DiffScope, file: &FilePaths, side: DiffSide, repo_is_dir: bool) -> (r: Option<FullFileSourceKind>)
    ensures
        match r {
            Some(k) => full_file_spec(*source, scope, side_path_view(*file, side), side, repo_is_dir) == Some(kind_view(k)),
            None => full_file_spec(*source, scope, side_path_view(*file, side), side, repo_is_dir) is None,
        },
{
    match source {
        DiffSource::Patch(_) | DiffSource::Show(_) | DiffSource::Difftool { .. } => return None,
        _ => {},
    }
    if !repo_is_dir {
        return None;
    }
    let path = match file_path_for_side(file, side) {
        Some(p) => String::from_str(p),
        None => return None,
    };
    proof {
        reveal_strlit("HEAD");
    }
    match (source, scope, side) {
        (DiffSource::Worktree, DiffScope::All, DiffSide::Old) => Some(FullFileSourceKind::GitRevision { rev: String::from_str("HEAD"), path }),
        (DiffSource::Worktree, DiffScope::All, DiffSide::New) => Some(FullFileSourceKind::Worktree { path }),
        (DiffSource::Worktree, DiffScope::Staged, DiffSide::Old) => Some(FullFileSourceKind::GitRevision { rev: String::from_str("HEAD"), path }),
        (DiffSource::Worktree, DiffScope::Staged, DiffSide::New) => Some(FullFileSourceKind::GitIndex { path }),
        (DiffSource::Worktree, DiffScope::Unstaged, DiffSide::Old) => Some(FullFileSourceKind::GitIndex { path }),
        (DiffSource::Worktree, DiffScope::Unstaged, DiffSide::New) => Some(FullFileSourceKind::Worktree { path }),
        (DiffSource::Base(base), DiffScope::All, DiffSide::Old) => Some(FullFileSourceKind::GitMergeBase { base: copy_string(base), head: String::from_str("HEAD"), path }),
        (DiffSource::Base(_), DiffScope::All, DiffSide::New) => Some(FullFileSourceKind::Worktree { path }),
        (DiffSource::Branch { base, head }, DiffScope::All, DiffSide::Old) => Some(FullFileSourceKind::GitMergeBase { base: copy_string(base), head: copy_string(head), path }),
        (DiffSource::Branch { base: _, head }, DiffScope::All, DiffSide::New) => Some(FullFileSourceKind::GitRevision { rev: copy_string(head), path }),
        (DiffSource::Range { left, right: _ }, DiffScope::All, DiffSide::Old) => Some(FullFileSourceKind::GitRevision { rev: copy_string(left), path }),
        (DiffSource::Range { left: _, right }, DiffScope::All, DiffSide::New) => Some(FullFileSourceKind::GitRevision { rev: copy_string(right), path }),
        _ => None,
    }
}

/// The lines of a byte text as `str::lines` splits it: at each line feed,
/// dropping a carriage return just before it, with no empty line after a
/// final line feed.
pub open spec fn byte_lines(b: Seq<u8>) -> Seq<Seq<u8>> {
    let pieces = byte_pieces(b);
    let n = pieces.len() as int;
    let body = Seq::new((n - 1) as nat, |i: int| strip_cr(pieces[i]));
    if pieces[n - 1].len() == 0 {
        body
    } else {
        body.push(pieces[n - 1])
    }
}

/// A piece without its last carriage return.
pub open spec fn strip_cr(p: Seq<u8>) -> Seq<u8> {
    if p.len() > 0 && p.last() == 13u8 {
        p.drop_last()
    } else {
        p
    }
}

/// The pieces of a byte text between line feeds (always at least one).
pub open spec fn byte_pieces(b: Seq<u8>) -> Seq<Seq<u8>>
    decreases b.len(),
{
    if b.len() == 0 {
        seq![Seq::empty()]
    } else {
        let prev = byte_pieces(b.drop_last());
        if b.last() == 10u8 {
            prev.push(Seq::empty())
        } else {
            prev.update(prev.len() - 1, prev.last().push(b.last()))
        }
    }
}

proof fn lemma_byte_pieces_len(b: Seq<u8>)
    ensures
        byte_pieces(b).len() >= 1,
    decreases b.len(),
{
    if b.len() > 0 {
        lemma_byte_pieces_len(b.drop_last());
    }
}

/// Whether a highlighted text is within the limits: its bytes and each of
/// its lines' bytes.
pub open spec fn source_fits(b: Seq<u8>, limits: SyntaxLimits) -> bool {
    b.len() <= limits.max_source_bytes
        && forall|i: int| 0 <= i < byte_lines(b).len() ==> (#[trigger] byte_lines(b)[i]).len() <= limits.max_line_bytes
}

/// Checks a whole file against the highlighting limits.
pub fn validate_highlight_source(source: &str, limits: SyntaxLimits) -> (r: Result<(), SyntaxSkipReason>)
    ensures
        r is Ok <==> source_fits(source.spec_bytes(), limits),
        r matches Err(e) ==> e == SyntaxSkipReason::TooLarge,
{
    let bytes = source.as_bytes();
    if bytes.len() > limits.max_source_bytes {
        return Err(SyntaxSkipReason::TooLarge);
    }
    let ghost b = bytes@;
    let mut start: usize = 0;
    let mut i: usize = 0;
    let ghost mut done: Seq<Seq<u8>> = Seq::empty();
    proof {
        assert(b.take(0) =~= Seq::<u8>::empty());
        assert(byte_pieces(b.take(0)) =~= done.push(b.subrange(0, 0)));
    }
    while i < bytes.len()
        invariant
            start <= i <= bytes@.len(),
            b == bytes@,
            b == source.spec_bytes(),
            b.len() <= limits.max_source_bytes,
            byte_pieces(b.take(i as int)) == done.push(b.subrange(start as int, i as int)),
            forall|j: int| 0 <= j < done.len() ==> (#[trigger] strip_cr(done[j])).len() <= limits.max_line_bytes,
        decreases bytes@.len() - i,
    {
        proof {
            assert(b.take(i as int + 1).drop_last() =~= b.take(i as int));
            assert(b.take(i as int + 1).last() == b[i as int]);
        }
        if bytes[i] == 10u8 {
            let piece_len = i - start;
            let line_len = if piece_len > 0 && bytes[i - 1] == 13u8 { piece_len - 1 } else { piece_len };
            let ghost piece = b.subrange(start as int, i as int);
            proof {
                if piece_len > 0 {
                    assert(piece.last() == b[i - 1]);
                }
                assert(strip_cr(piece).len() == line_len);
            }
            if line_len > limits.max_line_bytes {
                proof {
                    assert(byte_pieces(b.take(i as int + 1)) =~= done.push(piece).push(Seq::<u8>::empty()));
                    lemma_pieces_prefix(b, i as int + 1, done.push(piece));
                    let all = byte_pieces(b);
                    lemma_byte_pieces_len(b);
                    assert(all[done.len() as int] == piece);
                    assert(done.len() < all.len() - 1);
                    assert(byte_lines(b)[done.len() as int] == strip_cr(piece));
                }
                return Err(SyntaxSkipReason::TooLarge);
            }
            proof {
                done = done.push(piece);
                assert(b.subrange(i + 1, i + 1) =~= Seq::<u8>::empty());
                assert(byte_pieces(b.take(i as int + 1)) =~= done.push(b.subrange(i + 1, i + 1)));
            }
            start = i + 1;
        } else {
            proof {
                assert(b.subrange(start as int, i + 1) =~= b.subrange(start as int, i as int).push(b[i as int]));
                assert(byte_pieces(b.take(i as int + 1)) =~= done.push(b.subrange(start as int, i + 1)));
            }
        }
        i += 1;
    }
    let tail_len = bytes.len() - start;
    proof {
        assert(b.take(b.len() as int) =~= b);
    }
    if tail_len > limits.max_line_bytes {
        proof {
            let all = byte_pieces(b);
            assert(all == done.push(b.subrange(start as int, b.len() as int)));
            assert(byte_lines(b)[done.len() as int] == b.subrange(start as int, b.len() as int));
        }
        return Err(SyntaxSkipReason::TooLarge);
    }
    proof {
        let all = byte_pieces(b);
        assert(all == done.push(b.subrange(start as int, b.len() as int)));
        assert forall|j: int| 0 <= j < byte_lines(b).len() implies (#[trigger] byte_lines(b)[j]).len() <= limits.max_line_bytes by {
            if j < done.len() {
                assert(byte_lines(b)[j] == strip_cr(done[j]));
            } else {
                assert(byte_lines(b)[j] == b.subrange(start as int, b.len() as int));
            }
        }
    }
    Ok(())
}

/// The pieces of a text's prefix up to a line feed begin the text's pieces.
proof fn lemma_pieces_prefix(b: Seq<u8>, k: int, done: Seq<Seq<u8>>)
    requires
        0 < k <= b.len(),
        b[k - 1] == 10u8,
        byte_pieces(b.take(k)) == done.push(Seq::<u8>::empty()),
    ensures
        byte_pieces(b).len() > done.len(),
        forall|j: int| 0 <= j < done.len() ==> #[trigger] byte_pieces(b)[j] == done[j],
    decreases b.len() - k,
{
    if k == b.len() {
        assert(b.take(k) =~= b);
    } else {
        let c = b.drop_last();
        assert(c.take(k) =~= b.take(k));
        lemma_pieces_prefix(c, k, done);
        lemma_byte_pieces_len(c);
    }
}

/// The number of lines `str::lines` finds in a byte text, at least one.
pub fn source_line_count(source: &str) -> (r: usize)
    ensures
        r == if byte_lines(source.spec_bytes()).len() > 1 { byte_lines(source.spec_bytes()).len() } else { 1 },
{
    let bytes = source.as_bytes();
    let ghost b = bytes@;
    let mut breaks: usize = 0;
    let mut i: usize = 0;
    proof {
        assert(b.take(0) =~= Seq::<u8>::empty());
    }
    while i < bytes.len()
        invariant
            i <= bytes@.len(),
            b == bytes@,
            breaks + (if i > 0 && b[i - 1] != 10u8 { 1int } else { 0 }) <= i,
            byte_pieces(b.take(i as int)).len() == breaks + 1,
        decreases bytes@.len() - i,
    {
        proof {
            assert(b.take(i as int + 1).drop_last() =~= b.take(i as int));
            lemma_byte_pieces_len(b.take(i as int));
        }
        if bytes[i] == 10u8 {
            breaks += 1;
        }
        i += 1;
    }
    proof {
        assert(b.take(b.len() as int) =~= b);
        lemma_last_piece_empty(b);
    }
    let last_empty = bytes.len() == 0 || bytes[bytes.len() - 1] == 10u8;
    let count = if last_empty { breaks } else { breaks + 1 };
    if count > 1 { count } else { 1 }
}

proof fn lemma_last_piece_empty(b: Seq<u8>)
    ensures
        byte_pieces(b).len() >= 1,
        byte_pieces(b).last().len() == 0 <==> (b.len() == 0 || b.last() == 10u8),
{
    lemma_byte_pieces_len(b);
    if b.len() > 0 {
        lemma_byte_pieces_len(b.drop_last());
    }
}

/// The lines of a text as `str::lines` splits it, as characters.
pub open spec fn text_lines(s: Seq<char>) -> Seq<Seq<char>> {
    let pieces = split_lines(s);
    let n = pieces.len() as int;
    let body = Seq::new((n - 1) as nat, |i: int| strip_cr_chars(pieces[i]));
    if pieces[n - 1].len() == 0 {
        body
    } else {
        body.push(pieces[n - 1])
    }
}

/// A piece without its last carriage return.
pub open spec fn strip_cr_chars(p: Seq<char>) -> Seq<char> {
    if p.len() > 0 && p.last() == '\r' {
        p.drop_last()
    } else {
        p
    }
}

/// The characters of each string.
pub open spec fn string_views(v: Seq<String>) -> Seq<Seq<char>> {
    v.map_values(|s: String| s@)
}

/// The lines of a context source, each as a string.
pub fn split_context_source_lines(source: &str) -> (r: Vec<String>)
    ensures
        string_views(r@) == text_lines(source@),
{
    let ghost s = source@;
    let chars = chars_vec(source);
    let mut out: Vec<String> = Vec::new();
    let mut start: usize = 0;
    let mut i: usize = 0;
    let ghost mut done: Seq<Seq<char>> = Seq::empty();
    proof {
        assert(s.take(0) =~= Seq::<char>::empty());
        assert(split_lines(s.take(0)) =~= done.push(s.subrange(0, 0)));
        assert(string_views(out@) =~= Seq::new(done.len(), |j: int| strip_cr_chars(done[j])));
    }
    while i < chars.len()
        invariant
            start <= i <= chars@.len(),
            chars@ == s,
            split_lines(s.take(i as int)) == done.push(s.subrange(start as int, i as int)),
            string_views(out@) == Seq::new(done.len(), |j: int| strip_cr_chars(done[j])),
        decreases chars@.len() - i,
    {
        proof {
            assert(s.take(i as int + 1).drop_last() =~= s.take(i as int));
            assert(s.take(i as int + 1).last() == s[i as int]);
        }
        if chars[i] == '\n' {
            let ghost piece = s.subrange(start as int, i as int);
            let end = if i > start && chars[i - 1] == '\r' { i - 1 } else { i };
            proof {
                if i > start {
                    assert(piece.last() == s[i - 1]);
                }
                assert(s.subrange(start as int, end as int) =~= strip_cr_chars(piece));
            }
            let ghost old_views = string_views(out@);
            let ghost old_done = done;
            out.push(string_from_range(&chars, start, end));
            proof {
                assert(string_views(out@) =~= old_views.push(s.subrange(start as int, end as int)));
                done = done.push(piece);
                assert forall|j: int| 0 <= j < done.len() implies string_views(out@)[j] == strip_cr_chars(done[j]) by {
                    if j < old_done.len() {
                        assert(old_views[j] == strip_cr_chars(old_done[j]));
                    }
                }
                assert(string_views(out@) =~= Seq::new(done.len(), |j: int| strip_cr_chars(done[j])));
                assert(s.subrange(i + 1, i + 1) =~= Seq::<char>::empty());
                assert(split_lines(s.take(i as int + 1)) =~= done.push(s.subrange(i + 1, i + 1)));
            }
            start = i + 1;
        } else {
            proof {
                assert(s.subrange(start as int, i + 1) =~= s.subrange(start as int, i as int).push(s[i as int]));
                assert(split_lines(s.take(i as int + 1)) =~= done.push(s.subrange(start as int, i + 1)));
            }
        }
        i += 1;
    }
    proof {
        assert(s.take(s.len() as int) =~= s);
        assert(split_lines(s) == done.push(s.subrange(start as int, s.len() as int)));
        assert(Seq::new(done.len(), |j: int| strip_cr_chars(done[j])) =~= Seq::new(
            (split_lines(s).len() - 1) as nat,
            |j: int| strip_cr_chars(split_lines(s)[j]),
        ));
    }
    if start < chars.len() {
        out.push(string_from_range(&chars, start, chars.len()));
        proof {
            assert(string_views(out@) =~= text_lines(s));
        }
    }
    out
}

/// How many context lines a file can still give from line `source_start`
/// (counted from one) on: none from line zero, else the lines from there to
/// the end, at most `total`.
pub fn available_context_lines(source_start: usize, total: usize, source_line_count: usize) -> (r: usize)
    ensures
        r == if source_start == 0 {
            0
        } else {
            let left = if source_line_count >= source_start - 1 { source_line_count - (source_start - 1) } else { 0 };
            if left < total { left } else { total as int }
        },
{
    if source_start == 0 {
        return 0;
    }
    let index_start = source_start - 1;
    let left = source_line_count.saturating_sub(index_start);
    if left < total { left } else { total }
}

/// Whether a path stays within the repository: relative, with no `..`.
/// The parts to join onto the repository are its pieces between slashes
/// other than empty ones and `.`.
pub open spec fn repo_components_spec(p: Seq<char>) -> Option<Seq<Seq<char>>> {
    let pieces = pieces_on(p, '/');
    if p.len() > 0 && p[0] == '/' {
        None
    } else if exists|i: int| 0 <= i < pieces.len() && pieces[i] == seq!['.', '.'] {
        None
    } else {
        Some(pieces.filter(|x: Seq<char>| x.len() > 0 && x != seq!['.']))
    }
}

/// The pieces of `s` between occurrences of `sep` (always at least one).
pub open spec fn pieces_on(s: Seq<char>, sep: char) -> Seq<Seq<char>>
    decreases s.len(),
{
    if s.len() == 0 {
        seq![Seq::empty()]
    } else {
        let prev = pieces_on(s.drop_last(), sep);
        if s.last() == sep {
            prev.push(Seq::empty())
        } else {
            prev.update(prev.len() - 1, prev.last().push(s.last()))
        }
    }
}

proof fn lemma_pieces_on_len(s: Seq<char>, sep: char)
    ensures
        pieces_on(s, sep).len() >= 1,
    decreases s.len(),
{
    if s.len() > 0 {
        lemma_pieces_on_len(s.drop_last(), sep);
    }
}

/// Whether `chars[start..end]` is `..`, and whether it is `.`.
fn classify_piece(chars: &Vec<char>, start: usize, end: usize) -> (r: (bool, bool))
    requires
        start <= end <= chars@.len(),
    ensures
        r.0 == (chars@.subrange(start as int, end as int) == seq!['.', '.']),
        r.1 == (chars@.subrange(start as int, end as int) == seq!['.']),
{
    let ghost piece = chars@.subrange(start as int, end as int);
    let len = end - start;
    let is_parent = len == 2 && chars[start] == '.' && chars[start + 1] == '.';
    let is_current = len == 1 && chars[start] == '.';
    proof {
        if is_parent {
            assert(piece =~= seq!['.', '.']);
        } else if piece == seq!['.', '.'] {
            assert(piece.len() == 2);
            assert(piece[0] == chars@[start as int]);
            assert(piece[1] == chars@[start + 1]);
        }
        if is_current {
            assert(piece =~= seq!['.']);
        } else if piece == seq!['.'] {
            assert(piece.len() == 1);
            assert(piece[0] == chars@[start as int]);
        }
    }
    (is_parent, is_current)
}

/// The repository-relative parts of `path` to join onto the repository, or
/// nothing when the path could leave it (absolute, or with a `..` part).
pub fn safe_repo_components(path: &str) -> (r: Option<Vec<String>>)
    ensures
        match r {
            Some(parts) => repo_components_spec(path@) == Some(string_views(parts@)),
            None => repo_components_spec(path@) is None,
        },
{
    let ghost p = path@;
    let ghost keep = |x: Seq<char>| x.len() > 0 && x != seq!['.'];
    let chars = chars_vec(path);
    if chars.len() > 0 && chars[0] == '/' {
        return None;
    }
    let mut parts: Vec<String> = Vec::new();
    let mut start: usize = 0;
    let mut i: usize = 0;
    let ghost mut done: Seq<Seq<char>> = Seq::empty();
    proof {
        assert(p.take(0) =~= Seq::<char>::empty());
        assert(pieces_on(p.take(0), '/') =~= done.push(p.subrange(0, 0)));
    }
    while i < chars.len()
        invariant
            start <= i <= chars@.len(),
            chars@ == p,
            p == path@,
            keep == (|x: Seq<char>| x.len() > 0 && x != seq!['.']),
            pieces_on(p.take(i as int), '/') == done.push(p.subrange(start as int, i as int)),
            forall|j: int| 0 <= j < done.len() ==> done[j] != seq!['.', '.'],
            string_views(parts@) == done.filter(keep),
            !(p.len() > 0 && p[0] == '/'),
        decreases chars@.len() - i,
    {
        proof {
            assert(p.take(i as int + 1).drop_last() =~= p.take(i as int));
            assert(p.take(i as int + 1).last() == p[i as int]);
        }
        if chars[i] == '/' {
            let ghost piece = p.subrange(start as int, i as int);
            let (is_parent, is_current) = classify_piece(&chars, start, i);
            if is_parent {
                proof {
                    assert(pieces_on(p.take(i as int + 1), '/') =~= done.push(piece).push(Seq::<char>::empty()));
                    lemma_pieces_on_prefix(p, i as int + 1, done.push(piece));
                    assert(pieces_on(p, '/')[done.len() as int] == piece);
                    assert(piece == seq!['.', '.']);
                    assert(pieces_on(p, '/')[done.len() as int] == seq!['.', '.']);
                    assert(repo_components_spec(p) is None);
                }
                return None;
            }
            let ghost old_views = string_views(parts@);
            if i > start && !is_current {
                parts.push(string_from_range(&chars, start, i));
                proof {
                    assert(string_views(parts@) =~= old_views.push(piece));
                }
            }
            proof {
                reveal(Seq::filter);
                assert(done.push(piece).drop_last() =~= done);
                assert(done.push(piece).filter(keep) == if keep(piece) { done.filter(keep).push(piece) } else { done.filter(keep) });
                assert(p.subrange(i + 1, i + 1) =~= Seq::<char>::empty());
                assert(pieces_on(p.take(i as int + 1), '/') =~= done.push(piece).push(p.subrange(i + 1, i + 1)));
                done = done.push(piece);
            }
            start = i + 1;
        } else {
            proof {
                assert(p.subrange(start as int, i + 1) =~= p.subrange(start as int, i as int).push(p[i as int]));
                assert(pieces_on(p.take(i as int + 1), '/') =~= done.push(p.subrange(start as int, i + 1)));
            }
        }
        i += 1;
    }
    let ghost piece = p.subrange(start as int, p.len() as int);
    proof {
        assert(p.take(p.len() as int) =~= p);
    }
    let (is_parent, is_current) = classify_piece(&chars, start, chars.len());
    if is_parent {
        proof {
            assert(pieces_on(p, '/')[done.len() as int] == piece);
        }
        return None;
    }
    let ghost old_views = string_views(parts@);
    if chars.len() > start && !is_current {
        parts.push(string_from_range(&chars, start, chars.len()));
        proof {
            assert(string_views(parts@) =~= old_views.push(piece));
        }
    }
    proof {
        reveal(Seq::filter);
        assert(done.push(piece).drop_last() =~= done);
        assert(done.push(piece).filter(keep) == if keep(piece) { done.filter(keep).push(piece) } else { done.filter(keep) });
        let all = done.push(piece);
        assert(pieces_on(p, '/') == all);
        assert(!(exists|j: int| 0 <= j < all.len() && all[j] == seq!['.', '.']));
    }
    Some(parts)
}

/// The pieces of a prefix that ends with a separator begin the pieces of
/// the whole text.
proof fn lemma_pieces_on_prefix(s: Seq<char>, k: int, done: Seq<Seq<char>>)
    requires
        0 < k <= s.len(),
        s[k - 1] == '/',
        pieces_on(s.take(k), '/') == done.push(Seq::<char>::empty()),
    ensures
        pieces_on(s, '/').len() > done.len(),
        forall|j: int| 0 <= j < done.len() ==> #[trigger] pieces_on(s, '/')[j] == done[j],
    decreases s.len() - k,
{
    if k == s.len() {
        assert(s.take(k) =~= s);
    } else {
        let c = s.drop_last();
        assert(c.take(k) =~= s.take(k));
        lemma_pieces_on_prefix(c, k, done);
        lemma_pieces_on_len(c, '/');
    }
}

/// Makes `std::path::PathBuf` known, so that a full-file source can carry
/// the repository it reads from.
#[verifier::external_type_specification]
#[verifier::external_body]
pub struct ExPathBuf(std::path::PathBuf);

/// A side's whole file: the repository and where in it the file is read.
pub struct FullFileSource {
    pub repo: std::path::PathBuf,
    pub kind: FullFileSourceKind,
}

/// The text a highlighting job works on.
pub enum SyntaxJobSource {
    Hunk(HunkSource),
    FullFile(FullFileSource),
}

/// The size in bytes of a job's text, when it is known before it is read.
pub open spec fn source_known_bytes(s: SyntaxJobSource) -> Option<u64> {
    match s {
        SyntaxJobSource::Hunk(source) => Some(byte_len(source.text@) as u64),
        SyntaxJobSource::FullFile(_) => None,
    }
}

/// The number of lines of a job's text, when it is known before it is read.
pub open spec fn source_known_lines(s: SyntaxJobSource) -> Option<u64> {
    match s {
        SyntaxJobSource::Hunk(source) => Some(source.source_lines as u64),
        SyntaxJobSource::FullFile(_) => None,
    }
}

impl SyntaxJobSource {
    /// The size of the text in bytes, when it is known before it is read.
    pub fn known_bytes(&self) -> (r: Option<u64>)
        ensures
            r == source_known_bytes(*self),
    {
        match self {
            SyntaxJobSource::Hunk(source) => Some(source.text.as_str().as_bytes().len() as u64),
            SyntaxJobSource::FullFile(_) => None,
        }
    }

    /// The number of lines of the text, when it is known before it is read.
    pub fn known_lines(&self) -> (r: Option<u64>)
        ensures
            r == source_known_lines(*self),
    {
        match self {
            SyntaxJobSource::Hunk(source) => Some(source.source_lines as u64),
            SyntaxJobSource::FullFile(_) => None,
        }
    }
}

/// Copies a path with `PathBuf::clone`, which gives a path of the same
/// bytes; the copy is taken to be the same path.
#[verifier::external_body]
pub(crate) fn copy_path(p: &std::path::PathBuf) -> (r: std::path::PathBuf)
    ensures
        r == *p,
{
    p.clone()
}

/// The hash that `std`'s `DefaultHasher::new()` gives a text.
pub uninterp spec fn text_hash(s: Seq<char>) -> u64;

/// Hashes a text with `std::collections::hash_map::DefaultHasher` created by
/// `new()`, whose keys are fixed, so the hash is a function of the text (the
/// algorithm itself is left unspecified by `std`).
#[verifier::external_body]
pub(crate) fn hash_text(text: &str) -> (r: u64)
    ensures
        r == text_hash(text@),
{
    let mut hasher = std::collections::hash_map::DefaultHasher::new();
    text.hash(&mut hasher);
    hasher.finish()
}

} // verus!
