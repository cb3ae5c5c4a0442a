//! Identities of syntax highlighting jobs and their results.
use vstd::prelude::*;

verus! {

/// Which side of a diff a line or source belongs to.
#[derive(Debug, Clone, Copy, PartialEq, Eq, Hash, Structural)]
pub enum DiffSide {
    Old,
    New,
}

/// A hunk side of one file in one changeset generation.
#[derive(Debug, Clone, Copy, PartialEq, Eq, Hash, Structural)]
pub struct SyntaxPosition {
    pub generation: u64,
    pub file: usize,
    pub hunk: usize,
    pub side: DiffSide,
}

/// Whether a highlighted source covers one hunk side or the whole file.
#[derive(Debug, Clone, Copy, PartialEq, Eq, Hash, Structural)]
pub enum SyntaxSourceKind {
    HunkSide { hunk: usize },
    FullFile,
}

/// The source text a highlighting job covers.
#[derive(Debug, Clone, Copy, PartialEq, Eq, Hash, Structural)]
pub struct SyntaxSourceId {
    pub generation: u64,
    pub file: usize,
    pub side: DiffSide,
    pub kind: SyntaxSourceKind,
}

/// The key of a highlighting job and of its cached result.
#[derive(Debug, Clone, Copy, PartialEq, Eq, Hash, Structural)]
pub struct SyntaxKey {
    pub source: SyntaxSourceId,
    pub language_hash: u64,
    pub theme_id: u64,
}

impl SyntaxKey {
    /// The changeset generation the key belongs to.
    pub fn generation(self) -> (r: u64)
        ensures
            r == self.source.generation,
    {
        self.source.generation
    }
}

/// The theme every highlighting key is made for.
pub const SYNTAX_THEME_ID: u64 = 0;

/// The key of the new side of hunk zero of `file` in changeset `generation`,
/// for language hash one.
pub fn syntax_key_with_generation(generation: u64, file: usize) -> (r: SyntaxKey)
    ensures
        r == (SyntaxKey {
            source: SyntaxSourceId { generation, file, side: DiffSide::New, kind: SyntaxSourceKind::HunkSide { hunk: 0 } },
            language_hash: 1,
            theme_id: SYNTAX_THEME_ID,
        }),
{
    SyntaxKey {
        source: SyntaxSourceId { generation, file, side: DiffSide::New, kind: SyntaxSourceKind::HunkSide { hunk: 0 } },
        language_hash: 1,
        theme_id: SYNTAX_THEME_ID,
    }
}

/// The key of the new side of hunk zero of `file` in the first changeset.
pub fn syntax_key(file: usize) -> (r: SyntaxKey)
    ensures
        r == (SyntaxKey {
            source: SyntaxSourceId { generation: 0, file, side: DiffSide::New, kind: SyntaxSourceKind::HunkSide { hunk: 0 } },
            language_hash: 1,
            theme_id: SYNTAX_THEME_ID,
        }),
{
    syntax_key_with_generation(0, file)
}

/// Why a position or source was not highlighted.
#[derive(Debug, Clone, Copy, PartialEq, Eq, Structural)]
pub enum SyntaxSkipReason {
    InvalidPosition,
    NoPath,
    NoLanguage,
    NoSource,
    TooLarge,
    QueueClosed,
    HighlightError,
}

/// Keys that can be compared for identity in verified code.
pub trait CacheKey: Copy + Sized {
    /// Whether two keys are the same key.
    fn same_key(&self, other: &Self) -> (r: bool)
        ensures
            r == (*self == *other),
    ;
}

impl CacheKey for SyntaxKey {
    fn same_key(&self, other: &Self) -> (r: bool) {
        *self == *other
    }
}

impl CacheKey for SyntaxPosition {
    fn same_key(&self, other: &Self) -> (r: bool) {
        *self == *other
    }
}

impl CacheKey for SyntaxSourceId {
    fn same_key(&self, other: &Self) -> (r: bool) {
        *self == *other
    }
}

impl CacheKey for u64 {
    fn same_key(&self, other: &Self) -> (r: bool) {
        *self == *other
    }
}

} // verus!
