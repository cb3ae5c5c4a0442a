//! The core of a terminal diff viewer: fitting text into columns, wrapping
//! annotations, inline token emphasis, colorschemes, the division of the
//! screen, the styled rows of headers, annotations, menus and the status
//! line, and the bookkeeping of syntax highlighting (its job queue, its
//! cache and what was skipped).
use vstd::prelude::*;

pub mod unicode;
pub mod text;
pub mod syntax_types;
pub mod lru;
pub mod keyed;
pub mod benchmark;
pub mod inline;
pub mod emphasis;
pub mod annotations;
pub mod scan;
pub mod theme;
pub mod palettes;
pub mod headers;
pub mod menus;
pub mod statusline;
pub mod layout;
pub mod screen;
pub mod style;
pub mod spans;
pub mod header_spans;
pub mod source;
pub mod viewport;
pub mod syntax_queue;
pub mod syntax_runtime;
pub mod syntax_drain;

verus! {

} // verus!
