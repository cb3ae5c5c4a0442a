# mark_tui

The core of a keyboard-first terminal diff viewer, written in Verus: each
function of `src/` states what it computes in its `requires`/`ensures`
contract, and Verus proves the code against it.

- `src/` — the library: text fitting and wrapping (`text`, `annotations`,
  `unicode`), inline token emphasis (`inline`, `emphasis`), colorschemes and
  configuration colors (`theme`, `palettes`, `style`), screen and toast
  geometry (`screen`, `layout`, `viewport`), styled rows (`spans`,
  `header_spans`, `headers`, `menus`, `statusline`), and syntax highlighting
  bookkeeping (`source`, `syntax_types`, `syntax_queue`, `syntax_runtime`,
  `syntax_drain`, `lru`, `keyed`).
- `app/` — plain Rust around it: the async runtime, the highlighting worker
  thread with its file and git access, the built-in colorschemes (mixed in
  floating point) and conversions to the terminal toolkit's types.
- `tests/` — tests of the library on concrete values.

Laws that span several functions are public proof functions, for example
`lru::cache_reads_back_what_was_written`, `screen::screen_rows_partition`,
`spans::block_height_matches_rendering` and the ones at the end of
`syntax_runtime`.
