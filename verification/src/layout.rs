//! Choices about the diff area: which layout suits a terminal width, how far
//! it scrolls, and the hatching of empty cells.
use vstd::prelude::*;
use crate::unicode::string_push;

verus! {

/// How the two sides of a diff are laid out.
#[derive(Debug, Clone, Copy, PartialEq, Eq, Structural)]
pub enum DiffLayoutMode {
    Unified,
    Split,
}

/// The narrowest terminal that shows the two sides next to each other.
pub const MIN_SPLIT_WIDTH: u16 = 120;

/// The character that hatches an empty diff cell.
pub const EMPTY_DIFF_FILL: char = '╱';

/// The distance between two hatching characters on a row.
pub const EMPTY_DIFF_FILL_SPACING: usize = 3;

/// The layout for a terminal `width` columns wide: split from the minimum
/// split width on, else unified.
pub fn default_layout_for_width(width: u16) -> (r: DiffLayoutMode)
    ensures
        r == if width >= MIN_SPLIT_WIDTH { DiffLayoutMode::Split } else { DiffLayoutMode::Unified },
{
    if width >= MIN_SPLIT_WIDTH {
        DiffLayoutMode::Split
    } else {
        DiffLayoutMode::Unified
    }
}

/// The last scroll position at which the viewport is still full: the rows
/// less the viewport's height (at least one row), and zero when the rows
/// fit.
pub fn max_scroll_for_viewport(rows: usize, viewport_rows: usize) -> (r: usize)
    ensures
        r == {
            let height = if viewport_rows > 1 { viewport_rows as int } else { 1 };
            if rows > height { rows - height } else { 0 }
        },
{
    let height = if viewport_rows > 1 { viewport_rows } else { 1 };
    rows.saturating_sub(height)
}

/// The hatching of an empty cell `width` columns wide that starts at screen
/// column `column_offset` on visual row `row`: a diagonal stroke on every
/// third column, shifted by one column on each row so the strokes join up.
pub open spec fn empty_fill_spec(width: nat, row: nat, column_offset: nat) -> Seq<char> {
    Seq::new(
        width,
        |c: int| if (column_offset + c + row) % (EMPTY_DIFF_FILL_SPACING as int) == 0 { EMPTY_DIFF_FILL } else { ' ' },
    )
}

/// The hatching of an empty cell.
pub fn empty_diff_fill_from(width: usize, row: usize, column_offset: usize) -> (r: String)
    ensures
        r@ == empty_fill_spec(width as nat, row as nat, column_offset as nat),
{
    let mut phase: usize = (column_offset % EMPTY_DIFF_FILL_SPACING + row % EMPTY_DIFF_FILL_SPACING) % EMPTY_DIFF_FILL_SPACING;
    let mut out = String::new();
    let mut c: usize = 0;
    proof {
        assert(phase == (column_offset + row) % 3) by (nonlinear_arith)
            requires
                phase == (column_offset % 3 + row % 3) % 3,
        ;
    }
    while c < width
        invariant
            c <= width,
            phase < 3,
            phase == (column_offset + c + row) % 3,
            out@ == empty_fill_spec(width as nat, row as nat, column_offset as nat).take(c as int),
        decreases width - c,
    {
        if phase == 0 {
            string_push(&mut out, EMPTY_DIFF_FILL);
        } else {
            string_push(&mut out, ' ');
        }
        proof {
            assert(out@ =~= empty_fill_spec(width as nat, row as nat, column_offset as nat).take(c + 1));
            assert((column_offset + (c + 1) + row) % 3 == if phase == 2 { 0 } else { phase + 1 }) by (nonlinear_arith)
                requires
                    phase == (column_offset + c + row) % 3,
                    phase < 3,
            ;
        }
        phase = if phase == 2 { 0 } else { phase + 1 };
        c += 1;
    }
    assert(out@ =~= empty_fill_spec(width as nat, row as nat, column_offset as nat));
    out
}

} // verus!
