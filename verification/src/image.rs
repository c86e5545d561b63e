//! What a drawn canvas holds: the glyphs, unpacked bit by bit, with blank
//! columns between them.

use crate::bits::glyph_bit;
use crate::draw::{block_cell, ink_of, same_outside_block};
use crate::layout::{
    canvas_width, cell_index, column_of, lemma_cell_index_onto, lemma_column_before,
    lemma_column_end, lemma_column_inside, lemma_column_step,
};
use crate::source::SourceProvider;
use vstd::prelude::*;

verus! {

/// Whether the glyph at position `k` has the pixel in its column `x` and row
/// `y` set. Its rows are as long as the glyph is wide.
pub open spec fn glyph_pixel<P: SourceProvider>(
    provider: P,
    cells: Seq<(char, u8)>,
    k: int,
    x: int,
    y: int,
) -> bool {
    glyph_bit(provider.glyph_pixels(cells[k].0), y * cells[k].1 + x)
}

/// The place in the store of the pixel in column `x` and row `y` of the glyph
/// at position `k`. Column `x == cells[k].1` is the blank column to its right.
pub open spec fn glyph_cell(cells: Seq<(char, u8)>, k: int, x: int, y: int) -> int {
    cell_index(canvas_width(cells), column_of(cells, k) + x, y)
}

/// The place in the store of row `y` of the blank column to the right of the
/// glyph at position `k`.
pub open spec fn margin_cell(cells: Seq<(char, u8)>, k: int, y: int) -> int {
    glyph_cell(cells, k, cells[k].1 as int, y)
}

/// The first `count` glyphs of `cells` stand in `canvas`: every pixel of each
/// holds the ink of its bit.
pub open spec fn glyphs_drawn<P: SourceProvider, M>(
    canvas: Seq<M>,
    provider: P,
    cells: Seq<(char, u8)>,
    height: int,
    ink0: M,
    ink1: M,
    count: int,
) -> bool {
    forall|k: int, x: int, y: int|
        0 <= k < count && 0 <= x < cells[k].1 && 0 <= y < height
            ==> canvas[#[trigger] glyph_cell(cells, k, x, y)]
                == ink_of(ink0, ink1, glyph_pixel(provider, cells, k, x, y))
}

/// The blank columns to the right of the first `count` glyphs of `cells` are
/// clear in `canvas`: every pixel of each holds the first ink.
pub open spec fn margins_clear<M>(
    canvas: Seq<M>,
    cells: Seq<(char, u8)>,
    height: int,
    ink0: M,
    count: int,
) -> bool {
    forall|k: int, y: int|
        0 <= k < count && 0 <= y < height ==> canvas[#[trigger] margin_cell(cells, k, y)] == ink0
}

/// `after` is `before` with `cells` drawn over it, `height` rows high: every
/// glyph stands in it, the column between each two glyphs is clear, and what
/// lies behind the canvas of `canvas_width(cells) * height` cells is as it was.
pub open spec fn painted<P: SourceProvider, M>(
    before: Seq<M>,
    after: Seq<M>,
    provider: P,
    cells: Seq<(char, u8)>,
    height: int,
    ink0: M,
    ink1: M,
) -> bool {
    &&& after.len() == before.len()
    &&& glyphs_drawn(after, provider, cells, height, ink0, ink1, cells.len() as int)
    &&& margins_clear(after, cells, height, ink0, cells.len() - 1)
    &&& forall|i: int| canvas_width(cells) * height <= i < before.len() ==> after[i] == before[i]
}

/// Writing the glyph at position `j` into its block keeps the glyphs and the
/// blank columns to its left, and adds the glyph to them.
pub proof fn lemma_glyph_drawn<P: SourceProvider, M>(
    before: Seq<M>,
    after: Seq<M>,
    provider: P,
    cells: Seq<(char, u8)>,
    height: int,
    ink0: M,
    ink1: M,
    j: int,
)
    requires
        0 <= j < cells.len(),
        glyphs_drawn(before, provider, cells, height, ink0, ink1, j),
        margins_clear(before, cells, height, ink0, j),
        forall|x: int, y: int|
            0 <= x < cells[j].1 && 0 <= y < height ==> after[#[trigger] block_cell(
                canvas_width(cells),
                column_of(cells, j),
                x,
                y,
            )] == ink_of(ink0, ink1, glyph_pixel(provider, cells, j, x, y)),
        same_outside_block(
            before,
            after,
            canvas_width(cells),
            height,
            column_of(cells, j),
            cells[j].1 as int,
        ),
    ensures
        glyphs_drawn(after, provider, cells, height, ink0, ink1, j + 1),
        margins_clear(after, cells, height, ink0, j),
{
    let width = canvas_width(cells);
    lemma_column_inside(cells, j);
    assert forall|k: int, x: int, y: int|
        0 <= k < j + 1 && 0 <= x < cells[k].1 && 0 <= y < height
        implies after[#[trigger] glyph_cell(cells, k, x, y)]
            == ink_of(ink0, ink1, glyph_pixel(provider, cells, k, x, y))
    by {
        if k == j {
            assert(glyph_cell(cells, k, x, y) == block_cell(width, column_of(cells, j), x, y));
        } else {
            lemma_column_before(cells, k, j);
        }
    }
    assert forall|k: int, y: int|
        0 <= k < j && 0 <= y < height
        implies after[#[trigger] margin_cell(cells, k, y)] == ink0
    by {
        lemma_column_before(cells, k, j);
    }
}

/// Clearing the blank column to the right of the glyph at position `j` keeps
/// the glyphs up to that one and the blank columns to its left, and adds the
/// column to them.
pub proof fn lemma_margin_cleared<P: SourceProvider, M>(
    before: Seq<M>,
    after: Seq<M>,
    provider: P,
    cells: Seq<(char, u8)>,
    height: int,
    ink0: M,
    ink1: M,
    j: int,
)
    requires
        0 <= j < cells.len() - 1,
        glyphs_drawn(before, provider, cells, height, ink0, ink1, j + 1),
        margins_clear(before, cells, height, ink0, j),
        forall|y: int|
            0 <= y < height ==> after[#[trigger] cell_index(
                canvas_width(cells),
                column_of(cells, j) + cells[j].1,
                y,
            )] == ink0,
        same_outside_block(
            before,
            after,
            canvas_width(cells),
            height,
            column_of(cells, j) + cells[j].1,
            1,
        ),
    ensures
        glyphs_drawn(after, provider, cells, height, ink0, ink1, j + 1),
        margins_clear(after, cells, height, ink0, j + 1),
{
    lemma_column_inside(cells, j);
    assert forall|k: int, x: int, y: int|
        0 <= k < j + 1 && 0 <= x < cells[k].1 && 0 <= y < height
        implies after[#[trigger] glyph_cell(cells, k, x, y)]
            == ink_of(ink0, ink1, glyph_pixel(provider, cells, k, x, y))
    by {
        if k < j {
            lemma_column_before(cells, k, j);
        }
    }
    assert forall|k: int, y: int|
        0 <= k < j + 1 && 0 <= y < height
        implies after[#[trigger] margin_cell(cells, k, y)] == ink0
    by {
        if k < j {
            lemma_column_before(cells, k, j);
        }
    }
}

/// The glyph in whose columns, or in the blank column to whose right, the
/// column `col` lies, for a column left of where glyph `n` starts.
proof fn lemma_locate_column(cells: Seq<(char, u8)>, n: int, col: int) -> (k: int)
    requires
        0 <= n <= cells.len(),
        0 <= col < column_of(cells, n),
    ensures
        0 <= k < n,
        column_of(cells, k) <= col <= column_of(cells, k) + cells[k].1,
    decreases n,
{
    if n == 0 {
        0
    } else {
        lemma_column_step(cells, n - 1);
        if col >= column_of(cells, n - 1) {
            n - 1
        } else {
            lemma_locate_column(cells, n - 1, col)
        }
    }
}

/// Every cell of the canvas belongs to a glyph or to the blank column between
/// two glyphs: the result names the glyph, the column within it and the row.
pub proof fn lemma_canvas_covered(cells: Seq<(char, u8)>, height: int, i: int) -> (at: (
    int,
    int,
    int,
))
    requires
        cells.len() >= 1,
        0 <= height,
        0 <= i < canvas_width(cells) * height,
    ensures
        0 <= at.0 < cells.len(),
        0 <= at.1 <= cells[at.0].1,
        at.1 == cells[at.0].1 ==> at.0 < cells.len() - 1,
        0 <= at.2 < height,
        i == glyph_cell(cells, at.0, at.1, at.2),
{
    let width = canvas_width(cells);
    lemma_cell_index_onto(width, height, i);
    lemma_column_end(cells);
    let col = i % width;
    let k = lemma_locate_column(cells, cells.len() as int, col);
    if k == cells.len() - 1 {
        lemma_column_step(cells, k);
    }
    (k, col - column_of(cells, k), i / width)
}

/// What drawing leaves on the canvas does not depend on what was there
/// before: two stores on which the same glyphs were drawn agree on every cell
/// of the canvas.
pub proof fn lemma_painted_canvas_agrees<P: SourceProvider, M>(
    before1: Seq<M>,
    after1: Seq<M>,
    before2: Seq<M>,
    after2: Seq<M>,
    provider: P,
    cells: Seq<(char, u8)>,
    height: int,
    ink0: M,
    ink1: M,
)
    requires
        cells.len() >= 1,
        0 <= height,
        painted(before1, after1, provider, cells, height, ink0, ink1),
        painted(before2, after2, provider, cells, height, ink0, ink1),
    ensures
        forall|i: int| 0 <= i < canvas_width(cells) * height ==> after1[i] == after2[i],
{
    assert forall|i: int| 0 <= i < canvas_width(cells) * height implies after1[i] == after2[i]
    by {
        let (k, x, y) = lemma_canvas_covered(cells, height, i);
        if x == cells[k].1 {
            assert(i == margin_cell(cells, k, y));
        }
    }
}

/// Drawing the same glyphs a second time changes nothing.
pub proof fn lemma_painted_idempotent<P: SourceProvider, M>(
    before: Seq<M>,
    once: Seq<M>,
    twice: Seq<M>,
    provider: P,
    cells: Seq<(char, u8)>,
    height: int,
    ink0: M,
    ink1: M,
)
    requires
        cells.len() >= 1,
        0 <= height,
        painted(before, once, provider, cells, height, ink0, ink1),
        painted(once, twice, provider, cells, height, ink0, ink1),
    ensures
        twice == once,
{
    lemma_painted_canvas_agrees(before, once, once, twice, provider, cells, height, ink0, ink1);
}

} // verus!
