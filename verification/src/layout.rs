//! Where the glyphs of a number stand on the canvas: side by side from left to
//! right, one blank column between neighbours and none at the edges.

use crate::symbols::is_symbol;
use vstd::prelude::*;

verus! {

/// The number of symbols that a layout has room for.
pub const SLOTS: usize = 16;

/// The widths of `cells` added up.
pub open spec fn widths_sum(cells: Seq<(char, u8)>) -> nat
    decreases cells.len(),
{
    if cells.len() == 0 {
        0
    } else {
        cells[0].1 as nat + widths_sum(cells.drop_first())
    }
}

/// The width of the canvas that holds `cells`: every glyph's width, and one
/// column between each two neighbours.
pub open spec fn canvas_width(cells: Seq<(char, u8)>) -> int {
    widths_sum(cells) + cells.len() - 1
}

/// The leftmost column of the glyph at position `k`, counted from the left.
pub open spec fn column_of(cells: Seq<(char, u8)>, k: int) -> int {
    widths_sum(cells.take(k)) + k
}

/// The place in a row-major store of the pixel in column `col` of row `row`,
/// when a row is `width` pixels wide.
pub open spec fn cell_index(width: int, col: int, row: int) -> int {
    row * width + col
}

/// The first `length` entries of `slots` in reverse: slots fill from the
/// rightmost symbol on, and this is the order from left to right.
pub open spec fn shown(slots: Seq<(char, u8)>, length: int) -> Seq<(char, u8)> {
    Seq::new(length as nat, |j: int| slots[length - 1 - j])
}

/// A symbol sequence in the order in which it was built, with what drawing it
/// needs: each symbol's width, and the width of the whole canvas.
pub struct Layout {
    /// How many slots of `char_and_width` are in use.
    pub length: usize,
    /// The symbols and their widths, the rightmost first.
    pub char_and_width: [(char, u8); SLOTS],
    /// The width of the canvas.
    pub canvas_width: usize,
}

impl Layout {
    /// The symbols and their widths from left to right.
    pub open spec fn view(&self) -> Seq<(char, u8)> {
        shown(self.char_and_width@, self.length as int)
    }

    /// The layout holds between one and `SLOTS` symbols, each of which can be
    /// drawn, and its canvas is as wide as they need.
    pub open spec fn wf(&self) -> bool {
        &&& 1 <= self.length <= SLOTS
        &&& forall|k: int| 0 <= k < self@.len() ==> is_symbol(#[trigger] self@[k].0)
        &&& self.canvas_width == canvas_width(self@)
    }

    /// Puts `cell` in so that `level` symbols stand to its right, and widens
    /// the canvas by its width and one blank column.
    pub fn insert(self, level: usize, cell: (char, u8)) -> (wider: Layout)
        requires
            self.wf(),
            self.length < SLOTS,
            level <= self.length,
            is_symbol(cell.0),
        ensures
            wider.wf(),
            wider@ == self@.insert(self@.len() - level, cell),
    {
        let Layout { length, char_and_width, canvas_width } = self;
        let mut char_and_width = char_and_width;
        let ghost slots = char_and_width@;
        let mut i: usize = length;
        while i > level
            invariant
                level <= i <= length < SLOTS,
                forall|t: int| 0 <= t < i ==> char_and_width@[t] == slots[t],
                forall|t: int| i < t <= length ==> char_and_width@[t] == slots[t - 1],
            decreases i,
        {
            let moved = char_and_width[i - 1];
            char_and_width[i] = moved;
            i = i - 1;
        }
        char_and_width[level] = cell;
        proof {
            let before = shown(slots, length as int);
            assert(shown(char_and_width@, length + 1) =~= before.insert(length - level, cell));
            lemma_widths_sum_insert(before, length - level, cell);
            lemma_widths_sum_bound(before);
        }
        Layout {
            length: length + 1,
            char_and_width,
            canvas_width: canvas_width + cell.1 as usize + 1,
        }
    }
}

/// Filling the next slot puts a symbol to the left of those shown so far.
pub proof fn lemma_shown_fill(slots: Seq<(char, u8)>, length: int, next: (char, u8))
    requires
        0 <= length < slots.len(),
    ensures
        shown(slots.update(length, next), length + 1) == seq![next] + shown(slots, length),
        widths_sum(shown(slots.update(length, next), length + 1)) == next.1 + widths_sum(
            shown(slots, length),
        ),
{
    let wider = shown(slots.update(length, next), length + 1);
    assert(wider.drop_first() =~= shown(slots, length));
}

/// Adding a glyph on the right adds its width to the sum.
pub proof fn lemma_widths_sum_push(cells: Seq<(char, u8)>, last: (char, u8))
    ensures
        widths_sum(cells.push(last)) == widths_sum(cells) + last.1,
    decreases cells.len(),
{
    if cells.len() == 0 {
        assert(cells.push(last).drop_first() =~= cells);
    } else {
        lemma_widths_sum_push(cells.drop_first(), last);
        assert(cells.push(last).drop_first() =~= cells.drop_first().push(last));
    }
}

/// Putting a glyph in anywhere adds its width to the sum.
pub proof fn lemma_widths_sum_insert(cells: Seq<(char, u8)>, at: int, cell: (char, u8))
    requires
        0 <= at <= cells.len(),
    ensures
        widths_sum(cells.insert(at, cell)) == widths_sum(cells) + cell.1,
    decreases at,
{
    if at == 0 {
        assert(cells.insert(0, cell).drop_first() =~= cells);
    } else {
        lemma_widths_sum_insert(cells.drop_first(), at - 1, cell);
        assert(cells.insert(at, cell).drop_first() =~= cells.drop_first().insert(at - 1, cell));
    }
}

/// No glyph is wider than 255 pixels, so neither is their average.
pub proof fn lemma_widths_sum_bound(cells: Seq<(char, u8)>)
    ensures
        widths_sum(cells) <= 255 * cells.len(),
    decreases cells.len(),
{
    if cells.len() > 0 {
        lemma_widths_sum_bound(cells.drop_first());
    }
}

/// Each glyph starts one column after the end of its left neighbour.
pub proof fn lemma_column_step(cells: Seq<(char, u8)>, k: int)
    requires
        0 <= k < cells.len(),
    ensures
        column_of(cells, 0) == 0,
        column_of(cells, k + 1) == column_of(cells, k) + cells[k].1 + 1,
{
    assert(cells.take(k + 1) =~= cells.take(k).push(cells[k]));
    lemma_widths_sum_push(cells.take(k), cells[k]);
}

/// The canvas ends with the last glyph: the column where one more glyph would
/// start lies one beyond its right edge.
pub proof fn lemma_column_end(cells: Seq<(char, u8)>)
    ensures
        column_of(cells, cells.len() as int) == canvas_width(cells) + 1,
{
    assert(cells.take(cells.len() as int) =~= cells);
}

/// Glyphs further right start further right.
pub proof fn lemma_column_monotone(cells: Seq<(char, u8)>, i: int, j: int)
    requires
        0 <= i <= j <= cells.len(),
    ensures
        0 <= column_of(cells, i) <= column_of(cells, j),
    decreases j - i,
{
    if i < j {
        lemma_column_monotone(cells, i, j - 1);
        lemma_column_step(cells, j - 1);
    }
}

/// A glyph and the blank column to its right end before a glyph further
/// right starts, and no glyph starts further right than one column behind
/// the canvas.
pub proof fn lemma_column_before(cells: Seq<(char, u8)>, k: int, j: int)
    requires
        0 <= k < j <= cells.len(),
    ensures
        0 <= column_of(cells, k),
        column_of(cells, k) + cells[k].1 < column_of(cells, j) <= canvas_width(cells) + 1,
{
    lemma_column_monotone(cells, 0, k);
    lemma_column_step(cells, k);
    lemma_column_monotone(cells, k + 1, j);
    lemma_column_monotone(cells, j, cells.len() as int);
    lemma_column_end(cells);
}

/// Every glyph, and the blank column after it, lies inside the canvas; the
/// blank column after the last glyph would be the first one outside.
pub proof fn lemma_column_inside(cells: Seq<(char, u8)>, k: int)
    requires
        0 <= k < cells.len(),
    ensures
        0 <= column_of(cells, k),
        column_of(cells, k) + cells[k].1 <= canvas_width(cells),
        k < cells.len() - 1 ==> column_of(cells, k) + cells[k].1 < canvas_width(cells),
{
    lemma_column_monotone(cells, 0, k);
    lemma_column_step(cells, k);
    lemma_column_monotone(cells, k + 1, cells.len() as int);
    lemma_column_end(cells);
    if k < cells.len() - 1 {
        lemma_column_step(cells, k + 1);
        lemma_column_monotone(cells, k + 2, cells.len() as int);
    }
}

/// A pixel inside a canvas of `width` columns and `height` rows has its place
/// among the first `width * height` cells of the store.
pub proof fn lemma_cell_index_inside(width: int, height: int, col: int, row: int)
    requires
        0 <= col < width,
        0 <= row < height,
    ensures
        0 <= cell_index(width, col, row) < width * height,
{
    assert(0 <= row * width && row * width + width <= width * height) by (nonlinear_arith)
        requires
            0 <= row < height,
            0 < width,
    ;
}

/// Two different pixels of a canvas have different places in the store.
pub proof fn lemma_cell_index_injective(width: int, col1: int, row1: int, col2: int, row2: int)
    requires
        0 <= col1 < width,
        0 <= col2 < width,
        0 <= row1,
        0 <= row2,
        cell_index(width, col1, row1) == cell_index(width, col2, row2),
    ensures
        col1 == col2,
        row1 == row2,
{
    if row1 < row2 {
        assert(row1 * width + width <= row2 * width) by (nonlinear_arith)
            requires
                row1 < row2,
                0 < width,
        ;
    } else if row2 < row1 {
        assert(row2 * width + width <= row1 * width) by (nonlinear_arith)
            requires
                row2 < row1,
                0 < width,
        ;
    }
}

/// Every one of the first `width * height` cells of the store is the place of
/// a pixel of the canvas.
pub proof fn lemma_cell_index_onto(width: int, height: int, i: int)
    requires
        0 <= i < width * height,
        0 <= height,
        0 <= width,
    ensures
        0 < width,
        0 <= i % width < width,
        0 <= i / width < height,
        i == cell_index(width, i % width, i / width),
{
    assert(0 < width) by (nonlinear_arith)
        requires
            0 <= i < width * height,
            0 <= height,
            0 <= width,
    ;
    vstd::arithmetic::div_mod::lemma_fundamental_div_mod(i, width);
    vstd::arithmetic::div_mod::lemma_mod_pos_bound(i, width);
    vstd::arithmetic::div_mod::lemma_div_pos_is_pos(i, width);
    let q = i / width;
    assert(q < height) by (nonlinear_arith)
        requires
            i == width * q + i % width,
            0 <= i % width,
            i < width * height,
            0 < width,
    ;
    assert(width * q == q * width) by (nonlinear_arith);
}

} // verus!
