//! Writing blocks of pixels into a row-major store.

use crate::bits::{bit_len, glyph_bit, glyph_bit_at};
use crate::layout::{cell_index, lemma_cell_index_injective, lemma_cell_index_inside};
use crate::source::DataContainer;
use vstd::prelude::*;

verus! {

/// The pixel value for a bit: the second ink where it is set, the first where
/// it is not.
pub open spec fn ink_of<M>(ink0: M, ink1: M, set: bool) -> M {
    if set {
        ink1
    } else {
        ink0
    }
}

/// The place in the store of the pixel in column `x` and row `y` of a block
/// whose leftmost column is `offset`.
pub open spec fn block_cell(canvas_w: int, offset: int, x: int, y: int) -> int {
    cell_index(canvas_w, offset + x, y)
}

/// `after` is `before` but for the block of `width` columns from `offset` on,
/// in the first `height` rows of a canvas `canvas_w` wide.
pub open spec fn same_outside_block<M>(
    before: Seq<M>,
    after: Seq<M>,
    canvas_w: int,
    height: int,
    offset: int,
    width: int,
) -> bool {
    &&& after.len() == before.len()
    &&& forall|col: int, row: int|
        0 <= col < canvas_w && 0 <= row < height && !(offset <= col < offset + width)
            ==> after[#[trigger] cell_index(canvas_w, col, row)]
                == before[cell_index(canvas_w, col, row)]
    &&& forall|i: int| canvas_w * height <= i < before.len() ==> after[i] == before[i]
}

/// A pixel of the canvas has its place in the canvas, and writing it leaves
/// every other pixel as it was.
pub proof fn lemma_write_cell<M>(
    before: Seq<M>,
    canvas_w: int,
    height: int,
    col: int,
    row: int,
    value: M,
)
    requires
        0 <= col < canvas_w,
        0 <= row < height,
        canvas_w * height <= before.len(),
    ensures
        0 <= cell_index(canvas_w, col, row) < canvas_w * height,
        forall|c: int, r: int|
            0 <= c < canvas_w && 0 <= r < height && !(c == col && r == row)
                ==> before.update(cell_index(canvas_w, col, row), value)[#[trigger] cell_index(
                    canvas_w,
                    c,
                    r,
                )] == before[cell_index(canvas_w, c, r)],
{
    let after = before.update(cell_index(canvas_w, col, row), value);
    lemma_cell_index_inside(canvas_w, height, col, row);
    assert forall|c: int, r: int|
        0 <= c < canvas_w && 0 <= r < height && !(c == col && r == row)
        implies after[#[trigger] cell_index(canvas_w, c, r)] == before[cell_index(canvas_w, c, r)]
    by {
        lemma_cell_index_inside(canvas_w, height, c, r);
        if cell_index(canvas_w, c, r) == cell_index(canvas_w, col, row) {
            lemma_cell_index_injective(canvas_w, c, r, col, row);
        }
    }
}

/// Unpacks a glyph of `width` by `height` pixels from `pixels` and writes it
/// into the canvas with its leftmost column at `offset`: bit `y * width + x`
/// of the glyph decides the ink of the pixel in column `offset + x` of row `y`.
pub fn blit<C: DataContainer<M>, M: Copy>(
    container: &mut C,
    pixels: &[u8],
    width: u8,
    height: u8,
    offset: usize,
    canvas_w: usize,
    ink0: M,
    ink1: M,
)
    requires
        width * height <= bit_len(pixels@),
        offset + width <= canvas_w,
        canvas_w * height <= old(container).cells().len(),
        canvas_w * height <= usize::MAX,
    ensures
        forall|x: int, y: int|
            0 <= x < width && 0 <= y < height
                ==> final(container).cells()[#[trigger] block_cell(
                    canvas_w as int,
                    offset as int,
                    x,
                    y,
                )] == ink_of(ink0, ink1, glyph_bit(pixels@, y * width + x)),
        same_outside_block(
            old(container).cells(),
            final(container).cells(),
            canvas_w as int,
            height as int,
            offset as int,
            width as int,
        ),
{
    let ghost start = container.cells();
    let mut y: u8 = 0;
    while y < height
        invariant
            y <= height,
            width * height <= bit_len(pixels@),
            offset + width <= canvas_w,
            canvas_w * height <= start.len(),
            canvas_w * height <= usize::MAX,
            forall|x: int, row: int|
                0 <= x < width && 0 <= row < y
                    ==> container.cells()[#[trigger] block_cell(
                        canvas_w as int,
                        offset as int,
                        x,
                        row,
                    )] == ink_of(ink0, ink1, glyph_bit(pixels@, row * width + x)),
            same_outside_block(
                start,
                container.cells(),
                canvas_w as int,
                height as int,
                offset as int,
                width as int,
            ),
        decreases height - y,
    {
        let mut x: u8 = 0;
        while x < width
            invariant
                x <= width,
                y < height,
                width * height <= bit_len(pixels@),
                offset + width <= canvas_w,
                canvas_w * height <= start.len(),
                canvas_w * height <= usize::MAX,
                forall|col: int, row: int|
                    0 <= col < width && 0 <= row < y
                        ==> container.cells()[#[trigger] block_cell(
                            canvas_w as int,
                            offset as int,
                            col,
                            row,
                        )] == ink_of(ink0, ink1, glyph_bit(pixels@, row * width + col)),
                forall|col: int|
                    0 <= col < x
                        ==> container.cells()[#[trigger] block_cell(
                            canvas_w as int,
                            offset as int,
                            col,
                            y as int,
                        )] == ink_of(ink0, ink1, glyph_bit(pixels@, y * width + col)),
                same_outside_block(
                    start,
                    container.cells(),
                    canvas_w as int,
                    height as int,
                    offset as int,
                    width as int,
                ),
            decreases width - x,
        {
            proof {
                assert(0 <= y * width && y * width + x < width * height && width * height
                    <= 255 * 255) by (nonlinear_arith)
                    requires
                        x < width <= 255,
                        y < height <= 255,
                ;
            }
            let set = glyph_bit_at(pixels, y as usize * width as usize + x as usize);
            let ink = if set {
                ink1
            } else {
                ink0
            };
            proof {
                lemma_write_cell(
                    container.cells(),
                    canvas_w as int,
                    height as int,
                    offset + x as int,
                    y as int,
                    ink,
                );
            }
            container.update(y as usize * canvas_w + offset + x as usize, ink);
            x += 1;
        }
        y += 1;
    }
}

/// Writes `ink0` into every row of column `col` of the canvas.
pub fn clear_column<C: DataContainer<M>, M: Copy>(
    container: &mut C,
    height: u8,
    col: usize,
    canvas_w: usize,
    ink0: M,
)
    requires
        col < canvas_w,
        canvas_w * height <= old(container).cells().len(),
        canvas_w * height <= usize::MAX,
    ensures
        forall|y: int|
            0 <= y < height
                ==> final(container).cells()[#[trigger] cell_index(canvas_w as int, col as int, y)]
                    == ink0,
        same_outside_block(
            old(container).cells(),
            final(container).cells(),
            canvas_w as int,
            height as int,
            col as int,
            1,
        ),
{
    let ghost start = container.cells();
    let mut y: u8 = 0;
    while y < height
        invariant
            y <= height,
            col < canvas_w,
            canvas_w * height <= start.len(),
            canvas_w * height <= usize::MAX,
            forall|row: int|
                0 <= row < y
                    ==> container.cells()[#[trigger] cell_index(canvas_w as int, col as int, row)]
                        == ink0,
            same_outside_block(
                start,
                container.cells(),
                canvas_w as int,
                height as int,
                col as int,
                1,
            ),
        decreases height - y,
    {
        proof {
            lemma_write_cell(
                container.cells(),
                canvas_w as int,
                height as int,
                col as int,
                y as int,
                ink0,
            );
        }
        container.update(y as usize * canvas_w + col, ink0);
        y += 1;
    }
}

} // verus!
