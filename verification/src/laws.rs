//! What holds of every drawing, whatever the number, the glyphs and the store.

use crate::bits::glyph_bit;
use crate::draw::ink_of;
use crate::image::{
    glyph_cell, lemma_painted_canvas_agrees, lemma_painted_idempotent, margin_cell,
};
use crate::layout::{canvas_width, cell_index, lemma_widths_sum_insert, widths_sum};
use crate::numbers::MonoImageNumbers;
use crate::source::{measure, DataContainer, SourceProvider};
use crate::symbols::{digits, fixed_symbols, lemma_digits_len, lemma_symbols_drawable, symbols};
use vstd::arithmetic::power::{lemma_pow_positive, pow};
use vstd::prelude::*;

verus! {

/// A number that is not negative and has `d` decimal digits is drawn with `d`
/// symbols, its digits; its canvas is as wide as their glyphs together, and
/// one column more for each digit but the first.
pub proof fn lemma_width_of_non_negative<P: SourceProvider>(provider: P, n: int, d: nat)
    requires
        d >= 1,
        if d == 1 {
            0 <= n < 10
        } else {
            pow(10, (d - 1) as nat) <= n < pow(10, d)
        },
    ensures
        symbols(n) == digits(n as nat),
        symbols(n).len() == d,
        canvas_width(measure(provider, symbols(n))) == widths_sum(
            measure(provider, digits(n as nat)),
        ) + (d - 1),
{
    lemma_pow_positive(10, (d - 1) as nat);
    lemma_digits_len(n as nat, d);
    if d > 1 {
        lemma_digits_len(n as nat, (d - 1) as nat);
    } else {
        assert(pow(10, 1) == 10) by {
            reveal_with_fuel(pow, 2);
        }
    }
}

/// The symbols of a negative number are a minus sign and then the symbols of
/// its magnitude, and its canvas is wider than that of the magnitude by the
/// minus glyph and one blank column.
pub proof fn lemma_width_of_negative<P: SourceProvider>(provider: P, n: int)
    requires
        n < 0,
    ensures
        symbols(n) == seq!['-'] + symbols(-n),
        canvas_width(measure(provider, symbols(n))) == canvas_width(
            measure(provider, symbols(-n)),
        ) + provider.glyph_width('-') + 1,
{
    let cells = measure(provider, symbols(n));
    assert(cells.drop_first() =~= measure(provider, symbols(-n)));
}

/// The canvas of a fixed-point value is wider than that of the integer with
/// the same symbols by the period glyph and one blank column.
pub proof fn lemma_width_of_fixed<P: SourceProvider>(provider: P, n: int, level: int)
    requires
        0 <= level <= symbols(n).len(),
    ensures
        fixed_symbols(n, level).len() == symbols(n).len() + 1,
        fixed_symbols(n, level)[symbols(n).len() - level] == '.',
        canvas_width(measure(provider, fixed_symbols(n, level))) == canvas_width(
            measure(provider, symbols(n)),
        ) + provider.glyph_width('.') + 1,
{
    let at = symbols(n).len() - level;
    let plain = measure(provider, symbols(n));
    assert(measure(provider, fixed_symbols(n, level)) =~= plain.insert(
        at,
        ('.', provider.glyph_width('.')),
    ));
    lemma_widths_sum_insert(plain, at, ('.', provider.glyph_width('.')));
}

/// Zero is drawn as the one glyph of `0`, on a canvas exactly as wide.
pub proof fn lemma_zero_is_one_glyph<P: SourceProvider>(provider: P)
    ensures
        symbols(0) == seq!['0'],
        measure(provider, symbols(0)) == seq![('0', provider.glyph_width('0'))],
        canvas_width(measure(provider, symbols(0))) == provider.glyph_width('0'),
{
    let cells = measure(provider, symbols(0));
    assert(widths_sum(cells.drop_first()) == 0);
}

/// After a negative number was drawn, the minus glyph fills the leftmost
/// columns of the canvas: the pixel in column `x` of row `y` has the ink of
/// the glyph's bit `y * width + x`, for every column `x` below its width.
pub proof fn lemma_minus_is_leftmost<P: SourceProvider, C: DataContainer<M>, M: Copy>(
    before: MonoImageNumbers<P, C, M>,
    after: MonoImageNumbers<P, C, M>,
    n: int,
    x: int,
    y: int,
)
    requires
        n < 0,
        after.drew(&before, measure(before.provider(), symbols(n))),
        0 <= x < before.provider().glyph_width('-'),
        0 <= y < before.height(),
    ensures
        after.canvas()[cell_index(
            canvas_width(measure(before.provider(), symbols(n))),
            x,
            y,
        )] == ink_of(
            before.inks()[0],
            before.inks()[1],
            glyph_bit(
                before.provider().glyph_pixels('-'),
                y * before.provider().glyph_width('-') + x,
            ),
        ),
{
    let cells = measure(before.provider(), symbols(n));
    assert(glyph_cell(cells, 0, x, y) == cell_index(canvas_width(cells), x, y));
}

/// Drawing the same number twice in a row leaves the store as the first
/// drawing left it.
pub proof fn lemma_update_twice<P: SourceProvider, C: DataContainer<M>, M: Copy>(
    start: MonoImageNumbers<P, C, M>,
    once: MonoImageNumbers<P, C, M>,
    twice: MonoImageNumbers<P, C, M>,
    n: int,
)
    requires
        once.drew(&start, measure(start.provider(), symbols(n))),
        twice.drew(&once, measure(once.provider(), symbols(n))),
    ensures
        twice.canvas() == once.canvas(),
{
    lemma_symbols_drawable(n);
    lemma_painted_idempotent(
        start.canvas(),
        once.canvas(),
        twice.canvas(),
        start.provider(),
        measure(start.provider(), symbols(n)),
        start.height() as int,
        start.inks()[0],
        start.inks()[1],
    );
}

/// What a drawing leaves on its canvas does not depend on what the store held
/// before, be it a wider number or anything else: two stores into which the
/// same number was drawn agree on every cell of the canvas.
pub proof fn lemma_update_forgets<P: SourceProvider, C: DataContainer<M>, M: Copy>(
    one: MonoImageNumbers<P, C, M>,
    one_drawn: MonoImageNumbers<P, C, M>,
    other: MonoImageNumbers<P, C, M>,
    other_drawn: MonoImageNumbers<P, C, M>,
    n: int,
)
    requires
        other.same_setup(&one),
        one_drawn.drew(&one, measure(one.provider(), symbols(n))),
        other_drawn.drew(&other, measure(other.provider(), symbols(n))),
    ensures
        forall|i: int|
            0 <= i < canvas_width(measure(one.provider(), symbols(n))) * one.height()
                ==> one_drawn.canvas()[i] == other_drawn.canvas()[i],
{
    lemma_symbols_drawable(n);
    lemma_painted_canvas_agrees(
        one.canvas(),
        one_drawn.canvas(),
        other.canvas(),
        other_drawn.canvas(),
        one.provider(),
        measure(one.provider(), symbols(n)),
        one.height() as int,
        one.inks()[0],
        one.inks()[1],
    );
}

/// Drawing a number has one outcome: two compositors that drew the same
/// number, starting from the same state, hold the same store.
pub proof fn lemma_update_is_determined<P: SourceProvider, C: DataContainer<M>, M: Copy>(
    start: MonoImageNumbers<P, C, M>,
    one: MonoImageNumbers<P, C, M>,
    other: MonoImageNumbers<P, C, M>,
    n: int,
)
    requires
        one.drew(&start, measure(start.provider(), symbols(n))),
        other.drew(&start, measure(start.provider(), symbols(n))),
    ensures
        one.canvas() == other.canvas(),
{
    lemma_update_forgets(start, one, start, other, n);
}

/// After a number was drawn, every column between two of its glyphs holds the
/// first ink in every row, whatever stood there before.
pub proof fn lemma_margins_are_clear<P: SourceProvider, C: DataContainer<M>, M: Copy>(
    before: MonoImageNumbers<P, C, M>,
    after: MonoImageNumbers<P, C, M>,
    n: int,
    k: int,
    y: int,
)
    requires
        after.drew(&before, measure(before.provider(), symbols(n))),
        0 <= k < symbols(n).len() - 1,
        0 <= y < before.height(),
    ensures
        after.canvas()[margin_cell(measure(before.provider(), symbols(n)), k, y)]
            == before.inks()[0],
{
}

} // verus!
