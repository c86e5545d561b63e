//! The compositor: it takes a number apart into symbols, measures them, and
//! draws their glyphs side by side into the caller's store.

use crate::bits::bit_len;
use crate::draw::{blit, clear_column};
use crate::image::{glyphs_drawn, lemma_glyph_drawn, lemma_margin_cleared, margins_clear, painted};
use crate::layout::{
    canvas_width, column_of, lemma_column_inside, lemma_column_step, lemma_shown_fill,
    lemma_widths_sum_bound, shown, widths_sum, Layout, SLOTS,
};
use crate::source::{measure, DataContainer, SourceProvider};
use crate::symbols::{
    digit_char, digits, fixed_symbols, is_symbol, leading_digits, lemma_digits_denote,
    lemma_digits_split, symbols,
};
use vstd::pervasive::unreached;
use vstd::prelude::*;

verus! {

/// Draws numbers with the glyphs of `P` into a store `C` of pixels `M`. The
/// glyph height and the two inks are fixed when it is made.
pub struct MonoImageNumbers<P: SourceProvider, C: DataContainer<M>, M: Copy> {
    height: u8,
    provider: P,
    container: C,
    mono: [M; 2],
}

impl<P: SourceProvider, C: DataContainer<M>, M: Copy> MonoImageNumbers<P, C, M> {
    /// The number of pixel rows of every glyph, and so of the canvas.
    pub closed spec fn height(&self) -> u8 {
        self.height
    }

    /// The source of the glyphs.
    pub closed spec fn provider(&self) -> P {
        self.provider
    }

    /// The cells of the store.
    pub closed spec fn canvas(&self) -> Seq<M> {
        self.container.cells()
    }

    /// The two inks: the first for a clear bit and for blank columns, the
    /// second for a set bit.
    pub closed spec fn inks(&self) -> [M; 2] {
        self.mono
    }

    /// The glyphs of `cells` are long enough for `self.height()` rows, and the
    /// store has room for the canvas.
    pub open spec fn can_hold(&self, cells: Seq<(char, u8)>) -> bool {
        &&& forall|k: int|
            0 <= k < cells.len() ==> cells[k].1 * self.height() <= bit_len(
                #[trigger] self.provider().glyph_pixels(cells[k].0),
            )
        &&& canvas_width(cells) * self.height() <= self.canvas().len()
    }

    /// The symbols `syms` fit a layout, and `self` can hold them when each has
    /// the width of its glyph.
    pub open spec fn fits(&self, syms: Seq<char>) -> bool {
        &&& syms.len() <= SLOTS
        &&& self.can_hold(measure(self.provider(), syms))
    }

    /// `self` differs from `before` in the cells of its store at most.
    pub open spec fn same_setup(&self, before: &Self) -> bool {
        &&& self.height() == before.height()
        &&& self.provider() == before.provider()
        &&& self.inks() == before.inks()
    }

    /// `self` is `before` after `cells` were drawn into its store.
    pub open spec fn drew(&self, before: &Self, cells: Seq<(char, u8)>) -> bool {
        &&& self.same_setup(before)
        &&& painted(
            before.canvas(),
            self.canvas(),
            before.provider(),
            cells,
            before.height() as int,
            before.inks()[0],
            before.inks()[1],
        )
    }

    /// A compositor for glyphs of `height` rows that draws into `container`,
    /// with `mono[0]` where a bit is clear and `mono[1]` where it is set.
    pub fn new(height: u8, provider: P, container: C, mono: [M; 2]) -> (numbers: Self)
        ensures
            numbers.height() == height,
            numbers.provider() == provider,
            numbers.canvas() == container.cells(),
            numbers.inks() == mono,
    {
        Self { height, provider, container, mono }
    }

    /// The character of the digit `n`.
    pub fn n_to_char(&self, n: u8) -> (c: char)
        requires
            n < 10,
        ensures
            c == digit_char(n as int),
    {
        match n {
            0 => '0',
            1 => '1',
            2 => '2',
            3 => '3',
            4 => '4',
            5 => '5',
            6 => '6',
            7 => '7',
            8 => '8',
            9 => '9',
            _ => unreached(),
        }
    }

    /// Takes `n` apart into its symbols and measures them. There is no layout
    /// for a number of more than `SLOTS` symbols.
    pub fn each_digit(&self, n: isize) -> (each: Option<Layout>)
        ensures
            match each {
                Some(layout) => layout.wf() && layout@ == measure(
                    self.provider(),
                    symbols(n as int),
                ),
                None => symbols(n as int).len() > SLOTS,
            },
    {
        let mut char_and_width = [('-', 0u8); SLOTS];
        let mut length: usize = 0;
        let mut canvas_width: usize = 0;
        let minus = n < 0;
        let mut now: usize = if minus {
            (-(n + 1)) as usize + 1
        } else {
            n as usize
        };
        let ghost magnitude = now as nat;
        let ghost mut written: Seq<char> = Seq::empty();

        if now == 0 {
            let w = self.provider.width('0');
            canvas_width = canvas_width + w as usize;
            proof {
                lemma_shown_fill(char_and_width@, 0, ('0', w));
            }
            char_and_width[length] = ('0', w);
            length = length + 1;
            return Some(Layout { length, char_and_width, canvas_width });
        }
        while now > 0
            invariant
                length <= SLOTS,
                length == written.len(),
                magnitude > 0,
                magnitude == if n < 0 {
                    -n
                } else {
                    n as int
                },
                digits(magnitude) == leading_digits(now as nat) + written,
                shown(char_and_width@, length as int) == measure(self.provider(), written),
                canvas_width == widths_sum(shown(char_and_width@, length as int)),
                forall|k: int| 0 <= k < written.len() ==> is_symbol(#[trigger] written[k]),
            decreases now,
        {
            proof {
                lemma_digits_split(now as nat);
                lemma_digits_denote(now as nat);
                lemma_widths_sum_bound(shown(char_and_width@, length as int));
            }
            if length == SLOTS {
                return None;
            }
            let d = (now % 10) as u8;
            let c = self.n_to_char(d);
            let w = self.provider.width(c);
            canvas_width = canvas_width + w as usize;
            proof {
                lemma_shown_fill(char_and_width@, length as int, (c, w));
                written = seq![c] + written;
            }
            char_and_width[length] = (c, w);
            length = length + 1;
            now = now / 10;
        }

        proof {
            lemma_widths_sum_bound(shown(char_and_width@, length as int));
        }
        if minus {
            if length == SLOTS {
                return None;
            }
            let w = self.provider.width('-');
            canvas_width = canvas_width + w as usize;
            proof {
                lemma_shown_fill(char_and_width@, length as int, ('-', w));
                written = seq!['-'] + written;
            }
            char_and_width[length] = ('-', w);
            length = length + 1;
        }
        // the blank columns between the glyphs
        canvas_width = canvas_width + (length - 1);
        Some(Layout { length, char_and_width, canvas_width })
    }

    /// Draws the glyphs of `each` from left to right, each one column after
    /// the end of the one before, and clears the column between two glyphs.
    /// Returns the width and the height of the canvas.
    pub fn update_container(&mut self, each: Layout) -> (size: (usize, usize))
        requires
            each.wf(),
            old(self).can_hold(each@),
        ensures
            size.0 == each.canvas_width,
            size.1 == old(self).height(),
            final(self).drew(old(self), each@),
    {
        let canvas_w = each.canvas_width;
        let canvas_h = self.height;
        let ink0 = self.mono[0];
        let ink1 = self.mono[1];
        let ghost cells = each@;
        let ghost start = self.canvas();
        let ghost provider = self.provider();
        let ghost h = canvas_h as int;
        let mut offset: usize = 0;
        let mut j: usize = 0;
        proof {
            lemma_widths_sum_bound(cells);
            assert(canvas_w * canvas_h <= usize::MAX) by (nonlinear_arith)
                requires
                    canvas_w <= 255 * 16 + 15,
                    canvas_h <= 255,
                    usize::MAX >= 0xffff_ffff,
            ;
        }
        while j < each.length
            invariant
                j <= each.length,
                each.wf(),
                cells == each@,
                canvas_w == canvas_width(cells) <= 255 * 16 + 15,
                canvas_w * h <= usize::MAX,
                offset == column_of(cells, j as int),
                old(self).can_hold(cells),
                self.same_setup(old(self)),
                h == canvas_h == old(self).height(),
                provider == old(self).provider(),
                ink0 == old(self).inks()[0],
                ink1 == old(self).inks()[1],
                start == old(self).canvas(),
                self.canvas().len() == start.len(),
                glyphs_drawn(self.canvas(), provider, cells, h, ink0, ink1, j as int),
                margins_clear(
                    self.canvas(),
                    cells,
                    h,
                    ink0,
                    if j < each.length {
                        j as int
                    } else {
                        each.length - 1
                    },
                ),
                forall|i: int| canvas_w * h <= i < start.len() ==> self.canvas()[i] == start[i],
            decreases each.length - j,
        {
            let (c, char_width) = each.char_and_width[each.length - 1 - j];
            proof {
                lemma_column_inside(cells, j as int);
                lemma_column_step(cells, j as int);
            }
            let pixels = self.provider.pixels(c);
            let ghost before = self.canvas();
            blit(&mut self.container, pixels, char_width, canvas_h, offset, canvas_w, ink0, ink1);
            proof {
                lemma_glyph_drawn(
                    before,
                    self.canvas(),
                    provider,
                    cells,
                    h,
                    ink0,
                    ink1,
                    j as int,
                );
            }
            offset = offset + char_width as usize + 1;

            if j + 1 < each.length {
                // a number drawn earlier may have left ink in this column
                let ghost before = self.canvas();
                clear_column(&mut self.container, canvas_h, offset - 1, canvas_w, ink0);
                proof {
                    lemma_margin_cleared(
                        before,
                        self.canvas(),
                        provider,
                        cells,
                        h,
                        ink0,
                        ink1,
                        j as int,
                    );
                }
            }
            j = j + 1;
        }
        (canvas_w, canvas_h as usize)
    }

    /// The whole store. Of its cells, the first `width * height` are the
    /// canvas of the number drawn last, row by row, where `(width, height)` is
    /// what drawing it returned.
    pub fn data(&self) -> (all: &[M])
        ensures
            all@ == self.canvas(),
    {
        self.container.data()
    }

    /// Draws the integer `n` and returns the width and the height of its
    /// canvas.
    pub fn update(&mut self, n: isize) -> (size: (usize, usize))
        requires
            old(self).fits(symbols(n as int)),
        ensures
            size.0 == canvas_width(measure(old(self).provider(), symbols(n as int))),
            size.1 == old(self).height(),
            final(self).drew(old(self), measure(old(self).provider(), symbols(n as int))),
    {
        let each = self.each_digit(n);
        self.update_container(each.unwrap())
    }

    /// Takes `n` apart as `each_digit` does and puts a period in, with `level`
    /// symbols to its right. There is no layout where `n` has fewer than
    /// `level` symbols, or `SLOTS` and more.
    pub fn each_digit_f(&self, n: isize, level: usize) -> (each: Option<Layout>)
        ensures
            match each {
                Some(layout) => level <= symbols(n as int).len() && layout.wf() && layout@
                    == measure(self.provider(), fixed_symbols(n as int, level as int)),
                None => level > symbols(n as int).len() || symbols(n as int).len() >= SLOTS,
            },
    {
        match self.each_digit(n) {
            Some(each) => {
                if level > each.length || each.length >= SLOTS {
                    return None;
                }
                let period_width = self.provider.width('.');
                Some(each.insert(level, ('.', period_width)))
            },
            None => None,
        }
    }

    /// Draws the fixed-point value `n / 10^level`: the symbols of `n` with a
    /// period that has `level` of them to its right. Returns the width and
    /// the height of its canvas.
    pub fn update_f(&mut self, n: isize, level: usize) -> (size: (usize, usize))
        requires
            level <= symbols(n as int).len(),
            old(self).fits(fixed_symbols(n as int, level as int)),
        ensures
            size.0 == canvas_width(
                measure(old(self).provider(), fixed_symbols(n as int, level as int)),
            ),
            size.1 == old(self).height(),
            final(self).drew(
                old(self),
                measure(old(self).provider(), fixed_symbols(n as int, level as int)),
            ),
    {
        let each = self.each_digit_f(n, level);
        self.update_container(each.unwrap())
    }

    /// Whether `self` can hold `each`: tells at run time what `update_container`
    /// asks of its caller.
    pub fn can_draw(&self, each: &Layout) -> (ok: bool)
        requires
            each.wf(),
        ensures
            ok == self.can_hold(each@),
    {
        let ghost cells = each@;
        let rows = self.height as usize;
        proof {
            lemma_widths_sum_bound(cells);
            assert(each.canvas_width * rows <= usize::MAX) by (nonlinear_arith)
                requires
                    each.canvas_width <= 255 * 16 + 15,
                    rows <= 255,
                    usize::MAX >= 0xffff_ffff,
            ;
        }
        if self.container.data().len() < each.canvas_width * rows {
            return false;
        }
        let mut i: usize = 0;
        while i < each.length
            invariant
                i <= each.length,
                each.wf(),
                cells == each@,
                rows == self.height(),
                forall|k: int|
                    each.length - i <= k < each.length ==> cells[k].1 * rows <= bit_len(
                        #[trigger] self.provider().glyph_pixels(cells[k].0),
                    ),
            decreases each.length - i,
        {
            let (c, char_width) = each.char_and_width[i];
            let ghost k = each.length - 1 - i;
            proof {
                assert(is_symbol(cells[k].0));
                assert(char_width * rows <= 255 * 255) by (nonlinear_arith)
                    requires
                        char_width <= 255,
                        rows <= 255,
                ;
            }
            let pixels = self.provider.pixels(c);
            if pixels.len() < (char_width as usize * rows + 7) / 8 {
                proof {
                    assert(!(cells[k].1 * self.height() <= bit_len(
                        self.provider().glyph_pixels(cells[k].0),
                    )));
                }
                return false;
            }
            i = i + 1;
        }
        true
    }

    /// Draws the integer `n` if it can be drawn, and returns the width and the
    /// height of its canvas; leaves the store as it is, and returns `None`, if
    /// `n` has more than `SLOTS` symbols, a glyph is too short for its size,
    /// or the store is too small for the canvas.
    pub fn try_update(&mut self, n: isize) -> (size: Option<(usize, usize)>)
        ensures
            size is Some <==> old(self).fits(symbols(n as int)),
            match size {
                Some(size) => size.0 == canvas_width(
                    measure(old(self).provider(), symbols(n as int)),
                ) && size.1 == old(self).height() && final(self).drew(
                    old(self),
                    measure(old(self).provider(), symbols(n as int)),
                ),
                None => *final(self) == *old(self),
            },
    {
        match self.each_digit(n) {
            Some(each) => {
                if self.can_draw(&each) {
                    Some(self.update_container(each))
                } else {
                    None
                }
            },
            None => None,
        }
    }

    /// Draws the fixed-point value `n / 10^level` if it can be drawn, and
    /// returns the width and the height of its canvas; leaves the store as it
    /// is, and returns `None`, if `n` has fewer than `level` symbols, the
    /// symbols with the period are more than `SLOTS`, a glyph is too short for
    /// its size, or the store is too small for the canvas.
    pub fn try_update_f(&mut self, n: isize, level: usize) -> (size: Option<(usize, usize)>)
        ensures
            size is Some <==> level <= symbols(n as int).len() && old(self).fits(
                fixed_symbols(n as int, level as int),
            ),
            match size {
                Some(size) => size.0 == canvas_width(
                    measure(old(self).provider(), fixed_symbols(n as int, level as int)),
                ) && size.1 == old(self).height() && final(self).drew(
                    old(self),
                    measure(old(self).provider(), fixed_symbols(n as int, level as int)),
                ),
                None => *final(self) == *old(self),
            },
    {
        match self.each_digit_f(n, level) {
            Some(each) => {
                if self.can_draw(&each) {
                    Some(self.update_container(each))
                } else {
                    None
                }
            },
            None => None,
        }
    }
}

} // verus!
