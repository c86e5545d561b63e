//! A table of glyphs that is a glyph source as it stands.

use crate::source::SourceProvider;
use crate::symbols::{digit_value, is_symbol};
use vstd::pervasive::unreached;
use vstd::prelude::*;

verus! {

/// One glyph: its width in pixels, and its pixels packed row by row, one bit
/// per pixel, most significant bit first.
pub struct Glyph<'a> {
    pub width: u8,
    pub pixels: &'a [u8],
}

/// The glyphs of the twelve symbols: those of the digits from 0 to 9, then
/// that of the minus sign, then that of the period.
pub struct GlyphTable<'a> {
    pub glyphs: [Glyph<'a>; 12],
}

/// The place of the glyph of `c` in a table.
pub open spec fn symbol_slot(c: char) -> int {
    if c == '-' {
        10
    } else if c == '.' {
        11
    } else {
        digit_value(c)
    }
}

impl<'a> GlyphTable<'a> {
    /// The place of the glyph of `c` in the table.
    pub fn slot(c: char) -> (at: usize)
        requires
            is_symbol(c),
        ensures
            at == symbol_slot(c),
            at < 12,
    {
        match c {
            '0' => 0,
            '1' => 1,
            '2' => 2,
            '3' => 3,
            '4' => 4,
            '5' => 5,
            '6' => 6,
            '7' => 7,
            '8' => 8,
            '9' => 9,
            '-' => 10,
            '.' => 11,
            _ => unreached(),
        }
    }
}

impl<'a> SourceProvider for GlyphTable<'a> {
    open spec fn glyph_width(&self, n: char) -> u8 {
        self.glyphs@[symbol_slot(n)].width
    }

    open spec fn glyph_pixels(&self, n: char) -> Seq<u8> {
        self.glyphs@[symbol_slot(n)].pixels@
    }

    fn pixels(&self, n: char) -> (packed: &[u8]) {
        self.glyphs[Self::slot(n)].pixels
    }

    fn width(&self, n: char) -> (w: u8) {
        self.glyphs[Self::slot(n)].width
    }
}

} // verus!
