//! The two collaborators that a caller supplies: where glyphs come from and
//! where pixels go.

use crate::symbols::is_symbol;
use vstd::prelude::*;

verus! {

/// A source of glyphs. Every glyph has the same height, which the source does
/// not state; its pixels are packed row by row, one bit per pixel, most
/// significant bit first.
pub trait SourceProvider {
    /// The width in pixels of the glyph of `n`.
    spec fn glyph_width(&self, n: char) -> u8;

    /// The packed pixels of the glyph of `n`.
    spec fn glyph_pixels(&self, n: char) -> Seq<u8>;

    /// Gives the packed pixels of the glyph of `n`.
    fn pixels(&self, n: char) -> (packed: &[u8])
        requires
            is_symbol(n),
        ensures
            packed@ == self.glyph_pixels(n),
    ;

    /// Gives the width in pixels of the glyph of `n`.
    fn width(&self, n: char) -> (w: u8)
        requires
            is_symbol(n),
        ensures
            w == self.glyph_width(n),
    ;
}

/// The symbols `syms`, each with the width that `provider` gives its glyph.
pub open spec fn measure<P: SourceProvider>(provider: P, syms: Seq<char>) -> Seq<(char, u8)> {
    Seq::new(syms.len(), |k: int| (syms[k], provider.glyph_width(syms[k])))
}

/// A flat store of pixels of a fixed size, written one cell at a time and read
/// back as a whole.
pub trait DataContainer<M> {
    /// The cells of the store, in index order.
    spec fn cells(&self) -> Seq<M>;

    /// Writes `b` into the cell at `index`.
    fn update(&mut self, index: usize, b: M)
        requires
            index < old(self).cells().len(),
        ensures
            final(self).cells() == old(self).cells().update(index as int, b),
    ;

    /// Gives all the cells of the store.
    fn data(&self) -> (all: &[M])
        ensures
            all@ == self.cells(),
    ;
}

/// An array of pixels is a store as it stands.
impl<M, const N: usize> DataContainer<M> for [M; N] {
    open spec fn cells(&self) -> Seq<M> {
        self@
    }

    fn update(&mut self, index: usize, b: M) {
        self[index] = b;
    }

    fn data(&self) -> (all: &[M]) {
        self.as_slice()
    }
}

} // verus!
