//! Numbers drawn as monochrome bitmaps: the glyphs of a signed integer or of a
//! fixed-point value are laid out from left to right, one blank column apart,
//! in a pixel store that the caller owns.
//!
//! A [`MonoImageNumbers`] is made of a glyph source, a pixel store, the height
//! of the glyphs and two inks. Each drawing returns the width and the height
//! of its canvas; the canvas is the first `width * height` cells of the store,
//! row by row, and what lies behind it is left as it was. The store is used
//! again for the next number, so its length says nothing of the canvas.
//!
//! `update` and `update_f` are for callers that can show that the number fits;
//! `try_update` and `try_update_f` find out at run time and draw nothing where
//! it does not.

pub mod bits;
pub mod draw;
pub mod glyphs;
pub mod image;
pub mod laws;
pub mod layout;
pub mod numbers;
pub mod source;
pub mod symbols;

pub use glyphs::{Glyph, GlyphTable};
pub use layout::{Layout, SLOTS};
pub use numbers::MonoImageNumbers;
pub use source::{DataContainer, SourceProvider};
