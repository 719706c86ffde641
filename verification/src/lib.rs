use vstd::prelude::*;

pub mod glyphs;
pub mod render;
pub mod scrollback;
pub mod terminal;
pub mod wrap;

verus! {

/// Pixel width of one monospace character cell.
pub const GLYPH_WIDTH: usize = 9;

/// Pixel height of one monospace character cell.
pub const GLYPH_HEIGHT: usize = 15;

} // verus!
