use vstd::prelude::*;
use embedded_graphics::framebuffer::Framebuffer;
use embedded_graphics::geometry::Point;
use embedded_graphics::mono_font::ascii::FONT_9X15;
use embedded_graphics::mono_font::MonoTextStyle;
use embedded_graphics::pixelcolor::raw::LittleEndian;
use embedded_graphics::pixelcolor::raw::RawU1;
use embedded_graphics::pixelcolor::BinaryColor;
use embedded_graphics::text::Baseline;
use embedded_graphics::text::Text;
use embedded_graphics::Drawable;
use crate::GLYPH_HEIGHT;
use crate::GLYPH_WIDTH;

verus! {

/// The number of bytes in one packed glyph bitmap: two bytes for each of
/// the fifteen pixel rows.
pub const GLYPH_BYTES: usize = 30;

/// The 9 x 15 pixel bitmap of `c` in the terminal's monospace font, packed
/// two bytes per pixel row, most significant bit first.
pub uninterp spec fn glyph_image(c: char) -> Seq<u8>;

/// Whether the glyph of `c` has its pixel at column `gx` of row `gy` set.
pub open spec fn glyph_on(c: char, gx: int, gy: int) -> bool {
    &&& 0 <= gx < GLYPH_WIDTH
    &&& 0 <= gy < GLYPH_HEIGHT
    &&& glyph_image(c).len() == GLYPH_BYTES
    &&& ((glyph_image(c)[gy * 2 + gx / 8] >> ((7 - gx % 8) as u8)) & 1u8) == 1u8
}

/// Relies on embedded_graphics' `Text::draw` with the monospace font
/// `FONT_9X15`: drawing one character into a one-bit 9 x 15 `Framebuffer`
/// gives a bitmap that depends on the character alone, and the framebuffer
/// packs it two bytes per pixel row, leftmost pixel in the most
/// significant bit.
#[verifier::external_body]
pub(crate) fn rasterize_glyph(c: char) -> (r: Vec<u8>)
    ensures
        r@ == glyph_image(c),
        r@.len() == GLYPH_BYTES,
{
    let mut fb = Framebuffer::<BinaryColor, RawU1, LittleEndian, 9, 15, 30>::new();
    let mut utf8 = [0u8; 4];
    let s: &str = c.encode_utf8(&mut utf8);
    let style = MonoTextStyle::new(&FONT_9X15, BinaryColor::On);
    let _ = Text::with_baseline(s, Point::zero(), style, Baseline::Top).draw(&mut fb);
    fb.data().to_vec()
}

} // verus!
