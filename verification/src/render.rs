use vstd::prelude::*;
use crate::glyphs::{glyph_on, rasterize_glyph, GLYPH_BYTES};
use crate::terminal::{prompt_line, TerminalState};
use crate::GLYPH_HEIGHT;
use crate::GLYPH_WIDTH;

verus! {

/// The background color, 16-bit 5-6-5 red-green-blue.
pub const BG_COLOR: u16 = 0x0020;

/// The color of the separator line.
pub const ACCENT_COLOR: u16 = 0x08A1;

/// The glyph foreground color.
pub const TEXT_COLOR: u16 = 0xFFFF;

/// The separator line stands this many pixel rows above the bottom edge.
pub const SEPARATOR_OFFSET: usize = 18;

/// Text starts this many pixels from the left edge.
pub const TEXT_LEFT: usize = 3;

/// The first history row starts this many pixels from the top edge.
pub const TEXT_TOP: usize = 2;

/// The command line cell starts this far above the bottom edge, leaving
/// five pixel rows of margin under the glyphs.
pub const CMD_BOTTOM_OFFSET: usize = GLYPH_HEIGHT + 5;

/// A row failed to lay out: its glyph cells would leave the framebuffer.
#[derive(Clone, Copy, Debug, PartialEq, Eq, Structural)]
pub struct LayoutError;

/// The transfer of a finished frame to the display failed.
#[derive(Clone, Copy, Debug, PartialEq, Eq, Structural)]
pub enum FbWriteError {
    Error,
}

/// A display that accepts a finished frame of 16-bit pixels.
pub trait FramebufferTarget {
    fn eat_framebuffer(&mut self, buf: &[u16]) -> Result<(), FbWriteError>;
}

/// The pixel of a row-major frame of width `w` at column `x` of row `y`.
pub open spec fn pix(fb: Seq<u16>, w: int, x: int, y: int) -> u16 {
    fb[y * w + x]
}

pub proof fn lemma_pix_bounds(w: int, h: int, x: int, y: int)
    requires
        w >= 1,
        0 <= x < w,
        0 <= y < h,
    ensures
        0 <= y * w + x < w * h,
{
    assert(0 <= y * w + x && y * w + x < w * h) by (nonlinear_arith)
        requires
            w >= 1,
            0 <= x < w,
            0 <= y < h,
    ;
}

pub proof fn lemma_row_disjoint(w: int, y0: int, x: int, y: int)
    requires
        w >= 1,
        0 <= x < w,
        0 <= y,
        0 <= y0,
        y != y0,
    ensures
        y * w + x < y0 * w || y * w + x >= y0 * w + w,
{
    assert(y * w + x < y0 * w || y * w + x >= y0 * w + w) by (nonlinear_arith)
        requires
            w >= 1,
            0 <= x < w,
            0 <= y,
            0 <= y0,
            y != y0,
    ;
}

pub proof fn lemma_pix_injective(w: int, x1: int, y1: int, x2: int, y2: int)
    requires
        w >= 1,
        0 <= x1 < w,
        0 <= x2 < w,
        0 <= y1,
        0 <= y2,
        y1 * w + x1 == y2 * w + x2,
    ensures
        x1 == x2,
        y1 == y2,
{
    assert(x1 == x2 && y1 == y2) by (nonlinear_arith)
        requires
            w >= 1,
            0 <= x1 < w,
            0 <= x2 < w,
            0 <= y1,
            0 <= y2,
            y1 * w + x1 == y2 * w + x2,
    ;
}

pub proof fn lemma_mul_mono(a: int, b: int, m: int)
    requires
        a <= b,
        m >= 0,
    ensures
        a * m <= b * m,
{
    assert(a * m <= b * m) by (nonlinear_arith)
        requires
            a <= b,
            m >= 0,
    ;
}

/// Whether drawing the first `k` glyphs of `row`, with the row's left edge
/// at `x0` and its top at `y0`, sets the pixel at (`x`, `y`): some glyph
/// cell that fits the frame covers it with a set bit. A row that does not
/// fit vertically draws nothing; a glyph cell that leaves the frame on the
/// right is skipped.
pub open spec fn row_pixel_on_upto(
    row: Seq<char>,
    k: int,
    x0: int,
    y0: int,
    w: int,
    h: int,
    x: int,
    y: int,
) -> bool {
    &&& y0 + GLYPH_HEIGHT <= h
    &&& exists|j: int|
        0 <= j < k && j < row.len() && x0 + (j + 1) * GLYPH_WIDTH <= w && #[trigger] glyph_on(
            row[j],
            x - (x0 + j * GLYPH_WIDTH),
            y - y0,
        )
}

/// Whether drawing `row` with its left edge at `x0` and its top at `y0`
/// sets the pixel at (`x`, `y`).
pub open spec fn row_pixel_on(
    row: Seq<char>,
    x0: int,
    y0: int,
    w: int,
    h: int,
    x: int,
    y: int,
) -> bool {
    row_pixel_on_upto(row, row.len() as int, x0, y0, w, h, x, y)
}

/// Whether the text phase for command line `cmd` and history rows `rows`
/// sets the pixel at (`x`, `y`): either the prompt-marked command line near
/// the bottom covers it, or one of the history rows does.
pub open spec fn text_pixel_on(
    cmd: Seq<char>,
    rows: Seq<Seq<char>>,
    w: int,
    h: int,
    x: int,
    y: int,
) -> bool {
    ||| (h >= CMD_BOTTOM_OFFSET && row_pixel_on(
        prompt_line(cmd),
        TEXT_LEFT as int,
        h - CMD_BOTTOM_OFFSET,
        w,
        h,
        x,
        y,
    ))
    ||| exists|i: int|
        0 <= i < rows.len() && #[trigger] row_pixel_on(
            rows[i],
            TEXT_LEFT as int,
            TEXT_TOP + i * GLYPH_HEIGHT,
            w,
            h,
            x,
            y,
        )
}

/// As `text_pixel_on`, counting only the first `k` history rows.
pub open spec fn text_pixel_on_upto(
    cmd: Seq<char>,
    rows: Seq<Seq<char>>,
    k: int,
    w: int,
    h: int,
    x: int,
    y: int,
) -> bool {
    ||| (h >= CMD_BOTTOM_OFFSET && row_pixel_on(
        prompt_line(cmd),
        TEXT_LEFT as int,
        h - CMD_BOTTOM_OFFSET,
        w,
        h,
        x,
        y,
    ))
    ||| exists|i: int|
        0 <= i < k && i < rows.len() && #[trigger] row_pixel_on(
            rows[i],
            TEXT_LEFT as int,
            TEXT_TOP + i * GLYPH_HEIGHT,
            w,
            h,
            x,
            y,
        )
}

/// The frame renderer: one reusable row-major frame of 16-bit pixels,
/// composed in three phases and then handed to a display.
pub struct TerminalRenderer {
    /// The frame width in pixels, fixed at construction.
    pub width: usize,
    /// The frame height in pixels, fixed at construction.
    pub height: usize,
    /// The frame, one 16-bit pixel per cell, row by row from the top.
    pub fbuf: Vec<u16>,
}

impl TerminalRenderer {
    pub open spec fn wf(&self) -> bool {
        &&& self.width >= 1
        &&& self.height >= SEPARATOR_OFFSET
        &&& self.fbuf@.len() == self.width * self.height
    }

    /// A renderer for a frame of the given pixel dimensions, starting from
    /// an all-black frame.
    pub fn new(width: usize, height: usize) -> (r: TerminalRenderer)
        requires
            width >= 1,
            height >= SEPARATOR_OFFSET,
            width * height <= usize::MAX,
        ensures
            r.wf(),
            r.width == width,
            r.height == height,
            forall|j: int| 0 <= j < r.fbuf@.len() ==> r.fbuf@[j] == 0u16,
    {
        let n = width * height;
        let mut fbuf: Vec<u16> = Vec::new();
        let mut i: usize = 0;
        while i < n
            invariant
                i <= n,
                fbuf@.len() == i,
                forall|j: int| 0 <= j < i ==> fbuf@[j] == 0u16,
            decreases n - i,
        {
            fbuf.push(0u16);
            i += 1;
        }
        TerminalRenderer { width, height, fbuf }
    }

    /// The graphics phase: paints the whole frame in the background color,
    /// then one separator line near the bottom in the accent color. Reads no
    /// terminal state.
    pub fn draw_graphics(&mut self)
        requires
            old(self).wf(),
        ensures
            final(self).wf(),
            final(self).width == old(self).width,
            final(self).height == old(self).height,
            forall|x: int, y: int|
                0 <= x < final(self).width && 0 <= y < final(self).height ==> pix(
                    final(self).fbuf@,
                    final(self).width as int,
                    x,
                    y,
                ) == (if y == final(self).height - SEPARATOR_OFFSET {
                    ACCENT_COLOR
                } else {
                    BG_COLOR
                }),
    {
        let w = self.width;
        let h = self.height;
        let n = self.fbuf.len();
        let mut i: usize = 0;
        while i < n
            invariant
                self.width == w,
                self.height == h,
                self.wf(),
                self.fbuf@.len() == n,
                i <= n,
                forall|j: int| 0 <= j < i ==> self.fbuf@[j] == BG_COLOR,
            decreases n - i,
        {
            self.fbuf[i] = BG_COLOR;
            i += 1;
        }
        let y0 = h - SEPARATOR_OFFSET;
        let mut x: usize = 0;
        while x < w
            invariant
                self.width == w,
                self.height == h,
                self.wf(),
                self.fbuf@.len() == n,
                n == w * h,
                y0 == h - SEPARATOR_OFFSET,
                x <= w,
                forall|j: int|
                    0 <= j < n ==> self.fbuf@[j] == (if y0 * w <= j < y0 * w + x {
                        ACCENT_COLOR
                    } else {
                        BG_COLOR
                    }),
            decreases w - x,
        {
            proof {
                lemma_pix_bounds(w as int, h as int, x as int, y0 as int);
            }
            let idx = y0 * w + x;
            self.fbuf[idx] = ACCENT_COLOR;
            x += 1;
        }
        proof {
            assert forall|px: int, py: int| 0 <= px < w && 0 <= py < h implies pix(
                self.fbuf@,
                w as int,
                px,
                py,
            ) == (if py == h - SEPARATOR_OFFSET {
                ACCENT_COLOR
            } else {
                BG_COLOR
            }) by {
                lemma_pix_bounds(w as int, h as int, px, py);
                if py == y0 {
                    assert(py * w + px == y0 * w + px);
                } else {
                    lemma_row_disjoint(w as int, y0 as int, px, py);
                }
            }
        }
    }

    /// Paints the set bits of the glyph of `c`, whose cell lies wholly in
    /// the frame with its top-left corner at (`x0`, `y0`), in the text
    /// color; every other pixel keeps its value.
    #[verifier::loop_isolation(false)]
    fn draw_glyph(&mut self, c: char, x0: usize, y0: usize)
        requires
            old(self).wf(),
            x0 + GLYPH_WIDTH <= old(self).width,
            y0 + GLYPH_HEIGHT <= old(self).height,
        ensures
            final(self).wf(),
            final(self).width == old(self).width,
            final(self).height == old(self).height,
            forall|x: int, y: int|
                0 <= x < old(self).width && 0 <= y < old(self).height ==> #[trigger] pix(
                    final(self).fbuf@,
                    old(self).width as int,
                    x,
                    y,
                ) == (if glyph_on(c, x - x0, y - y0) {
                    TEXT_COLOR
                } else {
                    pix(old(self).fbuf@, old(self).width as int, x, y)
                }),
    {
        let bits = rasterize_glyph(c);
        let w = self.width;
        let h = self.height;
        let n = self.fbuf.len();
        let ghost orig = self.fbuf@;
        let mut gy: usize = 0;
        while gy < GLYPH_HEIGHT
            invariant
                self.width == w,
                self.height == h,
                self.wf(),
                bits@ == crate::glyphs::glyph_image(c),
                bits@.len() == GLYPH_BYTES,
                x0 + GLYPH_WIDTH <= w,
                y0 + GLYPH_HEIGHT <= h,
                gy <= GLYPH_HEIGHT,
                forall|x: int, y: int|
                    0 <= x < w && 0 <= y < h ==> #[trigger] pix(self.fbuf@, w as int, x, y) == (
                    if y - y0 < gy && glyph_on(c, x - x0, y - y0) {
                        TEXT_COLOR
                    } else {
                        pix(orig, w as int, x, y)
                    }),
            decreases GLYPH_HEIGHT - gy,
        {
            let mut gx: usize = 0;
            while gx < GLYPH_WIDTH
                invariant
                    self.width == w,
                    self.height == h,
                    self.wf(),
                    bits@ == crate::glyphs::glyph_image(c),
                    bits@.len() == GLYPH_BYTES,
                    x0 + GLYPH_WIDTH <= w,
                    y0 + GLYPH_HEIGHT <= h,
                    gy < GLYPH_HEIGHT,
                    gx <= GLYPH_WIDTH,
                    forall|x: int, y: int|
                        0 <= x < w && 0 <= y < h ==> #[trigger] pix(self.fbuf@, w as int, x, y)
                            == (if (y - y0 < gy || (y - y0 == gy && x - x0 < gx)) && glyph_on(
                            c,
                            x - x0,
                            y - y0,
                        ) {
                            TEXT_COLOR
                        } else {
                            pix(orig, w as int, x, y)
                        }),
                decreases GLYPH_WIDTH - gx,
            {
                let byte_i = gy * 2 + gx / 8;
                let sh: u8 = (7 - (gx % 8)) as u8;
                let b = bits[byte_i];
                let ghost pre = self.fbuf@;
                if ((b >> sh) & 1) == 1 {
                    proof {
                        assert(glyph_on(c, gx as int, gy as int));
                        lemma_pix_bounds(w as int, h as int, (x0 + gx) as int, (y0 + gy) as int);
                        assert(n == w * h);
                    }
                    let idx = (y0 + gy) * w + (x0 + gx);
                    self.fbuf[idx] = TEXT_COLOR;
                    proof {
                        assert forall|x: int, y: int| 0 <= x < w && 0 <= y < h implies #[trigger] pix(
                            self.fbuf@,
                            w as int,
                            x,
                            y,
                        ) == (if (y - y0 < gy || (y - y0 == gy && x - x0 < gx + 1)) && glyph_on(
                            c,
                            x - x0,
                            y - y0,
                        ) {
                            TEXT_COLOR
                        } else {
                            pix(orig, w as int, x, y)
                        }) by {
                            lemma_pix_bounds(w as int, h as int, x, y);
                            if y * (w as int) + x == idx {
                                lemma_pix_injective(
                                    w as int,
                                    x,
                                    y,
                                    (x0 + gx) as int,
                                    (y0 + gy) as int,
                                );
                            } else {
                                assert(pix(self.fbuf@, w as int, x, y) == pix(pre, w as int, x, y));
                            }
                        }
                    }
                } else {
                    proof {
                        assert(!glyph_on(c, gx as int, gy as int));
                        assert forall|x: int, y: int| 0 <= x < w && 0 <= y < h implies #[trigger] pix(
                            self.fbuf@,
                            w as int,
                            x,
                            y,
                        ) == (if (y - y0 < gy || (y - y0 == gy && x - x0 < gx + 1)) && glyph_on(
                            c,
                            x - x0,
                            y - y0,
                        ) {
                            TEXT_COLOR
                        } else {
                            pix(orig, w as int, x, y)
                        }) by {
                            if y - y0 == gy && x - x0 == gx {
                                assert(!glyph_on(c, x - x0, y - y0));
                            }
                        }
                    }
                }
                gx += 1;
            }
            gy += 1;
        }
    }

    /// The layout of one text row: glyph cells side by side from
    /// (`x0`, `y0`). A row whose cells would leave the bottom of the frame
    /// fails and draws nothing; cells that leave the right edge are
    /// skipped.
    #[verifier::loop_isolation(false)]
    pub fn draw_row(&mut self, row: &Vec<char>, x0: usize, y0: usize) -> (r: Result<
        (),
        LayoutError,
    >)
        requires
            old(self).wf(),
        ensures
            final(self).wf(),
            final(self).width == old(self).width,
            final(self).height == old(self).height,
            r is Ok <==> y0 + GLYPH_HEIGHT <= old(self).height,
            forall|x: int, y: int|
                0 <= x < old(self).width && 0 <= y < old(self).height ==> #[trigger] pix(
                    final(self).fbuf@,
                    old(self).width as int,
                    x,
                    y,
                ) == (if row_pixel_on(
                    row@,
                    x0 as int,
                    y0 as int,
                    old(self).width as int,
                    old(self).height as int,
                    x,
                    y,
                ) {
                    TEXT_COLOR
                } else {
                    pix(old(self).fbuf@, old(self).width as int, x, y)
                }),
    {
        let w = self.width;
        let h = self.height;
        if y0 > h - GLYPH_HEIGHT {
            return Err(LayoutError);
        }
        let ghost orig = self.fbuf@;
        let mut j: usize = 0;
        let mut xc: usize = x0;
        while j < row.len() && xc <= w && w - xc >= GLYPH_WIDTH
            invariant
                self.width == w,
                self.height == h,
                self.wf(),
                y0 + GLYPH_HEIGHT <= h,
                j <= row@.len(),
                xc == x0 + j * GLYPH_WIDTH,
                forall|x: int, y: int|
                    0 <= x < w && 0 <= y < h ==> #[trigger] pix(self.fbuf@, w as int, x, y) == (
                    if row_pixel_on_upto(
                        row@,
                        j as int,
                        x0 as int,
                        y0 as int,
                        w as int,
                        h as int,
                        x,
                        y,
                    ) {
                        TEXT_COLOR
                    } else {
                        pix(orig, w as int, x, y)
                    }),
            decreases row@.len() - j,
        {
            self.draw_glyph(row[j], xc, y0);
            proof {
                assert forall|x: int, y: int| 0 <= x < w && 0 <= y < h implies #[trigger] pix(
                    self.fbuf@,
                    w as int,
                    x,
                    y,
                ) == (if row_pixel_on_upto(
                    row@,
                    j as int + 1,
                    x0 as int,
                    y0 as int,
                    w as int,
                    h as int,
                    x,
                    y,
                ) {
                    TEXT_COLOR
                } else {
                    pix(orig, w as int, x, y)
                }) by {
                    if glyph_on(row@[j as int], x - xc, y - y0) {
                        assert(row_pixel_on_upto(
                            row@,
                            j as int + 1,
                            x0 as int,
                            y0 as int,
                            w as int,
                            h as int,
                            x,
                            y,
                        ));
                    } else {
                        if row_pixel_on_upto(
                            row@,
                            j as int + 1,
                            x0 as int,
                            y0 as int,
                            w as int,
                            h as int,
                            x,
                            y,
                        ) {
                            let jj = choose|jj: int|
                                0 <= jj < j + 1 && jj < row@.len() && x0 + (jj + 1) * GLYPH_WIDTH
                                    <= w && #[trigger] glyph_on(
                                    row@[jj],
                                    x - (x0 + jj * GLYPH_WIDTH),
                                    y - y0,
                                );
                            assert(jj < j);
                            assert(row_pixel_on_upto(
                                row@,
                                j as int,
                                x0 as int,
                                y0 as int,
                                w as int,
                                h as int,
                                x,
                                y,
                            ));
                        }
                    }
                }
            }
            j += 1;
            xc += GLYPH_WIDTH;
        }
        proof {
            if j < row@.len() {
                // the next cell, and so every later one, would leave the
                // right edge
                assert(x0 + (j as int + 1) * GLYPH_WIDTH > w);
                assert forall|x: int, y: int| 0 <= x < w && 0 <= y < h implies (row_pixel_on(
                    row@,
                    x0 as int,
                    y0 as int,
                    w as int,
                    h as int,
                    x,
                    y,
                ) == row_pixel_on_upto(
                    row@,
                    j as int,
                    x0 as int,
                    y0 as int,
                    w as int,
                    h as int,
                    x,
                    y,
                )) by {
                    if row_pixel_on(row@, x0 as int, y0 as int, w as int, h as int, x, y) {
                        let jj = choose|jj: int|
                            0 <= jj < row@.len() && x0 + (jj + 1) * GLYPH_WIDTH <= w
                                && #[trigger] glyph_on(
                                row@[jj],
                                x - (x0 + jj * GLYPH_WIDTH),
                                y - y0,
                            );
                        if jj >= j {
                            lemma_mul_mono(j as int + 1, jj + 1, GLYPH_WIDTH as int);
                            assert(false);
                        }
                    }
                }
            }
        }
        Ok(())
    }

    /// The text phase: paints the prompt-marked command line near the
    /// bottom edge, then every history row from oldest to newest, one glyph
    /// row apart from the top down. A row that fails to lay out is skipped;
    /// the rest of the frame stays valid. Only reads the terminal state.
    #[verifier::loop_isolation(false)]
    pub fn draw_text(&mut self, state: &TerminalState)
        requires
            old(self).wf(),
            state.wf(),
        ensures
            final(self).wf(),
            final(self).width == old(self).width,
            final(self).height == old(self).height,
            forall|x: int, y: int|
                0 <= x < old(self).width && 0 <= y < old(self).height ==> #[trigger] pix(
                    final(self).fbuf@,
                    old(self).width as int,
                    x,
                    y,
                ) == (if text_pixel_on(
                    state.command_line@,
                    state.history.rows_view(),
                    old(self).width as int,
                    old(self).height as int,
                    x,
                    y,
                ) {
                    TEXT_COLOR
                } else {
                    pix(old(self).fbuf@, old(self).width as int, x, y)
                }),
    {
        let w = self.width;
        let h = self.height;
        let ghost orig = self.fbuf@;
        let ghost cmd = state.command_line@;
        let ghost rows = state.history.rows_view();
        let prow = crate::terminal::make_prompt_row(&state.command_line);
        if h >= CMD_BOTTOM_OFFSET {
            let _ = self.draw_row(&prow, TEXT_LEFT, h - CMD_BOTTOM_OFFSET);
        }
        proof {
            assert forall|x: int, y: int| 0 <= x < w && 0 <= y < h implies #[trigger] pix(
                self.fbuf@,
                w as int,
                x,
                y,
            ) == (if text_pixel_on_upto(cmd, rows, 0, w as int, h as int, x, y) {
                TEXT_COLOR
            } else {
                pix(orig, w as int, x, y)
            }) by {
                if h < CMD_BOTTOM_OFFSET {
                    assert(!text_pixel_on_upto(cmd, rows, 0, w as int, h as int, x, y));
                }
            }
        }
        let mut i: usize = 0;
        let mut yc: usize = TEXT_TOP;
        while i < state.history.rows.len()
            invariant
                self.width == w,
                self.height == h,
                self.wf(),
                state.wf(),
                rows == state.history.rows_view(),
                i <= rows.len(),
                yc == TEXT_TOP + i * GLYPH_HEIGHT,
                yc <= h,
                forall|x: int, y: int|
                    0 <= x < w && 0 <= y < h ==> #[trigger] pix(self.fbuf@, w as int, x, y) == (
                    if text_pixel_on_upto(cmd, rows, i as int, w as int, h as int, x, y) {
                        TEXT_COLOR
                    } else {
                        pix(orig, w as int, x, y)
                    }),
            decreases rows.len() - i,
        {
            if yc > h - GLYPH_HEIGHT {
                // every later row starts even lower and cannot fit either
                proof {
                    assert forall|x: int, y: int| 0 <= x < w && 0 <= y < h implies (text_pixel_on(
                        cmd,
                        rows,
                        w as int,
                        h as int,
                        x,
                        y,
                    ) == text_pixel_on_upto(cmd, rows, i as int, w as int, h as int, x, y)) by {
                        if text_pixel_on(cmd, rows, w as int, h as int, x, y)
                            && !text_pixel_on_upto(cmd, rows, i as int, w as int, h as int, x, y) {
                            let ii = choose|ii: int|
                                0 <= ii < rows.len() && #[trigger] row_pixel_on(
                                    rows[ii],
                                    TEXT_LEFT as int,
                                    TEXT_TOP + ii * GLYPH_HEIGHT,
                                    w as int,
                                    h as int,
                                    x,
                                    y,
                                );
                            assert(ii >= i);
                            lemma_mul_mono(i as int, ii, GLYPH_HEIGHT as int);
                            assert(false);
                        }
                    }
                }
                return ;
            }
            let _ = self.draw_row(&state.history.rows[i], TEXT_LEFT, yc);
            proof {
                assert(state.history.rows@[i as int]@ == rows[i as int]);
                assert forall|x: int, y: int| 0 <= x < w && 0 <= y < h implies #[trigger] pix(
                    self.fbuf@,
                    w as int,
                    x,
                    y,
                ) == (if text_pixel_on_upto(cmd, rows, i as int + 1, w as int, h as int, x, y) {
                    TEXT_COLOR
                } else {
                    pix(orig, w as int, x, y)
                }) by {
                    if row_pixel_on(
                        rows[i as int],
                        TEXT_LEFT as int,
                        yc as int,
                        w as int,
                        h as int,
                        x,
                        y,
                    ) {
                        assert(text_pixel_on_upto(cmd, rows, i as int + 1, w as int, h as int, x, y));
                    } else {
                        if text_pixel_on_upto(cmd, rows, i as int + 1, w as int, h as int, x, y)
                            && !text_pixel_on_upto(cmd, rows, i as int, w as int, h as int, x, y) {
                            let ii = choose|ii: int|
                                0 <= ii < i + 1 && ii < rows.len() && #[trigger] row_pixel_on(
                                    rows[ii],
                                    TEXT_LEFT as int,
                                    TEXT_TOP + ii * GLYPH_HEIGHT,
                                    w as int,
                                    h as int,
                                    x,
                                    y,
                                );
                            assert(ii == i as int);
                            assert(false);
                        }
                    }
                }
            }
            i += 1;
            yc += GLYPH_HEIGHT;
        }
        proof {
            assert forall|x: int, y: int| 0 <= x < w && 0 <= y < h implies (text_pixel_on(
                cmd,
                rows,
                w as int,
                h as int,
                x,
                y,
            ) == text_pixel_on_upto(cmd, rows, rows.len() as int, w as int, h as int, x, y)) by {
            }
        }
    }

    /// The transfer phase: hands the frame, exactly as it stands, to the
    /// display; a transfer failure is returned to the caller and leaves the
    /// renderer ready for the next frame.
    pub fn blit<S: FramebufferTarget>(&self, sink: &mut S) -> (r: Result<(), FbWriteError>) {
        sink.eat_framebuffer(self.fbuf.as_slice())
    }
}

} // verus!
