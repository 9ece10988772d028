//! PSF1 bitmap fonts: loading one from its bytes, and turning glyphs and
//! text into framebuffer stores.

use crate::framebuffer::{
    all_in_region, all_on_screen, last_color, lemma_last_color_concat, lemma_on_screen_concat,
    lemma_on_screen_in_region, lemma_paint_at, lemma_paint_clipped, lemma_paint_concat,
    lemma_paint_idempotent, lemma_pixel_in_region, lemma_pixels_disjoint, paint, FramebufferView,
    Geometry, PixelWrite, BYTES_PER_PIXEL,
};
use vstd::prelude::*;
use vstd::string::StringSliceAdditionalSpecFns;

verus! {

/// First byte of a PSF1 font.
pub const PSF1_MAGIC0: u8 = 0x36;

/// Second byte of a PSF1 font.
pub const PSF1_MAGIC1: u8 = 0x04;

/// Length of the header that precedes the glyph bitmaps.
pub const PSF1_HEADER_LEN: usize = 4;

/// Width in pixels of every glyph.
pub const GLYPH_WIDTH: usize = 8;

/// A font as plain data: every glyph is `glyph_height` bytes, one per row,
/// and glyph `c` starts at byte `c * glyph_height` of `glyph_data`.
pub struct FontModel {
    pub glyph_height: nat,
    pub glyph_data: Seq<u8>,
}

/// A PSF1 font that borrows its glyph bitmaps.
///
/// `charsize` is the height of a glyph in rows, and so in bytes.  The glyph
/// data may hold fewer than 256 glyphs.
pub struct PSF1Font<'a> {
    pub charsize: usize,
    glyphs: &'a [u8],
}

impl<'a> View for PSF1Font<'a> {
    type V = FontModel;

    closed spec fn view(&self) -> FontModel {
        FontModel { glyph_height: self.charsize as nat, glyph_data: self.glyphs@ }
    }
}

/// Whether `data` starts with a PSF1 header.
pub open spec fn is_psf1(data: Seq<u8>) -> bool {
    data.len() >= PSF1_HEADER_LEN && data[0] == PSF1_MAGIC0 && data[1] == PSF1_MAGIC1
}

impl<'a> PSF1Font<'a> {
    /// Height of a glyph in rows.
    pub fn glyph_height(&self) -> (h: usize)
        ensures
            h == self@.glyph_height,
    {
        self.charsize
    }

    /// The glyph bitmaps, all glyphs in a row.
    pub fn glyphs(&self) -> (data: &'a [u8])
        ensures
            data@ == self@.glyph_data,
    {
        self.glyphs
    }
}

/// Reads a PSF1 font: two magic bytes, a mode byte that is skipped, the glyph
/// height, then the glyph bitmaps, which are borrowed from `data`.
pub fn load_psf1_font(data: &[u8]) -> (font: Option<PSF1Font<'_>>)
    ensures
        font is Some <==> is_psf1(data@),
        font matches Some(f) ==> {
            &&& f@.glyph_height == data@[3]
            &&& f@.glyph_data == data@.subrange(4, data@.len() as int)
        },
{
    if data.len() < PSF1_HEADER_LEN || data[0] != PSF1_MAGIC0 || data[1] != PSF1_MAGIC1 {
        return None;
    }
    let charsize: usize = data[3] as usize;
    let glyphs = vstd::slice::slice_subrange(data, PSF1_HEADER_LEN, data.len());
    Some(PSF1Font { charsize, glyphs })
}

/// Whether glyph `ch` lies wholly inside the glyph data.
pub open spec fn glyph_in_range(font: FontModel, ch: u8) -> bool {
    ch * font.glyph_height + font.glyph_height <= font.glyph_data.len()
}

/// The byte that holds row `row` of glyph `ch`.
pub open spec fn glyph_row(font: FontModel, ch: u8, row: int) -> u8 {
    font.glyph_data[ch * font.glyph_height + row]
}

/// Whether column `col` of a glyph row is lit: the leftmost column is the
/// highest bit.
pub open spec fn pixel_lit(bits: u8, col: u8) -> bool {
    bits & (0x80u8 >> col) != 0
}

/// The color of column `col` of a glyph row.
pub open spec fn pixel_color(bits: u8, col: u8, fg: u32, bg: u32) -> u32 {
    if pixel_lit(bits, col) {
        fg
    } else {
        bg
    }
}

/// The stores for the first `n` columns of one glyph row, left to right.
/// The row's leftmost pixel is `(x, py)`; pixels off the screen are left out.
pub open spec fn row_writes(g: Geometry, bits: u8, x: int, py: int, fg: u32, bg: u32, n: int) -> Seq<
    PixelWrite,
>
    decreases n,
{
    if n <= 0 {
        Seq::empty()
    } else {
        let before = row_writes(g, bits, x, py, fg, bg, n - 1);
        let col = n - 1;
        if g.contains(x + col, py) {
            before.push(
                PixelWrite {
                    offset: g.offset(x + col, py) as usize,
                    color: pixel_color(bits, col as u8, fg, bg),
                },
            )
        } else {
            before
        }
    }
}

/// The stores for the first `n` rows of glyph `ch`, top to bottom, with the
/// glyph's top-left pixel at `(x, y)`.
pub open spec fn rows_writes(
    g: Geometry,
    font: FontModel,
    ch: u8,
    x: int,
    y: int,
    fg: u32,
    bg: u32,
    n: int,
) -> Seq<PixelWrite>
    decreases n,
{
    if n <= 0 {
        Seq::empty()
    } else {
        rows_writes(g, font, ch, x, y, fg, bg, n - 1) + row_writes(
            g,
            glyph_row(font, ch, n - 1),
            x,
            y + (n - 1),
            fg,
            bg,
            GLYPH_WIDTH as int,
        )
    }
}

/// The stores that draw glyph `ch` with its top-left pixel at `(x, y)`:
/// none if the font does not hold the glyph, else one per visible pixel of
/// the glyph's cell, row by row.
pub open spec fn glyph_writes(
    g: Geometry,
    font: FontModel,
    ch: u8,
    x: int,
    y: int,
    fg: u32,
    bg: u32,
) -> Seq<PixelWrite> {
    if glyph_in_range(font, ch) {
        rows_writes(g, font, ch, x, y, fg, bg, font.glyph_height as int)
    } else {
        Seq::empty()
    }
}

/// Whether `(px, py)` belongs to the cell of a glyph of height `h` whose
/// top-left pixel is `(x, y)`.
pub open spec fn in_cell(x: int, y: int, h: int, px: int, py: int) -> bool {
    x <= px < x + GLYPH_WIDTH && y <= py < y + h
}

proof fn lemma_row_on_screen(g: Geometry, bits: u8, x: int, py: int, fg: u32, bg: u32, n: int)
    requires
        g.valid(),
    ensures
        all_on_screen(g, row_writes(g, bits, x, py, fg, bg, n)),
    decreases n,
{
    if n > 0 {
        lemma_row_on_screen(g, bits, x, py, fg, bg, n - 1);
        if g.contains(x + (n - 1), py) {
            lemma_pixel_in_region(g, x + (n - 1), py);
            let before = row_writes(g, bits, x, py, fg, bg, n - 1);
            let all = row_writes(g, bits, x, py, fg, bg, n);
            assert forall|i: int| 0 <= i < all.len() implies g.is_pixel_offset(
                (#[trigger] all[i]).offset as int,
            ) by {
                if i < before.len() {
                    assert(all[i] == before[i]);
                } else {
                    assert(g.offset(x + (n - 1), py) == all[i].offset);
                }
            }
        }
    }
}

proof fn lemma_rows_on_screen(
    g: Geometry,
    font: FontModel,
    ch: u8,
    x: int,
    y: int,
    fg: u32,
    bg: u32,
    n: int,
)
    requires
        g.valid(),
    ensures
        all_on_screen(g, rows_writes(g, font, ch, x, y, fg, bg, n)),
    decreases n,
{
    if n > 0 {
        lemma_rows_on_screen(g, font, ch, x, y, fg, bg, n - 1);
        lemma_row_on_screen(g, glyph_row(font, ch, n - 1), x, y + (n - 1), fg, bg, 8);
        lemma_on_screen_concat(
            g,
            rows_writes(g, font, ch, x, y, fg, bg, n - 1),
            row_writes(g, glyph_row(font, ch, n - 1), x, y + (n - 1), fg, bg, 8),
        );
    }
}

/// Drawing a glyph stores to visible pixels only, wherever the glyph is put.
pub proof fn lemma_glyph_on_screen(
    g: Geometry,
    font: FontModel,
    ch: u8,
    x: int,
    y: int,
    fg: u32,
    bg: u32,
)
    requires
        g.valid(),
    ensures
        all_on_screen(g, glyph_writes(g, font, ch, x, y, fg, bg)),
{
    lemma_rows_on_screen(g, font, ch, x, y, fg, bg, font.glyph_height as int);
}

proof fn lemma_row_last_color(
    g: Geometry,
    bits: u8,
    x: int,
    py: int,
    fg: u32,
    bg: u32,
    n: int,
    qx: int,
    qy: int,
)
    requires
        g.valid(),
        g.contains(qx, qy),
        0 <= n <= 8,
    ensures
        last_color(row_writes(g, bits, x, py, fg, bg, n), g.offset(qx, qy)) == if qy == py && x
            <= qx < x + n {
            Some(pixel_color(bits, (qx - x) as u8, fg, bg))
        } else {
            None
        },
    decreases n,
{
    if n > 0 {
        lemma_row_last_color(g, bits, x, py, fg, bg, n - 1, qx, qy);
        let col = n - 1;
        if g.contains(x + col, py) {
            let before = row_writes(g, bits, x, py, fg, bg, n - 1);
            let w = PixelWrite {
                offset: g.offset(x + col, py) as usize,
                color: pixel_color(bits, col as u8, fg, bg),
            };
            lemma_pixel_in_region(g, x + col, py);
            lemma_pixel_in_region(g, qx, qy);
            assert(before.push(w).drop_last() =~= before);
            if (x + col, py) != (qx, qy) {
                lemma_pixels_disjoint(g, x + col, py, qx, qy);
            }
        }
    }
}

proof fn lemma_rows_last_color(
    g: Geometry,
    font: FontModel,
    ch: u8,
    x: int,
    y: int,
    fg: u32,
    bg: u32,
    n: int,
    qx: int,
    qy: int,
)
    requires
        g.valid(),
        g.contains(qx, qy),
        0 <= n,
    ensures
        last_color(rows_writes(g, font, ch, x, y, fg, bg, n), g.offset(qx, qy)) == if in_cell(
            x,
            y,
            n,
            qx,
            qy,
        ) {
            Some(pixel_color(glyph_row(font, ch, qy - y), (qx - x) as u8, fg, bg))
        } else {
            None
        },
    decreases n,
{
    if n > 0 {
        lemma_rows_last_color(g, font, ch, x, y, fg, bg, n - 1, qx, qy);
        lemma_row_last_color(g, glyph_row(font, ch, n - 1), x, y + (n - 1), fg, bg, 8, qx, qy);
        lemma_last_color_concat(
            rows_writes(g, font, ch, x, y, fg, bg, n - 1),
            row_writes(g, glyph_row(font, ch, n - 1), x, y + (n - 1), fg, bg, 8),
            g.offset(qx, qy),
        );
    }
}

/// What drawing a glyph does to each visible pixel: a pixel of the glyph's
/// cell takes the foreground color where the glyph's bit is set and the
/// background color where it is not; every other pixel keeps its color, and
/// so does every pixel if the font does not hold the glyph.
pub proof fn lemma_glyph_pixel(
    g: Geometry,
    font: FontModel,
    ch: u8,
    x: int,
    y: int,
    fg: u32,
    bg: u32,
    mem: Map<int, u32>,
    px: int,
    py: int,
)
    requires
        g.valid(),
        g.contains(px, py),
    ensures
        paint(mem, glyph_writes(g, font, ch, x, y, fg, bg))[g.offset(px, py)] == if glyph_in_range(
            font,
            ch,
        ) && in_cell(x, y, font.glyph_height as int, px, py) {
            pixel_color(glyph_row(font, ch, py - y), (px - x) as u8, fg, bg)
        } else {
            mem[g.offset(px, py)]
        },
{
    lemma_paint_at(mem, glyph_writes(g, font, ch, x, y, fg, bg), g.offset(px, py));
    if glyph_in_range(font, ch) {
        lemma_rows_last_color(g, font, ch, x, y, fg, bg, font.glyph_height as int, px, py);
    }
}

/// Drawing a glyph a second time at the same place and in the same colors
/// leaves every pixel as the first drawing left it.
pub proof fn lemma_draw_char_idempotent(
    g: Geometry,
    font: FontModel,
    ch: u8,
    x: int,
    y: int,
    fg: u32,
    bg: u32,
    mem: Map<int, u32>,
)
    ensures
        paint(
            paint(mem, glyph_writes(g, font, ch, x, y, fg, bg)),
            glyph_writes(g, font, ch, x, y, fg, bg),
        ) == paint(mem, glyph_writes(g, font, ch, x, y, fg, bg)),
{
    lemma_paint_idempotent(mem, glyph_writes(g, font, ch, x, y, fg, bg));
}

/// Drawing a glyph changes nothing but visible pixels, however far its cell
/// reaches beyond the screen.
pub proof fn lemma_draw_char_clipped(
    g: Geometry,
    font: FontModel,
    ch: u8,
    x: int,
    y: int,
    fg: u32,
    bg: u32,
    mem: Map<int, u32>,
    offset: int,
)
    requires
        g.valid(),
        !g.is_pixel_offset(offset),
    ensures
        paint(mem, glyph_writes(g, font, ch, x, y, fg, bg)).dom().contains(offset)
            == mem.dom().contains(offset),
        paint(mem, glyph_writes(g, font, ch, x, y, fg, bg))[offset] == mem[offset],
{
    lemma_glyph_on_screen(g, font, ch, x, y, fg, bg);
    lemma_paint_clipped(g, mem, glyph_writes(g, font, ch, x, y, fg, bg), offset);
}

/// Drawing a glyph that the font does not hold changes nothing.
pub proof fn lemma_missing_glyph_draws_nothing(
    g: Geometry,
    font: FontModel,
    ch: u8,
    x: int,
    y: int,
    fg: u32,
    bg: u32,
    mem: Map<int, u32>,
)
    requires
        ch * font.glyph_height + font.glyph_height > font.glyph_data.len(),
    ensures
        paint(mem, glyph_writes(g, font, ch, x, y, fg, bg)) == mem,
{
}

/// A glyph whose top-left pixel is right of the screen or below it draws
/// nothing.
pub proof fn lemma_glyph_off_screen(
    g: Geometry,
    font: FontModel,
    ch: u8,
    x: int,
    y: int,
    fg: u32,
    bg: u32,
)
    requires
        x >= g.width || y >= g.height,
    ensures
        glyph_writes(g, font, ch, x, y, fg, bg) == Seq::<PixelWrite>::empty(),
{
    lemma_rows_off_screen(g, font, ch, x, y, fg, bg, font.glyph_height as int);
}

proof fn lemma_rows_off_screen(
    g: Geometry,
    font: FontModel,
    ch: u8,
    x: int,
    y: int,
    fg: u32,
    bg: u32,
    n: int,
)
    requires
        x >= g.width || y >= g.height,
    ensures
        rows_writes(g, font, ch, x, y, fg, bg, n) == Seq::<PixelWrite>::empty(),
    decreases n,
{
    if n > 0 {
        lemma_rows_off_screen(g, font, ch, x, y, fg, bg, n - 1);
        let bits = glyph_row(font, ch, n - 1);
        let py = y + (n - 1);
        reveal_with_fuel(row_writes, 9);
        assert(row_writes(g, bits, x, py, fg, bg, 8) == Seq::<PixelWrite>::empty());
        assert(Seq::<PixelWrite>::empty() + Seq::<PixelWrite>::empty() =~= Seq::<
            PixelWrite,
        >::empty());
    }
}

fn push_glyph(
    out: &mut Vec<PixelWrite>,
    framebuffer: &FramebufferView,
    font: &PSF1Font,
    ch: u8,
    x: usize,
    y: usize,
    fg_color: u32,
    bg_color: u32,
)
    ensures
        final(out)@ == old(out)@ + glyph_writes(
            framebuffer@,
            font@,
            ch,
            x as int,
            y as int,
            fg_color,
            bg_color,
        ),
        framebuffer@.valid(),
{
    let fb_pitch: usize = framebuffer.pitch();
    let fb_width: usize = framebuffer.width();
    let fb_height: usize = framebuffer.height();
    let height: usize = font.charsize;
    let data_len: usize = font.glyphs.len();
    let start: usize = match (ch as usize).checked_mul(height) {
        Some(start) => start,
        None => {
            assert(!glyph_in_range(font@, ch));
            assert(old(out)@ + Seq::<PixelWrite>::empty() =~= old(out)@);
            return ;
        },
    };
    let fits: bool = match start.checked_add(height) {
        Some(end) => end <= data_len,
        None => false,
    };
    if !fits {
        assert(!glyph_in_range(font@, ch));
        assert(old(out)@ + Seq::<PixelWrite>::empty() =~= old(out)@);
        return ;
    }
    let ghost g = framebuffer@;
    let ghost f = font@;
    let ghost base = old(out)@;
    let mut row: usize = 0;
    assert(base + rows_writes(g, f, ch, x as int, y as int, fg_color, bg_color, 0) =~= base);
    while row < height
        invariant
            row <= height,
            height == f.glyph_height,
            f == font@,
            g == framebuffer@,
            g.valid(),
            fb_pitch == g.pitch,
            fb_width == g.width,
            fb_height == g.height,
            start == ch * height,
            start + height <= font.glyphs@.len() <= usize::MAX,
            font.glyphs@ == f.glyph_data,
            out@ == base + rows_writes(g, f, ch, x as int, y as int, fg_color, bg_color, row as int),
        decreases height - row,
    {
        let bits: u8 = font.glyphs[start + row];
        let ghost before = out@;
        let mut col: u8 = 0;
        assert(before + row_writes(g, bits, x as int, y + row, fg_color, bg_color, 0) =~= before);
        while col < 8
            invariant
                col <= 8,
                row < height,
                g == framebuffer@,
                g.valid(),
                fb_pitch == g.pitch,
                fb_width == g.width,
                fb_height == g.height,
                out@ == before + row_writes(
                    g,
                    bits,
                    x as int,
                    y + row,
                    fg_color,
                    bg_color,
                    col as int,
                ),
            decreases 8 - col,
        {
            let color: u32 = if bits & (0x80u8 >> col) != 0 {
                fg_color
            } else {
                bg_color
            };
            let ghost sofar = row_writes(g, bits, x as int, y + row, fg_color, bg_color, col as int);
            let px: Option<usize> = x.checked_add(col as usize);
            let py: Option<usize> = y.checked_add(row);
            match (px, py) {
                (Some(px), Some(py)) => {
                    if px < fb_width && py < fb_height {
                        proof {
                            lemma_pixel_in_region(g, px as int, py as int);
                            assert(0 <= py * fb_pitch) by (nonlinear_arith)
                                requires
                                    0 <= py,
                                    0 <= fb_pitch,
                            ;
                        }
                        let offset: usize = py * fb_pitch + px * BYTES_PER_PIXEL;
                        out.push(PixelWrite { offset, color });
                        assert(out@ =~= before + sofar.push(PixelWrite { offset, color }));
                    }
                },
                _ => {},
            }
            col = col + 1;
        }
        assert(out@ =~= base + (rows_writes(
            g,
            f,
            ch,
            x as int,
            y as int,
            fg_color,
            bg_color,
            row as int,
        ) + row_writes(g, bits, x as int, y + row, fg_color, bg_color, 8)));
        row = row + 1;
    }
}

/// Draws glyph `ch` with its top-left pixel at `(x, y)`: a lit pixel gets
/// `fg_color`, an unlit one `bg_color`, and a pixel off the screen gets
/// nothing.  A glyph that the font does not hold draws nothing.
pub fn draw_char(
    framebuffer: &FramebufferView,
    font: &PSF1Font,
    ch: u8,
    x: usize,
    y: usize,
    fg_color: u32,
    bg_color: u32,
) -> (writes: Vec<PixelWrite>)
    ensures
        writes@ == glyph_writes(framebuffer@, font@, ch, x as int, y as int, fg_color, bg_color),
        !glyph_in_range(font@, ch) ==> writes@.len() == 0,
        all_on_screen(framebuffer@, writes@),
        all_in_region(framebuffer@, writes@),
{
    let mut writes: Vec<PixelWrite> = Vec::new();
    push_glyph(&mut writes, framebuffer, font, ch, x, y, fg_color, bg_color);
    proof {
        let w = glyph_writes(framebuffer@, font@, ch, x as int, y as int, fg_color, bg_color);
        lemma_glyph_on_screen(framebuffer@, font@, ch, x as int, y as int, fg_color, bg_color);
        lemma_on_screen_in_region(framebuffer@, w);
    }
    assert(Seq::<PixelWrite>::empty() + glyph_writes(
        framebuffer@,
        font@,
        ch,
        x as int,
        y as int,
        fg_color,
        bg_color,
    ) =~= glyph_writes(framebuffer@, font@, ch, x as int, y as int, fg_color, bg_color));
    writes
}

/// The byte that starts a new line.
pub const NEWLINE: u8 = 0x0a;

/// The byte that opens a highlighted span, `[`.
pub const SPAN_OPEN: u8 = 0x5b;

/// The byte that closes a highlighted span, `]`.
pub const SPAN_CLOSE: u8 = 0x5d;

/// Where the next glyph of a text goes, and whether a highlighted span is
/// open.
pub struct Pen {
    pub x: int,
    pub y: int,
    pub highlighted: bool,
}

/// The pen after byte `b`.  A newline goes back to column `left` and down by
/// `h`; every other byte moves right by one glyph width, an opening bracket
/// opens the span and a closing bracket closes it.
pub open spec fn pen_step(pen: Pen, b: u8, left: int, h: int) -> Pen {
    if b == NEWLINE {
        Pen { x: left, y: pen.y + h, highlighted: pen.highlighted }
    } else if b == SPAN_OPEN {
        Pen { x: pen.x + GLYPH_WIDTH, y: pen.y, highlighted: true }
    } else if b == SPAN_CLOSE {
        Pen { x: pen.x + GLYPH_WIDTH, y: pen.y, highlighted: false }
    } else {
        Pen { x: pen.x + GLYPH_WIDTH, y: pen.y, highlighted: pen.highlighted }
    }
}

/// The pen after all of `text`, for a text that starts at `(x, y)`.
pub open spec fn pen_after(text: Seq<u8>, x: int, y: int, h: int) -> Pen
    decreases text.len(),
{
    if text.len() == 0 {
        Pen { x, y, highlighted: false }
    } else {
        pen_step(pen_after(text.drop_last(), x, y, h), text.last(), x, h)
    }
}

/// The foreground color of byte `b` under `pen`: the highlight color, if
/// there is one, for both brackets and for everything in an open span.
pub open spec fn pen_color(pen: Pen, b: u8, fg: u32, highlight: Option<u32>) -> u32 {
    if b == SPAN_OPEN || b == SPAN_CLOSE || pen.highlighted {
        match highlight {
            Some(color) => color,
            None => fg,
        }
    } else {
        fg
    }
}

/// The stores that draw `text` from `(x, y)` on: the glyph of every byte but
/// the newline, each at the pen's place and in the pen's color.
pub open spec fn text_writes(
    g: Geometry,
    font: FontModel,
    text: Seq<u8>,
    x: int,
    y: int,
    fg: u32,
    bg: u32,
    highlight: Option<u32>,
) -> Seq<PixelWrite>
    decreases text.len(),
{
    if text.len() == 0 {
        Seq::empty()
    } else {
        let b = text.last();
        let pen = pen_after(text.drop_last(), x, y, font.glyph_height as int);
        let before = text_writes(g, font, text.drop_last(), x, y, fg, bg, highlight);
        if b == NEWLINE {
            before
        } else {
            before + glyph_writes(g, font, b, pen.x, pen.y, pen_color(pen, b, fg, highlight), bg)
        }
    }
}

/// Drawing a text stores to visible pixels only.
pub proof fn lemma_text_on_screen(
    g: Geometry,
    font: FontModel,
    text: Seq<u8>,
    x: int,
    y: int,
    fg: u32,
    bg: u32,
    highlight: Option<u32>,
)
    requires
        g.valid(),
    ensures
        all_on_screen(g, text_writes(g, font, text, x, y, fg, bg, highlight)),
    decreases text.len(),
{
    if text.len() > 0 {
        let b = text.last();
        let pen = pen_after(text.drop_last(), x, y, font.glyph_height as int);
        lemma_text_on_screen(g, font, text.drop_last(), x, y, fg, bg, highlight);
        if b != NEWLINE {
            lemma_glyph_on_screen(g, font, b, pen.x, pen.y, pen_color(pen, b, fg, highlight), bg);
            lemma_on_screen_concat(
                g,
                text_writes(g, font, text.drop_last(), x, y, fg, bg, highlight),
                glyph_writes(g, font, b, pen.x, pen.y, pen_color(pen, b, fg, highlight), bg),
            );
        }
    }
}

/// Drawing a text that ends in a byte other than the newline is drawing
/// the text before that byte, and then the byte's glyph where the pen stands
/// by then.
pub proof fn lemma_text_ends_in_glyph(
    g: Geometry,
    font: FontModel,
    text: Seq<u8>,
    x: int,
    y: int,
    fg: u32,
    bg: u32,
    highlight: Option<u32>,
    mem: Map<int, u32>,
)
    requires
        text.len() > 0,
        text.last() != NEWLINE,
    ensures
        ({
            let pen = pen_after(text.drop_last(), x, y, font.glyph_height as int);
            paint(mem, text_writes(g, font, text, x, y, fg, bg, highlight)) == paint(
                paint(mem, text_writes(g, font, text.drop_last(), x, y, fg, bg, highlight)),
                glyph_writes(
                    g,
                    font,
                    text.last(),
                    pen.x,
                    pen.y,
                    pen_color(pen, text.last(), fg, highlight),
                    bg,
                ),
            )
        }),
{
    let pen = pen_after(text.drop_last(), x, y, font.glyph_height as int);
    lemma_paint_concat(
        mem,
        text_writes(g, font, text.drop_last(), x, y, fg, bg, highlight),
        glyph_writes(g, font, text.last(), pen.x, pen.y, pen_color(pen, text.last(), fg, highlight), bg),
    );
}

/// A newline at the end of a text draws nothing; it only moves the pen back
/// to the column where the text began and down by one glyph height.
pub proof fn lemma_text_ends_in_newline(
    g: Geometry,
    font: FontModel,
    text: Seq<u8>,
    x: int,
    y: int,
    fg: u32,
    bg: u32,
    highlight: Option<u32>,
)
    requires
        text.len() > 0,
        text.last() == NEWLINE,
    ensures
        text_writes(g, font, text, x, y, fg, bg, highlight) == text_writes(
            g,
            font,
            text.drop_last(),
            x,
            y,
            fg,
            bg,
            highlight,
        ),
        pen_after(text, x, y, font.glyph_height as int).x == x,
        pen_after(text, x, y, font.glyph_height as int).y == pen_after(
            text.drop_last(),
            x,
            y,
            font.glyph_height as int,
        ).y + font.glyph_height,
{
}

/// A coordinate as the machine holds it: exact up to the largest `usize`,
/// which stands for every larger one.
spec fn clamp(v: int) -> int {
    if v > usize::MAX {
        usize::MAX as int
    } else {
        v
    }
}

/// Draws `text` byte by byte from `(x, y)` on.  A newline goes back to
/// column `x` and down by the glyph height; every other byte is drawn and
/// moves right by 8 pixels.  `[` and `]`, and what stands between them, are
/// drawn in `highlight_color` if there is one, everything else in `fg`.
pub fn draw_text(
    framebuffer: &FramebufferView,
    font: &PSF1Font,
    text: &str,
    x: usize,
    y: usize,
    fg: u32,
    bg: u32,
    highlight_color: Option<u32>,
) -> (writes: Vec<PixelWrite>)
    ensures
        writes@ == text_writes(
            framebuffer@,
            font@,
            text.spec_bytes(),
            x as int,
            y as int,
            fg,
            bg,
            highlight_color,
        ),
        all_on_screen(framebuffer@, writes@),
        all_in_region(framebuffer@, writes@),
{
    let bytes = text.as_bytes();
    let char_height: usize = font.charsize;
    let fb_width: usize = framebuffer.width();
    let fb_height: usize = framebuffer.height();
    let ghost g = framebuffer@;
    let ghost f = font@;
    let ghost h = char_height as int;
    let mut writes: Vec<PixelWrite> = Vec::new();
    let mut cx: usize = x;
    let mut cy: usize = y;
    let mut in_brackets: bool = false;
    let mut i: usize = 0;
    assert(bytes@.subrange(0, 0) =~= Seq::<u8>::empty());
    while i < bytes.len()
        invariant
            i <= bytes@.len(),
            g == framebuffer@,
            f == font@,
            g.valid(),
            g.width == fb_width,
            g.height == fb_height,
            h == char_height,
            h == f.glyph_height,
            cx == clamp(pen_after(bytes@.subrange(0, i as int), x as int, y as int, h).x),
            cy == clamp(pen_after(bytes@.subrange(0, i as int), x as int, y as int, h).y),
            in_brackets == pen_after(bytes@.subrange(0, i as int), x as int, y as int, h).highlighted,
            x <= pen_after(bytes@.subrange(0, i as int), x as int, y as int, h).x,
            y <= pen_after(bytes@.subrange(0, i as int), x as int, y as int, h).y,
            writes@ == text_writes(
                g,
                f,
                bytes@.subrange(0, i as int),
                x as int,
                y as int,
                fg,
                bg,
                highlight_color,
            ),
        decreases bytes@.len() - i,
    {
        let b: u8 = bytes[i];
        let ghost done = bytes@.subrange(0, i as int);
        let ghost pen = pen_after(done, x as int, y as int, h);
        proof {
            let next = bytes@.subrange(0, i + 1);
            assert(next.drop_last() =~= done);
            assert(next.last() == b);
        }
        if b == NEWLINE {
            cx = x;
            cy = cy.saturating_add(char_height);
        } else {
            let color: u32 = if b == SPAN_OPEN || b == SPAN_CLOSE || in_brackets {
                match highlight_color {
                    Some(c) => c,
                    None => fg,
                }
            } else {
                fg
            };
            proof {
                if cx != pen.x || cy != pen.y {
                    lemma_glyph_off_screen(g, f, b, pen.x, pen.y, color, bg);
                    lemma_glyph_off_screen(g, f, b, cx as int, cy as int, color, bg);
                }
            }
            push_glyph(&mut writes, framebuffer, font, b, cx, cy, color, bg);
            cx = cx.saturating_add(GLYPH_WIDTH);
            if b == SPAN_OPEN {
                in_brackets = true;
            } else if b == SPAN_CLOSE {
                in_brackets = false;
            }
        }
        i = i + 1;
    }
    assert(bytes@.subrange(0, i as int) =~= bytes@);
    proof {
        let w = text_writes(g, f, bytes@, x as int, y as int, fg, bg, highlight_color);
        lemma_text_on_screen(g, f, bytes@, x as int, y as int, fg, bg, highlight_color);
        lemma_on_screen_in_region(g, w);
    }
    writes
}

} // verus!
