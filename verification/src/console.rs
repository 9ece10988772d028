//! The cursor of a console on which every printed message takes a line of
//! its own.

use crate::framebuffer::{all_in_region, all_on_screen, FramebufferView, PixelWrite};
use crate::psf_font::{draw_text, text_writes, PSF1Font};
use vstd::prelude::*;
use vstd::string::StringSliceAdditionalSpecFns;

verus! {

/// Where the next message starts, in pixels.
#[derive(Clone, Copy, Debug, PartialEq, Eq)]
pub struct CursorState {
    pub x: usize,
    pub y: usize,
}

impl CursorState {
    /// The cursor at the top-left corner.
    pub fn new() -> (cursor: Self)
        ensures
            cursor.x == 0,
            cursor.y == 0,
    {
        CursorState { x: 0, y: 0 }
    }

    /// Draws `text` from the cursor on, then moves the cursor to column 0 of
    /// the next line: one glyph height further down, however many newlines
    /// the text held.
    pub fn print(
        &mut self,
        framebuffer: &FramebufferView,
        font: &PSF1Font,
        text: &str,
        fg: u32,
        bg: u32,
        highlight_color: Option<u32>,
    ) -> (writes: Vec<PixelWrite>)
        requires
            old(self).y + font@.glyph_height <= usize::MAX,
        ensures
            writes@ == text_writes(
                framebuffer@,
                font@,
                text.spec_bytes(),
                old(self).x as int,
                old(self).y as int,
                fg,
                bg,
                highlight_color,
            ),
            all_on_screen(framebuffer@, writes@),
            all_in_region(framebuffer@, writes@),
            final(self).x == 0,
            final(self).y == old(self).y + font@.glyph_height,
    {
        let writes = draw_text(framebuffer, font, text, self.x, self.y, fg, bg, highlight_color);
        self.x = 0;
        self.y = self.y + font.glyph_height();
        writes
    }
}

} // verus!
