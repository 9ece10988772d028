//! The shape of a linear 32-bit framebuffer, the stores that painting it
//! takes, and a model of the memory those stores change.

use vstd::prelude::*;

verus! {

/// Bytes that one pixel occupies.
pub const BYTES_PER_PIXEL: usize = 4;

/// The layout of a framebuffer, as unbounded numbers.
pub struct Geometry {
    /// Bytes from the start of one scanline to the start of the next.
    pub pitch: nat,
    /// Visible pixels per scanline.
    pub width: nat,
    /// Number of scanlines.
    pub height: nat,
}

impl Geometry {
    /// A scanline holds all its pixels, and the whole region can be addressed.
    pub open spec fn valid(self) -> bool {
        &&& BYTES_PER_PIXEL * self.width <= self.pitch
        &&& self.pitch * self.height <= usize::MAX
    }

    /// Whether `(px, py)` is a visible pixel.
    pub open spec fn contains(self, px: int, py: int) -> bool {
        0 <= px < self.width && 0 <= py < self.height
    }

    /// Distance in bytes from the framebuffer's base to pixel `(px, py)`.
    pub open spec fn offset(self, px: int, py: int) -> int {
        py * self.pitch + px * BYTES_PER_PIXEL
    }

    /// Whether a visible pixel starts `offset` bytes from the base.
    pub open spec fn is_pixel_offset(self, offset: int) -> bool {
        exists|px: int, py: int| self.contains(px, py) && #[trigger] self.offset(px, py) == offset
    }
}

/// One 32-bit store: `color` goes `offset` bytes from the framebuffer's base.
#[derive(Clone, Copy, Debug, PartialEq, Eq)]
pub struct PixelWrite {
    pub offset: usize,
    pub color: u32,
}

/// The layout of a framebuffer whose scanlines hold all their pixels and
/// whose bytes can all be addressed.
///
/// The base address stays with the caller, who performs the stores.
#[derive(Clone, Copy, Debug)]
pub struct FramebufferView {
    pitch: usize,
    width: usize,
    height: usize,
}

impl View for FramebufferView {
    type V = Geometry;

    closed spec fn view(&self) -> Geometry {
        Geometry { pitch: self.pitch as nat, width: self.width as nat, height: self.height as nat }
    }
}

impl FramebufferView {
    #[verifier::type_invariant]
    spec fn inv(self) -> bool {
        self@.valid()
    }

    /// The framebuffer of the given layout, if that layout is valid.
    pub fn new(pitch: usize, width: usize, height: usize) -> (fb: Option<Self>)
        ensures
            fb is Some <==> (Geometry {
                pitch: pitch as nat,
                width: width as nat,
                height: height as nat,
            }).valid(),
            fb matches Some(f) ==> f@ == (Geometry {
                pitch: pitch as nat,
                width: width as nat,
                height: height as nat,
            }),
    {
        if width > pitch / BYTES_PER_PIXEL {
            return None;
        }
        match pitch.checked_mul(height) {
            Some(_) => Some(FramebufferView { pitch, width, height }),
            None => None,
        }
    }

    /// The framebuffer of the given layout, if that layout is valid and its
    /// numbers fit the machine's word.
    pub fn from_u64(pitch: u64, width: u64, height: u64) -> (fb: Option<Self>)
        ensures
            fb is Some <==> pitch <= usize::MAX && width <= usize::MAX && height <= usize::MAX
                && (Geometry {
                pitch: pitch as nat,
                width: width as nat,
                height: height as nat,
            }).valid(),
            fb matches Some(f) ==> f@ == (Geometry {
                pitch: pitch as nat,
                width: width as nat,
                height: height as nat,
            }),
    {
        if pitch > usize::MAX as u64 || width > usize::MAX as u64 || height > usize::MAX as u64 {
            return None;
        }
        Self::new(pitch as usize, width as usize, height as usize)
    }

    /// Bytes from the start of one scanline to the start of the next.
    pub fn pitch(&self) -> (n: usize)
        ensures
            n == self@.pitch,
            self@.valid(),
    {
        proof {
            use_type_invariant(self);
        }
        self.pitch
    }

    /// Visible pixels per scanline.
    pub fn width(&self) -> (n: usize)
        ensures
            n == self@.width,
            self@.valid(),
    {
        proof {
            use_type_invariant(self);
        }
        self.width
    }

    /// Number of scanlines.
    pub fn height(&self) -> (n: usize)
        ensures
            n == self@.height,
            self@.valid(),
    {
        proof {
            use_type_invariant(self);
        }
        self.height
    }

    /// Size in bytes of the region that the scanlines occupy.
    pub fn byte_len(&self) -> (n: usize)
        ensures
            n == self@.pitch * self@.height,
    {
        proof {
            use_type_invariant(self);
        }
        self.pitch * self.height
    }
}

/// Whether every store lands on a visible pixel of `g`.
pub open spec fn all_on_screen(g: Geometry, writes: Seq<PixelWrite>) -> bool {
    forall|i: int|
        0 <= i < writes.len() ==> g.is_pixel_offset((#[trigger] writes[i]).offset as int)
}

/// Whether every store stays inside the bytes that the scanlines of `g`
/// occupy.
pub open spec fn all_in_region(g: Geometry, writes: Seq<PixelWrite>) -> bool {
    forall|i: int|
        0 <= i < writes.len() ==> (#[trigger] writes[i]).offset + BYTES_PER_PIXEL <= g.pitch
            * g.height
}

/// Framebuffer memory after `writes` were performed in order on `mem`, which
/// maps the byte offset of a pixel to the color stored there.
pub open spec fn paint(mem: Map<int, u32>, writes: Seq<PixelWrite>) -> Map<int, u32>
    decreases writes.len(),
{
    if writes.len() == 0 {
        mem
    } else {
        paint(mem, writes.drop_last()).insert(writes.last().offset as int, writes.last().color)
    }
}

/// The color of the last store in `writes` that goes to `offset`, if any.
pub open spec fn last_color(writes: Seq<PixelWrite>, offset: int) -> Option<u32>
    decreases writes.len(),
{
    if writes.len() == 0 {
        None
    } else if writes.last().offset == offset {
        Some(writes.last().color)
    } else {
        last_color(writes.drop_last(), offset)
    }
}

/// A visible pixel lies inside the framebuffer's bytes.
pub proof fn lemma_pixel_in_region(g: Geometry, px: int, py: int)
    requires
        g.valid(),
        g.contains(px, py),
    ensures
        0 <= g.offset(px, py),
        g.offset(px, py) + BYTES_PER_PIXEL <= g.pitch * g.height,
        g.offset(px, py) + BYTES_PER_PIXEL <= usize::MAX,
{
    assert(py * g.pitch + g.pitch <= g.height * g.pitch) by (nonlinear_arith)
        requires
            0 <= py < g.height,
    ;
    assert(0 <= py * g.pitch) by (nonlinear_arith)
        requires
            0 <= py,
    ;
    assert(g.height * g.pitch == g.pitch * g.height) by (nonlinear_arith);
}

/// Two visible pixels never share their bytes.
pub proof fn lemma_pixels_disjoint(g: Geometry, px: int, py: int, qx: int, qy: int)
    requires
        g.valid(),
        g.contains(px, py),
        g.contains(qx, qy),
        (px, py) != (qx, qy),
    ensures
        g.offset(px, py) + BYTES_PER_PIXEL <= g.offset(qx, qy) || g.offset(qx, qy)
            + BYTES_PER_PIXEL <= g.offset(px, py),
{
    if py < qy {
        assert(py * g.pitch + g.pitch <= qy * g.pitch) by (nonlinear_arith)
            requires
                py < qy,
        ;
    } else if qy < py {
        assert(qy * g.pitch + g.pitch <= py * g.pitch) by (nonlinear_arith)
            requires
                qy < py,
        ;
    }
}

/// Stores that land on visible pixels stay inside the framebuffer's bytes.
pub proof fn lemma_on_screen_in_region(g: Geometry, writes: Seq<PixelWrite>)
    requires
        g.valid(),
        all_on_screen(g, writes),
    ensures
        all_in_region(g, writes),
{
    assert forall|i: int| 0 <= i < writes.len() implies (#[trigger] writes[i]).offset
        + BYTES_PER_PIXEL <= g.pitch * g.height by {
        let o = writes[i].offset as int;
        assert(g.is_pixel_offset(o));
        let (px, py) = choose|px: int, py: int|
            g.contains(px, py) && #[trigger] g.offset(px, py) == o;
        lemma_pixel_in_region(g, px, py);
    }
}

/// After painting, an offset holds the color of the last store that went to
/// it, and what it held before if none did.
pub proof fn lemma_paint_at(mem: Map<int, u32>, writes: Seq<PixelWrite>, offset: int)
    ensures
        paint(mem, writes).dom().contains(offset) <==> mem.dom().contains(offset) || last_color(
            writes,
            offset,
        ) is Some,
        paint(mem, writes)[offset] == match last_color(writes, offset) {
            Some(color) => color,
            None => mem[offset],
        },
    decreases writes.len(),
{
    if writes.len() > 0 {
        lemma_paint_at(mem, writes.drop_last(), offset);
    }
}

/// Painting two lists one after the other is painting their concatenation.
pub proof fn lemma_paint_concat(mem: Map<int, u32>, first: Seq<PixelWrite>, second: Seq<PixelWrite>)
    ensures
        paint(mem, first + second) == paint(paint(mem, first), second),
    decreases second.len(),
{
    if second.len() == 0 {
        assert(first + second =~= first);
    } else {
        assert((first + second).drop_last() =~= first + second.drop_last());
        lemma_paint_concat(mem, first, second.drop_last());
    }
}

/// Performing the same stores a second time changes nothing.
pub proof fn lemma_paint_idempotent(mem: Map<int, u32>, writes: Seq<PixelWrite>)
    ensures
        paint(paint(mem, writes), writes) == paint(mem, writes),
{
    let once = paint(mem, writes);
    let twice = paint(once, writes);
    assert forall|offset: int| #[trigger]
        twice.dom().contains(offset) == once.dom().contains(offset) by {
        lemma_paint_at(mem, writes, offset);
        lemma_paint_at(once, writes, offset);
    }
    assert forall|offset: int| #[trigger] twice[offset] == once[offset] by {
        lemma_paint_at(mem, writes, offset);
        lemma_paint_at(once, writes, offset);
    }
    assert(twice =~= once);
}

/// Stores that all land on visible pixels leave every other offset as it
/// was.
pub proof fn lemma_paint_clipped(
    g: Geometry,
    mem: Map<int, u32>,
    writes: Seq<PixelWrite>,
    offset: int,
)
    requires
        all_on_screen(g, writes),
        !g.is_pixel_offset(offset),
    ensures
        paint(mem, writes).dom().contains(offset) == mem.dom().contains(offset),
        paint(mem, writes)[offset] == mem[offset],
    decreases writes.len(),
{
    if writes.len() > 0 {
        let init = writes.drop_last();
        assert forall|i: int| 0 <= i < init.len() implies g.is_pixel_offset(
            (#[trigger] init[i]).offset as int,
        ) by {
            assert(init[i] == writes[i]);
        }
        lemma_paint_clipped(g, mem, init, offset);
        assert(g.is_pixel_offset(writes[writes.len() - 1].offset as int));
    }
}

/// The last store to an offset in a concatenation is the last one in the
/// second list, or else the last one in the first.
pub proof fn lemma_last_color_concat(first: Seq<PixelWrite>, second: Seq<PixelWrite>, offset: int)
    ensures
        last_color(first + second, offset) == match last_color(second, offset) {
            Some(color) => Some(color),
            None => last_color(first, offset),
        },
    decreases second.len(),
{
    if second.len() == 0 {
        assert(first + second =~= first);
    } else {
        assert((first + second).drop_last() =~= first + second.drop_last());
        lemma_last_color_concat(first, second.drop_last(), offset);
    }
}

/// A concatenation lands on visible pixels if both lists do.
pub proof fn lemma_on_screen_concat(g: Geometry, first: Seq<PixelWrite>, second: Seq<PixelWrite>)
    requires
        all_on_screen(g, first),
        all_on_screen(g, second),
    ensures
        all_on_screen(g, first + second),
{
    assert forall|i: int| 0 <= i < (first + second).len() implies g.is_pixel_offset(
        (#[trigger] (first + second)[i]).offset as int,
    ) by {
        if i < first.len() {
            assert((first + second)[i] == first[i]);
        } else {
            assert((first + second)[i] == second[i - first.len()]);
        }
    }
}

} // verus!
