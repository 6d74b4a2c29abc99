pub mod color;
pub mod error;
pub mod geometry;
pub mod laws;

pub use crate::color::{baseline, encode, Color};
pub use crate::error::UefiDisplayError;
pub use crate::geometry::{Pixel, Point, Rectangle, Size};

use vstd::prelude::*;

verus! {

/// The abstract state of a surface: the shadow buffer's bytes and the geometry it is read with.
pub struct DisplayView {
    pub buffer: Seq<u8>,
    pub stride: u32,
    pub width: u32,
    pub height: u32,
}

/// Whether a `width` by `height` surface's byte count, `width * height * 4`, fits in a `usize`.
pub open spec fn fits_resolution(width: int, height: int) -> bool {
    width * height * 4 <= usize::MAX
}

/// The number of the 4-byte slot that pixel `(x, y)` is stored in, for a given stride.
pub open spec fn slot_of(stride: int, x: int, y: int) -> int {
    y * stride + x
}

/// Whether clearing a `width` by `height` surface read with `stride` keeps every slot inside
/// its shadow buffer: true unless the stride is wider than the surface and there are two rows
/// or more.
pub open spec fn layout_fits(stride: int, width: int, height: int) -> bool {
    width == 0 || height <= 1 || stride <= width
}

/// A buffer of `n` zero bytes: every pixel in the baseline color.
pub open spec fn blank(n: int) -> Seq<u8> {
    Seq::new(n as nat, |_i: int| 0u8)
}

/// `buf` with slot `k` overwritten by the encoding of `c`.
pub open spec fn put_slot(buf: Seq<u8>, k: int, c: Color) -> Seq<u8> {
    let e = encode(c);
    buf.update(4 * k, e[0]).update(4 * k + 1, e[1]).update(4 * k + 2, e[2]).update(4 * k + 3, e[3])
}

/// What a frame buffer holds after `buf` is copied over its first bytes.
pub open spec fn flushed(buf: Seq<u8>, frame: Seq<u8>) -> Seq<u8> {
    buf + frame.subrange(buf.len() as int, frame.len() as int)
}

impl DisplayView {
    /// Whether `(x, y)` lies on the surface; pixels elsewhere are silently skipped.
    pub open spec fn on_screen(self, x: int, y: int) -> bool {
        0 <= x < self.width && 0 <= y < self.height
    }

    /// Whether the slot of pixel `(x, y)` lies wholly inside the shadow buffer.
    pub open spec fn slot_fits(self, x: int, y: int) -> bool {
        (slot_of(self.stride as int, x, y) + 1) * 4 <= self.buffer.len()
    }

    /// Whether slot `k` is the slot of some on-screen pixel of `rect`.
    pub open spec fn covers(self, rect: Rectangle, k: int) -> bool {
        exists|x: int, y: int|
            rect.contains(x, y) && self.on_screen(x, y) && #[trigger] slot_of(self.stride as int, x, y) == k
    }

    /// Whether every on-screen pixel of `rect` has its slot inside the shadow buffer.
    pub open spec fn rect_fits(self, rect: Rectangle) -> bool {
        forall|x: int, y: int| rect.contains(x, y) && self.on_screen(x, y) ==> #[trigger] self.slot_fits(x, y)
    }

    /// The shadow buffer once every on-screen pixel of `rect` is set to `c`.
    pub open spec fn filled(self, rect: Rectangle, c: Color) -> Seq<u8> {
        Seq::new(
            self.buffer.len(),
            |i: int| if self.covers(rect, i / 4) { encode(c)[i % 4] } else { self.buffer[i] },
        )
    }

    /// The shadow buffer after the pixels are written in order, each on-screen one into its
    /// slot, later ones over earlier ones.
    pub open spec fn drawn(self, pixels: Seq<Pixel>) -> Seq<u8>
        decreases pixels.len(),
    {
        if pixels.len() == 0 {
            self.buffer
        } else {
            let prev = self.drawn(pixels.drop_last());
            let p = pixels.last();
            if self.on_screen(p.point.x as int, p.point.y as int) {
                put_slot(prev, slot_of(self.stride as int, p.point.x as int, p.point.y as int), p.color)
            } else {
                prev
            }
        }
    }

    /// Whether every on-screen pixel of the sequence has its slot inside the shadow buffer.
    pub open spec fn pixels_fit(self, pixels: Seq<Pixel>) -> bool {
        forall|i: int|
            0 <= i < pixels.len() && self.on_screen(#[trigger] pixels[i].point.x as int, pixels[i].point.y as int)
                ==> self.slot_fits(pixels[i].point.x as int, pixels[i].point.y as int)
    }

    /// The rectangle of the whole surface.
    pub open spec fn full_rect(self) -> Rectangle {
        Rectangle { top_left: Point { x: 0, y: 0 }, size: Size { width: self.width, height: self.height } }
    }
}

/// A drawing surface with an off-screen (shadow) buffer of `width * height` 32-bit pixels.
///
/// Pixel `(x, y)` is stored at byte `(y * stride + x) * 4`, the offset it has in the
/// real frame buffer, so that `flush` is a plain copy. The frame buffer is not owned: it is
/// handed to `flush` (and to `new`) by whoever owns it.
#[derive(Debug)]
pub struct UefiDisplay {
    buffer: Vec<u8>,
    stride: u32,
    size: (u32, u32),
}

impl View for UefiDisplay {
    type V = DisplayView;

    closed spec fn view(&self) -> DisplayView {
        DisplayView { buffer: self.buffer@, stride: self.stride, width: self.size.0, height: self.size.1 }
    }
}

/// Whether slot `k` is the slot of some pixel in columns `x0..x1` of rows `y0..y1`.
spec fn in_band(s: int, x0: int, x1: int, y0: int, y1: int, k: int) -> bool {
    exists|x: int, y: int| x0 <= x < x1 && y0 <= y < y1 && #[trigger] slot_of(s, x, y) == k
}

proof fn lemma_band_column(s: int, x0: int, x: int, y: int, k: int)
    requires
        x0 <= x,
    ensures
        in_band(s, x0, x + 1, y, y + 1, k) == (in_band(s, x0, x, y, y + 1, k) || k == slot_of(s, x, y)),
{
    if in_band(s, x0, x + 1, y, y + 1, k) {
        let (a, b) = choose|a: int, b: int| x0 <= a < x + 1 && y <= b < y + 1 && #[trigger] slot_of(s, a, b) == k;
        if a < x {
            assert(x0 <= a < x && y <= b < y + 1 && slot_of(s, a, b) == k);
        }
    }
    if in_band(s, x0, x, y, y + 1, k) {
        let (a, b) = choose|a: int, b: int| x0 <= a < x && y <= b < y + 1 && #[trigger] slot_of(s, a, b) == k;
        assert(x0 <= a < x + 1 && y <= b < y + 1 && slot_of(s, a, b) == k);
    }
    if k == slot_of(s, x, y) {
        assert(x0 <= x < x + 1 && y <= y < y + 1 && slot_of(s, x, y) == k);
    }
}

proof fn lemma_band_row(s: int, x0: int, x1: int, y0: int, y: int, k: int)
    requires
        y0 <= y,
    ensures
        in_band(s, x0, x1, y0, y + 1, k) == (in_band(s, x0, x1, y0, y, k) || in_band(s, x0, x1, y, y + 1, k)),
{
    if in_band(s, x0, x1, y0, y + 1, k) {
        let (a, b) = choose|a: int, b: int| x0 <= a < x1 && y0 <= b < y + 1 && #[trigger] slot_of(s, a, b) == k;
        if b < y {
            assert(x0 <= a < x1 && y0 <= b < y && slot_of(s, a, b) == k);
        } else {
            assert(x0 <= a < x1 && y <= b < y + 1 && slot_of(s, a, b) == k);
        }
    }
    if in_band(s, x0, x1, y0, y, k) {
        let (a, b) = choose|a: int, b: int| x0 <= a < x1 && y0 <= b < y && #[trigger] slot_of(s, a, b) == k;
        assert(x0 <= a < x1 && y0 <= b < y + 1 && slot_of(s, a, b) == k);
    }
    if in_band(s, x0, x1, y, y + 1, k) {
        let (a, b) = choose|a: int, b: int| x0 <= a < x1 && y <= b < y + 1 && #[trigger] slot_of(s, a, b) == k;
        assert(x0 <= a < x1 && y0 <= b < y + 1 && slot_of(s, a, b) == k);
    }
}

/// A pixel further right and down has a slot no smaller than another's.
proof fn lemma_slot_monotone(s: int, x: int, y: int, xm: int, ym: int)
    requires
        0 <= s,
        0 <= x <= xm,
        0 <= y <= ym,
    ensures
        slot_of(s, x, y) <= slot_of(s, xm, ym),
{
    assert(y * s <= ym * s) by (nonlinear_arith)
        requires
            0 <= s,
            0 <= y <= ym,
    ;
}

/// Byte `i` belongs to slot `k` exactly when it lies in `4k..4k + 4`.
proof fn lemma_byte_of_slot(i: int, k: int)
    requires
        0 <= i,
    ensures
        (i / 4 == k) <==> (4 * k <= i < 4 * k + 4),
        i / 4 == k ==> i % 4 == i - 4 * k,
{
}

/// Clearing the whole surface succeeds exactly when `layout_fits` holds.
proof fn lemma_full_rect_fits(v: DisplayView)
    requires
        v.buffer.len() == v.width * v.height * 4,
    ensures
        v.rect_fits(v.full_rect()) <==> layout_fits(v.stride as int, v.width as int, v.height as int),
{
    let s = v.stride as int;
    let w = v.width as int;
    let h = v.height as int;
    if layout_fits(s, w, h) {
        assert forall|x: int, y: int| v.full_rect().contains(x, y) && v.on_screen(x, y) implies #[trigger] v.slot_fits(x, y) by {
            if h == 1 {
                assert(y * s == 0) by (nonlinear_arith)
                    requires
                        y == 0,
                ;
                assert(w * h == w) by (nonlinear_arith)
                    requires
                        h == 1,
                ;
            } else {
                assert(y * s <= (h - 1) * w) by (nonlinear_arith)
                    requires
                        0 <= y <= h - 1,
                        0 <= s <= w,
                ;
                assert((h - 1) * w + w == w * h) by (nonlinear_arith);
                assert(slot_of(s, x, y) + 1 <= w * h);
            }
            assert(w * h * 4 == v.buffer.len());
        }
    } else {
        assert((h - 1) * s >= (h - 1) * (w + 1)) by (nonlinear_arith)
            requires
                h >= 2,
                s >= w + 1,
        ;
        assert((h - 1) * (w + 1) + w == w * h + h - 1) by (nonlinear_arith);
        assert(v.full_rect().contains(w - 1, h - 1) && v.on_screen(w - 1, h - 1));
        assert(slot_of(s, w - 1, h - 1) + 1 > w * h);
        assert(w * h * 4 == v.buffer.len());
        assert(!v.slot_fits(w - 1, h - 1));
    }
}

/// Setting every pixel of a blank buffer to the baseline color leaves it blank.
proof fn lemma_fill_blank_black(v: DisplayView, rect: Rectangle)
    requires
        v.buffer == blank(v.buffer.len() as int),
    ensures
        v.filled(rect, baseline()) == v.buffer,
{
    assert(encode(baseline()) =~= seq![0u8, 0u8, 0u8, 0u8]);
    assert(v.filled(rect, baseline()) =~= v.buffer);
}

impl UefiDisplay {
    /// The shadow buffer holds exactly `width * height * 4` bytes.
    pub open spec fn wf(&self) -> bool {
        self@.buffer.len() == self@.width * self@.height * 4
    }

    /// A surface whose shadow buffer is zero-filled, without the initial clear and flush
    /// of `new`: the caller must repaint before the first flush if that matters.
    pub fn new_unchecked(stride: u32, width: u32, height: u32) -> (d: UefiDisplay)
        requires
            fits_resolution(width as int, height as int),
        ensures
            d.wf(),
            d@ == (DisplayView { buffer: blank(width * height * 4), stride, width, height }),
    {
        let len: usize = width as usize * height as usize * 4;
        let buffer: Vec<u8> = vec![0u8; len];
        let d = UefiDisplay { buffer, stride, size: (width, height) };
        assert(d@.buffer =~= blank(width * height * 4));
        d
    }

    /// A surface of `width` by `height` pixels whose rows lie `stride` pixels apart in the
    /// frame buffer. The shadow buffer is cleared to black and flushed to `frame` at once.
    ///
    /// Fails with `InvalidResolution` where `width * height * 4` overflows a `usize`, and with
    /// `OutOfBounds` where clearing would write past the shadow buffer (see `layout_fits`);
    /// `frame` is then left as it was.
    pub fn new(frame: &mut [u8], stride: u32, width: u32, height: u32) -> (r: Result<UefiDisplay, UefiDisplayError>)
        requires
            fits_resolution(width as int, height as int) ==> old(frame)@.len() >= width * height * 4,
        ensures
            !fits_resolution(width as int, height as int) ==> r == Err::<UefiDisplay, UefiDisplayError>(
                UefiDisplayError::InvalidResolution,
            ),
            fits_resolution(width as int, height as int) && !layout_fits(stride as int, width as int, height as int)
                ==> r == Err::<UefiDisplay, UefiDisplayError>(UefiDisplayError::OutOfBounds),
            fits_resolution(width as int, height as int) && layout_fits(stride as int, width as int, height as int)
                ==> r is Ok,
            r matches Ok(d) ==> {
                &&& d.wf()
                &&& d@ == (DisplayView { buffer: blank(width * height * 4), stride, width, height })
                &&& final(frame)@ == flushed(blank(width * height * 4), old(frame)@)
            },
            r is Err ==> final(frame)@ == old(frame)@,
    {
        let area = match (width as usize).checked_mul(height as usize) {
            Some(a) => a,
            None => return Err(UefiDisplayError::InvalidResolution),
        };
        if area.checked_mul(4).is_none() {
            return Err(UefiDisplayError::InvalidResolution);
        }
        let mut display = UefiDisplay::new_unchecked(stride, width, height);
        proof {
            lemma_full_rect_fits(display@);
            lemma_fill_blank_black(display@, display@.full_rect());
        }
        match display.fill_entire(Color::black()) {
            Ok(()) => {},
            Err(e) => return Err(e),
        }
        display.flush(frame);
        Ok(display)
    }

    /// Sets every pixel of the surface to `color`: `fill_rect` over the whole surface.
    pub fn fill_entire(&mut self, color: Color) -> (r: Result<(), UefiDisplayError>)
        requires
            old(self).wf(),
        ensures
            final(self).wf(),
            r is Ok <==> old(self)@.rect_fits(old(self)@.full_rect()),
            r is Err ==> r == Err::<(), UefiDisplayError>(UefiDisplayError::OutOfBounds) && final(self)@ == old(self)@,
            r is Ok ==> final(self)@ == (DisplayView {
                buffer: old(self)@.filled(old(self)@.full_rect(), color),
                ..old(self)@
            }),
    {
        let rect = Rectangle {
            top_left: Point { x: 0, y: 0 },
            size: Size { width: self.size.0, height: self.size.1 },
        };
        self.fill_rect(&rect, color)
    }

    /// Gives the surface a new resolution, with a zero-filled shadow buffer cleared to black;
    /// the stride is kept.
    ///
    /// Fails with `InvalidResolution`, changing nothing, where `new_width * new_height * 4`
    /// overflows a `usize`. Otherwise the surface is resized and the clear's result returned:
    /// `OutOfBounds` where `layout_fits` fails for the new size.
    pub fn resize(&mut self, new_width: u32, new_height: u32) -> (r: Result<(), UefiDisplayError>)
        requires
            old(self).wf(),
        ensures
            final(self).wf(),
            !fits_resolution(new_width as int, new_height as int) ==> r == Err::<(), UefiDisplayError>(
                UefiDisplayError::InvalidResolution,
            ) && final(self)@ == old(self)@,
            fits_resolution(new_width as int, new_height as int) ==> final(self)@ == (DisplayView {
                buffer: blank(new_width * new_height * 4),
                stride: old(self)@.stride,
                width: new_width,
                height: new_height,
            }),
            fits_resolution(new_width as int, new_height as int) && layout_fits(old(self)@.stride as int, new_width as int, new_height as int)
                ==> r is Ok,
            fits_resolution(new_width as int, new_height as int) && !layout_fits(old(self)@.stride as int, new_width as int, new_height as int)
                ==> r == Err::<(), UefiDisplayError>(UefiDisplayError::OutOfBounds),
    {
        let area = match (new_width as usize).checked_mul(new_height as usize) {
            Some(a) => a,
            None => return Err(UefiDisplayError::InvalidResolution),
        };
        if area.checked_mul(4).is_none() {
            return Err(UefiDisplayError::InvalidResolution);
        }
        self.resize_unchecked(new_width, new_height);
        proof {
            lemma_full_rect_fits(self@);
            lemma_fill_blank_black(self@, self@.full_rect());
        }
        self.fill_entire(Color::black())
    }

    /// Gives the surface a new resolution with a zero-filled shadow buffer, without the clear
    /// of `resize`; meant for callers that repaint the whole surface next.
    pub fn resize_unchecked(&mut self, new_width: u32, new_height: u32)
        requires
            old(self).wf(),
            fits_resolution(new_width as int, new_height as int),
        ensures
            final(self).wf(),
            final(self)@ == (DisplayView {
                buffer: blank(new_width * new_height * 4),
                stride: old(self)@.stride,
                width: new_width,
                height: new_height,
            }),
    {
        let len: usize = new_width as usize * new_height as usize * 4;
        self.buffer = vec![0u8; len];
        self.size = (new_width, new_height);
        assert(self@.buffer =~= blank(new_width * new_height * 4));
    }

    /// Writes the pixels in order; those off the surface (a negative coordinate, or one past
    /// the width or height) are skipped.
    ///
    /// The call is all or nothing: where some on-screen pixel has its slot past the end of the
    /// shadow buffer, it fails with `OutOfBounds` before writing any pixel.
    pub fn draw_pixels(&mut self, pixels: &[Pixel]) -> (r: Result<(), UefiDisplayError>)
        requires
            old(self).wf(),
        ensures
            final(self).wf(),
            r is Ok <==> old(self)@.pixels_fit(pixels@),
            r is Err ==> r == Err::<(), UefiDisplayError>(UefiDisplayError::OutOfBounds) && final(self)@ == old(self)@,
            r is Ok ==> final(self)@ == (DisplayView { buffer: old(self)@.drawn(pixels@), ..old(self)@ }),
    {
        let ghost v = self@;
        let n = pixels.len();
        let mut i: usize = 0;
        while i < n
            invariant
                self@ == v,
                self.wf(),
                n == pixels@.len(),
                i <= n,
                forall|j: int|
                    0 <= j < i && v.on_screen(#[trigger] pixels@[j].point.x as int, pixels@[j].point.y as int)
                        ==> v.slot_fits(pixels@[j].point.x as int, pixels@[j].point.y as int),
            decreases n - i,
        {
            let p = pixels[i];
            if self.visible(p.point) && self.byte_index(p.point.x as usize, p.point.y as usize).is_none() {
                assert(!v.pixels_fit(pixels@));
                return Err(UefiDisplayError::OutOfBounds);
            }
            i = i + 1;
        }
        let mut i: usize = 0;
        while i < n
            invariant
                self.wf(),
                self@.stride == v.stride && self@.width == v.width && self@.height == v.height,
                n == pixels@.len(),
                i <= n,
                v.pixels_fit(pixels@),
                self@.buffer.len() == v.buffer.len(),
                self@.buffer == v.drawn(pixels@.take(i as int)),
            decreases n - i,
        {
            let p = pixels[i];
            assert(pixels@.take(i + 1).drop_last() =~= pixels@.take(i as int));
            assert(pixels@.take(i + 1).last() == pixels@[i as int]);
            if self.visible(p.point) {
                assert(v.on_screen(pixels@[i as int].point.x as int, pixels@[i as int].point.y as int));
                match self.byte_index(p.point.x as usize, p.point.y as usize) {
                    Some(idx) => {
                        self.store(idx, p.color);
                    },
                    None => {
                        assert(false);
                    },
                }
            }
            i = i + 1;
        }
        assert(pixels@.take(n as int) =~= pixels@);
        Ok(())
    }

    /// Whether `p` lies on the surface.
    fn visible(&self, p: Point) -> (r: bool)
        ensures
            r == self@.on_screen(p.x as int, p.y as int),
    {
        p.x >= 0 && p.y >= 0 && (p.x as u32) < self.size.0 && (p.y as u32) < self.size.1
    }

    /// The surface's resolution in pixels.
    pub fn size(&self) -> (s: Size)
        ensures
            s == (Size { width: self@.width, height: self@.height }),
    {
        Size { width: self.size.0, height: self.size.1 }
    }

    /// Copies the whole shadow buffer over the first bytes of `frame`, the frame buffer.
    pub fn flush(&self, frame: &mut [u8])
        requires
            self.wf(),
            old(frame)@.len() >= self@.buffer.len(),
        ensures
            final(frame)@ == flushed(self@.buffer, old(frame)@),
    {
        let n = self.buffer.len();
        let mut i: usize = 0;
        while i < n
            invariant
                i <= n,
                n == self.buffer@.len(),
                frame@.len() == old(frame)@.len(),
                n <= frame@.len(),
                forall|j: int| 0 <= j < i ==> frame@[j] == self.buffer@[j],
                forall|j: int| i <= j < frame@.len() ==> frame@[j] == old(frame)@[j],
            decreases n - i,
        {
            frame[i] = self.buffer[i];
            i = i + 1;
        }
        assert(frame@ =~= flushed(self@.buffer, old(frame)@));
    }

    /// The byte index of pixel `(x, y)`, computed without overflow; `None` where its slot
    /// does not fit in the shadow buffer.
    fn byte_index(&self, x: usize, y: usize) -> (r: Option<usize>)
        requires
            self.wf(),
        ensures
            r is Some <==> self@.slot_fits(x as int, y as int),
            r matches Some(i) ==> i == slot_of(self@.stride as int, x as int, y as int) * 4,
    {
        let len = self.buffer.len();
        let row = match y.checked_mul(self.stride as usize) {
            Some(v) => v,
            None => return None,
        };
        let pix = match row.checked_add(x) {
            Some(v) => v,
            None => return None,
        };
        let idx = match pix.checked_mul(4) {
            Some(v) => v,
            None => return None,
        };
        let end = match idx.checked_add(4) {
            Some(v) => v,
            None => return None,
        };
        if end <= len {
            Some(idx)
        } else {
            None
        }
    }

    /// Sets every on-screen pixel of `rect` to `color`; pixels off the surface are skipped.
    ///
    /// The call is all or nothing: where some on-screen pixel of `rect` has its slot past the
    /// end of the shadow buffer (a stride wider than the surface), it fails with `OutOfBounds`
    /// and changes nothing.
    pub fn fill_rect(&mut self, rect: &Rectangle, color: Color) -> (r: Result<(), UefiDisplayError>)
        requires
            old(self).wf(),
        ensures
            final(self).wf(),
            r is Ok <==> old(self)@.rect_fits(*rect),
            r is Err ==> r == Err::<(), UefiDisplayError>(UefiDisplayError::OutOfBounds) && final(self)@ == old(self)@,
            r is Ok ==> final(self)@ == (DisplayView { buffer: old(self)@.filled(*rect, color), ..old(self)@ }),
    {
        let ghost v = self@;
        let ghost s = self.stride as int;
        let w = self.size.0 as i64;
        let h = self.size.1 as i64;
        let left = rect.top_left.x as i64;
        let top = rect.top_left.y as i64;
        let right = left + rect.size.width as i64;
        let bottom = top + rect.size.height as i64;
        let x0: i64 = if left < 0 { 0 } else { left };
        let x1: i64 = if right > w { w } else { right };
        let y0: i64 = if top < 0 { 0 } else { top };
        let y1: i64 = if bottom > h { h } else { bottom };
        assert forall|x: int, y: int| rect.contains(x, y) && v.on_screen(x, y) <==> (x0 <= x < x1 && y0 <= y < y1) by {}
        assert forall|k: int| v.covers(*rect, k) == in_band(s, x0 as int, x1 as int, y0 as int, y1 as int, k) by {
            if v.covers(*rect, k) {
                let (a, b) = choose|a: int, b: int|
                    rect.contains(a, b) && v.on_screen(a, b) && #[trigger] slot_of(s, a, b) == k;
                assert(x0 <= a < x1 && y0 <= b < y1 && slot_of(s, a, b) == k);
            }
            if in_band(s, x0 as int, x1 as int, y0 as int, y1 as int, k) {
                let (a, b) = choose|a: int, b: int|
                    x0 <= a < x1 && y0 <= b < y1 && #[trigger] slot_of(s, a, b) == k;
                assert(rect.contains(a, b) && v.on_screen(a, b) && slot_of(s, a, b) == k);
            }
        }
        if x0 >= x1 || y0 >= y1 {
            assert(self@.buffer =~= v.filled(*rect, color));
            return Ok(());
        }
        let last = self.byte_index((x1 - 1) as usize, (y1 - 1) as usize);
        if last.is_none() {
            assert(rect.contains(x1 - 1, y1 - 1) && v.on_screen(x1 - 1, y1 - 1));
            return Err(UefiDisplayError::OutOfBounds);
        }
        assert forall|x: int, y: int| rect.contains(x, y) && v.on_screen(x, y) implies #[trigger] v.slot_fits(x, y) by {
            lemma_slot_monotone(s, x, y, x1 - 1, y1 - 1);
        }
        let stride = self.stride as usize;
        let n = self.buffer.len();
        let xa = x0 as usize;
        let xb = x1 as usize;
        let ya = y0 as usize;
        let yb = y1 as usize;
        let mut y: usize = ya;
        while y < yb
            invariant
                self.wf(),
                self@.stride == v.stride && self@.width == v.width && self@.height == v.height,
                self@.buffer.len() == v.buffer.len(),
                v.buffer.len() == n,
                stride == s && s == v.stride,
                xa == x0 && xb == x1 && ya == y0 && yb == y1,
                0 <= x0 < x1 <= w && 0 <= y0 < y1 <= h,
                    w == v.width && h == v.height,
                y0 <= y <= y1,
                v.slot_fits(x1 - 1, y1 - 1),
                forall|i: int| 0 <= i < v.buffer.len() ==> #[trigger] self@.buffer[i] == if in_band(s, x0 as int, x1 as int, y0 as int, y as int, i / 4) {
                    encode(color)[i % 4]
                } else {
                    v.buffer[i]
                },
            decreases y1 - y,
        {
            let mut x: usize = xa;
            while x < xb
                invariant
                    self.wf(),
                    self@.stride == v.stride && self@.width == v.width && self@.height == v.height,
                    self@.buffer.len() == v.buffer.len(),
                    v.buffer.len() == n,
                    stride == s && s == v.stride,
                    xa == x0 && xb == x1 && ya == y0 && yb == y1,
                0 <= x0 < x1 <= w && 0 <= y0 < y1 <= h,
                    w == v.width && h == v.height,
                    y0 <= y < y1,
                    x0 <= x <= x1,
                    v.slot_fits(x1 - 1, y1 - 1),
                    forall|i: int| 0 <= i < v.buffer.len() ==> #[trigger] self@.buffer[i] == if in_band(s, x0 as int, x1 as int, y0 as int, y as int, i / 4)
                        || in_band(s, x0 as int, x as int, y as int, y + 1, i / 4) {
                        encode(color)[i % 4]
                    } else {
                        v.buffer[i]
                    },
                decreases x1 - x,
            {
                proof {
                    lemma_slot_monotone(s, x as int, y as int, x1 - 1, y1 - 1);
                }
                let idx = (y * stride + x) * 4;
                let ghost before = self@.buffer;
                self.store(idx, color);
                proof {
                    let k = slot_of(s, x as int, y as int);
                    assert(idx / 4 == k);
                    assert forall|i: int| 0 <= i < v.buffer.len() implies #[trigger] self@.buffer[i] == if in_band(s, x0 as int, x1 as int, y0 as int, y as int, i / 4)
                        || in_band(s, x0 as int, x + 1, y as int, y + 1, i / 4) {
                        encode(color)[i % 4]
                    } else {
                        v.buffer[i]
                    } by {
                        lemma_byte_of_slot(i, k);
                        lemma_band_column(s, x0 as int, x as int, y as int, i / 4);
                        assert(before[i] == before[i]);
                    }
                }
                x = x + 1;
            }
            proof {
                assert forall|i: int| 0 <= i < v.buffer.len() implies #[trigger] self@.buffer[i] == if in_band(s, x0 as int, x1 as int, y0 as int, y + 1, i / 4) {
                    encode(color)[i % 4]
                } else {
                    v.buffer[i]
                } by {
                    lemma_band_row(s, x0 as int, x1 as int, y0 as int, y as int, i / 4);
                }
            }
            y = y + 1;
        }
        assert(self@.buffer =~= v.filled(*rect, color));
        Ok(())
    }

    /// Writes the encoding of `c` into the slot that starts at byte `idx`.
    fn store(&mut self, idx: usize, c: Color)
        requires
            old(self).wf(),
            idx % 4 == 0,
            idx + 4 <= old(self)@.buffer.len(),
        ensures
            final(self).wf(),
            final(self)@ == (DisplayView { buffer: put_slot(old(self)@.buffer, (idx / 4) as int, c), ..old(self)@ }),
    {
        let bytes = c.to_bytes();
        self.buffer[idx] = bytes[0];
        self.buffer[idx + 1] = bytes[1];
        self.buffer[idx + 2] = bytes[2];
        self.buffer[idx + 3] = bytes[3];
        assert(self@.buffer =~= put_slot(old(self)@.buffer, (idx / 4) as int, c));
    }
}

} // verus!
