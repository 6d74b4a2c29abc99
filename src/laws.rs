use vstd::prelude::*;
use vstd::arithmetic::div_mod::lemma_fundamental_div_mod;
use crate::color::{encode, Color};
use crate::geometry::Pixel;
use crate::{blank, flushed, slot_of, DisplayView};

verus! {

/// Flushing a blank shadow buffer (as `UefiDisplay::new` and `UefiDisplay::resize` leave it)
/// makes the frame buffer's first bytes, as many as the shadow buffer has, all baseline black.
pub proof fn flush_of_blank_is_blank(buf: Seq<u8>, frame: Seq<u8>)
    requires
        buf == blank(buf.len() as int),
        frame.len() >= buf.len(),
    ensures
        flushed(buf, frame).len() == frame.len(),
        flushed(buf, frame).subrange(0, buf.len() as int) == blank(buf.len() as int),
{
    assert(flushed(buf, frame).subrange(0, buf.len() as int) =~= blank(buf.len() as int));
}

/// Flushing twice with no drawing in between leaves the frame buffer as one flush does.
pub proof fn flush_is_idempotent(buf: Seq<u8>, frame: Seq<u8>)
    requires
        frame.len() >= buf.len(),
    ensures
        flushed(buf, flushed(buf, frame)) == flushed(buf, frame),
{
    assert(flushed(buf, flushed(buf, frame)) =~= flushed(buf, frame));
}

/// Drawing one on-screen pixel at `(x, y)` and flushing puts the pixel's packed color at
/// byte `(y * stride + x) * 4` of the frame buffer.
pub proof fn drawn_pixel_lands_at_its_offset(v: DisplayView, p: Pixel, frame: Seq<u8>)
    requires
        v.buffer.len() == v.width * v.height * 4,
        v.on_screen(p.point.x as int, p.point.y as int),
        v.slot_fits(p.point.x as int, p.point.y as int),
        frame.len() >= v.buffer.len(),
    ensures
        ({
            let idx = slot_of(v.stride as int, p.point.x as int, p.point.y as int) * 4;
            flushed(v.drawn(seq![p]), frame).subrange(idx, idx + 4) == encode(p.color)
        }),
{
    let idx = slot_of(v.stride as int, p.point.x as int, p.point.y as int) * 4;
    assert(seq![p].drop_last() =~= Seq::<Pixel>::empty());
    assert(v.drawn(Seq::<Pixel>::empty()) == v.buffer);
    assert(seq![p].last() == p);
    assert(flushed(v.drawn(seq![p]), frame).subrange(idx, idx + 4) =~= encode(p.color));
}

/// A pixel off the surface (a negative coordinate, or one at or past the width or height)
/// is accepted and changes no byte.
pub proof fn off_screen_pixel_is_no_op(v: DisplayView, p: Pixel)
    requires
        !v.on_screen(p.point.x as int, p.point.y as int),
    ensures
        v.pixels_fit(seq![p]),
        v.drawn(seq![p]) == v.buffer,
{
    assert(seq![p].drop_last() =~= Seq::<Pixel>::empty());
    assert(v.drawn(Seq::<Pixel>::empty()) == v.buffer);
    assert(seq![p].last() == p);
}

/// Filling the whole surface with `c` and flushing makes every 4-byte slot of the flushed
/// part of the frame buffer the packed encoding of `c`, where the stride equals the width or
/// there is at most one row. (With a narrower stride the slots past the last pixel's are not
/// written; with a wider one the fill fails.)
pub proof fn fill_entire_paints_every_slot(v: DisplayView, c: Color, frame: Seq<u8>)
    requires
        v.buffer.len() == v.width * v.height * 4,
        v.stride == v.width || v.height <= 1,
        frame.len() >= v.buffer.len(),
    ensures
        forall|i: int|
            0 <= i < v.buffer.len() ==> #[trigger] flushed(v.filled(v.full_rect(), c), frame)[i] == encode(c)[i % 4],
{
    let w = v.width as int;
    let h = v.height as int;
    assert forall|i: int| 0 <= i < v.buffer.len() implies #[trigger] flushed(v.filled(v.full_rect(), c), frame)[i]
        == encode(c)[i % 4] by {
        let k = i / 4;
        assert(0 <= k < w * h);
        if h == 1 {
            assert(w * h == w) by (nonlinear_arith)
                requires
                    h == 1,
            ;
            assert(v.full_rect().contains(k, 0) && v.on_screen(k, 0) && slot_of(v.stride as int, k, 0) == k);
        } else {
            assert(w > 0) by (nonlinear_arith)
                requires
                    0 <= k < w * h,
                    h >= 0,
                    w >= 0,
            ;
            lemma_fundamental_div_mod(k, w);
            let y = k / w;
            let x = k % w;
            assert(0 <= y < h) by (nonlinear_arith)
                requires
                    0 <= k < w * h,
                    w > 0,
                    y == k / w,
            ;
            assert(slot_of(v.stride as int, x, y) == k) by (nonlinear_arith)
                requires
                    k == w * y + x,
                    v.stride == w,
            ;
            assert(v.full_rect().contains(x, y) && v.on_screen(x, y));
        }
        assert(v.covers(v.full_rect(), k));
    }
}

} // verus!
