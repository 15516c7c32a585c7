//! The frame: one colour per pixel in a buffer of four bytes per pixel (red,
//! green, blue and a fourth that is left as it is), and the frame rendered
//! pixel by pixel on one thread, which every other way of rendering is held
//! to.

use vstd::prelude::*;
use crate::fixed::{fx_clamp, spec_clamp, ONE};
use crate::raymarcher::{lemma_frame_size, Raymarcher};
use crate::vector::Vec3;

verus! {

/// The byte for a colour channel: the channel limited to the interval from
/// 0 to `ONE`, scaled to 255 and rounded down.
pub open spec fn spec_channel_byte(c: int) -> u8 {
    (spec_clamp(c, 0, ONE as int) * 255 / (ONE as int)) as u8
}

/// Channel `ch` of a colour: 0 for red, 1 for green, else blue.
pub open spec fn spec_channel(color: Vec3, ch: int) -> int {
    if ch == 0 {
        color.x as int
    } else if ch == 1 {
        color.y as int
    } else {
        color.z as int
    }
}

/// The buffer with the three colour bytes of pixel `i` set to `color`.
pub open spec fn spec_write_pixel(buf: Seq<u8>, i: int, color: Vec3) -> Seq<u8> {
    buf.update(4 * i, spec_channel_byte(color.x as int)).update(
        4 * i + 1,
        spec_channel_byte(color.y as int),
    ).update(4 * i + 2, spec_channel_byte(color.z as int))
}

/// Byte `k` of the rendered frame: a colour byte of pixel `k / 4`, or, for
/// every fourth byte, what the buffer held before.
pub open spec fn spec_frame_byte(rm: Raymarcher, before: Seq<u8>, k: int) -> u8 {
    if k % 4 == 3 {
        before[k]
    } else {
        spec_channel_byte(spec_channel(rm.spec_pixel_at(k / 4), k % 4))
    }
}

/// The rendered frame over a buffer that held `before`.
pub open spec fn spec_frame(rm: Raymarcher, before: Seq<u8>) -> Seq<u8> {
    Seq::new(before.len(), |k: int| spec_frame_byte(rm, before, k))
}

/// Byte `k` of a buffer after pixel `i` has been written: a colour byte of
/// the pixel where `k` is one of its first three bytes, else what the buffer
/// held.
pub proof fn lemma_written_byte(buf: Seq<u8>, i: int, color: Vec3, k: int)
    requires
        0 <= i,
        4 * i + 3 < buf.len(),
        0 <= k < buf.len(),
    ensures
        spec_write_pixel(buf, i, color).len() == buf.len(),
        spec_write_pixel(buf, i, color)[k] == (if k / 4 == i && k % 4 != 3 {
            spec_channel_byte(spec_channel(color, k % 4))
        } else {
            buf[k]
        }),
{
    if k == 4 * i {
        assert(k / 4 == i && k % 4 == 0);
    } else if k == 4 * i + 1 {
        assert(k / 4 == i && k % 4 == 1);
    } else if k == 4 * i + 2 {
        assert(k / 4 == i && k % 4 == 2);
    } else if k == 4 * i + 3 {
        assert(k / 4 == i && k % 4 == 3);
    } else {
        assert(k / 4 != i);
    }
}

/// The buffer once its first `done` pixels have been given the colours of
/// the pixels from index `first` on.
pub open spec fn spec_filled(rm: Raymarcher, first: int, before: Seq<u8>, done: int) -> Seq<u8> {
    Seq::new(
        before.len(),
        |k: int|
            if k / 4 < done && k % 4 != 3 {
                spec_channel_byte(spec_channel(rm.spec_pixel_at(first + k / 4), k % 4))
            } else {
                before[k]
            },
    )
}

/// Writing the next pixel extends the filled part of a buffer by one pixel.
pub proof fn lemma_fill_next(rm: Raymarcher, first: int, before: Seq<u8>, done: int)
    requires
        0 <= done,
        4 * done + 3 < before.len(),
    ensures
        spec_write_pixel(
            spec_filled(rm, first, before, done),
            done,
            rm.spec_pixel_at(first + done),
        ) == spec_filled(rm, first, before, done + 1),
{
    let color = rm.spec_pixel_at(first + done);
    let a = spec_write_pixel(spec_filled(rm, first, before, done), done, color);
    let b = spec_filled(rm, first, before, done + 1);
    assert forall|k: int| 0 <= k < before.len() implies a[k] == b[k] by {
        lemma_written_byte(spec_filled(rm, first, before, done), done, color, k);
    }
    assert(a =~= b);
}

/// The byte for a colour channel.
pub fn channel_byte(c: i64) -> (b: u8)
    ensures
        b == spec_channel_byte(c as int),
{
    let v: i64 = fx_clamp(c, 0, ONE);
    ((v * 255) / ONE) as u8
}

/// Sets the three colour bytes of pixel `i`.
pub fn put_pixel(pixels: &mut [u8], i: usize, color: Vec3)
    requires
        4 * i + 3 < old(pixels)@.len(),
    ensures
        final(pixels)@ == spec_write_pixel(old(pixels)@, i as int, color),
{
    assert(pixels@.len() == pixels.len());
    let at: usize = 4 * i;
    pixels[at] = channel_byte(color.x);
    pixels[at + 1] = channel_byte(color.y);
    pixels[at + 2] = channel_byte(color.z);
}

/// Sets the three colour bytes of pixel (`x`, `y`) of a frame `width`
/// pixels wide.
pub fn write_pixel(pixels: &mut [u8], width: u32, x: u32, y: u32, color: Vec3)
    requires
        x < width,
        4 * (y * width + x) + 3 < old(pixels)@.len(),
    ensures
        final(pixels)@ == spec_write_pixel(old(pixels)@, y * width + x, color),
{
    assert(0 <= y * width <= 0xffff_ffff * 0xffff_ffff) by (nonlinear_arith)
        requires
            0 <= y <= 0xffff_ffff,
            0 <= width <= 0xffff_ffff,
    ;
    assert(pixels@.len() == pixels.len());
    let i: u64 = (y as u64) * (width as u64) + (x as u64);
    put_pixel(pixels, i as usize, color);
}

/// Sets the three colour bytes of the pixel with index `i`, counting row by
/// row, by its column and row.
pub fn write_indexed(rm: &Raymarcher, pixels: &mut [u8], i: u32, color: Vec3)
    requires
        rm.wf(),
        old(pixels)@.len() == 4 * rm.spec_pixel_count(),
        i < rm.spec_pixel_count(),
    ensures
        final(pixels)@ == spec_write_pixel(old(pixels)@, i as int, color),
{
    let x: u32 = i % rm.width;
    let y: u32 = i / rm.width;
    assert(y * rm.width + x == i) by (nonlinear_arith)
        requires
            x == i % rm.width,
            y == i / rm.width,
            rm.width > 0,
    ;
    write_pixel(pixels, rm.width, x, y, color);
}

/// Computes the colour of the pixel with index `i` and writes it.
pub fn render_pixel(rm: &Raymarcher, pixels: &mut [u8], i: u32)
    requires
        rm.wf(),
        old(pixels)@.len() == 4 * rm.spec_pixel_count(),
        i < rm.spec_pixel_count(),
    ensures
        final(pixels)@ == spec_write_pixel(old(pixels)@, i as int, rm.spec_pixel_at(i as int)),
{
    let color = rm.pixel_at(i);
    write_indexed(rm, pixels, i, color);
}

/// Renders the frame on the calling thread, pixel by pixel.
pub fn draw_single_threaded(rm: &Raymarcher, pixels: &mut [u8])
    requires
        rm.wf(),
        old(pixels)@.len() == 4 * rm.spec_pixel_count(),
    ensures
        final(pixels)@ == spec_frame(*rm, old(pixels)@),
{
    let ghost before = pixels@;
    let count: u32 = pixel_count(rm);
    let mut i: u32 = 0;
    assert(pixels@ =~= spec_filled(*rm, 0, before, 0));
    while i < count
        invariant
            rm.wf(),
            count == rm.spec_pixel_count(),
            i <= count,
            before.len() == 4 * count,
            pixels@ == spec_filled(*rm, 0, before, i as int),
        decreases count - i,
    {
        proof {
            lemma_fill_next(*rm, 0, before, i as int);
        }
        render_pixel(rm, pixels, i);
        i = i + 1;
    }
    assert(pixels@ =~= spec_frame(*rm, before));
}

/// The number of pixels of a frame.
pub fn pixel_count(rm: &Raymarcher) -> (n: u32)
    requires
        rm.wf(),
    ensures
        n == rm.spec_pixel_count(),
        0 < n <= 268_435_456,
{
    proof {
        lemma_frame_size(*rm);
    }
    rm.width * rm.height
}

/// The buffer in which just the pixels of `done` have been rendered.
pub open spec fn spec_rendered_on(rm: Raymarcher, before: Seq<u8>, done: Set<int>) -> Seq<u8> {
    Seq::new(
        before.len(),
        |k: int|
            if done.contains(k / 4) {
                spec_frame_byte(rm, before, k)
            } else {
                before[k]
            },
    )
}

/// Writing the colour of pixel `i` renders that pixel, whether or not it had
/// been rendered before.
pub proof fn lemma_render_pixel(rm: Raymarcher, before: Seq<u8>, done: Set<int>, i: int)
    requires
        0 <= i,
        4 * i + 3 < before.len(),
    ensures
        spec_write_pixel(spec_rendered_on(rm, before, done), i, rm.spec_pixel_at(i))
            == spec_rendered_on(rm, before, done.insert(i)),
{
    let a = spec_write_pixel(spec_rendered_on(rm, before, done), i, rm.spec_pixel_at(i));
    let b = spec_rendered_on(rm, before, done.insert(i));
    assert forall|k: int| 0 <= k < before.len() implies a[k] == b[k] by {
        lemma_written_byte(spec_rendered_on(rm, before, done), i, rm.spec_pixel_at(i), k);
    }
    assert(a =~= b);
}

/// Once every pixel has been rendered, the buffer holds the frame.
pub proof fn lemma_render_all(rm: Raymarcher, before: Seq<u8>, done: Set<int>)
    requires
        forall|i: int| 0 <= i && 4 * i < before.len() ==> done.contains(i),
    ensures
        spec_rendered_on(rm, before, done) == spec_frame(rm, before),
{
    assert(spec_rendered_on(rm, before, done) =~= spec_frame(rm, before));
}

} // verus!
