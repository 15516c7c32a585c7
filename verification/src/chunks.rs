//! Rendering by partition: the buffer is cut into disjoint runs of whole
//! pixels, and each worker fills a run of its own.

use rayon::iter::{IndexedParallelIterator, ParallelIterator};
use rayon::slice::ParallelSliceMut;
use vstd::prelude::*;
use crate::frame::{
    lemma_fill_next, pixel_count, put_pixel, spec_channel, spec_channel_byte, spec_filled,
    spec_frame,
};
use crate::raymarcher::{lemma_frame_size, Raymarcher};

verus! {

/// Chunk `c` of a buffer cut into runs of `n` bytes, of which the last may
/// be shorter.
pub open spec fn spec_chunk(buf: Seq<u8>, c: int, n: int) -> Seq<u8> {
    buf.subrange(
        c * n,
        if (c + 1) * n <= buf.len() {
            (c + 1) * n
        } else {
            buf.len() as int
        },
    )
}

/// The bytes of chunk `c` of a frame cut into runs of `size` pixels, over a
/// chunk that held `line`.
pub open spec fn spec_fill_chunk(rm: Raymarcher, c: int, size: int, line: Seq<u8>) -> Seq<u8> {
    Seq::new(
        line.len(),
        |k: int|
            if k % 4 == 3 {
                line[k]
            } else {
                spec_channel_byte(spec_channel(rm.spec_pixel_at(c * size + k / 4), k % 4))
            },
    )
}

/// The frame put together from its chunks of `size` pixels, each filled on
/// its own.
pub open spec fn spec_frame_by_chunks(rm: Raymarcher, before: Seq<u8>, size: int) -> Seq<u8> {
    Seq::new(
        before.len(),
        |k: int|
            spec_fill_chunk(
                rm,
                k / (4 * size),
                size,
                spec_chunk(before, k / (4 * size), 4 * size),
            )[k % (4 * size)],
    )
}

/// Where byte `k` of a buffer falls when the buffer is cut into runs of
/// `size` pixels: in chunk `k / (4 * size)` at offset `k % (4 * size)`, which
/// belongs to the same pixel and the same channel.
pub proof fn lemma_chunk_position(k: int, size: int)
    by (nonlinear_arith)
    requires
        0 <= k,
        size > 0,
    ensures
        0 <= k / (4 * size),
        (k / (4 * size)) * (4 * size) + k % (4 * size) == k,
        0 <= k % (4 * size) < 4 * size,
        (k / (4 * size)) * size + (k % (4 * size)) / 4 == k / 4,
        (k % (4 * size)) % 4 == k % 4,
{
    let c = k / (4 * size);
    let r = k % (4 * size);
    assert(k == c * (4 * size) + r);
    assert(k == 4 * (c * size) + r);
    assert(r == 4 * (r / 4) + r % 4);
    assert(k == 4 * (c * size + r / 4) + r % 4);
}

/// Filling the chunks of a buffer one by one gives the same frame as
/// rendering it pixel by pixel, whatever the size of the chunks.
pub proof fn lemma_chunks_give_frame(rm: Raymarcher, before: Seq<u8>, size: int)
    requires
        size > 0,
    ensures
        spec_frame_by_chunks(rm, before, size) == spec_frame(rm, before),
{
    assert forall|k: int| 0 <= k < before.len() implies spec_frame_by_chunks(rm, before, size)[k]
        == spec_frame(rm, before)[k] by {
        lemma_chunk_position(k, size);
        let c = k / (4 * size);
        let r = k % (4 * size);
        let line = spec_chunk(before, c, 4 * size);
        assert(c * (4 * size) + 4 * size == (c + 1) * (4 * size)) by (nonlinear_arith);
        assert(r < line.len());
        assert(line[r] == before[k]);
    }
    assert(spec_frame_by_chunks(rm, before, size) =~= spec_frame(rm, before));
}

/// Fills chunk `c` of a frame cut into runs of `size` pixels: the colour
/// bytes of each pixel of the chunk are set, every fourth byte is left.
pub fn fill_chunk(rm: &Raymarcher, c: usize, size: u32, line: &mut [u8])
    requires
        rm.wf(),
        size > 0,
        old(line)@.len() % 4 == 0,
        c * size + old(line)@.len() / 4 <= rm.spec_pixel_count(),
    ensures
        final(line)@ == spec_fill_chunk(*rm, c as int, size as int, old(line)@),
{
    let ghost before = line@;
    proof {
        lemma_frame_size(*rm);
    }
    let n: usize = line.len() / 4;
    assert(c <= c * size) by (nonlinear_arith)
        requires
            c >= 0,
            size >= 1,
    ;
    let first: u32 = ((c as u64) * (size as u64)) as u32;
    let mut j: usize = 0;
    assert(line@ =~= spec_filled(*rm, first as int, before, 0));
    while j < n
        invariant
            rm.wf(),
            j <= n,
            first == c * size,
            first + n <= rm.spec_pixel_count() <= 268_435_456,
            before.len() == 4 * n,
            line@ == spec_filled(*rm, first as int, before, j as int),
        decreases n - j,
    {
        let color = rm.pixel_at(first + j as u32);
        put_pixel(line, j, color);
        proof {
            lemma_fill_next(*rm, first as int, before, j as int);
        }
        j = j + 1;
    }
    assert(line@ =~= spec_fill_chunk(*rm, c as int, size as int, before));
}

/// Cuts the buffer into runs of `chunk_bytes` bytes and fills each on a
/// worker of its own.
///
/// Calls rayon's `par_chunks_mut`, `enumerate` and `for_each`. Believed of
/// them: the buffer is cut from its start into runs of `chunk_bytes` bytes,
/// of which only the last may be shorter; the runs are numbered from 0 in
/// the order they lie in the buffer; and `fill_chunk` is run once on each run
/// with its number, and on nothing else.
#[verifier::external_body]
fn par_fill_chunks(rm: &Raymarcher, size: u32, chunk_bytes: usize, pixels: &mut [u8])
    requires
        rm.wf(),
        size > 0,
        chunk_bytes == 4 * size,
        old(pixels)@.len() == 4 * rm.spec_pixel_count(),
    ensures
        final(pixels)@.len() == old(pixels)@.len(),
        forall|c: int|
            0 <= c && c * chunk_bytes < old(pixels)@.len() ==> #[trigger] spec_chunk(
                final(pixels)@,
                c,
                chunk_bytes as int,
            ) == spec_fill_chunk(
                *rm,
                c,
                size as int,
                spec_chunk(old(pixels)@, c, chunk_bytes as int),
            ),
{
    pixels.par_chunks_mut(chunk_bytes).enumerate().for_each(
        |(c, line)| fill_chunk(rm, c, size, line),
    );
}

/// A buffer whose every chunk has been filled on its own holds the frame.
pub proof fn lemma_filled_chunks_give_frame(
    rm: Raymarcher,
    before: Seq<u8>,
    after: Seq<u8>,
    size: int,
)
    requires
        size > 0,
        after.len() == before.len(),
        forall|c: int|
            0 <= c && c * (4 * size) < before.len() ==> #[trigger] spec_chunk(after, c, 4 * size)
                == spec_fill_chunk(rm, c, size, spec_chunk(before, c, 4 * size)),
    ensures
        after == spec_frame(rm, before),
{
    let n = 4 * size;
    assert forall|k: int| 0 <= k < before.len() implies after[k] == spec_frame_by_chunks(
        rm,
        before,
        size,
    )[k] by {
        lemma_chunk_position(k, size);
        let c = k / n;
        let r = k % n;
        assert(c * n + n == (c + 1) * n) by (nonlinear_arith);
        assert(c * n <= k);
        let filled = spec_chunk(after, c, n);
        assert(filled == spec_fill_chunk(rm, c, size, spec_chunk(before, c, n)));
        assert(r < filled.len());
        assert(filled[r] == after[c * n + r]);
    }
    assert(after =~= spec_frame_by_chunks(rm, before, size));
    lemma_chunks_give_frame(rm, before, size);
}

/// Renders the frame by cutting the buffer into runs of `size` pixels and
/// letting each worker fill a run of its own.
pub fn draw_custom_multi_line_chunkmut(rm: &Raymarcher, pixels: &mut [u8], size: u32)
    requires
        rm.wf(),
        size > 0,
        old(pixels)@.len() == 4 * rm.spec_pixel_count(),
    ensures
        final(pixels)@ == spec_frame(*rm, old(pixels)@),
{
    let ghost before = pixels@;
    let count: u32 = pixel_count(rm);
    let run: u32 = if size > count {
        count
    } else {
        size
    };
    par_fill_chunks(rm, run, 4 * (run as usize), pixels);
    proof {
        lemma_filled_chunks_give_frame(*rm, before, pixels@, run as int);
    }
}

/// Renders the frame by letting each worker fill the four bytes of one
/// pixel.
pub fn draw_multi_threaded_chunkmut(rm: &Raymarcher, pixels: &mut [u8])
    requires
        rm.wf(),
        old(pixels)@.len() == 4 * rm.spec_pixel_count(),
    ensures
        final(pixels)@ == spec_frame(*rm, old(pixels)@),
{
    draw_custom_multi_line_chunkmut(rm, pixels, 1)
}

} // verus!
