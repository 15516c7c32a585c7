//! Rendering by messages that each hold a run of pixels.

use rayon::iter::{IndexedParallelIterator, IntoParallelIterator, ParallelIterator};
use vstd::prelude::*;
use crate::frame::{
    lemma_render_all, lemma_written_byte, pixel_count, spec_channel, spec_channel_byte,
    spec_frame, spec_rendered_on, spec_write_pixel, write_indexed,
};
use crate::messages::lemma_same_members;
use crate::raymarcher::{lemma_frame_size, Raymarcher};
use crate::vector::Vec3;

verus! {

/// The buffer after the first `m` colours of a run have been written to the
/// pixels from index `start` on.
pub open spec fn spec_write_run(buf: Seq<u8>, start: int, colors: Seq<Vec3>, m: int) -> Seq<u8> {
    Seq::new(
        buf.len(),
        |k: int|
            if start <= k / 4 < start + m && k % 4 != 3 {
                spec_channel_byte(spec_channel(colors[k / 4 - start], k % 4))
            } else {
                buf[k]
            },
    )
}

/// Writing the next colour of a run extends the written part by one pixel.
pub proof fn lemma_write_run_next(buf: Seq<u8>, start: int, colors: Seq<Vec3>, m: int)
    requires
        0 <= start,
        0 <= m < colors.len(),
        4 * (start + m) + 3 < buf.len(),
    ensures
        spec_write_pixel(spec_write_run(buf, start, colors, m), start + m, colors[m])
            == spec_write_run(buf, start, colors, m + 1),
{
    let i = start + m;
    let a = spec_write_pixel(spec_write_run(buf, start, colors, m), i, colors[m]);
    let b = spec_write_run(buf, start, colors, m + 1);
    assert forall|k: int| 0 <= k < buf.len() implies a[k] == b[k] by {
        lemma_written_byte(spec_write_run(buf, start, colors, m), i, colors[m], k);
    }
    assert(a =~= b);
}

/// The pixels from index `start` up to but not including `end`.
pub open spec fn spec_pixel_range(start: int, end: int) -> Set<int> {
    Set::new(|p: int| start <= p < end)
}

/// Writing a run of the frame's own colours renders the pixels of the run.
pub proof fn lemma_render_run(
    rm: Raymarcher,
    before: Seq<u8>,
    done: Set<int>,
    start: int,
    colors: Seq<Vec3>,
)
    requires
        0 <= start,
        4 * (start + colors.len()) <= before.len(),
        forall|j: int| 0 <= j < colors.len() ==> colors[j] == rm.spec_pixel_at(start + j),
    ensures
        spec_write_run(spec_rendered_on(rm, before, done), start, colors, colors.len() as int)
            == spec_rendered_on(
            rm,
            before,
            done.union(spec_pixel_range(start, start + colors.len())),
        ),
{
    let a = spec_write_run(
        spec_rendered_on(rm, before, done),
        start,
        colors,
        colors.len() as int,
    );
    let b = spec_rendered_on(
        rm,
        before,
        done.union(spec_pixel_range(start, start + colors.len())),
    );
    assert forall|k: int| 0 <= k < before.len() implies a[k] == b[k] by {
        let p = k / 4;
        if start <= p < start + colors.len() {
            assert(spec_pixel_range(start, start + colors.len()).contains(p));
            assert(colors[p - start] == rm.spec_pixel_at(start + (p - start)));
        } else {
            assert(!spec_pixel_range(start, start + colors.len()).contains(p));
        }
    }
    assert(a =~= b);
}

/// How many pixels run `c` of a frame of `count` pixels holds when the
/// frame is cut into runs of `size` pixels: the last run may be shorter.
pub open spec fn spec_run_length(count: int, size: int, c: int) -> int {
    if (c + 1) * size <= count {
        size
    } else {
        count - c * size
    }
}

/// Into how many runs of `size` pixels a frame of `count` pixels is cut.
pub open spec fn spec_run_count(count: int, size: int) -> int {
    (count + size - 1) / size
}

/// What a worker sends for run `c`: the index of its first pixel and the
/// colours of its pixels in order.
pub open spec fn spec_line_message(rm: Raymarcher, size: int, c: int) -> (u32, Seq<Vec3>) {
    (
        (c * size) as u32,
        Seq::new(
            spec_run_length(rm.spec_pixel_count(), size, c) as nat,
            |j: int| rm.spec_pixel_at(c * size + j),
        ),
    )
}

/// The messages of a whole frame cut into runs of `size` pixels, in the
/// order of the runs.
pub open spec fn spec_line_messages(rm: Raymarcher, size: int) -> Seq<(u32, Seq<Vec3>)> {
    Seq::new(
        spec_run_count(rm.spec_pixel_count(), size) as nat,
        |c: int| spec_line_message(rm, size, c),
    )
}

/// The messages as plain values.
pub open spec fn spec_line_views(msgs: Seq<(u32, Vec<Vec3>)>) -> Seq<(u32, Seq<Vec3>)> {
    Seq::new(msgs.len(), |j: int| (msgs[j].0, msgs[j].1@))
}

/// The buffer after the first `n` of the run messages have been written to
/// it.
pub open spec fn spec_deliver_lines(buf: Seq<u8>, msgs: Seq<(u32, Seq<Vec3>)>, n: nat) -> Seq<u8>
    decreases n,
{
    if n == 0 {
        buf
    } else {
        spec_write_run(
            spec_deliver_lines(buf, msgs, (n - 1) as nat),
            msgs[n - 1].0 as int,
            msgs[n - 1].1,
            msgs[n - 1].1.len() as int,
        )
    }
}

/// The pixels that the first `n` of the run messages are for.
pub open spec fn spec_lines_delivered(msgs: Seq<(u32, Seq<Vec3>)>, n: nat) -> Set<int>
    decreases n,
{
    if n == 0 {
        Set::empty()
    } else {
        spec_lines_delivered(msgs, (n - 1) as nat).union(
            spec_pixel_range(msgs[n - 1].0 as int, msgs[n - 1].0 + msgs[n - 1].1.len()),
        )
    }
}

/// Whether every one of the run messages is the message of some run of the
/// frame.
pub open spec fn spec_all_genuine_lines(
    rm: Raymarcher,
    size: int,
    msgs: Seq<(u32, Seq<Vec3>)>,
) -> bool {
    forall|j: int|
        0 <= j < msgs.len() ==> spec_line_messages(rm, size).contains(#[trigger] msgs[j])
}

/// Where run `c` lies in a frame cut into runs of `size` pixels.
pub proof fn lemma_run_position(count: int, size: int, c: int)
    by (nonlinear_arith)
    requires
        0 < count,
        0 < size,
        0 <= c < spec_run_count(count, size),
    ensures
        0 <= c * size < count,
        0 < spec_run_length(count, size, c) <= size,
        c * size + spec_run_length(count, size, c) <= count,
{
    let n = (count + size - 1) / size;
    assert(n * size <= count + size - 1);
    assert((c + 1) * size <= n * size);
}

/// Pixel `i` lies in run `i / size`.
pub proof fn lemma_pixel_in_run(count: int, size: int, i: int)
    by (nonlinear_arith)
    requires
        0 <= i < count,
        0 < size,
    ensures
        0 <= i / size < spec_run_count(count, size),
        (i / size) * size <= i < (i / size) * size + spec_run_length(count, size, i / size),
{
    let c = i / size;
    assert(i == c * size + i % size);
    assert(0 <= i % size < size);
    let n = (count + size - 1) / size;
    assert(count + size - 1 == n * size + (count + size - 1) % size);
    assert(0 <= (count + size - 1) % size < size);
    if c >= n {
        assert(c * size >= n * size);
    }
}

/// A genuine run message lies within the frame and holds the frame's own
/// colours.
pub proof fn lemma_genuine_line(rm: Raymarcher, size: int, msgs: Seq<(u32, Seq<Vec3>)>, j: int)
    requires
        rm.wf(),
        size > 0,
        spec_all_genuine_lines(rm, size, msgs),
        0 <= j < msgs.len(),
    ensures
        msgs[j].1.len() > 0,
        msgs[j].0 + msgs[j].1.len() <= rm.spec_pixel_count(),
        forall|k: int|
            0 <= k < msgs[j].1.len() ==> msgs[j].1[k] == rm.spec_pixel_at(msgs[j].0 + k),
{
    let all = spec_line_messages(rm, size);
    assert(all.contains(msgs[j]));
    let c = choose|c: int| 0 <= c < all.len() && all[c] == msgs[j];
    lemma_frame_size(rm);
    lemma_run_position(rm.spec_pixel_count(), size, c);
}

/// Writing genuine run messages renders just the pixels they are for.
pub proof fn lemma_deliver_lines_renders(
    rm: Raymarcher,
    size: int,
    before: Seq<u8>,
    msgs: Seq<(u32, Seq<Vec3>)>,
    n: nat,
)
    requires
        rm.wf(),
        size > 0,
        before.len() == 4 * rm.spec_pixel_count(),
        spec_all_genuine_lines(rm, size, msgs),
        n <= msgs.len(),
    ensures
        spec_deliver_lines(before, msgs, n) == spec_rendered_on(
            rm,
            before,
            spec_lines_delivered(msgs, n),
        ),
    decreases n,
{
    if n == 0 {
        assert(spec_rendered_on(rm, before, Set::<int>::empty()) =~= before);
    } else {
        lemma_deliver_lines_renders(rm, size, before, msgs, (n - 1) as nat);
        lemma_genuine_line(rm, size, msgs, n - 1);
        lemma_render_run(
            rm,
            before,
            spec_lines_delivered(msgs, (n - 1) as nat),
            msgs[n - 1].0 as int,
            msgs[n - 1].1,
        );
    }
}

/// A run message that occurs among the first `n` has had its pixels
/// delivered.
pub proof fn lemma_lines_delivered_contains(
    msgs: Seq<(u32, Seq<Vec3>)>,
    n: nat,
    j: int,
    p: int,
)
    requires
        0 <= j < n <= msgs.len(),
        msgs[j].0 <= p < msgs[j].0 + msgs[j].1.len(),
    ensures
        spec_lines_delivered(msgs, n).contains(p),
    decreases n,
{
    if j < n - 1 {
        lemma_lines_delivered_contains(msgs, (n - 1) as nat, j, p);
    } else {
        assert(spec_pixel_range(msgs[j].0 as int, msgs[j].0 + msgs[j].1.len()).contains(p));
    }
}

/// The run messages of a frame, written in whatever order they arrive, give
/// the same frame as rendering it pixel by pixel, whatever the size of the
/// runs.
pub proof fn lemma_line_delivery_gives_frame(
    rm: Raymarcher,
    size: int,
    before: Seq<u8>,
    msgs: Seq<(u32, Seq<Vec3>)>,
)
    requires
        rm.wf(),
        size > 0,
        before.len() == 4 * rm.spec_pixel_count(),
        msgs.to_multiset() == spec_line_messages(rm, size).to_multiset(),
    ensures
        spec_all_genuine_lines(rm, size, msgs),
        spec_deliver_lines(before, msgs, msgs.len()) == spec_frame(rm, before),
{
    let all = spec_line_messages(rm, size);
    let count = rm.spec_pixel_count();
    lemma_same_members(msgs, all);
    lemma_frame_size(rm);
    assert forall|j: int| 0 <= j < msgs.len() implies all.contains(#[trigger] msgs[j]) by {
        assert(msgs.contains(msgs[j]));
    }
    lemma_deliver_lines_renders(rm, size, before, msgs, msgs.len());
    let done = spec_lines_delivered(msgs, msgs.len());
    assert forall|i: int| 0 <= i && 4 * i < before.len() implies done.contains(i) by {
        let c = i / size;
        lemma_pixel_in_run(count, size, i);
        lemma_run_position(count, size, c);
        assert(all.contains(all[c]));
        assert(msgs.contains(all[c]));
        let j = choose|j: int| 0 <= j < msgs.len() && msgs[j] == all[c];
        assert(msgs[j].0 == c * size);
        lemma_lines_delivered_contains(msgs, msgs.len(), j, i);
    }
    lemma_render_all(rm, before, done);
}

/// What a worker sends for a run of pixels: the first index and the colour
/// of every pixel of the run, in order.
pub fn line_message(rm: &Raymarcher, indices: Vec<u32>) -> (m: (u32, Vec<Vec3>))
    requires
        rm.wf(),
        indices@.len() > 0,
    ensures
        m.0 == indices@[0],
        m.1@ == Seq::new(indices@.len(), |j: int| rm.spec_pixel_at(indices@[j] as int)),
{
    let start_i: u32 = indices[0];
    let n: usize = indices.len();
    let mut colors: Vec<Vec3> = Vec::with_capacity(n);
    let mut j: usize = 0;
    while j < n
        invariant
            rm.wf(),
            j <= n == indices@.len(),
            colors@.len() == j,
            forall|k: int| 0 <= k < j ==> colors@[k] == rm.spec_pixel_at(indices@[k] as int),
        decreases n - j,
    {
        colors.push(rm.pixel_at(indices[j]));
        j = j + 1;
    }
    assert(colors@ =~= Seq::new(indices@.len(), |j: int| rm.spec_pixel_at(indices@[j] as int)));
    (start_i, colors)
}

/// Computes the message of every run of `size` pixels on the workers and
/// collects what they send, in the order of arrival.
///
/// Calls rayon's `into_par_iter`, `chunks` and `for_each_with` over a
/// channel of `std::sync::mpsc`. Believed of them: the indices below `count`
/// are cut in order into runs of `size`, of which only the last may be
/// shorter and none is empty; `line_message` is run once on each run and on
/// nothing else; every message sent arrives once; and the receiver ends
/// when the workers are done. Nothing is claimed of the order.
#[verifier::external_body]
fn fan_out_lines(rm: &Raymarcher, count: u32, size: usize) -> (msgs: Vec<(u32, Vec<Vec3>)>)
    requires
        rm.wf(),
        count == rm.spec_pixel_count(),
        size > 0,
    ensures
        spec_line_views(msgs@).to_multiset() == spec_line_messages(*rm, size as int).to_multiset(),
{
    let (tx, rx) = std::sync::mpsc::channel();
    (0..count).into_par_iter().chunks(size).for_each_with(
        tx,
        |sender, indices| { sender.send(line_message(rm, indices)).unwrap() },
    );
    rx.into_iter().collect()
}

/// Whether every one of the run messages lies within the frame.
pub open spec fn spec_all_lines_within(rm: Raymarcher, msgs: Seq<(u32, Seq<Vec3>)>) -> bool {
    forall|j: int|
        0 <= j < msgs.len() ==> (#[trigger] msgs[j]).0 + msgs[j].1.len() <= rm.spec_pixel_count()
}

/// Genuine run messages lie within the frame.
pub proof fn lemma_genuine_lines_are_within(
    rm: Raymarcher,
    size: int,
    msgs: Seq<(u32, Seq<Vec3>)>,
)
    requires
        rm.wf(),
        size > 0,
        spec_all_genuine_lines(rm, size, msgs),
    ensures
        spec_all_lines_within(rm, msgs),
{
    assert forall|j: int| 0 <= j < msgs.len() implies (#[trigger] msgs[j]).0 + msgs[j].1.len()
        <= rm.spec_pixel_count() by {
        lemma_genuine_line(rm, size, msgs, j);
    }
}

/// Writes the run messages to the buffer in the order given.
pub fn write_line_messages(rm: &Raymarcher, pixels: &mut [u8], msgs: &Vec<(u32, Vec<Vec3>)>)
    requires
        rm.wf(),
        old(pixels)@.len() == 4 * rm.spec_pixel_count(),
        spec_all_lines_within(*rm, spec_line_views(msgs@)),
    ensures
        final(pixels)@ == spec_deliver_lines(
            old(pixels)@,
            spec_line_views(msgs@),
            msgs@.len(),
        ),
{
    let ghost before = pixels@;
    let ghost views = spec_line_views(msgs@);
    let n: usize = msgs.len();
    let mut j: usize = 0;
    while j < n
        invariant
            rm.wf(),
            j <= n == msgs@.len(),
            views == spec_line_views(msgs@),
            pixels@.len() == 4 * rm.spec_pixel_count(),
            spec_all_lines_within(*rm, views),
            pixels@ == spec_deliver_lines(before, views, j as nat),
        decreases n - j,
    {
        let start_i: u32 = msgs[j].0;
        let colors: &Vec<Vec3> = &msgs[j].1;
        let len: usize = colors.len();
        let ghost at_start = pixels@;
        proof {
            lemma_frame_size(*rm);
            assert(views[j as int].1 == colors@);
            assert(views[j as int].0 + views[j as int].1.len() <= rm.spec_pixel_count());
            assert(pixels@ =~= spec_write_run(at_start, start_i as int, colors@, 0));
        }
        let mut i: usize = 0;
        while i < len
            invariant
                rm.wf(),
                i <= len == colors@.len(),
                start_i + len <= rm.spec_pixel_count() <= 268_435_456,
                at_start.len() == 4 * rm.spec_pixel_count(),
                pixels@ == spec_write_run(at_start, start_i as int, colors@, i as int),
            decreases len - i,
        {
            proof {
                lemma_write_run_next(at_start, start_i as int, colors@, i as int);
            }
            write_indexed(rm, pixels, start_i + i as u32, colors[i]);
            i = i + 1;
        }
        j = j + 1;
    }
}

/// Renders the frame by letting the workers send runs of `size` pixels to
/// the calling thread, which alone writes to the buffer.
pub fn draw_multi_threaded_line_mspc(rm: &Raymarcher, pixels: &mut [u8], size: u32)
    requires
        rm.wf(),
        size > 0,
        old(pixels)@.len() == 4 * rm.spec_pixel_count(),
    ensures
        final(pixels)@ == spec_frame(*rm, old(pixels)@),
{
    let count: u32 = pixel_count(rm);
    let msgs = fan_out_lines(rm, count, size as usize);
    proof {
        lemma_line_delivery_gives_frame(*rm, size as int, pixels@, spec_line_views(msgs@));
        lemma_genuine_lines_are_within(*rm, size as int, spec_line_views(msgs@));
    }
    write_line_messages(rm, pixels, &msgs);
}

} // verus!
