//! Rendering by messages: the workers send each finished pixel to the
//! calling thread, which alone writes to the buffer.

use rayon::iter::{IntoParallelIterator, ParallelIterator};
use vstd::prelude::*;
use crate::frame::{
    lemma_render_all, lemma_render_pixel, pixel_count, spec_frame, spec_rendered_on,
    spec_write_pixel, write_pixel,
};
use crate::raymarcher::{lemma_frame_size, Raymarcher};
use crate::vector::Vec3;

verus! {

/// What a worker sends for pixel `i`: its column, its row and its colour.
pub open spec fn spec_pixel_message(rm: Raymarcher, i: int) -> (u32, u32, Vec3) {
    ((i % (rm.width as int)) as u32, (i / (rm.width as int)) as u32, rm.spec_pixel_at(i))
}

/// The messages of a whole frame, in the order of the pixels.
pub open spec fn spec_pixel_messages(rm: Raymarcher) -> Seq<(u32, u32, Vec3)> {
    Seq::new(rm.spec_pixel_count() as nat, |i: int| spec_pixel_message(rm, i))
}

/// The index of the pixel that a message is for.
pub open spec fn spec_message_index(width: int, m: (u32, u32, Vec3)) -> int {
    m.1 * width + m.0
}

/// The buffer after the first `n` of the messages have been written to it.
pub open spec fn spec_deliver(
    width: int,
    buf: Seq<u8>,
    msgs: Seq<(u32, u32, Vec3)>,
    n: nat,
) -> Seq<u8>
    decreases n,
{
    if n == 0 {
        buf
    } else {
        spec_write_pixel(
            spec_deliver(width, buf, msgs, (n - 1) as nat),
            spec_message_index(width, msgs[n - 1]),
            msgs[n - 1].2,
        )
    }
}

/// The pixels that the first `n` of the messages are for.
pub open spec fn spec_delivered(width: int, msgs: Seq<(u32, u32, Vec3)>, n: nat) -> Set<int>
    decreases n,
{
    if n == 0 {
        Set::empty()
    } else {
        spec_delivered(width, msgs, (n - 1) as nat).insert(spec_message_index(width, msgs[n - 1]))
    }
}

/// The message for pixel `i` is for pixel `i`.
pub proof fn lemma_message_index(rm: Raymarcher, i: int)
    requires
        rm.wf(),
        0 <= i < rm.spec_pixel_count(),
    ensures
        spec_message_index(rm.width as int, spec_pixel_message(rm, i)) == i,
        spec_pixel_message(rm, i).0 < rm.width,
{
    let w = rm.width as int;
    assert(0 <= i % w < w && 0 <= i / w <= i && (i / w) * w + i % w == i) by (nonlinear_arith)
        requires
            0 <= i,
            w > 0,
    ;
    lemma_frame_size(rm);
}

/// A message that occurs among the first `n` has had its pixel delivered.
pub proof fn lemma_delivered_contains(width: int, msgs: Seq<(u32, u32, Vec3)>, n: nat, j: int)
    requires
        0 <= j < n <= msgs.len(),
    ensures
        spec_delivered(width, msgs, n).contains(spec_message_index(width, msgs[j])),
    decreases n,
{
    if j < n - 1 {
        lemma_delivered_contains(width, msgs, (n - 1) as nat, j);
    }
}

/// Whether every one of the messages is the message of some pixel of the
/// frame.
pub open spec fn spec_all_genuine(rm: Raymarcher, msgs: Seq<(u32, u32, Vec3)>) -> bool {
    forall|j: int| 0 <= j < msgs.len() ==> spec_pixel_messages(rm).contains(#[trigger] msgs[j])
}

/// Writing genuine messages renders just the pixels they are for.
pub proof fn lemma_deliver_renders(
    rm: Raymarcher,
    before: Seq<u8>,
    msgs: Seq<(u32, u32, Vec3)>,
    n: nat,
)
    requires
        rm.wf(),
        before.len() == 4 * rm.spec_pixel_count(),
        spec_all_genuine(rm, msgs),
        n <= msgs.len(),
    ensures
        spec_deliver(rm.width as int, before, msgs, n) == spec_rendered_on(
            rm,
            before,
            spec_delivered(rm.width as int, msgs, n),
        ),
    decreases n,
{
    let w = rm.width as int;
    if n == 0 {
        assert(spec_rendered_on(rm, before, Set::<int>::empty()) =~= before);
    } else {
        let m = msgs[n - 1];
        lemma_deliver_renders(rm, before, msgs, (n - 1) as nat);
        assert(spec_pixel_messages(rm).contains(m));
        let i = choose|i: int|
            0 <= i < spec_pixel_messages(rm).len() && spec_pixel_messages(rm)[i] == m;
        lemma_message_index(rm, i);
        lemma_render_pixel(rm, before, spec_delivered(w, msgs, (n - 1) as nat), i);
    }
}

/// The messages of a frame, written in whatever order they arrive, give the
/// same frame as rendering it pixel by pixel.
pub proof fn lemma_delivery_gives_frame(
    rm: Raymarcher,
    before: Seq<u8>,
    msgs: Seq<(u32, u32, Vec3)>,
)
    requires
        rm.wf(),
        before.len() == 4 * rm.spec_pixel_count(),
        msgs.to_multiset() == spec_pixel_messages(rm).to_multiset(),
    ensures
        spec_all_genuine(rm, msgs),
        spec_deliver(rm.width as int, before, msgs, msgs.len()) == spec_frame(rm, before),
{
    let w = rm.width as int;
    let all = spec_pixel_messages(rm);
    lemma_same_members(msgs, all);
    assert forall|j: int| 0 <= j < msgs.len() implies all.contains(#[trigger] msgs[j]) by {
        assert(msgs.contains(msgs[j]));
    }
    lemma_deliver_renders(rm, before, msgs, msgs.len());
    let done = spec_delivered(w, msgs, msgs.len());
    assert forall|i: int| 0 <= i && 4 * i < before.len() implies done.contains(i) by {
        assert(all.contains(all[i]));
        assert(msgs.contains(all[i]));
        let j = choose|j: int| 0 <= j < msgs.len() && msgs[j] == all[i];
        lemma_delivered_contains(w, msgs, msgs.len(), j);
        lemma_message_index(rm, i);
    }
    lemma_render_all(rm, before, done);
}

/// Two sequences that hold the same items equally often have the same
/// members.
pub proof fn lemma_same_members<A>(a: Seq<A>, b: Seq<A>)
    requires
        a.to_multiset() == b.to_multiset(),
    ensures
        forall|x: A| a.contains(x) <==> b.contains(x),
{
    a.to_multiset_ensures();
    b.to_multiset_ensures();
    assert forall|x: A| a.contains(x) <==> b.contains(x) by {
        assert(a.contains(x) <==> a.to_multiset().count(x) > 0);
        assert(b.contains(x) <==> b.to_multiset().count(x) > 0);
    }
}

/// What a worker sends for pixel `i`: its column, its row and its colour.
pub fn pixel_message(rm: &Raymarcher, i: u32) -> (m: (u32, u32, Vec3))
    requires
        rm.wf(),
    ensures
        m == spec_pixel_message(*rm, i as int),
{
    let x: u32 = i % rm.width;
    let y: u32 = i / rm.width;
    (x, y, rm.pixel_color(x, y))
}

/// Computes the message of every pixel on the workers and collects what
/// they send, in the order of arrival.
///
/// Calls rayon's `into_par_iter` and `for_each_with` over a channel of
/// `std::sync::mpsc`. Believed of them: `pixel_message` is run once for each
/// index below `count` and for nothing else, every message sent arrives
/// once, and the receiver ends when the workers are done. Nothing is
/// claimed of the order.
#[verifier::external_body]
fn fan_out_pixels(rm: &Raymarcher, count: u32) -> (msgs: Vec<(u32, u32, Vec3)>)
    requires
        rm.wf(),
        count == rm.spec_pixel_count(),
    ensures
        msgs@.to_multiset() == spec_pixel_messages(*rm).to_multiset(),
{
    let (tx, rx) = std::sync::mpsc::channel();
    (0..count).into_par_iter().for_each_with(
        tx,
        |sender, i| { sender.send(pixel_message(rm, i)).unwrap() },
    );
    rx.into_iter().collect()
}

/// Whether every one of the messages is for a pixel of the frame.
pub open spec fn spec_all_within(rm: Raymarcher, msgs: Seq<(u32, u32, Vec3)>) -> bool {
    forall|j: int|
        0 <= j < msgs.len() ==> (#[trigger] msgs[j]).0 < rm.width && msgs[j].1 < rm.height
}

/// Genuine messages are for pixels of the frame.
pub proof fn lemma_genuine_are_within(rm: Raymarcher, msgs: Seq<(u32, u32, Vec3)>)
    requires
        rm.wf(),
        spec_all_genuine(rm, msgs),
    ensures
        spec_all_within(rm, msgs),
{
    assert forall|j: int| 0 <= j < msgs.len() implies (#[trigger] msgs[j]).0 < rm.width
        && msgs[j].1 < rm.height by {
        let all = spec_pixel_messages(rm);
        assert(all.contains(msgs[j]));
        let i = choose|i: int| 0 <= i < all.len() && all[i] == msgs[j];
        lemma_message_index(rm, i);
        let w = rm.width as int;
        assert(i / w < rm.height) by (nonlinear_arith)
            requires
                0 <= i < w * rm.height,
                w > 0,
        ;
    }
}

/// The pixel at column `x` of row `y` of a frame has an index within the
/// frame.
pub proof fn lemma_index_within(width: int, height: int, x: int, y: int)
    by (nonlinear_arith)
    requires
        0 <= x < width,
        0 <= y < height,
    ensures
        0 <= y * width + x < width * height,
{
    assert((y + 1) * width <= height * width);
}

/// Writes the messages to the buffer in the order given.
pub fn write_messages(rm: &Raymarcher, pixels: &mut [u8], msgs: &Vec<(u32, u32, Vec3)>)
    requires
        rm.wf(),
        old(pixels)@.len() == 4 * rm.spec_pixel_count(),
        spec_all_within(*rm, msgs@),
    ensures
        final(pixels)@ == spec_deliver(rm.width as int, old(pixels)@, msgs@, msgs@.len()),
{
    let ghost before = pixels@;
    let n: usize = msgs.len();
    let mut j: usize = 0;
    while j < n
        invariant
            rm.wf(),
            j <= n == msgs@.len(),
            pixels@.len() == 4 * rm.spec_pixel_count(),
            spec_all_within(*rm, msgs@),
            pixels@ == spec_deliver(rm.width as int, before, msgs@, j as nat),
        decreases n - j,
    {
        let m = msgs[j];
        proof {
            lemma_index_within(rm.width as int, rm.height as int, m.0 as int, m.1 as int);
        }
        write_pixel(pixels, rm.width, m.0, m.1, m.2);
        j = j + 1;
    }
}

/// Renders the frame by letting the workers send each pixel to the calling
/// thread, which alone writes to the buffer.
pub fn draw_multi_threaded_mspc(rm: &Raymarcher, pixels: &mut [u8])
    requires
        rm.wf(),
        old(pixels)@.len() == 4 * rm.spec_pixel_count(),
    ensures
        final(pixels)@ == spec_frame(*rm, old(pixels)@),
{
    let count: u32 = pixel_count(rm);
    let msgs = fan_out_pixels(rm, count);
    proof {
        lemma_delivery_gives_frame(*rm, pixels@, msgs@);
        lemma_genuine_are_within(*rm, msgs@);
    }
    write_messages(rm, pixels, &msgs);
}

} // verus!
