//! The choice among the ways of rendering a frame.

use vstd::prelude::*;
use crate::chunks::{draw_custom_multi_line_chunkmut, draw_multi_threaded_chunkmut};
use crate::config::Threading;
use crate::frame::{draw_single_threaded, spec_frame};
use crate::lines::draw_multi_threaded_line_mspc;
use crate::messages::draw_multi_threaded_mspc;
use crate::raymarcher::Raymarcher;

verus! {

impl Raymarcher {
    /// Renders the frame into `pixels` in the way that the renderer's choices
    /// name. Every way gives the same frame.
    pub fn draw(&self, pixels: &mut [u8])
        requires
            self.wf(),
            old(pixels)@.len() == 4 * self.spec_pixel_count(),
        ensures
            final(pixels)@ == spec_frame(*self, old(pixels)@),
    {
        match self.config.threading {
            Threading::Single => draw_single_threaded(self, pixels),
            Threading::MSPC => draw_multi_threaded_mspc(self, pixels),
            Threading::LineMSPC(size) => draw_multi_threaded_line_mspc(self, pixels, size),
            Threading::ChunkMut() => draw_multi_threaded_chunkmut(self, pixels),
            Threading::LineChunkMut(size) => draw_custom_multi_line_chunkmut(self, pixels, size),
        }
    }
}

} // verus!
