//! The output canvas: its resolution and frame rate.
use vstd::prelude::*;
use crate::frame::{Frame, frame_len};

verus! {

/// The composited output's resolution and frame rate.
pub struct Canvas {
    pub width: u32,
    pub height: u32,
    pub fps: u32,
}

impl Canvas {
    pub fn new(width: u32, height: u32, fps: u32) -> (c: Self)
        ensures
            c.width == width,
            c.height == height,
            c.fps == fps,
    {
        Canvas { width, height, fps }
    }

    /// A fresh black frame at the canvas resolution.
    pub fn blank_frame(&self) -> (f: Frame)
        requires
            frame_len(self.width as int, self.height as int) <= u32::MAX,
        ensures
            f.wf(),
            f.width == self.width,
            f.height == self.height,
            forall|k: int| 0 <= k < f.data@.len() ==> f.data@[k] == 0,
    {
        Frame::new_black(self.width, self.height)
    }
}

} // verus!
