//! Canvas dimensions as reported by the server.

use vstd::prelude::*;

verus! {

/// Width and height of the remote canvas, in pixels.
#[derive(Clone, Copy, Debug)]
pub struct Window {
    pub x_width: usize,
    pub y_height: usize,
}

impl Window {
    /// The canvas width.
    pub fn get_x(&self) -> (w: usize)
        ensures
            w == self.x_width,
    {
        self.x_width
    }

    /// The canvas height.
    pub fn get_y(&self) -> (h: usize)
        ensures
            h == self.y_height,
    {
        self.y_height
    }
}

} // verus!
