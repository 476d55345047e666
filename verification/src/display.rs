//! The dimensions of the display that text is laid out for.

use vstd::prelude::*;

verus! {

/// The display's width and height in pixels. Their quotient is the aspect
/// ratio.
#[derive(Clone, Copy, Debug, PartialEq, Eq, Structural)]
pub struct Display {
    pub w: u32,
    pub h: u32,
}

impl Display {
    /// A display of 640 by 480 pixels.
    pub fn new() -> (d: Self)
        ensures
            d.w == 640,
            d.h == 480,
    {
        Self { w: 640, h: 480 }
    }

    /// Width and height.
    pub fn dimensions(&self) -> (r: (u32, u32))
        ensures
            r == (self.w, self.h),
    {
        (self.w, self.h)
    }

    /// Takes new dimensions.
    pub fn update_size(&mut self, dimensions: (u32, u32))
        ensures
            final(self).w == dimensions.0,
            final(self).h == dimensions.1,
    {
        let (w, h) = dimensions;
        self.w = w;
        self.h = h;
    }
}

} // verus!
