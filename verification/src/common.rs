//! Values shared by the whole renderer.

use vstd::prelude::*;

verus! {

/// The size of the canvas, in pixels.
#[derive(Copy, Clone, Debug, PartialEq, Eq, Structural)]
pub struct Resolution {
    pub width: u32,
    pub height: u32,
}

impl Resolution {
    /// A resolution from a `(width, height)` pair.
    pub fn new(pair: (u32, u32)) -> (res: Self)
        ensures
            res.width == pair.0,
            res.height == pair.1,
    {
        Resolution { width: pair.0, height: pair.1 }
    }

    /// The number of pixels of the canvas, which is the length of its depth
    /// buffer.
    pub open spec fn area(&self) -> nat {
        (self.width * self.height) as nat
    }

    /// The number of pixels of the canvas.
    pub fn pixel_count(&self) -> (n: u64)
        ensures
            n == self.area(),
    {
        assert(self.width * self.height <= 0xffff_ffff * 0xffff_ffff) by (nonlinear_arith)
            requires
                self.width <= 0xffff_ffff,
                self.height <= 0xffff_ffff,
        ;
        self.width as u64 * self.height as u64
    }
}

impl From<(u32, u32)> for Resolution {
    fn from(pair: (u32, u32)) -> (res: Resolution) {
        Resolution { width: pair.0, height: pair.1 }
    }
}

impl vstd::std_specs::convert::FromSpecImpl<(u32, u32)> for Resolution {
    open spec fn obeys_from_spec() -> bool {
        true
    }

    open spec fn from_spec(pair: (u32, u32)) -> Resolution {
        Resolution { width: pair.0, height: pair.1 }
    }
}

impl<'a> From<&'a Resolution> for Resolution {
    fn from(res: &'a Resolution) -> (copy: Resolution) {
        *res
    }
}

impl<'a> vstd::std_specs::convert::FromSpecImpl<&'a Resolution> for Resolution {
    open spec fn obeys_from_spec() -> bool {
        true
    }

    open spec fn from_spec(res: &'a Resolution) -> Resolution {
        *res
    }
}

impl Default for Resolution {
    /// 1024 pixels by 768.
    fn default() -> (res: Resolution)
        ensures
            res.width == 1024,
            res.height == 768,
    {
        Resolution { width: 1024, height: 768 }
    }
}

} // verus!
