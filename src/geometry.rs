use vstd::prelude::*;

verus! {

/// Whether a value fits in an `i32`.
pub open spec fn fits_i32(v: int) -> bool {
    i32::MIN <= v <= i32::MAX
}

/// A rectangle on the screen: origin, width and height in pixels.
#[derive(Clone, Copy, Debug, PartialEq, Eq, Structural)]
pub struct Rect {
    pub x: i32,
    pub y: i32,
    pub w: i32,
    pub h: i32,
}

impl Rect {
    pub fn new(x: i32, y: i32, w: i32, h: i32) -> (r: Rect)
        ensures
            r == (Rect { x, y, w, h }),
    {
        Rect { x, y, w, h }
    }

    /// The rectangle has exactly the given origin and size.
    pub open spec fn is(self, g: (int, int, int, int)) -> bool {
        self.x == g.0 && self.y == g.1 && self.w == g.2 && self.h == g.3
    }
}

/// A geometry command: the client with this id is moved and resized to `rect`.
#[derive(Clone, Copy, Debug, PartialEq, Eq, Structural)]
pub struct Placement {
    pub client: usize,
    pub rect: Rect,
}

} // verus!
