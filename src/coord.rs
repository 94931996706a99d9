use vstd::prelude::*;

verus! {

/// A pixel position on the screen: `x` grows to the right, `y` grows downward.
#[derive(Copy, Clone, PartialEq, Eq, Debug, Structural)]
pub struct ScreenCoord {
    pub x: i32,
    pub y: i32,
}

impl ScreenCoord {
    pub fn new(x: i32, y: i32) -> (r: Self)
        ensures
            r.x == x,
            r.y == y,
    {
        ScreenCoord { x, y }
    }
}

} // verus!
