//! Plain coordinate and rectangle types shared by the decoded font and
//! its glyphs.
use vstd::prelude::*;

verus! {

/// A point or extent in glyph space.
#[derive(Clone, Copy, Debug, PartialEq, Eq, Structural)]
pub struct Coord {
    pub x: i32,
    pub y: i32,
}

impl Coord {
    /// Pairs the two components into a coordinate.
    pub fn new(x: i32, y: i32) -> (r: Coord)
        ensures
            r == (Coord { x, y }),
    {
        Coord { x, y }
    }
}

/// A rectangle in baseline-relative, Y-up coordinates: `size` is its
/// extent and `offset` the position of its lower-left corner.
#[derive(Clone, Copy, Debug, PartialEq, Eq, Structural)]
pub struct BoundingBox {
    pub size: Coord,
    pub offset: Coord,
}

} // verus!
