//! One finished glyph: its code point, bounding box, advance and a
//! decoded bitmap holding one byte per pixel, row-major, `0` or `1`.
use vstd::prelude::*;

use crate::geometry::BoundingBox;

verus! {

/// A decoded glyph. Immutable once assembled: the bitmap holds
/// `size.x * size.y` bytes, one per pixel in row-major order.
#[derive(Clone, Debug, PartialEq, Eq)]
pub struct Glyph {
    pub code_point: i32,
    pub encoding: Option<char>,
    pub bitmap: Vec<u8>,
    pub bounding_box: BoundingBox,
    pub shift_x: i32,
    pub shift_y: i32,
    pub tile_index: i32,
}

impl Glyph {
    /// The bitmap really is one byte per pixel of the bounding box.
    pub open spec fn wf(self) -> bool {
        &&& self.bounding_box.size.x >= 0
        &&& self.bounding_box.size.y >= 0
        &&& self.bitmap@.len() == self.bounding_box.size.x * self.bounding_box.size.y
    }

    /// Whether the pixel at column `x` of row `y` is set.
    pub fn pixel(&self, x: usize, y: usize) -> (r: bool)
        requires
            self.wf(),
            x < self.bounding_box.size.x,
            y < self.bounding_box.size.y,
        ensures
            r == (self.bitmap@[y * self.bounding_box.size.x + x] != 0),
    {
        let w: usize = self.bounding_box.size.x as usize;
        let n: usize = self.bitmap.len();
        proof {
            let gw = self.bounding_box.size.x as int;
            let gh = self.bounding_box.size.y as int;
            assert(0 <= y * gw + x < gw * gh) by (nonlinear_arith)
                requires
                    0 <= x < gw,
                    0 <= y < gh,
            ;
            assert(gw * gh == n);
        }
        self.bitmap[y * w + x] != 0
    }
}

} // verus!
