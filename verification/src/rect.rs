//! Axis-aligned bounding boxes in pixel coordinates.

use vstd::prelude::*;

verus! {

/// An axis-aligned region of a pixel grid, in coordinates relative to the
/// grid it was computed against.
#[derive(Clone, Copy, Debug, PartialEq, Eq, Structural)]
pub struct RegionRect {
    pub x: usize,
    pub y: usize,
    pub width: usize,
    pub height: usize,
}

impl RegionRect {
    /// The containment invariant: a region has positive dimensions and lies
    /// fully inside a parent grid of the given size.
    pub open spec fn valid_for(self, parent_width: int, parent_height: int) -> bool {
        &&& self.width > 0
        &&& self.height > 0
        &&& self.x + self.width <= parent_width
        &&& self.y + self.height <= parent_height
    }

    /// Whether the coordinate `(x, y)` lies inside this region.
    pub open spec fn covers(self, x: int, y: int) -> bool {
        self.x <= x < self.x + self.width && self.y <= y < self.y + self.height
    }

    /// Checks the containment invariant against a parent grid of the given
    /// size.
    pub fn is_valid_for(&self, parent_width: usize, parent_height: usize) -> (r: bool)
        ensures
            r == self.valid_for(parent_width as int, parent_height as int),
    {
        self.width > 0 && self.height > 0 && self.width <= parent_width
            && self.x <= parent_width - self.width && self.height <= parent_height
            && self.y <= parent_height - self.height
    }
}

} // verus!
