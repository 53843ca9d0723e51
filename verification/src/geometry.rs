//! Solved rectangles, measured content sizes and the viewport size.

use vstd::prelude::*;

verus! {

/// The solved rectangle of an entity, with its paint order.
#[derive(Clone, Copy, Debug, PartialEq, Eq, Structural)]
pub struct ElementBox {
    pub x: i32,
    pub y: i32,
    pub z: i32,
    pub width: u32,
    pub height: u32,
}

impl ElementBox {
    /// The right edge as a mathematical integer: `x + width`.
    pub open spec fn right_edge(self) -> int {
        self.x + self.width
    }

    /// The bottom edge as a mathematical integer: `y + height`.
    pub open spec fn bottom_edge(self) -> int {
        self.y + self.height
    }

    /// Whether the point lies in the rectangle, all four sides included.
    pub open spec fn covers(self, px: int, py: int) -> bool {
        &&& self.x <= px <= self.right_edge()
        &&& self.y <= py <= self.bottom_edge()
    }

    /// The zeroed rectangle every entity starts with.
    pub open spec fn zeroed() -> ElementBox {
        ElementBox { x: 0, y: 0, z: 0, width: 0, height: 0 }
    }

    pub fn new() -> (b: ElementBox)
        ensures
            b == ElementBox::zeroed(),
    {
        ElementBox { x: 0, y: 0, z: 0, width: 0, height: 0 }
    }

    pub fn left(&self) -> (r: i32)
        ensures
            r == self.x,
    {
        self.x
    }

    /// The right edge. It is returned in 64 bits because `x + width` does not
    /// always fit in 32.
    pub fn right(&self) -> (r: i64)
        ensures
            r == self.right_edge(),
    {
        self.x as i64 + self.width as i64
    }

    pub fn top(&self) -> (r: i32)
        ensures
            r == self.y,
    {
        self.y
    }

    /// The bottom edge, in 64 bits for the same reason as `right`.
    pub fn bottom(&self) -> (r: i64)
        ensures
            r == self.bottom_edge(),
    {
        self.y as i64 + self.height as i64
    }

    pub fn z_index(&self) -> (r: i32)
        ensures
            r == self.z,
    {
        self.z
    }

    /// Point-in-rectangle test with inclusive bounds on all four sides.
    pub fn contains_point(&self, px: i32, py: i32) -> (inside: bool)
        ensures
            inside == self.covers(px as int, py as int),
    {
        self.x <= px && self.right() >= px as i64 && self.y <= py && self.bottom() >= py as i64
    }
}

/// The natural size of an entity's rendered payload.
#[derive(Clone, Copy, Debug, PartialEq, Eq, Structural)]
pub struct ContentSize {
    pub width: u32,
    pub height: u32,
}

impl ContentSize {
    pub fn new() -> (c: ContentSize)
        ensures
            c == (ContentSize { width: 0, height: 0 }),
    {
        ContentSize { width: 0, height: 0 }
    }

    /// The smallest size that holds both `self` and a `width` by `height`
    /// measurement.
    pub open spec fn grown(self, width: u32, height: u32) -> ContentSize {
        ContentSize {
            width: if width > self.width { width } else { self.width },
            height: if height > self.height { height } else { self.height },
        }
    }

    /// Folds one more measurement into the size, keeping the maximum of each
    /// dimension.
    pub fn absorb(&self, width: u32, height: u32) -> (c: ContentSize)
        ensures
            c == self.grown(width, height),
    {
        ContentSize {
            width: if width > self.width { width } else { self.width },
            height: if height > self.height { height } else { self.height },
        }
    }
}

/// The size of the viewport in pixels.
#[derive(Clone, Copy, Debug, PartialEq, Eq, Structural)]
pub struct WindowSize {
    pub width: u32,
    pub height: u32,
}

impl Default for WindowSize {
    fn default() -> (w: WindowSize)
        ensures
            w == (WindowSize { width: 0, height: 0 }),
    {
        WindowSize { width: 0, height: 0 }
    }
}

} // verus!
