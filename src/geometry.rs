use vstd::prelude::*;
use crate::color::Color;

verus! {

/// A point in surface coordinates; either coordinate may be negative.
#[derive(Debug, PartialEq, Eq, Structural, Copy, Clone)]
pub struct Point {
    pub x: i32,
    pub y: i32,
}

/// A width and height in pixels.
#[derive(Debug, PartialEq, Eq, Structural, Copy, Clone)]
pub struct Size {
    pub width: u32,
    pub height: u32,
}

/// An axis-aligned rectangle: `top_left` and the `size` pixels to its right and below.
#[derive(Debug, PartialEq, Eq, Structural, Copy, Clone)]
pub struct Rectangle {
    pub top_left: Point,
    pub size: Size,
}

/// One pixel write: a position and the color to put there.
#[derive(Debug, PartialEq, Eq, Structural, Copy, Clone)]
pub struct Pixel {
    pub point: Point,
    pub color: Color,
}

impl Rectangle {
    /// Whether the rectangle covers the point `(x, y)`.
    pub open spec fn contains(self, x: int, y: int) -> bool {
        &&& self.top_left.x <= x < self.top_left.x + self.size.width
        &&& self.top_left.y <= y < self.top_left.y + self.size.height
    }
}

} // verus!
