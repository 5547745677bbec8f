//! Pixel-space geometry primitives: an unsigned 2D vector whose subtraction
//! saturates at zero, and the dimensions of an output window.

use vstd::prelude::*;

verus! {

/// A 2D pixel coordinate or extent. Subtraction saturates at zero
/// component-wise, so offsets near the buffer edge never wrap below zero.
#[derive(Clone, Copy, Debug, PartialEq, Eq, Structural)]
pub struct Vector2u32 {
    pub x: u32,
    pub y: u32,
}

impl Vector2u32 {
    /// Both components set to the same value.
    pub fn new(value: u32) -> (r: Vector2u32)
        ensures
            r.x == value,
            r.y == value,
    {
        Vector2u32 { x: value, y: value }
    }

    /// Ordinary component-wise sum. The caller must rule out overflow.
    pub fn add(self, other: Vector2u32) -> (r: Vector2u32)
        requires
            self.x + other.x <= u32::MAX,
            self.y + other.y <= u32::MAX,
        ensures
            r.x == self.x + other.x,
            r.y == self.y + other.y,
    {
        Vector2u32 { x: self.x + other.x, y: self.y + other.y }
    }

    /// Component-wise difference, saturating at zero: the result never wraps
    /// below zero.
    pub fn sub(self, other: Vector2u32) -> (r: Vector2u32)
        ensures
            r.x == if self.x >= other.x { self.x - other.x } else { 0 },
            r.y == if self.y >= other.y { self.y - other.y } else { 0 },
    {
        Vector2u32 {
            x: if self.x >= other.x { self.x - other.x } else { 0 },
            y: if self.y >= other.y { self.y - other.y } else { 0 },
        }
    }
}

/// The pixel dimensions of an output window.
pub struct WindowDimensions {
    pub width: u32,
    pub height: u32,
}

} // verus!
