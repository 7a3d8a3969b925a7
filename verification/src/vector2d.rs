//! A pair of coordinates.

use vstd::prelude::*;

verus! {

/// A point or an offset in the plane: `x` grows to the right, `y` downward.
#[derive(Debug, Clone, Copy, PartialEq, Eq, Structural)]
pub struct Vector2D<T> {
    pub x: T,
    pub y: T,
}

impl<T> Vector2D<T> {
    pub fn new(x: T, y: T) -> (v: Self)
        ensures
            v.x == x,
            v.y == y,
    {
        Self { x, y }
    }
}

impl Vector2D<i8> {
    /// The sum of two vectors, coordinate by coordinate.
    pub fn add(self, other: Self) -> (v: Self)
        requires
            i8::MIN <= self.x + other.x <= i8::MAX,
            i8::MIN <= self.y + other.y <= i8::MAX,
        ensures
            v.x == self.x + other.x,
            v.y == self.y + other.y,
    {
        Vector2D::new(self.x + other.x, self.y + other.y)
    }

    /// Adds `other` to this vector, coordinate by coordinate.
    pub fn add_assign(&mut self, other: Self)
        requires
            i8::MIN <= old(self).x + other.x <= i8::MAX,
            i8::MIN <= old(self).y + other.y <= i8::MAX,
        ensures
            final(self).x == old(self).x + other.x,
            final(self).y == old(self).y + other.y,
    {
        self.x += other.x;
        self.y += other.y;
    }
}

} // verus!
