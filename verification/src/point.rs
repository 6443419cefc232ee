//! A generic pair of coordinates.

use vstd::prelude::*;

verus! {

/// Two values of one type, named `x` and `y`.
#[derive(Debug, Clone, PartialEq)]
pub struct Point<T> {
    pub x: T,
    pub y: T,
}

impl<T> Point<T> {
    /// Builds the point with the given coordinates.
    pub fn new(x: T, y: T) -> (point: Self)
        ensures
            point.x == x,
            point.y == y,
    {
        Point { x, y }
    }
}

} // verus!
