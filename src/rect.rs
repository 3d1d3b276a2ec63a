use vstd::prelude::*;

verus! {

/// An axis-aligned rectangle given by its side lengths.
#[derive(Debug, Clone, Copy, PartialEq, Eq, Structural)]
pub struct Rectangle {
    pub width: u32,
    pub height: u32,
}

/// The area of a rectangle with the given sides, as a mathematical integer.
pub open spec fn area_of(width: u32, height: u32) -> int {
    width * height
}

impl Rectangle {
    /// The area of `self`; the product must fit in a `u32`.
    pub fn area(&self) -> (r: u32)
        requires
            area_of(self.width, self.height) <= u32::MAX,
        ensures
            r == area_of(self.width, self.height),
    {
        self.width * self.height
    }
}

/// The area of `rectangle`, as a free function.
pub fn area(rectangle: &Rectangle) -> (r: u32)
    requires
        area_of(rectangle.width, rectangle.height) <= u32::MAX,
    ensures
        r == area_of(rectangle.width, rectangle.height),
{
    rectangle.width * rectangle.height
}

} // verus!
