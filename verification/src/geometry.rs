//! Plain geometry values that drawing works with.

use vstd::prelude::*;

verus! {

/// A point of the drawing plane, `x` to the right and `y` downwards.
#[derive(Clone, Copy, Debug, PartialEq, Eq, Structural)]
pub struct Point {
    pub x: i32,
    pub y: i32,
}

/// A size in pixels.
#[derive(Clone, Copy, Debug, PartialEq, Eq, Structural)]
pub struct Size {
    pub width: u32,
    pub height: u32,
}

/// An axis aligned rectangle given by its top left corner and its size.
#[derive(Clone, Copy, Debug, PartialEq, Eq, Structural)]
pub struct Rectangle {
    pub top_left: Point,
    pub size: Size,
}

/// The two colours of a black and white panel.
#[derive(Clone, Copy, Debug, PartialEq, Eq, Structural)]
pub enum BinaryColor {
    Off,
    On,
}

/// A pixel to draw: where, and in which colour.
#[derive(Clone, Copy, Debug, PartialEq, Eq, Structural)]
pub struct Pixel(pub Point, pub BinaryColor);

} // verus!
