//! Graphics helpers: the color palette, drawn points and the geometry of
//! drawn shapes.

pub mod colors;

use crate::color::Rgb565;
use vstd::prelude::*;

verus! {

/// A point to draw: coordinates (which may lie off the display) and a color.
#[derive(Clone, Copy, Debug, PartialEq, Eq)]
pub struct Pixel {
    pub x: i32,
    pub y: i32,
    pub color: Rgb565,
}

/// The square that bounds the circle drawn around (`center_x`,
/// `center_y`) with radius `radius`: its top-left corner (the center moved
/// up and left by the radius) and its side, the diameter (twice the
/// radius). Shapes are drawn by `embedded-graphics` from this square.
pub fn circle_bounding_box(center_x: i32, center_y: i32, radius: u32) -> (r: (i32, i32, u32))
    requires
        radius <= i32::MAX,
        center_x - radius >= i32::MIN,
        center_y - radius >= i32::MIN,
    ensures
        r.0 == center_x - radius,
        r.1 == center_y - radius,
        r.2 == 2 * radius,
{
    let r = radius as i32;
    (center_x - r, center_y - r, radius * 2)
}

} // verus!
