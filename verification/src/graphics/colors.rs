//! Color palette for the display, as the RGB565 words of the colors
//! (`Rgb565::from_storage` turns a word into a color).

use vstd::prelude::*;

verus! {

/// Black: no red, green or blue.
pub const BLACK: u16 = 0x0000;

/// White: every channel at its maximum.
pub const WHITE: u16 = 0xffff;

/// Red: red channel at its maximum.
pub const RED: u16 = 0xf800;

/// Green: green channel at its maximum.
pub const GREEN: u16 = 0x07e0;

/// Blue: blue channel at its maximum.
pub const BLUE: u16 = 0x001f;

/// Yellow: red and green at their maximum.
pub const YELLOW: u16 = 0xffe0;

/// Magenta: red and blue at their maximum.
pub const MAGENTA: u16 = 0xf81f;

/// Cyan: green and blue at their maximum.
pub const CYAN: u16 = 0x07ff;

} // verus!
