//! RGB565 colors, stored as the 16-bit word that the panel receives.

use embedded_graphics::pixelcolor::IntoStorage;
use vstd::prelude::*;

verus! {

/// The 16-bit word of an RGB565 color with the given channels: five bits of
/// red at the top, six bits of green, five bits of blue at the bottom. Bits
/// above a channel's width are dropped.
pub open spec fn rgb565_pack(r: u8, g: u8, b: u8) -> u16 {
    (((r & 0x1f) as u16) << 11u16) | (((g & 0x3f) as u16) << 5u16) | ((b & 0x1f) as u16)
}

/// Red channel (five bits) of an RGB565 word.
pub open spec fn red_of(raw: u16) -> u8 {
    ((raw >> 11u16) & 0x1f) as u8
}

/// Green channel (six bits) of an RGB565 word.
pub open spec fn green_of(raw: u16) -> u8 {
    ((raw >> 5u16) & 0x3f) as u8
}

/// Blue channel (five bits) of an RGB565 word.
pub open spec fn blue_of(raw: u16) -> u8 {
    (raw & 0x1f) as u8
}

/// Splitting a word into its channels and packing them again gives the word back.
pub proof fn lemma_unpack_pack(raw: u16)
    ensures
        rgb565_pack(red_of(raw), green_of(raw), blue_of(raw)) == raw,
{
    assert(((((((raw >> 11u16) & 0x1f) as u8) & 0x1f) as u16) << 11u16) | ((((((raw >> 5u16)
        & 0x3f) as u8) & 0x3f) as u16) << 5u16) | (((((raw & 0x1f) as u8) & 0x1f) as u16))
        == raw) by (bit_vector);
}

/// Law: packing channels and reading them back gives each channel cut to
/// its width (five bits of red and blue, six of green).
pub proof fn lemma_pack_unpack(r: u8, g: u8, b: u8)
    ensures
        red_of(rgb565_pack(r, g, b)) == r & 0x1f,
        green_of(rgb565_pack(r, g, b)) == g & 0x3f,
        blue_of(rgb565_pack(r, g, b)) == b & 0x1f,
{
    assert((((((((r & 0x1f) as u16) << 11u16) | (((g & 0x3f) as u16) << 5u16) | ((b & 0x1f) as u16)) >> 11u16)
        & 0x1f) as u8) == r & 0x1f) by (bit_vector);
    assert((((((((r & 0x1f) as u16) << 11u16) | (((g & 0x3f) as u16) << 5u16) | ((b & 0x1f) as u16)) >> 5u16)
        & 0x3f) as u8) == g & 0x3f) by (bit_vector);
    assert(((((((r & 0x1f) as u16) << 11u16) | (((g & 0x3f) as u16) << 5u16) | ((b & 0x1f) as u16)) & 0x1f) as u8)
        == b & 0x1f) by (bit_vector);
}

/// `embedded_graphics`' `Rgb565::new(r, g, b)`, returned as its raw storage
/// (`IntoStorage::into_storage`). Trusted, as that crate's source shows it:
/// each channel is masked to its width (5, 6, 5 bits) and the channels are
/// packed red-high, blue-low.
#[verifier::external_body]
fn storage_of_channels(r: u8, g: u8, b: u8) -> (raw: u16)
    ensures
        raw == rgb565_pack(r, g, b),
{
    embedded_graphics::pixelcolor::Rgb565::new(r, g, b).into_storage()
}

/// An RGB565 color. Its view is the 16-bit word sent to the panel.
#[derive(Clone, Copy, Debug, PartialEq, Eq, Structural)]
pub struct Rgb565 {
    raw: u16,
}

impl View for Rgb565 {
    type V = u16;

    closed spec fn view(&self) -> u16 {
        self.raw
    }
}

impl Rgb565 {
    /// A color from its channels; channel bits above 5 (red, blue) or 6
    /// (green) are dropped.
    pub fn new(r: u8, g: u8, b: u8) -> (c: Rgb565)
        ensures
            c@ == rgb565_pack(r, g, b),
    {
        Rgb565 { raw: storage_of_channels(r, g, b) }
    }

    /// The color whose 16-bit word is `raw`.
    pub fn from_storage(raw: u16) -> (c: Rgb565)
        ensures
            c@ == raw,
    {
        Rgb565 { raw }
    }

    /// The 16-bit word of this color.
    pub fn into_storage(&self) -> (raw: u16)
        ensures
            raw == self@,
    {
        self.raw
    }

    /// Law: two colors are the same value exactly when their words are equal.
    pub proof fn lemma_view_injective(a: Rgb565, b: Rgb565)
        ensures
            (a@ == b@) == (a == b),
    {
    }
}

} // verus!
