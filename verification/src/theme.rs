//! The palette: warm dark neutrals and a terracotta accent. Colours are written
//! `0xRRGGBB`, and `0xRRGGBBAA` where they are translucent.
use vstd::prelude::*;

verus! {

/// Window background: a warm near-black.
pub fn bg() -> (r: u32)
    ensures
        r == 0x262624,
{
    0x262624
}

/// Raised surfaces: toolbars, chips.
pub fn surface() -> (r: u32)
    ensures
        r == 0x30302e,
{
    0x30302e
}

/// A surface under the pointer.
pub fn surface_hover() -> (r: u32)
    ensures
        r == 0x3a3a37,
{
    0x3a3a37
}

/// Hairline borders.
pub fn border() -> (r: u32)
    ensures
        r == 0x3d3d3a,
{
    0x3d3d3a
}

/// Primary text: a warm off-white.
pub fn text() -> (r: u32)
    ensures
        r == 0xf5f4ee,
{
    0xf5f4ee
}

/// Secondary text.
pub fn text_muted() -> (r: u32)
    ensures
        r == 0xa6a39a,
{
    0xa6a39a
}

/// The terracotta accent.
pub fn accent() -> (r: u32)
    ensures
        r == 0xd97757,
{
    0xd97757
}

/// The accent under the pointer.
pub fn accent_hover() -> (r: u32)
    ensures
        r == 0xe08b6d,
{
    0xe08b6d
}

/// What dims the picture around a selection, with its opacity.
pub fn scrim() -> (r: u32)
    ensures
        r == 0x1a1917a8,
{
    0x1a1917a8
}

/// The translucent fill of a selection, with its opacity.
pub fn accent_fill() -> (r: u32)
    ensures
        r == 0xd9775722,
{
    0xd9775722
}

} // verus!
