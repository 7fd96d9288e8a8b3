use vstd::prelude::*;

verus! {

/// A framebuffer: the address where its pixels start, its size in pixels,
/// and the pixels of one of its lines in memory.
#[derive(Debug, Clone, Copy, PartialEq, Eq, Structural)]
pub struct Framebuffer {
    /// The address of the first pixel.
    pub pointer: u64,
    /// The width in pixels.
    pub width: u32,
    /// The height in pixels.
    pub height: u32,
    /// The pixels of a line in memory; at least the width.
    pub pixels_per_scanline: u32,
}

} // verus!
