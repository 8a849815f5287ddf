//! Fixed numbers of the compositing engine.

use vstd::prelude::*;

verus! {

/// Largest value of an 8-bit channel.
pub const MAX_CHANNEL_U8: u8 = 255;

/// Side of the square canvas on which every frame is composed. It is large
/// enough to hold any part at any offset that the tables use.
pub const CANVAS_SIZE: u32 = 2000;

/// The canvas position that the tables' coordinates take as their origin.
pub const HALF_CANVAS: u32 = CANVAS_SIZE / 2;

/// Full opacity on the scale from zero to one.
pub const ALPHA_OPAQUE_U8: u8 = 1;

/// The alpha of a fully transparent pixel.
pub const ALPHA_TRANSPARENT_U8: u8 = 0;

/// Added to the width and height of a unit's frame rectangle, so that soft
/// edges are not clipped.
pub const FRAME_PADDING: u32 = 10;

/// Frame delays are counted in units of `1 / DEFAULT_FPS` seconds.
pub const DEFAULT_FPS: u16 = 60;

} // verus!
