//! Default output and render options.

use vstd::prelude::*;

verus! {

/// Default output image width in pixels.
pub const WIDTH: usize = 320;

/// Default output image height in pixels.
pub const HEIGHT: usize = 240;

/// Number of bits per channel; values besides 8 are unsupported.
pub const BITS: u32 = 8;

/// Default maximum number of reflections off an object.
pub const MAX_REFLECTIONS: u32 = 3;

} // verus!
