//! Bit flags for the placement of content within a box.

use vstd::prelude::*;

verus! {

/// Aligned at the left edge.
pub const LEFT: i32 = 8;

/// Aligned at the top edge.
pub const TOP: i32 = 4;

/// Aligned at the right edge.
pub const RIGHT: i32 = 2;

/// Aligned at the bottom edge.
pub const BOTTOM: i32 = 1;

/// Centred between left and right.
pub const CENTER: i32 = 16;

/// Centred between top and bottom.
pub const MIDDLE: i32 = 32;

} // verus!
