use vstd::prelude::*;

verus! {

/// Sub-units per world unit: positions carry ten fractional bits.
pub const UNIT: i64 = 1024;

/// Edge length of one grid cell, in sub-units (64 world units).
pub const SQUARE_SZ: i64 = 65536;

/// Largest number of cells a grid may have along either axis.
pub const MAX_CELLS: usize = 4096;

/// Largest extent of a grid along either axis, in sub-units: `MAX_CELLS`
/// cells.
pub const MAX_EXTENT: i64 = 268435456;

/// Largest magnitude of a direction component.
pub const MAX_DIR: i64 = 281474976710656;

/// Largest number of pixels a screen may have along either axis.
pub const MAX_SCREEN: usize = 4096;

} // verus!
