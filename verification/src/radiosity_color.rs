//! Material data attached to a voxel cell.

use vstd::prelude::*;

verus! {

/// An 8-bit-per-channel RGBA color.
#[derive(Clone, Copy, Debug, PartialEq, Eq, Structural)]
pub struct Rgba8 {
    pub r: u8,
    pub g: u8,
    pub b: u8,
    pub a: u8,
}

/// A voxel cell's surface color together with how strongly it emits light.
/// The emission is a fixed-point brightness seeded equally into all three
/// channels of the faces generated for the cell.
#[derive(Clone, Copy, Debug, PartialEq, Eq, Structural)]
pub struct RadiosityColor {
    pub color: Rgba8,
    pub emission: i64,
}

} // verus!
