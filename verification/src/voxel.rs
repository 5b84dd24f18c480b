//! The voxel: one cell of a grid, empty or solid with a color.

use vstd::prelude::*;
use vstd::std_specs::cmp::PartialEqSpecImpl;

verus! {

/// An RGB color, one byte per channel.
#[derive(Clone, Copy, Debug, PartialEq, Eq, Structural)]
pub struct Color {
    pub r: u8,
    pub g: u8,
    pub b: u8,
}

impl Color {
    /// The color with the given channels.
    pub fn new(r: u8, g: u8, b: u8) -> (c: Color)
        ensures
            c == (Color { r, g, b }),
    {
        Color { r, g, b }
    }
}

/// One cell of a grid.
#[derive(Clone, Copy, Debug)]
pub enum Voxel {
    Empty,
    Solid(Color),
}

impl PartialEq for Voxel {
    /// Two voxels are equal when both are empty or both are solid with the
    /// same color.
    fn eq(&self, other: &Self) -> (r: bool) {
        match (self, other) {
            (Voxel::Empty, Voxel::Empty) => true,
            (Voxel::Solid(a), Voxel::Solid(b)) => *a == *b,
            _ => false,
        }
    }
}

impl PartialEqSpecImpl for Voxel {
    /// `==` on voxels means what `eq_spec` says.
    open spec fn obeys_eq_spec() -> bool {
        true
    }

    /// Two voxels are equal when they are the same value: both empty, or
    /// both solid with the same color.
    open spec fn eq_spec(&self, other: &Self) -> bool {
        *self == *other
    }
}

impl Eq for Voxel {

}

} // verus!
