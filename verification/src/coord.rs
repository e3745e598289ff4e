//! Integer voxel coordinates.
use vstd::prelude::*;

verus! {

/// A position in index space: one voxel per integer triple.
#[derive(Clone, Copy, Debug, PartialEq, Eq, Structural)]
pub struct Coord {
    pub x: i32,
    pub y: i32,
    pub z: i32,
}

impl Coord {
    /// Builds the coordinate `(x, y, z)`.
    pub fn new(x: i32, y: i32, z: i32) -> (r: Coord)
        ensures
            r.x == x,
            r.y == y,
            r.z == z,
    {
        Coord { x, y, z }
    }
}

} // verus!
