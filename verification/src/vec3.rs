use vstd::prelude::*;

verus! {

/// A vector of three IEEE-754 double-precision numbers (a colour, a position
/// or a direction), held by their bit patterns. The library stores such
/// vectors and hands them on unchanged; it does no arithmetic on them.
#[derive(Clone, Copy, Debug, PartialEq, Eq, Structural)]
pub struct Vec3Bits {
    pub x: u64,
    pub y: u64,
    pub z: u64,
}

impl Vec3Bits {
    pub fn new(x: u64, y: u64, z: u64) -> (v: Vec3Bits)
        ensures
            v == (Vec3Bits { x, y, z }),
    {
        Vec3Bits { x, y, z }
    }
}

} // verus!
