use vstd::prelude::*;
use crate::vec3::Vec3Bits;

verus! {

/// A triangle with corners `a`, `b`, `c` and a material, named by its index
/// among the scene's materials.
#[derive(Clone, Copy, Debug, PartialEq, Eq, Structural)]
pub struct Triangle {
    pub a: Vec3Bits,
    pub b: Vec3Bits,
    pub c: Vec3Bits,
    pub material: usize,
}

impl Triangle {
    pub fn new(a: Vec3Bits, b: Vec3Bits, c: Vec3Bits, material: usize) -> (t: Self)
        ensures
            t == (Triangle { a, b, c, material }),
    {
        Self { a, b, c, material }
    }
}

} // verus!
