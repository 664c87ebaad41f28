use vstd::prelude::*;
use crate::vec3::Vec3Bits;

verus! {

/// A diffuse material: it scatters light in random directions about the
/// surface normal and tints it by its albedo.
#[derive(Clone, Copy, Debug, PartialEq, Eq, Structural)]
pub struct Lambertian {
    pub albedo: Vec3Bits,
}

impl Lambertian {
    pub fn new(albedo: Vec3Bits) -> (m: Self)
        ensures
            m.albedo == albedo,
    {
        Self { albedo }
    }
}

/// A light source: it emits its colour and scatters nothing.
#[derive(Clone, Copy, Debug, PartialEq, Eq, Structural)]
pub struct Emissive {
    pub color: Vec3Bits,
}

impl Emissive {
    pub fn new(color: Vec3Bits) -> (m: Self)
        ensures
            m.color == color,
    {
        Self { color }
    }
}

} // verus!
