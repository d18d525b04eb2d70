use vstd::prelude::*;

verus! {

/// Raw bit patterns of a 3-component attribute (a position or a normal).
///
/// The pipeline never interprets attribute scalars numerically: it only
/// moves them around and compares them bit for bit, so each component is
/// kept as the 32-bit pattern it had in the source data. This also makes
/// vertex equality exact, with no tolerance.
#[derive(Clone, Copy, Debug, PartialEq, Eq, Structural)]
pub struct Vec3Bits {
    pub x: u32,
    pub y: u32,
    pub z: u32,
}

/// Raw bit patterns of a 2-component attribute (a texture coordinate).
#[derive(Clone, Copy, Debug, PartialEq, Eq, Structural)]
pub struct Vec2Bits {
    pub x: u32,
    pub y: u32,
}

/// One interleaved mesh vertex: position, texture coordinate and normal,
/// one record per face corner before deduplication.
#[derive(Clone, Copy, Debug, PartialEq, Eq, Structural)]
pub struct Vertex {
    pub position: Vec3Bits,
    pub tex_coord: Vec2Bits,
    pub normal: Vec3Bits,
}

impl Vertex {
    pub fn new(position: Vec3Bits, tex_coord: Vec2Bits, normal: Vec3Bits) -> (v: Self)
        ensures
            v == (Vertex { position, tex_coord, normal }),
    {
        Vertex { position, tex_coord, normal }
    }
}

} // verus!
