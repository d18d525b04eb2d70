use vstd::prelude::*;

verus! {

/// Hard cap on the number of distinct vertices one meshlet may reference,
/// imposed by the mesh-shader workgroup size.
pub const MAX_MESHLET_VERTICES: u32 = 64;

/// Hard cap on the number of triangles one meshlet may hold.
pub const MAX_MESHLET_TRIANGLES: u32 = 124;

/// One meshlet record, as laid out in the GPU-visible meshlet buffer.
///
/// `data_offset` is an index (not a byte offset) into the shared meshlet
/// data buffer; the region `[data_offset, data_offset + vertex_count)`
/// holds this meshlet's global vertex indices, and the words after it hold
/// its packed triangle corners.
#[derive(Clone, Copy, Debug, Default, PartialEq, Eq, Structural)]
pub struct Meshlet {
    pub data_offset: u32,
    pub vertex_count: u32,
    pub triangle_count: u32,
}

impl Meshlet {
    pub fn new(data_offset: u32, vertex_count: u32, triangle_count: u32) -> (m: Self)
        ensures
            m == (Meshlet { data_offset, vertex_count, triangle_count }),
    {
        Meshlet { data_offset, vertex_count, triangle_count }
    }
}

} // verus!
