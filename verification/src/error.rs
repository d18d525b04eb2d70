use vstd::prelude::*;

verus! {

/// Why a mesh description was rejected.
///
/// Every failure of the pipeline is a property of the input data alone;
/// there are no transient errors and no retries.
#[derive(Clone, Copy, Debug, PartialEq, Eq, Structural)]
pub enum MeshError {
    /// Corner `corner` of the index list references an attribute entry
    /// outside one of the attribute arrays. `corner` is the first corner
    /// for which that happens.
    AttributeOutOfRange { corner: usize },
    /// The number of corner indices is not a multiple of three, so the
    /// input is not a list of triangles.
    NotTriangulated { index_count: usize },
}

} // verus!
