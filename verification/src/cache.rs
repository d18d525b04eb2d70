use vstd::prelude::*;

verus! {

use crate::triangles::triangle_list;

/// The index order that the meshoptimizer vertex-cache optimizer returns
/// for a given index list and vertex count. The algorithm is a
/// deterministic function of these two arguments alone, so the order can
/// be given a name even though stating it exactly would mean restating
/// the whole scoring heuristic.
pub uninterp spec fn cache_optimized_order(indices: Seq<u32>, vertex_count: int) -> Seq<u32>;

/// Relies on meshopt::optimize_vertex_cache (meshoptimizer's
/// meshopt_optimizeVertexCache): it emits every input triangle exactly
/// once, corners kept in order within each triangle, choosing the
/// triangle order so that successive triangles reuse recently shaded
/// vertices; every output index is copied from the input.
#[verifier::external_body]
fn cache_optimized_extern(indices: &Vec<u32>, vertex_count: usize) -> (r: Vec<u32>)
    requires
        indices@.len() % 3 == 0,
        forall|i: int| 0 <= i < indices@.len() ==> indices@[i] < vertex_count,
    ensures
        r@ == cache_optimized_order(indices@, vertex_count as int),
        r@.len() == indices@.len(),
        triangle_list(r@).to_multiset() == triangle_list(indices@).to_multiset(),
        forall|i: int| 0 <= i < r@.len() ==> r@[i] < vertex_count,
{
    meshopt::optimize_vertex_cache(indices.as_slice(), vertex_count)
}

/// Vertex-cache optimization: reorder whole triangles (never the corners
/// inside one) to maximize reuse of a small hardware vertex cache during
/// sequential traversal. The triangles afterwards are exactly the
/// triangles before, each exactly once.
pub fn optimize_vertex_cache(indices: &Vec<u32>, vertex_count: usize) -> (r: Vec<u32>)
    requires
        indices@.len() % 3 == 0,
        forall|i: int| 0 <= i < indices@.len() ==> indices@[i] < vertex_count,
    ensures
        r@ == cache_optimized_order(indices@, vertex_count as int),
        r@.len() == indices@.len(),
        r@.len() % 3 == 0,
        triangle_list(r@).to_multiset() == triangle_list(indices@).to_multiset(),
        forall|i: int| 0 <= i < r@.len() ==> r@[i] < vertex_count,
{
    cache_optimized_extern(indices, vertex_count)
}

} // verus!
