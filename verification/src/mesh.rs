use vstd::prelude::*;

verus! {

use crate::builder::GeomView;
use crate::builder::build_meshlets;
use crate::builder::built_meshlets;
use crate::builder::geom_bounded;
use crate::builder::geoms_view;
use crate::builder::meshlets_globals;
use crate::builder::meshlets_wf;
use crate::cache::cache_optimized_order;
use crate::cache::optimize_vertex_cache;
use crate::dedup::deduplicate;
use crate::distinct::first_index_of;
use crate::distinct::first_occurrences;
use crate::error::MeshError;
use crate::fetch::fetch_ordered_vertices;
use crate::fetch::optimize_vertex_fetch;
use crate::loader::MeshSource;
use crate::loader::SourceView;
use crate::loader::build_corner_stream;
use crate::loader::corner_in_range;
use crate::loader::corners_in_range;
use crate::loader::gathered_stream;
use crate::meshlet::MAX_MESHLET_TRIANGLES;
use crate::meshlet::MAX_MESHLET_VERTICES;
use crate::meshlet::Meshlet;
use crate::overdraw::OVERDRAW_THRESHOLD_HUNDREDTHS;
use crate::overdraw::optimize_overdraw;
use crate::overdraw::overdraw_ordered;
use crate::pack::geom_region;
use crate::pack::lemma_meshlet_records_index;
use crate::pack::lemma_meshlet_records_len;
use crate::pack::lemma_pack_round_trip;
use crate::pack::lemma_packed_data_built_len;
use crate::pack::lemma_packed_data_region;
use crate::pack::lemma_packed_data_take_le;
use crate::pack::meshlet_records;
use crate::pack::pack_meshlets;
use crate::pack::packed_data;
use crate::pack::unpacked_corner;
use crate::pack::word_count;
use crate::triangles::lemma_map_values_multiset;
use crate::triangles::triangle_list;
use crate::vertex::Vertex;

/// The pipeline's output: a deduplicated, fetch-ordered vertex buffer,
/// the bounded meshlet records, and the shared packed meshlet data —
/// exactly the three buffers a mesh-shading renderer uploads to the GPU.
#[derive(Debug)]
pub struct Mesh {
    pub vertices: Vec<Vertex>,
    pub meshlets: Vec<Meshlet>,
    pub meshlet_data: Vec<u32>,
}

/// The mathematical content of a `Mesh`.
#[verifier::ext_equal]
pub ghost struct MeshView {
    pub vertices: Seq<Vertex>,
    pub meshlets: Seq<Meshlet>,
    pub meshlet_data: Seq<u32>,
}

impl View for Mesh {
    type V = MeshView;

    open spec fn view(&self) -> MeshView {
        MeshView {
            vertices: self.vertices@,
            meshlets: self.meshlets@,
            meshlet_data: self.meshlet_data@,
        }
    }
}

/// Is a source acceptable: whole triangles only, and every corner inside
/// the attribute arrays.
pub open spec fn source_ok(s: SourceView) -> bool {
    &&& s.indices.len() % 3 == 0
    &&& corners_in_range(s)
}

/// The deduplicated vertex buffer of a source.
pub open spec fn spec_dedup_vertices(s: SourceView) -> Seq<Vertex> {
    first_occurrences(gathered_stream(s))
}

/// The remapped index buffer right after deduplication.
pub open spec fn spec_dedup_indices(s: SourceView) -> Seq<u32> {
    Seq::new(
        s.indices.len(),
        |i: int| first_index_of(spec_dedup_vertices(s), gathered_stream(s)[i]) as u32,
    )
}

/// The index buffer after the vertex-cache pass.
pub open spec fn spec_cache_indices(s: SourceView) -> Seq<u32> {
    cache_optimized_order(spec_dedup_indices(s), spec_dedup_vertices(s).len() as int)
}

/// The index buffer after the overdraw pass.
pub open spec fn spec_overdraw_indices(s: SourceView) -> Seq<u32> {
    overdraw_ordered(spec_dedup_vertices(s), spec_cache_indices(s), OVERDRAW_THRESHOLD_HUNDREDTHS)
}

/// The final vertex buffer, physically reordered to first-use order.
pub open spec fn spec_vertices(s: SourceView) -> Seq<Vertex> {
    fetch_ordered_vertices(spec_dedup_vertices(s), spec_overdraw_indices(s))
}

/// The final, renumbered index buffer: the optimized triangle list.
pub open spec fn spec_indices(s: SourceView) -> Seq<u32> {
    Seq::new(
        spec_overdraw_indices(s).len(),
        |i: int|
            first_index_of(
                first_occurrences(spec_overdraw_indices(s)),
                spec_overdraw_indices(s)[i],
            ) as u32,
    )
}

/// The meshlets the builder cuts the final triangle list into.
pub open spec fn spec_meshlets(s: SourceView) -> Seq<GeomView> {
    built_meshlets(triangle_list(spec_indices(s)))
}

/// What the whole pipeline returns for an acceptable source.
pub open spec fn spec_mesh(s: SourceView) -> MeshView {
    MeshView {
        vertices: spec_vertices(s),
        meshlets: meshlet_records(spec_meshlets(s)),
        meshlet_data: packed_data(spec_meshlets(s)),
    }
}

/// Triangle `t` resolved to the vertex records its corners name.
pub open spec fn tri_record(verts: Seq<Vertex>, t: (u32, u32, u32)) -> (Vertex, Vertex, Vertex) {
    (verts[t.0 as int], verts[t.1 as int], verts[t.2 as int])
}

/// A triangle list resolved to vertex records.
pub open spec fn tri_records(verts: Seq<Vertex>, ts: Seq<(u32, u32, u32)>) -> Seq<
    (Vertex, Vertex, Vertex),
> {
    ts.map_values(|t: (u32, u32, u32)| tri_record(verts, t))
}

/// The source's triangles as the interleaved records of their corners,
/// straight from the gathered per-corner stream.
pub open spec fn source_triangles(s: SourceView) -> Seq<(Vertex, Vertex, Vertex)> {
    Seq::new(
        s.indices.len() / 3,
        |i: int|
            (
                gathered_stream(s)[3 * i],
                gathered_stream(s)[3 * i + 1],
                gathered_stream(s)[3 * i + 2],
            ),
    )
}

/// Local triangle corner `j` of record `r`, read back from the packed
/// words of the shared data buffer.
pub open spec fn record_corner(m: MeshView, r: Meshlet, j: int) -> u32 {
    unpacked_corner(m.meshlet_data, r.data_offset + r.vertex_count, j)
}

/// One meshlet record against the buffers it points into: both hardware
/// caps hold, its region lies inside the shared data buffer, its vertex
/// part references only real vertices, and every triangle corner read
/// back from the packed words stays inside its own vertex list.
pub open spec fn meshlet_record_ok(m: MeshView, r: Meshlet) -> bool {
    &&& 1 <= r.vertex_count <= MAX_MESHLET_VERTICES
    &&& 1 <= r.triangle_count <= MAX_MESHLET_TRIANGLES
    &&& r.data_offset + r.vertex_count + (3 * r.triangle_count + 3) / 4 <= m.meshlet_data.len()
    &&& forall|p: int|
        r.data_offset <= p < r.data_offset + r.vertex_count ==> #[trigger] m.meshlet_data[p]
            < m.vertices.len()
    &&& forall|j: int|
        0 <= j < 3 * r.triangle_count ==> #[trigger] record_corner(m, r, j) < r.vertex_count
}

/// Well-formedness of a finished mesh: every record is sound, and the
/// data offsets grow meshlet by meshlet, the first one at zero.
pub open spec fn mesh_wf(m: MeshView) -> bool {
    &&& forall|k: int| 0 <= k < m.meshlets.len() ==> meshlet_record_ok(m, #[trigger] m.meshlets[k])
    &&& forall|k: int|
        0 <= k && k + 1 < m.meshlets.len() ==> (#[trigger] m.meshlets[k + 1]).data_offset
            == m.meshlets[k].data_offset + m.meshlets[k].vertex_count + (3 * m.meshlets[k].triangle_count
            + 3) / 4
    &&& m.meshlets.len() > 0 ==> m.meshlets[0].data_offset == 0
}

/// Records and data packed from well-formed meshlets make a well-formed
/// mesh over the vertex buffer they were built against.
pub proof fn lemma_packed_mesh_wf(verts: Seq<Vertex>, ms: Seq<GeomView>)
    requires
        meshlets_wf(ms, verts.len() as int),
        packed_data(ms).len() <= u32::MAX,
    ensures
        mesh_wf(
            (MeshView { vertices: verts, meshlets: meshlet_records(ms), meshlet_data: packed_data(ms) }),
        ),
{
    let m = MeshView { vertices: verts, meshlets: meshlet_records(ms), meshlet_data: packed_data(ms) };
    lemma_meshlet_records_len(ms);
    assert forall|k: int| 0 <= k < m.meshlets.len() implies meshlet_record_ok(
        m,
        #[trigger] m.meshlets[k],
    ) by {
        lemma_meshlet_records_index(ms, k);
        lemma_packed_data_region(ms, k);
        lemma_packed_data_take_le(ms, k);
        lemma_pack_round_trip(ms[k]);
        let g = ms[k];
        let r = m.meshlets[k];
        assert(geom_bounded(g));
        assert(3 * (g.corners.len() / 3) == g.corners.len());
        assert(r.data_offset == packed_data(ms.take(k)).len());
        assert(r.vertex_count == g.vertices.len());
        assert(r.triangle_count == g.corners.len() / 3);
        assert(geom_region(g).len() == g.vertices.len() + word_count(g.corners));
        assert forall|p: int|
            r.data_offset <= p < r.data_offset + r.vertex_count implies #[trigger] m.meshlet_data[p]
            < m.vertices.len() by {
            let i = p - r.data_offset;
            assert(geom_region(g)[i] == g.vertices[i]);
            assert(packed_data(ms)[packed_data(ms.take(k)).len() + i] == geom_region(g)[i]);
        }
        assert forall|j: int| 0 <= j < 3 * r.triangle_count implies #[trigger] record_corner(
            m,
            r,
            j,
        ) < r.vertex_count by {
            assert((j + 4) / 4 == j / 4 + 1);
            assert(0 <= j / 4 < word_count(g.corners));
            let p = g.vertices.len() + j / 4;
            assert(packed_data(ms)[packed_data(ms.take(k)).len() + p] == geom_region(g)[p]);
            assert(record_corner(m, r, j) == unpacked_corner(
                geom_region(g),
                g.vertices.len() as int,
                j,
            ));
            assert(unpacked_corner(geom_region(g), g.vertices.len() as int, j) == g.corners[j]);
        }
    }
    assert forall|k: int| 0 <= k && k + 1 < m.meshlets.len() implies (#[trigger] m.meshlets[k
        + 1]).data_offset == m.meshlets[k].data_offset + m.meshlets[k].vertex_count + (3
        * m.meshlets[k].triangle_count + 3) / 4 by {
        lemma_meshlet_records_index(ms, k);
        lemma_meshlet_records_index(ms, k + 1);
        lemma_packed_data_take_le(ms, k + 1);
        assert(ms.take(k + 1).drop_last() =~= ms.take(k));
        assert(ms.take(k + 1).last() == ms[k]);
        assert(geom_bounded(ms[k]));
        assert(3 * (ms[k].corners.len() / 3) == ms[k].corners.len());
        assert(geom_region(ms[k]).len() == ms[k].vertices.len() + word_count(ms[k].corners));
    }
    if m.meshlets.len() > 0 {
        lemma_meshlet_records_index(ms, 0);
        assert(ms.take(0) =~= Seq::<GeomView>::empty());
    }
}

/// The triangle corners of record `r` read back from its data region and
/// resolved through its own vertex list to global vertex indices.
pub open spec fn record_globals(m: MeshView, r: Meshlet) -> Seq<u32> {
    Seq::new(
        (3 * r.triangle_count) as nat,
        |j: int| m.meshlet_data[r.data_offset + record_corner(m, r, j)],
    )
}

/// The triangles of the first `k` meshlet records, decoded from the data
/// regions alone, record by record.
pub open spec fn decoded_globals_upto(m: MeshView, k: int) -> Seq<u32>
    decreases k,
{
    if k <= 0 {
        Seq::empty()
    } else {
        decoded_globals_upto(m, k - 1) + record_globals(m, m.meshlets[k - 1])
    }
}

/// All triangles of a mesh, decoded from its meshlet data regions alone.
pub open spec fn decoded_globals(m: MeshView) -> Seq<u32> {
    decoded_globals_upto(m, m.meshlets.len() as int)
}

proof fn lemma_decoded_globals_upto(verts: Seq<Vertex>, ms: Seq<GeomView>, k: int)
    requires
        meshlets_wf(ms, verts.len() as int),
        packed_data(ms).len() <= u32::MAX,
        0 <= k <= ms.len(),
    ensures
        decoded_globals_upto(
            (MeshView { vertices: verts, meshlets: meshlet_records(ms), meshlet_data: packed_data(ms) }),
            k,
        ) == meshlets_globals(ms.take(k)),
    decreases k,
{
    let m = MeshView { vertices: verts, meshlets: meshlet_records(ms), meshlet_data: packed_data(ms) };
    lemma_meshlet_records_len(ms);
    if k == 0 {
        assert(ms.take(0) =~= Seq::<GeomView>::empty());
        assert(meshlets_globals(ms.take(0)) =~= Seq::<u32>::empty());
    } else {
        lemma_decoded_globals_upto(verts, ms, k - 1);
        assert(ms.take(k).drop_last() =~= ms.take(k - 1));
        assert(ms.take(k).last() == ms[k - 1]);
        lemma_meshlet_records_index(ms, k - 1);
        lemma_packed_data_region(ms, k - 1);
        lemma_packed_data_take_le(ms, k - 1);
        lemma_pack_round_trip(ms[k - 1]);
        let g = ms[k - 1];
        let r = m.meshlets[k - 1];
        assert(geom_bounded(g));
        assert(3 * (g.corners.len() / 3) == g.corners.len());
        assert(r.data_offset == packed_data(ms.take(k - 1)).len());
        assert(geom_region(g).len() == g.vertices.len() + word_count(g.corners));
        assert forall|j: int| 0 <= j < 3 * r.triangle_count implies #[trigger] record_globals(
            m,
            r,
        )[j] == crate::builder::geom_globals(g)[j] by {
            assert((j + 4) / 4 == j / 4 + 1);
            assert(0 <= j / 4 < word_count(g.corners));
            let p = g.vertices.len() + j / 4;
            assert(packed_data(ms)[packed_data(ms.take(k - 1)).len() + p] == geom_region(g)[p]);
            assert(record_corner(m, r, j) == unpacked_corner(
                geom_region(g),
                g.vertices.len() as int,
                j,
            ));
            assert(record_corner(m, r, j) == g.corners[j]);
            let c = g.corners[j] as int;
            assert(packed_data(ms)[packed_data(ms.take(k - 1)).len() + c] == geom_region(g)[c]);
            assert(geom_region(g)[c] == g.vertices[c]);
        }
        assert(record_globals(m, r) =~= crate::builder::geom_globals(g));
    }
}

/// Coverage: the triangles read back from all meshlet data regions are
/// exactly the meshlets' triangles, in order — so together with the
/// builder's guarantee they are the full optimized triangle list, each
/// triangle in exactly one meshlet.
pub proof fn lemma_decoded_coverage(verts: Seq<Vertex>, ms: Seq<GeomView>)
    requires
        meshlets_wf(ms, verts.len() as int),
        packed_data(ms).len() <= u32::MAX,
    ensures
        decoded_globals(
            (MeshView { vertices: verts, meshlets: meshlet_records(ms), meshlet_data: packed_data(ms) }),
        ) == meshlets_globals(ms),
{
    lemma_meshlet_records_len(ms);
    lemma_decoded_globals_upto(verts, ms, ms.len() as int);
    assert(ms.take(ms.len() as int) =~= ms);
}

/// Determinism: the pipeline's result is a mathematical function of the
/// source data, so two runs on identical sources yield identical vertex,
/// meshlet and meshlet-data buffers.
pub proof fn lemma_pipeline_deterministic(a: SourceView, b: SourceView)
    requires
        a == b,
    ensures
        spec_mesh(a) == spec_mesh(b),
{
}

impl Mesh {
    /// Run the whole conversion pipeline on a parsed mesh description:
    /// gather the per-corner stream, deduplicate it, optimize the
    /// triangle order for the vertex cache and for overdraw, reorder the
    /// vertices for fetch locality, cut the triangles into bounded
    /// meshlets and pack them into the shared data buffer.
    ///
    /// Fails exactly on unacceptable input: an index count that is not a
    /// multiple of three, or a corner whose attribute indices leave the
    /// attribute arrays; no partial mesh is returned.
    pub fn new(source: &MeshSource) -> (r: Result<Mesh, MeshError>)
        requires
            source@.indices.len() * 2 <= u32::MAX,
        ensures
            match r {
                Ok(m) => {
                    &&& source_ok(source@)
                    &&& m@ == spec_mesh(source@)
                    &&& mesh_wf(m@)
                    &&& meshlets_globals(spec_meshlets(source@)) == spec_indices(source@)
                    &&& decoded_globals(m@) == spec_indices(source@)
                    &&& tri_records(
                        m@.vertices,
                        triangle_list(spec_indices(source@)),
                    ).to_multiset() == source_triangles(source@).to_multiset()
                },
                Err(e) => {
                    &&& !source_ok(source@)
                    &&& if source@.indices.len() % 3 != 0 {
                        e matches MeshError::NotTriangulated { index_count } && index_count
                            == source@.indices.len()
                    } else {
                        e matches MeshError::AttributeOutOfRange { corner: c } && {
                            &&& 0 <= c < source@.indices.len()
                            &&& !corner_in_range(source@, source@.indices[c as int])
                            &&& forall|k: int|
                                0 <= k < c ==> corner_in_range(
                                    source@,
                                    #[trigger] source@.indices[k],
                                )
                        }
                    }
                },
            },
    {
        if source.indices.len() % 3 != 0 {
            return Err(MeshError::NotTriangulated { index_count: source.indices.len() });
        }
        let raw = match build_corner_stream(source) {
            Ok(v) => v,
            Err(e) => {
                return Err(e);
            },
        };
        let (verts, indices) = deduplicate(&raw);
        proof {
            assert(verts@ == spec_dedup_vertices(source@));
            assert(indices@ =~= spec_dedup_indices(source@));
        }
        let cache_idx = optimize_vertex_cache(&indices, verts.len());
        proof {
            assert(cache_idx@ == spec_cache_indices(source@));
        }
        let od_idx = optimize_overdraw(&verts, &cache_idx, OVERDRAW_THRESHOLD_HUNDREDTHS);
        proof {
            assert(od_idx@ == spec_overdraw_indices(source@));
        }
        let (final_verts, final_idx) = optimize_vertex_fetch(&verts, &od_idx);
        proof {
            assert(final_verts@ == spec_vertices(source@));
            assert(final_idx@ =~= spec_indices(source@));
            let dv = verts@;
            let f = |t: (u32, u32, u32)| tri_record(dv, t);
            assert(tri_records(dv, triangle_list(indices@)) =~= source_triangles(source@)) by {
                assert forall|i: int|
                    0 <= i < triangle_list(indices@).len() implies #[trigger] tri_records(
                    dv,
                    triangle_list(indices@),
                )[i] == source_triangles(source@)[i] by {
                    assert(indices@.len() == 3 * (indices@.len() / 3));
                    assert(triangle_list(indices@)[i] == (
                        indices@[3 * i],
                        indices@[3 * i + 1],
                        indices@[3 * i + 2],
                    ));
                    assert(dv[indices@[3 * i] as int] == raw@[3 * i]);
                    assert(dv[indices@[3 * i + 1] as int] == raw@[3 * i + 1]);
                    assert(dv[indices@[3 * i + 2] as int] == raw@[3 * i + 2]);
                }
            }
            assert(tri_records(dv, triangle_list(cache_idx@)) =~= triangle_list(
                cache_idx@,
            ).map_values(f));
            assert(tri_records(dv, triangle_list(indices@)) =~= triangle_list(
                indices@,
            ).map_values(f));
            assert(tri_records(dv, triangle_list(od_idx@)) =~= triangle_list(od_idx@).map_values(
                f,
            ));
            lemma_map_values_multiset(triangle_list(cache_idx@), triangle_list(indices@), f);
            lemma_map_values_multiset(triangle_list(od_idx@), triangle_list(cache_idx@), f);
            assert(tri_records(final_verts@, triangle_list(final_idx@)) =~= tri_records(
                dv,
                triangle_list(od_idx@),
            )) by {
                assert forall|i: int|
                    0 <= i < triangle_list(final_idx@).len() implies #[trigger] tri_records(
                    final_verts@,
                    triangle_list(final_idx@),
                )[i] == tri_records(dv, triangle_list(od_idx@))[i] by {
                    assert(od_idx@.len() == 3 * (od_idx@.len() / 3));
                    assert(triangle_list(final_idx@)[i] == (
                        final_idx@[3 * i],
                        final_idx@[3 * i + 1],
                        final_idx@[3 * i + 2],
                    ));
                    assert(final_verts@[final_idx@[3 * i] as int] == dv[od_idx@[3 * i] as int]);
                    assert(final_verts@[final_idx@[3 * i + 1] as int] == dv[od_idx@[3 * i
                        + 1] as int]);
                    assert(final_verts@[final_idx@[3 * i + 2] as int] == dv[od_idx@[3 * i
                        + 2] as int]);
                }
            }
            assert(tri_records(final_verts@, triangle_list(final_idx@)).to_multiset()
                == source_triangles(source@).to_multiset());
        }
        let geoms = build_meshlets(&final_idx, final_verts.len());
        proof {
            assert(geoms_view(geoms@) == spec_meshlets(source@));
            assert forall|k: int| 0 <= k < geoms@.len() implies geom_bounded(
                #[trigger] geoms_view(geoms@)[k],
            ) by {
                assert(crate::builder::geom_wf(
                    geoms_view(geoms@)[k],
                    final_verts@.len() as int,
                ));
            }
            lemma_packed_data_built_len(triangle_list(final_idx@));
            assert(packed_data(geoms_view(geoms@)).len() <= u32::MAX) by {
                let tl = final_idx@.len() as int;
                assert(triangle_list(final_idx@).len() == tl / 3);
                assert(tl == 3 * (tl / 3));
                assert(5 * (tl / 3) <= 2 * tl);
            }
        }
        let (meshlets, meshlet_data) = pack_meshlets(&geoms);
        proof {
            lemma_packed_mesh_wf(final_verts@, geoms_view(geoms@));
            lemma_decoded_coverage(final_verts@, geoms_view(geoms@));
        }
        Ok(Mesh { vertices: final_verts, meshlets, meshlet_data })
    }
}

} // verus!
