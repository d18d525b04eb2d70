use vstd::prelude::*;

verus! {

use crate::error::MeshError;
use crate::vertex::Vec2Bits;
use crate::vertex::Vec3Bits;
use crate::vertex::Vertex;

/// One polygon corner of the source mesh: independent indices into the
/// position, texture-coordinate and normal arrays.
#[derive(Clone, Copy, Debug, PartialEq, Eq, Structural)]
pub struct CornerIndex {
    pub p: u32,
    pub t: u32,
    pub n: u32,
}

/// A triangle-soup mesh description as an external parser hands it over:
/// flat attribute arrays (three words per position, two per texture
/// coordinate, three per normal, each word a raw 32-bit scalar pattern)
/// and one `CornerIndex` per polygon corner.
pub struct MeshSource {
    pub positions: Vec<u32>,
    pub tex_coords: Vec<u32>,
    pub normals: Vec<u32>,
    pub indices: Vec<CornerIndex>,
}

/// The mathematical content of a `MeshSource`.
#[verifier::ext_equal]
pub ghost struct SourceView {
    pub positions: Seq<u32>,
    pub tex_coords: Seq<u32>,
    pub normals: Seq<u32>,
    pub indices: Seq<CornerIndex>,
}

impl View for MeshSource {
    type V = SourceView;

    open spec fn view(&self) -> SourceView {
        SourceView {
            positions: self.positions@,
            tex_coords: self.tex_coords@,
            normals: self.normals@,
            indices: self.indices@,
        }
    }
}

/// Does corner `c` stay inside all three attribute arrays?
pub open spec fn corner_in_range(s: SourceView, c: CornerIndex) -> bool {
    &&& 3 * c.p + 3 <= s.positions.len()
    &&& 2 * c.t + 2 <= s.tex_coords.len()
    &&& 3 * c.n + 3 <= s.normals.len()
}

pub open spec fn corners_in_range(s: SourceView) -> bool {
    forall|i: int| 0 <= i < s.indices.len() ==> corner_in_range(s, #[trigger] s.indices[i])
}

/// The interleaved record corner `c` resolves to.
pub open spec fn gathered_vertex(s: SourceView, c: CornerIndex) -> Vertex {
    Vertex {
        position: Vec3Bits {
            x: s.positions[3 * c.p as int],
            y: s.positions[3 * c.p + 1],
            z: s.positions[3 * c.p + 2],
        },
        tex_coord: Vec2Bits { x: s.tex_coords[2 * c.t as int], y: s.tex_coords[2 * c.t + 1] },
        normal: Vec3Bits {
            x: s.normals[3 * c.n as int],
            y: s.normals[3 * c.n + 1],
            z: s.normals[3 * c.n + 2],
        },
    }
}

/// The raw per-corner vertex stream: one interleaved record per corner,
/// not deduplicated.
pub open spec fn gathered_stream(s: SourceView) -> Seq<Vertex> {
    Seq::new(s.indices.len(), |i: int| gathered_vertex(s, s.indices[i]))
}

/// Resolve every corner's attribute indices into one interleaved vertex
/// record per corner. A vertex shared by several corners appears once per
/// corner; nothing is deduplicated here.
///
/// Fails on the first corner that references an attribute entry outside
/// the attribute arrays; no partial stream is returned.
pub fn build_corner_stream(src: &MeshSource) -> (r: Result<Vec<Vertex>, MeshError>)
    ensures
        match r {
            Ok(vs) => corners_in_range(src@) && vs@ == gathered_stream(src@),
            Err(e) => {
                &&& !corners_in_range(src@)
                &&& e matches MeshError::AttributeOutOfRange { corner: c } && {
                    &&& 0 <= c < src@.indices.len()
                    &&& !corner_in_range(src@, src@.indices[c as int])
                    &&& forall|k: int|
                        0 <= k < c ==> corner_in_range(src@, #[trigger] src@.indices[k])
                }
            },
        },
{
    let mut out: Vec<Vertex> = Vec::new();
    let n = src.indices.len();
    let mut i: usize = 0;
    while i < n
        invariant
            i <= n,
            n == src@.indices.len(),
            out@.len() == i,
            forall|k: int| 0 <= k < i ==> corner_in_range(src@, #[trigger] src@.indices[k]),
            forall|k: int| 0 <= k < i ==> out@[k] == gathered_vertex(src@, src@.indices[k]),
        decreases n - i,
    {
        let c = src.indices[i];
        let pb = 3 * (c.p as u64);
        let tb = 2 * (c.t as u64);
        let nb = 3 * (c.n as u64);
        if !(pb + 3 <= src.positions.len() as u64 && tb + 2 <= src.tex_coords.len() as u64 && nb
            + 3 <= src.normals.len() as u64) {
            return Err(MeshError::AttributeOutOfRange { corner: i });
        }
        let pi = pb as usize;
        let ti = tb as usize;
        let ni = nb as usize;
        let v = Vertex {
            position: Vec3Bits {
                x: src.positions[pi],
                y: src.positions[pi + 1],
                z: src.positions[pi + 2],
            },
            tex_coord: Vec2Bits { x: src.tex_coords[ti], y: src.tex_coords[ti + 1] },
            normal: Vec3Bits { x: src.normals[ni], y: src.normals[ni + 1], z: src.normals[ni + 2] },
        };
        out.push(v);
        i = i + 1;
    }
    proof {
        assert(out@ =~= gathered_stream(src@));
    }
    Ok(out)
}

} // verus!
