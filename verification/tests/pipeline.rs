use meshlets::error::MeshError;
use meshlets::loader::CornerIndex;
use meshlets::loader::MeshSource;
use meshlets::mesh::Mesh;

fn corner(p: u32, t: u32, n: u32) -> CornerIndex {
    CornerIndex { p, t, n }
}

/// A unit cube: 8 positions, 6 per-face normals, one texture coordinate,
/// 12 triangles given as 24 face-corner quads (36 corner indices).
fn cube_source() -> MeshSource {
    let corners: [f32; 24] = [
        -1.0, -1.0, -1.0, 1.0, -1.0, -1.0, 1.0, 1.0, -1.0, -1.0, 1.0, -1.0, -1.0, -1.0, 1.0, 1.0,
        -1.0, 1.0, 1.0, 1.0, 1.0, -1.0, 1.0, 1.0,
    ];
    let normals: [f32; 18] = [
        0.0, 0.0, -1.0, 0.0, 0.0, 1.0, -1.0, 0.0, 0.0, 1.0, 0.0, 0.0, 0.0, -1.0, 0.0, 0.0, 1.0,
        0.0,
    ];
    let positions: Vec<u32> = corners.iter().map(|f| f.to_bits()).collect();
    let normal_bits: Vec<u32> = normals.iter().map(|f| f.to_bits()).collect();
    let tex_coords: Vec<u32> = vec![0.0f32.to_bits(), 0.0f32.to_bits()];
    // (face quad, face normal) per face; each quad becomes two triangles.
    let faces: [([u32; 4], u32); 6] = [
        ([0, 1, 2, 3], 0),
        ([5, 4, 7, 6], 1),
        ([4, 0, 3, 7], 2),
        ([1, 5, 6, 2], 3),
        ([4, 5, 1, 0], 4),
        ([3, 2, 6, 7], 5),
    ];
    let mut indices = Vec::new();
    for (quad, n) in faces.iter() {
        indices.push(corner(quad[0], 0, *n));
        indices.push(corner(quad[1], 0, *n));
        indices.push(corner(quad[2], 0, *n));
        indices.push(corner(quad[0], 0, *n));
        indices.push(corner(quad[2], 0, *n));
        indices.push(corner(quad[3], 0, *n));
    }
    MeshSource { positions, tex_coords, normals: normal_bits, indices }
}

/// 200 triangles over 150 distinct positions, all sharing one normal and
/// one texture coordinate.
fn wide_source() -> MeshSource {
    let mut positions = Vec::new();
    for i in 0..150 {
        positions.push((i as f32).to_bits());
        positions.push(0.0f32.to_bits());
        positions.push(0.0f32.to_bits());
    }
    let tex_coords = vec![0.0f32.to_bits(), 0.0f32.to_bits()];
    let normals = vec![0.0f32.to_bits(), 0.0f32.to_bits(), 1.0f32.to_bits()];
    let mut indices = Vec::new();
    for i in 0..200u32 {
        indices.push(corner(i % 150, 0, 0));
        indices.push(corner((i + 1) % 150, 0, 0));
        indices.push(corner((i + 2) % 150, 0, 0));
    }
    MeshSource { positions, tex_coords, normals, indices }
}

fn word_count(triangle_count: u32) -> u32 {
    (3 * triangle_count + 3) / 4
}

#[test]
fn cube_mesh_single_meshlet() {
    let mesh = Mesh::new(&cube_source()).unwrap();
    // 24 face corners stay distinct because each face has its own normal.
    assert_eq!(mesh.vertices.len(), 24);
    assert_eq!(mesh.meshlets.len(), 1);
    let m = mesh.meshlets[0];
    assert_eq!(m.data_offset, 0);
    assert_eq!(m.vertex_count, 24);
    assert_eq!(m.triangle_count, 12);
    // 24 vertex words followed by ceil(36 / 4) packed words.
    assert_eq!(mesh.meshlet_data.len(), 24 + 9);
}

#[test]
fn wide_mesh_splits_under_vertex_cap() {
    let mesh = Mesh::new(&wide_source()).unwrap();
    assert_eq!(mesh.vertices.len(), 150);
    // 150 distinct vertices cannot fit one 64-vertex meshlet.
    assert!(mesh.meshlets.len() >= 2);
    let mut total_triangles = 0u32;
    for m in mesh.meshlets.iter() {
        assert!(m.vertex_count >= 1 && m.vertex_count <= 64);
        assert!(m.triangle_count >= 1 && m.triangle_count <= 124);
        total_triangles += m.triangle_count;
    }
    assert_eq!(total_triangles, 200);
}

#[test]
fn meshlet_offsets_grow_by_region_size() {
    let mesh = Mesh::new(&wide_source()).unwrap();
    let ms = &mesh.meshlets;
    assert_eq!(ms[0].data_offset, 0);
    for k in 0..ms.len() - 1 {
        assert_eq!(
            ms[k + 1].data_offset,
            ms[k].data_offset + ms[k].vertex_count + word_count(ms[k].triangle_count)
        );
    }
    let last = ms[ms.len() - 1];
    assert_eq!(
        (last.data_offset + last.vertex_count + word_count(last.triangle_count)) as usize,
        mesh.meshlet_data.len()
    );
}

#[test]
fn meshlet_data_references_stay_in_bounds() {
    let mesh = Mesh::new(&wide_source()).unwrap();
    for m in mesh.meshlets.iter() {
        let off = m.data_offset as usize;
        let vc = m.vertex_count as usize;
        for i in 0..vc {
            assert!((mesh.meshlet_data[off + i] as usize) < mesh.vertices.len());
        }
        for j in 0..(3 * m.triangle_count as usize) {
            let word = mesh.meshlet_data[off + vc + j / 4];
            let local = (word >> (8 * (j % 4))) & 0xff;
            assert!(local < m.vertex_count);
        }
    }
}

#[test]
fn meshlets_cover_exactly_the_source_triangles() {
    let src = wide_source();
    let mesh = Mesh::new(&src).unwrap();
    // Decode every triangle from the packed data regions into the raw
    // position words of its three corners, in corner order.
    let mut decoded: Vec<[u32; 9]> = Vec::new();
    for m in mesh.meshlets.iter() {
        let off = m.data_offset as usize;
        let vc = m.vertex_count as usize;
        for t in 0..m.triangle_count as usize {
            let mut tri = [0u32; 9];
            for k in 0..3 {
                let j = 3 * t + k;
                let local = ((mesh.meshlet_data[off + vc + j / 4] >> (8 * (j % 4))) & 0xff) as usize;
                let global = mesh.meshlet_data[off + local] as usize;
                let v = mesh.vertices[global];
                tri[3 * k] = v.position.x;
                tri[3 * k + 1] = v.position.y;
                tri[3 * k + 2] = v.position.z;
            }
            decoded.push(tri);
        }
    }
    // The same triangles straight from the source description.
    let mut expected: Vec<[u32; 9]> = Vec::new();
    for t in 0..src.indices.len() / 3 {
        let mut tri = [0u32; 9];
        for k in 0..3 {
            let p = src.indices[3 * t + k].p as usize;
            tri[3 * k] = src.positions[3 * p];
            tri[3 * k + 1] = src.positions[3 * p + 1];
            tri[3 * k + 2] = src.positions[3 * p + 2];
        }
        expected.push(tri);
    }
    decoded.sort();
    expected.sort();
    assert_eq!(decoded, expected);
}

#[test]
fn identical_sources_give_identical_buffers() {
    let a = Mesh::new(&cube_source()).unwrap();
    let b = Mesh::new(&cube_source()).unwrap();
    assert_eq!(a.vertices.len(), b.vertices.len());
    for i in 0..a.vertices.len() {
        assert_eq!(a.vertices[i], b.vertices[i]);
    }
    assert_eq!(a.meshlets.len(), b.meshlets.len());
    for i in 0..a.meshlets.len() {
        assert_eq!(a.meshlets[i], b.meshlets[i]);
    }
    assert_eq!(a.meshlet_data, b.meshlet_data);
    let c = Mesh::new(&wide_source()).unwrap();
    let d = Mesh::new(&wide_source()).unwrap();
    assert_eq!(c.meshlet_data, d.meshlet_data);
}

#[test]
fn empty_source_gives_empty_mesh() {
    let src = MeshSource {
        positions: Vec::new(),
        tex_coords: Vec::new(),
        normals: Vec::new(),
        indices: Vec::new(),
    };
    let mesh = Mesh::new(&src).unwrap();
    assert_eq!(mesh.vertices.len(), 0);
    assert_eq!(mesh.meshlets.len(), 0);
    assert_eq!(mesh.meshlet_data.len(), 0);
}

#[test]
fn non_triangle_index_count_is_rejected() {
    let mut src = cube_source();
    src.indices.pop();
    let err = Mesh::new(&src).unwrap_err();
    assert_eq!(err, MeshError::NotTriangulated { index_count: 35 });
}

#[test]
fn out_of_range_attribute_is_rejected() {
    let mut src = cube_source();
    // Corner 7 now points one position entry past the array.
    src.indices[7] = CornerIndex { p: 8, t: 0, n: 0 };
    let err = Mesh::new(&src).unwrap_err();
    assert_eq!(err, MeshError::AttributeOutOfRange { corner: 7 });
    // An out-of-range normal is caught too, at the first bad corner.
    let mut src2 = cube_source();
    src2.indices[3] = CornerIndex { p: 0, t: 0, n: 6 };
    src2.indices[10] = CornerIndex { p: 0, t: 0, n: 6 };
    let err2 = Mesh::new(&src2).unwrap_err();
    assert_eq!(err2, MeshError::AttributeOutOfRange { corner: 3 });
}
