use meshlets::builder::build_meshlets;
use meshlets::cache::optimize_vertex_cache;
use meshlets::dedup::deduplicate;
use meshlets::fetch::optimize_vertex_fetch;
use meshlets::overdraw::optimize_overdraw;
use meshlets::pack::pack_meshlets;
use meshlets::vertex::Vec2Bits;
use meshlets::vertex::Vec3Bits;
use meshlets::vertex::Vertex;

fn vert(x: f32) -> Vertex {
    Vertex {
        position: Vec3Bits { x: x.to_bits(), y: 0.0f32.to_bits(), z: 0.0f32.to_bits() },
        tex_coord: Vec2Bits { x: 0, y: 0 },
        normal: Vec3Bits { x: 0, y: 0, z: 1.0f32.to_bits() },
    }
}

fn sorted_triangles(indices: &[u32]) -> Vec<(u32, u32, u32)> {
    let mut ts: Vec<(u32, u32, u32)> = indices
        .chunks(3)
        .map(|c| (c[0], c[1], c[2]))
        .collect();
    ts.sort();
    ts
}

#[test]
fn deduplicate_keeps_first_occurrence_order() {
    let a = vert(1.0);
    let b = vert(2.0);
    let c = vert(3.0);
    let raw = vec![a, b, a, c, b, a];
    let (verts, remap) = deduplicate(&raw);
    assert_eq!(verts, vec![a, b, c]);
    assert_eq!(remap, vec![0, 1, 0, 2, 1, 0]);
}

#[test]
fn deduplicate_is_bit_exact() {
    // 0.0 and -0.0 compare equal as floats but differ bitwise, so they
    // must stay distinct vertices.
    let plus = vert(0.0);
    let minus = vert(-0.0);
    let raw = vec![plus, minus, plus];
    let (verts, remap) = deduplicate(&raw);
    assert_eq!(verts.len(), 2);
    assert_eq!(remap, vec![0, 1, 0]);
}

#[test]
fn cache_pass_keeps_every_triangle_once() {
    // Two interleaved fans over distant vertex ranges: a cache-hostile
    // order that the optimizer has every reason to regroup.
    let mut indices: Vec<u32> = Vec::new();
    for i in 0..24u32 {
        if i % 2 == 0 {
            let k = i / 2;
            indices.extend_from_slice(&[0, k + 1, k + 2]);
        } else {
            let k = i / 2;
            indices.extend_from_slice(&[40, 40 + k + 1, 40 + k + 2]);
        }
    }
    let out = optimize_vertex_cache(&indices, 60);
    assert_eq!(out.len(), indices.len());
    assert!(out.iter().all(|&g| g < 60));
    assert_eq!(sorted_triangles(&out), sorted_triangles(&indices));
    // The interleaved order is far from cache-optimal, so the optimizer
    // must actually reorder it.
    assert_ne!(out, indices);
}

#[test]
fn overdraw_pass_at_threshold_one_keeps_order() {
    let verts: Vec<Vertex> = (0..6).map(|i| vert(i as f32)).collect();
    let indices: Vec<u32> = vec![3, 4, 5, 0, 1, 2];
    let out = optimize_overdraw(&verts, &indices, 100);
    assert_eq!(out, indices);
}

#[test]
fn overdraw_pass_groups_by_position() {
    // Two spatially distant groups, interleaved; grouping must bring
    // the low-x triangles together before the high-x ones.
    let mut verts: Vec<Vertex> = Vec::new();
    for i in 0..3 {
        verts.push(vert(-1000.0 - i as f32));
    }
    for i in 0..3 {
        verts.push(vert(1000.0 + i as f32));
    }
    let indices: Vec<u32> = vec![3, 4, 5, 0, 1, 2, 3, 5, 4, 0, 2, 1];
    let out = optimize_overdraw(&verts, &indices, 101);
    assert_eq!(sorted_triangles(&out), sorted_triangles(&indices));
    assert_eq!(&out[0..6], &[0, 1, 2, 0, 2, 1]);
    assert_eq!(&out[6..12], &[3, 4, 5, 3, 5, 4]);
}

#[test]
fn fetch_pass_renumbers_in_first_use_order() {
    let verts: Vec<Vertex> = (0..5).map(|i| vert(i as f32)).collect();
    let indices: Vec<u32> = vec![4, 2, 0, 2, 4, 1, 0, 1, 3];
    let (new_verts, new_indices) = optimize_vertex_fetch(&verts, &indices);
    // First-use order of the old indices: 4, 2, 0, 1, 3.
    assert_eq!(new_indices, vec![0, 1, 2, 1, 0, 3, 2, 3, 4]);
    assert_eq!(new_verts.len(), 5);
    // Index i still names the same attribute record afterwards.
    for (i, &g) in indices.iter().enumerate() {
        assert_eq!(new_verts[new_indices[i] as usize], verts[g as usize]);
    }
}

#[test]
fn builder_respects_both_caps() {
    // 130 triangles over 3 vertices: the triangle cap must split them.
    let mut indices: Vec<u32> = Vec::new();
    for _ in 0..130 {
        indices.extend_from_slice(&[0, 1, 2]);
    }
    let geoms = build_meshlets(&indices, 3);
    assert_eq!(geoms.len(), 2);
    assert_eq!(geoms[0].corners.len(), 124 * 3);
    assert_eq!(geoms[1].corners.len(), 6 * 3);
    for g in geoms.iter() {
        assert!(g.vertices.len() <= 64);
        assert!(g.corners.len() / 3 <= 124);
    }
}

#[test]
fn builder_covers_every_triangle_in_order() {
    let indices: Vec<u32> = (0..300u32).collect();
    let geoms = build_meshlets(&indices, 300);
    let mut globals: Vec<u32> = Vec::new();
    for g in geoms.iter() {
        for &c in g.corners.iter() {
            globals.push(g.vertices[c as usize]);
        }
    }
    assert_eq!(globals, indices);
}

#[test]
fn packing_round_trip_five_vertices_three_triangles() {
    // One meshlet: vertex_count = 5, triangle_count = 3.
    let indices: Vec<u32> = vec![0, 1, 2, 2, 3, 0, 3, 4, 1];
    let geoms = build_meshlets(&indices, 5);
    assert_eq!(geoms.len(), 1);
    let (records, data) = pack_meshlets(&geoms);
    assert_eq!(records.len(), 1);
    let m = records[0];
    assert_eq!(m.data_offset, 0);
    assert_eq!(m.vertex_count, 5);
    assert_eq!(m.triangle_count, 3);
    // Local vertex list: global indices in first-use order.
    assert_eq!(&data[0..5], &[0, 1, 2, 3, 4]);
    // Nine corners packed four to a word, zero-filled at the end.
    assert_eq!(data.len(), 5 + 3);
    let corners: [u32; 9] = [0, 1, 2, 2, 3, 0, 3, 4, 1];
    for (j, &expect) in corners.iter().enumerate() {
        let word = data[5 + j / 4];
        let local = (word >> (8 * (j % 4))) & 0xff;
        assert_eq!(local, expect);
    }
    for j in 9..12 {
        let word = data[5 + j / 4];
        assert_eq!((word >> (8 * (j % 4))) & 0xff, 0);
    }
    // The exact words, spelled out.
    assert_eq!(data[5], 0 | (1 << 8) | (2 << 16) | (2 << 24));
    assert_eq!(data[6], 3 | (0 << 8) | (3 << 16) | (4 << 24));
    assert_eq!(data[7], 1);
}
