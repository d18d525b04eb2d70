use meshlets::bytes::meshlet_buffer_bytes;
use meshlets::bytes::meshlet_data_bytes;
use meshlets::bytes::vertex_buffer_bytes;
use meshlets::descriptor::DescriptorTableEntry;
use meshlets::meshlet::Meshlet;
use meshlets::shader::ShaderKind;
use meshlets::vertex::Vec2Bits;
use meshlets::vertex::Vec3Bits;
use meshlets::vertex::Vertex;

#[test]
fn data_words_serialize_little_endian() {
    let data: Vec<u32> = vec![0x0403_0201, 0xA0B0_C0D0];
    let bytes = meshlet_data_bytes(&data);
    assert_eq!(bytes, vec![0x01, 0x02, 0x03, 0x04, 0xD0, 0xC0, 0xB0, 0xA0]);
}

#[test]
fn meshlet_records_serialize_as_three_words() {
    let ms = vec![Meshlet::new(7, 64, 124), Meshlet::new(99, 1, 1)];
    let bytes = meshlet_buffer_bytes(&ms);
    assert_eq!(bytes.len(), 24);
    assert_eq!(&bytes[0..4], &[7, 0, 0, 0]);
    assert_eq!(&bytes[4..8], &[64, 0, 0, 0]);
    assert_eq!(&bytes[8..12], &[124, 0, 0, 0]);
    assert_eq!(&bytes[12..16], &[99, 0, 0, 0]);
}

#[test]
fn vertices_serialize_interleaved() {
    let v = Vertex {
        position: Vec3Bits {
            x: 1.0f32.to_bits(),
            y: 2.0f32.to_bits(),
            z: 3.0f32.to_bits(),
        },
        tex_coord: Vec2Bits { x: 0.5f32.to_bits(), y: 0.25f32.to_bits() },
        normal: Vec3Bits {
            x: 0.0f32.to_bits(),
            y: 1.0f32.to_bits(),
            z: 0.0f32.to_bits(),
        },
    };
    let bytes = vertex_buffer_bytes(&vec![v, v]);
    assert_eq!(bytes.len(), 64);
    // The first word is position.x, little-endian.
    assert_eq!(&bytes[0..4], &1.0f32.to_bits().to_le_bytes());
    // The record repeats identically 32 bytes later.
    assert_eq!(&bytes[0..32], &bytes[32..64]);
    // Word 4 of the record is tex_coord.y.
    assert_eq!(&bytes[16..20], &0.25f32.to_bits().to_le_bytes());
}

#[test]
fn descriptor_texture_packs_metadata_words() {
    let e = DescriptorTableEntry::texture(0x1122_3344_5566_7788, 0.5f32.to_bits(), 0xABCD);
    assert_eq!(e.gpu_va, 0);
    assert_eq!(e.texture_view_id, 0x1122_3344_5566_7788);
    assert_eq!(e.metadata, (0.5f32.to_bits() as u64) | (0xABCDu64 << 32));
}

#[test]
fn descriptor_sampler_and_buffer_layouts() {
    let s = DescriptorTableEntry::sampler(0xDEAD_BEEF, 1.5f32.to_bits());
    assert_eq!(s.gpu_va, 0xDEAD_BEEF);
    assert_eq!(s.texture_view_id, 0);
    assert_eq!(s.metadata, 1.5f32.to_bits() as u64);
    let b = DescriptorTableEntry::buffer(0x1000, 42);
    assert_eq!(b.gpu_va, 0x1000);
    assert_eq!(b.texture_view_id, 0);
    assert_eq!(b.metadata, 42);
}

#[test]
fn shader_kinds_name_their_target_profiles() {
    assert_eq!(ShaderKind::Vertex.target_profile(), "vs_6_7");
    assert_eq!(ShaderKind::Fragment.target_profile(), "ps_6_7");
    assert_eq!(ShaderKind::Amplification.target_profile(), "as_6_7");
    assert_eq!(ShaderKind::Mesh.target_profile(), "ms_6_7");
    assert_eq!(ShaderKind::Compute.target_profile(), "cs_6_7");
}
