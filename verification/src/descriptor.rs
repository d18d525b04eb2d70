use vstd::prelude::*;

verus! {

/// One entry of the GPU descriptor table, three 64-bit words whose
/// layout the shaders depend on. The platform resource handles enter as
/// plain 64-bit ids and addresses, and fractional parameters as the raw
/// bit patterns of their 32-bit values.
#[derive(Copy, Clone, Debug, PartialEq, Eq, Structural)]
pub struct DescriptorTableEntry {
    pub gpu_va: u64,
    pub texture_view_id: u64,
    pub metadata: u64,
}

impl DescriptorTableEntry {
    /// A texture descriptor: the texture's resource id, with the
    /// minimum-LOD-clamp bit pattern in the low metadata word and the
    /// extra metadata in the high one.
    pub fn texture(texture_view_id: u64, min_lod_clamp_bits: u32, metadata: u32) -> (r: Self)
        ensures
            r == (DescriptorTableEntry {
                gpu_va: 0,
                texture_view_id,
                metadata: (min_lod_clamp_bits as u64) | ((metadata as u64) << 32u64),
            }),
    {
        DescriptorTableEntry {
            gpu_va: 0,
            texture_view_id,
            metadata: (min_lod_clamp_bits as u64) | ((metadata as u64) << 32u64),
        }
    }

    /// A sampler descriptor: the sampler's GPU address, with the
    /// LOD-bias bit pattern as metadata.
    pub fn sampler(gpu_va: u64, lod_bias_bits: u32) -> (r: Self)
        ensures
            r == (DescriptorTableEntry {
                gpu_va,
                texture_view_id: 0,
                metadata: lod_bias_bits as u64,
            }),
    {
        DescriptorTableEntry { gpu_va, texture_view_id: 0, metadata: lod_bias_bits as u64 }
    }

    /// A buffer descriptor: the buffer's GPU address and free-form
    /// metadata.
    pub fn buffer(gpu_va: u64, metadata: u64) -> (r: Self)
        ensures
            r == (DescriptorTableEntry { gpu_va, texture_view_id: 0, metadata }),
    {
        DescriptorTableEntry { gpu_va, texture_view_id: 0, metadata }
    }
}

} // verus!
