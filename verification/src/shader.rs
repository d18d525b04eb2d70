use vstd::prelude::*;

verus! {

/// The pipeline stage a shader entry point is compiled for.
#[derive(Copy, Clone, Debug, PartialEq, Eq, Hash, Structural)]
pub enum ShaderKind {
    Vertex,
    Fragment,
    Amplification,
    Mesh,
    Compute,
}

impl ShaderKind {
    /// The HLSL target profile string handed to the shader compiler for
    /// this stage.
    pub fn target_profile(&self) -> (r: &'static str)
        ensures
            match self {
                ShaderKind::Vertex => r@ == "vs_6_7"@,
                ShaderKind::Fragment => r@ == "ps_6_7"@,
                ShaderKind::Amplification => r@ == "as_6_7"@,
                ShaderKind::Mesh => r@ == "ms_6_7"@,
                ShaderKind::Compute => r@ == "cs_6_7"@,
            },
    {
        match self {
            ShaderKind::Vertex => "vs_6_7",
            ShaderKind::Fragment => "ps_6_7",
            ShaderKind::Amplification => "as_6_7",
            ShaderKind::Mesh => "ms_6_7",
            ShaderKind::Compute => "cs_6_7",
        }
    }
}

} // verus!
