use vstd::prelude::*;
use crate::graph::{Node, NodeKind, SimpleKind};

verus! {

/// The target construct that builds a node of this simple kind.
pub open spec fn simple_construct(k: SimpleKind) -> Seq<char> {
    match k {
        SimpleKind::GroupInput => "NodeGroupInput"@,
        SimpleKind::GroupOutput => "NodeGroupOutput"@,
        SimpleKind::Bump { .. } => "ShaderNodeBump"@,
        SimpleKind::RoundingEdgeNormal { .. } => "ShaderNodeBevel"@,
        SimpleKind::SwitchClosure { .. } => "ShaderNodeMixShader"@,
        SimpleKind::MixClosure => "ShaderNodeMixShader"@,
        SimpleKind::Math { .. } => "ShaderNodeMath"@,
        SimpleKind::DiffuseBsdf => "ShaderNodeBsdfDiffuse"@,
        SimpleKind::ProjectToAxisPlane => "ShaderNodeGroup"@,
        SimpleKind::ObjectInfo => "ShaderNodeObjectInfo"@,
        SimpleKind::MixValue { .. } => "ShaderNodeMix"@,
        SimpleKind::SwitchFloat { .. } => "ShaderNodeMix"@,
        SimpleKind::UvDegradation => "ShaderNodeGroup"@,
        SimpleKind::Mix { .. } => "ShaderNodeMix"@,
        SimpleKind::MixVector => "ShaderNodeMix"@,
        SimpleKind::VectorTransform { .. } => "ShaderNodeVectorTransform"@,
        SimpleKind::TextureCoordinate => "ShaderNodeTexCoord"@,
        SimpleKind::VectorMath { .. } => "ShaderNodeVectorMath"@,
        SimpleKind::PrincipledBsdf { .. } => "ShaderNodeBsdfPrincipled"@,
        SimpleKind::BrightnessContrast => "ShaderNodeBrightContrast"@,
        SimpleKind::GlossyBsdf { .. } => "ShaderNodeBsdfAnisotropic"@,
        SimpleKind::VoronoiTexture => "ShaderNodeTexVoronoi"@,
        SimpleKind::Geometry => "ShaderNodeNewGeometry"@,
        SimpleKind::AbsorptionVolume => "ShaderNodeVolumeAbsorption"@,
        SimpleKind::AddClosure => "ShaderNodeAddShader"@,
        SimpleKind::LayerWeight => "ShaderNodeLayerWeight"@,
        SimpleKind::TranslucentBsdf => "ShaderNodeBsdfTranslucent"@,
        SimpleKind::TransparentBsdf => "ShaderNodeBsdfTransparent"@,
        SimpleKind::Emission => "ShaderNodeEmission"@,
    }
}

/// The target construct that builds a node of this kind.
pub open spec fn construct_of(k: NodeKind) -> Seq<char> {
    match k {
        NodeKind::Simple(s) => simple_construct(s),
        NodeKind::Group(_) => "ShaderNodeGroup"@,
        NodeKind::Color(_) => "ShaderNodeRGB"@,
        NodeKind::Value(_) => "ShaderNodeValue"@,
        NodeKind::Vector(_) => "ShaderNodeCombineXYZ"@,
        NodeKind::NoiseTexture(_) => "ShaderNodeTexNoise"@,
        NodeKind::Mapping(_) => "ShaderNodeMapping"@,
        NodeKind::ImageTexture(_) => "ShaderNodeTexImage"@,
        NodeKind::RgbRamp { .. } => "ShaderNodeValToRGB"@,
        NodeKind::RgbCurves { .. } => "ShaderNodeRGBCurve"@,
        NodeKind::NormalMap { .. } => "ShaderNodeNormalMap"@,
        NodeKind::Uvmap { .. } => "ShaderNodeUVMap"@,
    }
}

fn simple_python_type(k: &SimpleKind) -> (r: &'static str)
    ensures
        r@ == simple_construct(*k),
{
    match k {
        SimpleKind::GroupInput => "NodeGroupInput",
        SimpleKind::GroupOutput => "NodeGroupOutput",
        SimpleKind::Bump { .. } => "ShaderNodeBump",
        SimpleKind::RoundingEdgeNormal { .. } => "ShaderNodeBevel",
        SimpleKind::SwitchClosure { .. } => "ShaderNodeMixShader",
        SimpleKind::MixClosure => "ShaderNodeMixShader",
        SimpleKind::Math { .. } => "ShaderNodeMath",
        SimpleKind::DiffuseBsdf => "ShaderNodeBsdfDiffuse",
        SimpleKind::ProjectToAxisPlane => "ShaderNodeGroup",
        SimpleKind::ObjectInfo => "ShaderNodeObjectInfo",
        SimpleKind::MixValue { .. } => "ShaderNodeMix",
        SimpleKind::SwitchFloat { .. } => "ShaderNodeMix",
        SimpleKind::UvDegradation => "ShaderNodeGroup",
        SimpleKind::Mix { .. } => "ShaderNodeMix",
        SimpleKind::MixVector => "ShaderNodeMix",
        SimpleKind::VectorTransform { .. } => "ShaderNodeVectorTransform",
        SimpleKind::TextureCoordinate => "ShaderNodeTexCoord",
        SimpleKind::VectorMath { .. } => "ShaderNodeVectorMath",
        SimpleKind::PrincipledBsdf { .. } => "ShaderNodeBsdfPrincipled",
        SimpleKind::BrightnessContrast => "ShaderNodeBrightContrast",
        SimpleKind::GlossyBsdf { .. } => "ShaderNodeBsdfAnisotropic",
        SimpleKind::VoronoiTexture => "ShaderNodeTexVoronoi",
        SimpleKind::Geometry => "ShaderNodeNewGeometry",
        SimpleKind::AbsorptionVolume => "ShaderNodeVolumeAbsorption",
        SimpleKind::AddClosure => "ShaderNodeAddShader",
        SimpleKind::LayerWeight => "ShaderNodeLayerWeight",
        SimpleKind::TranslucentBsdf => "ShaderNodeBsdfTranslucent",
        SimpleKind::TransparentBsdf => "ShaderNodeBsdfTransparent",
        SimpleKind::Emission => "ShaderNodeEmission",
    }
}

impl Node {
    /// The target construct that builds this node.
    pub fn python_type(&self) -> (r: &'static str)
        ensures
            r@ == construct_of(self.kind),
    {
        match &self.kind {
            NodeKind::Simple(s) => simple_python_type(s),
            NodeKind::Group(_) => "ShaderNodeGroup",
            NodeKind::Color(_) => "ShaderNodeRGB",
            NodeKind::Value(_) => "ShaderNodeValue",
            NodeKind::Vector(_) => "ShaderNodeCombineXYZ",
            NodeKind::NoiseTexture(_) => "ShaderNodeTexNoise",
            NodeKind::Mapping(_) => "ShaderNodeMapping",
            NodeKind::ImageTexture(_) => "ShaderNodeTexImage",
            NodeKind::RgbRamp { .. } => "ShaderNodeValToRGB",
            NodeKind::RgbCurves { .. } => "ShaderNodeRGBCurve",
            NodeKind::NormalMap { .. } => "ShaderNodeNormalMap",
            NodeKind::Uvmap { .. } => "ShaderNodeUVMap",
        }
    }
}

} // verus!
