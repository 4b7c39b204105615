use vstd::prelude::*;
use crate::graph::{Axis, BsdfDistribution, MathOperation, MixOperation, MixType, NormalSpace, SubsurfaceMethod, TexMappingType, VectorOperation, VectorSpace, VectorType};

verus! {

/// The variant's name as written in the source data.
pub open spec fn math_operation_name(v: MathOperation) -> Seq<char> {
    match v {
        MathOperation::Add => "Add"@,
        MathOperation::Multiply => "Multiply"@,
        MathOperation::Subtract => "Subtract"@,
        MathOperation::Divide => "Divide"@,
        MathOperation::Floor => "Floor"@,
        MathOperation::Minimum => "Minimum"@,
        MathOperation::Maximum => "Maximum"@,
        MathOperation::LessThan => "LessThan"@,
        MathOperation::Power => "Power"@,
    }
}

impl MathOperation {
    pub fn variant_name(&self) -> (r: &'static str)
        ensures
            r@ == math_operation_name(*self),
    {
        match self {
            MathOperation::Add => "Add",
            MathOperation::Multiply => "Multiply",
            MathOperation::Subtract => "Subtract",
            MathOperation::Divide => "Divide",
            MathOperation::Floor => "Floor",
            MathOperation::Minimum => "Minimum",
            MathOperation::Maximum => "Maximum",
            MathOperation::LessThan => "LessThan",
            MathOperation::Power => "Power",
        }
    }
}

/// The variant's name as written in the source data.
pub open spec fn vector_operation_name(v: VectorOperation) -> Seq<char> {
    match v {
        VectorOperation::Average => "Average"@,
        VectorOperation::Multiply => "Multiply"@,
        VectorOperation::Add => "Add"@,
        VectorOperation::Scale => "Scale"@,
    }
}

impl VectorOperation {
    pub fn variant_name(&self) -> (r: &'static str)
        ensures
            r@ == vector_operation_name(*self),
    {
        match self {
            VectorOperation::Average => "Average",
            VectorOperation::Multiply => "Multiply",
            VectorOperation::Add => "Add",
            VectorOperation::Scale => "Scale",
        }
    }
}

/// The variant's name as written in the source data.
pub open spec fn mix_operation_name(v: MixOperation) -> Seq<char> {
    match v {
        MixOperation::Darken => "Darken"@,
        MixOperation::Mix => "Mix"@,
    }
}

impl MixOperation {
    pub fn variant_name(&self) -> (r: &'static str)
        ensures
            r@ == mix_operation_name(*self),
    {
        match self {
            MixOperation::Darken => "Darken",
            MixOperation::Mix => "Mix",
        }
    }
}

/// The variant's name as written in the source data.
pub open spec fn mix_type_name(v: MixType) -> Seq<char> {
    match v {
        MixType::Mix => "Mix"@,
    }
}

impl MixType {
    pub fn variant_name(&self) -> (r: &'static str)
        ensures
            r@ == mix_type_name(*self),
    {
        match self {
            MixType::Mix => "Mix",
        }
    }
}

/// The variant's name as written in the source data.
pub open spec fn vector_space_name(v: VectorSpace) -> Seq<char> {
    match v {
        VectorSpace::Object => "Object"@,
        VectorSpace::World => "World"@,
    }
}

impl VectorSpace {
    pub fn variant_name(&self) -> (r: &'static str)
        ensures
            r@ == vector_space_name(*self),
    {
        match self {
            VectorSpace::Object => "Object",
            VectorSpace::World => "World",
        }
    }
}

/// The variant's name as written in the source data.
pub open spec fn vector_type_name(v: VectorType) -> Seq<char> {
    match v {
        VectorType::Point => "Point"@,
    }
}

impl VectorType {
    pub fn variant_name(&self) -> (r: &'static str)
        ensures
            r@ == vector_type_name(*self),
    {
        match self {
            VectorType::Point => "Point",
        }
    }
}

/// The variant's name as written in the source data.
pub open spec fn bsdf_distribution_name(v: BsdfDistribution) -> Seq<char> {
    match v {
        BsdfDistribution::Ggx => "Ggx"@,
    }
}

impl BsdfDistribution {
    pub fn variant_name(&self) -> (r: &'static str)
        ensures
            r@ == bsdf_distribution_name(*self),
    {
        match self {
            BsdfDistribution::Ggx => "Ggx",
        }
    }
}

/// The variant's name as written in the source data.
pub open spec fn subsurface_method_name(v: SubsurfaceMethod) -> Seq<char> {
    match v {
        SubsurfaceMethod::Burley => "Burley"@,
    }
}

impl SubsurfaceMethod {
    pub fn variant_name(&self) -> (r: &'static str)
        ensures
            r@ == subsurface_method_name(*self),
    {
        match self {
            SubsurfaceMethod::Burley => "Burley",
        }
    }
}

/// The variant's name as written in the source data.
pub open spec fn normal_space_name(v: NormalSpace) -> Seq<char> {
    match v {
        NormalSpace::Tangent => "Tangent"@,
    }
}

impl NormalSpace {
    pub fn variant_name(&self) -> (r: &'static str)
        ensures
            r@ == normal_space_name(*self),
    {
        match self {
            NormalSpace::Tangent => "Tangent",
        }
    }
}

/// The variant's name as written in the source data.
pub open spec fn tex_mapping_type_name(v: TexMappingType) -> Seq<char> {
    match v {
        TexMappingType::Point => "Point"@,
        TexMappingType::Texture => "Texture"@,
    }
}

impl TexMappingType {
    pub fn variant_name(&self) -> (r: &'static str)
        ensures
            r@ == tex_mapping_type_name(*self),
    {
        match self {
            TexMappingType::Point => "Point",
            TexMappingType::Texture => "Texture",
        }
    }
}

/// The variant's name as written in the source data.
pub open spec fn axis_name(v: Axis) -> Seq<char> {
    match v {
        Axis::X => "X"@,
        Axis::Y => "Y"@,
        Axis::Z => "Z"@,
    }
}

impl Axis {
    pub fn variant_name(&self) -> (r: &'static str)
        ensures
            r@ == axis_name(*self),
    {
        match self {
            Axis::X => "X",
            Axis::Y => "Y",
            Axis::Z => "Z",
        }
    }
}

} // verus!
