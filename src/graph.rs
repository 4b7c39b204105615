use vstd::prelude::*;
use crate::socket::SocketType;
use crate::value::{NodeInputValue, Vec3, same_value, same_vec3};

verus! {

/// Something with a name that is unique among its siblings.
pub trait Named {
    spec fn name_view(&self) -> Seq<char>;

    fn name(&self) -> (r: &str)
        ensures
            r@ == self.name_view(),
    ;
}

/// A directed connection from an output socket of one node to an input socket
/// of another node of the same shader.
#[derive(Clone, Debug)]
pub struct Link {
    pub from_node: String,
    pub to_node: String,
    pub from_socket: String,
    pub to_socket: String,
}

pub open spec fn same_link(a: Link, b: Link) -> bool {
    a.from_node@ == b.from_node@ && a.to_node@ == b.to_node@ && a.from_socket@ == b.from_socket@
        && a.to_socket@ == b.to_socket@
}

impl Link {
    pub fn new(from_node: &str, from_socket: &str, to_node: &str, to_socket: &str) -> (r: Link)
        ensures
            r.from_node@ == from_node@,
            r.from_socket@ == from_socket@,
            r.to_node@ == to_node@,
            r.to_socket@ == to_socket@,
    {
        Link {
            from_node: from_node.to_owned(),
            to_node: to_node.to_owned(),
            from_socket: from_socket.to_owned(),
            to_socket: to_socket.to_owned(),
        }
    }

    pub fn same_as(&self, o: &Link) -> (r: bool)
        ensures
            r == same_link(*self, *o),
    {
        self.from_node == o.from_node && self.to_node == o.to_node && self.from_socket
            == o.from_socket && self.to_socket == o.to_socket
    }
}

/// A named literal default on a node's input socket.
#[derive(Clone, Debug)]
pub struct NodeInput {
    pub name: String,
    pub value: NodeInputValue,
}

impl NodeInput {
    pub fn new(name: &str, value: NodeInputValue) -> (r: NodeInput)
        ensures
            r.name@ == name@,
            r.value == value,
    {
        NodeInput { name: name.to_owned(), value }
    }
}

/// One input socket as used at a call site of a group, with its type and
/// possibly a literal value.
#[derive(Clone, Debug)]
pub struct GroupReferenceInput {
    pub name: String,
    pub data_type: SocketType,
    pub value: Option<NodeInputValue>,
}

/// One output socket as used at a call site of a group.
#[derive(Clone, Debug)]
pub struct GroupReferenceOutput {
    pub name: String,
    pub data_type: SocketType,
}

/// A call site: a node that instantiates the named group.
#[derive(Clone, Debug)]
pub struct GroupReference {
    pub group_name: String,
    pub inputs: Vec<GroupReferenceInput>,
    pub outputs: Vec<GroupReferenceOutput>,
}

#[derive(Clone, Copy, Debug, PartialEq, Eq, Structural)]
pub enum MathOperation {
    Add,
    Multiply,
    Subtract,
    Divide,
    Floor,
    Minimum,
    Maximum,
    LessThan,
    Power,
}

#[derive(Clone, Copy, Debug, PartialEq, Eq, Structural)]
pub enum VectorOperation {
    Average,
    Multiply,
    Add,
    Scale,
}

#[derive(Clone, Copy, Debug, PartialEq, Eq, Structural)]
pub enum MixOperation {
    Darken,
    Mix,
}

#[derive(Clone, Copy, Debug, PartialEq, Eq, Structural)]
pub enum MixType {
    Mix,
}

#[derive(Clone, Copy, Debug, PartialEq, Eq, Structural)]
pub enum VectorSpace {
    Object,
    World,
}

#[derive(Clone, Copy, Debug, PartialEq, Eq, Structural)]
pub enum VectorType {
    Point,
}

#[derive(Clone, Copy, Debug, PartialEq, Eq, Structural)]
pub enum BsdfDistribution {
    Ggx,
}

#[derive(Clone, Copy, Debug, PartialEq, Eq, Structural)]
pub enum SubsurfaceMethod {
    Burley,
}

#[derive(Clone, Copy, Debug, PartialEq, Eq, Structural)]
pub enum NormalSpace {
    Tangent,
}

#[derive(Clone, Copy, Debug, PartialEq, Eq, Structural)]
pub enum TexMappingType {
    Point,
    Texture,
}

#[derive(Clone, Copy, Debug, PartialEq, Eq, Structural)]
pub enum Axis {
    X,
    Y,
    Z,
}

/// The node kinds whose data consists of switches and enumerated settings.
#[allow(inconsistent_fields)]
#[derive(Clone, Copy, Debug, PartialEq, Eq, Structural)]
pub enum SimpleKind {
    GroupInput,
    GroupOutput,
    Bump { enable: bool, invert: bool },
    RoundingEdgeNormal { enable: bool },
    SwitchClosure { enable: bool },
    MixClosure,
    Math { operation: MathOperation, use_clamp: bool },
    DiffuseBsdf,
    ProjectToAxisPlane,
    ObjectInfo,
    MixValue { mix_type: MixType, use_clamp: bool },
    SwitchFloat { enable: bool },
    UvDegradation,
    Mix { operation: MixOperation, use_clamp: bool },
    MixVector,
    VectorTransform { convert_from: VectorSpace, convert_to: VectorSpace, vector_type: VectorType },
    TextureCoordinate,
    VectorMath { operation: VectorOperation },
    PrincipledBsdf { distribution: BsdfDistribution, subsurface_method: Option<SubsurfaceMethod> },
    BrightnessContrast,
    GlossyBsdf { distribution: BsdfDistribution },
    VoronoiTexture,
    Geometry,
    AbsorptionVolume,
    AddClosure,
    LayerWeight,
    TranslucentBsdf,
    TransparentBsdf,
    Emission,
}

#[derive(Clone, Copy, Debug, PartialEq, Eq, Structural)]
pub enum ColorSpace {
    Color,
}

#[derive(Clone, Copy, Debug, PartialEq, Eq, Structural)]
pub enum Extension {
    Repeat,
}

#[derive(Clone, Copy, Debug, PartialEq, Eq, Structural)]
pub enum Interpolation {
    Linear,
}

#[derive(Clone, Copy, Debug, PartialEq, Eq, Structural)]
pub enum Projection {
    Flat,
}

/// The settings of an image texture node.
#[derive(Clone, Debug)]
pub struct ImageTexture {
    pub color_space: ColorSpace,
    pub extension: Extension,
    pub filename: Option<String>,
    pub interpolation: Interpolation,
    pub max_mip_lvl: u8,
    pub projection: Projection,
    pub tex_mapping: TexMapping,
    pub texel_per_pixel: String,
}

/// How a texture's coordinates are mapped.
#[derive(Clone, Debug)]
pub struct TexMapping {
    pub rotation: Vec3,
    pub scale: Vec3,
    pub translation: Vec3,
    pub mapping_type: TexMappingType,
    pub x_mapping: Option<Axis>,
    pub y_mapping: Option<Axis>,
    pub z_mapping: Option<Axis>,
    pub use_minmax: Option<bool>,
}

/// The closed set of node variants, with each variant's own data.
#[derive(Clone, Debug)]
pub enum NodeKind {
    Group(GroupReference),
    Simple(SimpleKind),
    Color(Vec3),
    Value(String),
    Vector(Vec3),
    NoiseTexture(TexMapping),
    Mapping(TexMapping),
    ImageTexture(ImageTexture),
    /// A color ramp; its stops are kept as the document's text.
    RgbRamp { interpolate: bool, ramp: String, ramp_alpha: String },
    /// RGB curves; the curve points and range are kept as the document's text.
    RgbCurves { curves: String, min_x: String, max_x: String },
    NormalMap { attribute: String, space: NormalSpace },
    Uvmap { attribute: String, from_dupli: bool },
}

/// A node of a shader: its unique name, its variant, and the literal defaults
/// declared on its inputs.
#[derive(Clone, Debug)]
pub struct Node {
    pub name: String,
    pub kind: NodeKind,
    pub inputs: Vec<NodeInput>,
}

/// The nodes and links of one material or group.
#[derive(Clone, Debug)]
pub struct Shader {
    pub nodes: Vec<Node>,
    pub links: Vec<Link>,
}

/// A named reusable subgraph.
#[derive(Clone, Debug)]
pub struct Group {
    pub name: String,
    pub shader: Shader,
}

/// A named material with its render settings and its shader.
#[derive(Clone, Debug)]
pub struct Material {
    pub name: String,
    pub heterogeneous_volume: bool,
    pub use_local_tuning: bool,
    pub use_mis: bool,
    pub use_transparent_shadow: bool,
    pub diffuse_ao_factor: Option<String>,
    pub glossy_ao_factor: Option<String>,
    pub subsurface_ao_factor: Option<String>,
    pub subsurface_factor: Option<String>,
    pub transmission_ao_factor: Option<String>,
    pub shader: Shader,
}

/// A parsed document: its materials and its groups.
#[derive(Clone, Debug)]
pub struct Eyesight {
    pub materials: Vec<Material>,
    pub groups: Vec<Group>,
}

impl Named for Node {
    open spec fn name_view(&self) -> Seq<char> {
        self.name@
    }

    fn name(&self) -> (r: &str) {
        self.name.as_str()
    }
}

impl Named for Group {
    open spec fn name_view(&self) -> Seq<char> {
        self.name@
    }

    fn name(&self) -> (r: &str) {
        self.name.as_str()
    }
}

impl Named for Material {
    open spec fn name_view(&self) -> Seq<char> {
        self.name@
    }

    fn name(&self) -> (r: &str) {
        self.name.as_str()
    }
}

/// No two items carry the same name.
pub open spec fn names_unique<T: Named>(s: Seq<T>) -> bool {
    forall|i: int, j: int|
        0 <= i < s.len() && 0 <= j < s.len() && i != j ==> s[i].name_view() != s[j].name_view()
}

} // verus!
