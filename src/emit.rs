use vstd::prelude::*;
use crate::codegen::{
    debug_quoted, declarations, inbound_entries, input_key, input_key_text, interface_lines, location,
    location_line, quote_str, wired_inputs,
};
use crate::graph::{Axis, Group, GroupReferenceInput, Link, Node, NodeInput, NodeKind, SimpleKind, TexMapping};
use crate::interface::Interface;
use crate::names::{python_enum, shouty_snake_case, snake_case, starts_with_at, to_snake};
use crate::nodes::construct_of;
use crate::schedule::{CycleOrUnreachableNodeError, is_layering, is_stall, tiers_view, topographic_sort, unique_node_names};
use crate::text::concat;
use crate::value::{NodeInputValue, bool_text, python_bool, value_text, vec3_text};
use crate::variants::{
    axis_name, bsdf_distribution_name, math_operation_name, mix_operation_name, mix_type_name,
    normal_space_name, subsurface_method_name, tex_mapping_type_name, vector_operation_name,
    vector_space_name, vector_type_name,
};

verus! {

/// An enumerated setting as the target spells it.
pub open spec fn enum_text(n: Seq<char>) -> Seq<char> {
    "'"@ + shouty_snake_case(n) + "'"@
}

/// The first input of that name, if any.
pub open spec fn first_named(s: Seq<NodeInput>, name: Seq<char>) -> Option<NodeInput>
    decreases s.len(),
{
    if s.len() == 0 {
        None
    } else if s[0].name@ == name {
        Some(s[0])
    } else {
        first_named(s.drop_first(), name)
    }
}

pub open spec fn simple_attributes(k: SimpleKind, inputs: Seq<NodeInput>) -> Seq<(Seq<char>, Seq<char>)> {
    match k {
        SimpleKind::Bump { enable, invert } => seq![("mute"@, bool_text(!enable)), ("invert"@, bool_text(invert))],
        SimpleKind::RoundingEdgeNormal { enable } => match first_named(inputs, "Samples"@) {
            Some(i) => seq![("mute"@, bool_text(!enable)), ("samples"@, value_text(i.value))],
            None => seq![("mute"@, bool_text(!enable))],
        },
        SimpleKind::SwitchClosure { enable } => seq![("mute"@, bool_text(!enable))],
        SimpleKind::Math { operation, use_clamp } => seq![
            ("operation"@, enum_text(math_operation_name(operation))),
            ("use_clamp"@, bool_text(use_clamp)),
        ],
        SimpleKind::ProjectToAxisPlane => seq![("node_tree"@, "node_group_project_to_axis_plane()"@)],
        SimpleKind::MixValue { mix_type, use_clamp } => seq![
            ("data_type"@, "'FLOAT'"@),
            ("blend_type"@, enum_text(mix_type_name(mix_type))),
            ("clamp_factor"@, bool_text(use_clamp)),
            ("clamp_result"@, bool_text(use_clamp)),
        ],
        SimpleKind::SwitchFloat { enable } => seq![("data_type"@, "'FLOAT'"@), ("mute"@, bool_text(!enable))],
        SimpleKind::UvDegradation => seq![("node_tree"@, "node_group_uv_degradation()"@)],
        SimpleKind::Mix { operation, use_clamp: _ } => seq![
            ("data_type"@, "'RGBA'"@),
            ("blend_type"@, enum_text(mix_operation_name(operation))),
        ],
        SimpleKind::VectorTransform { convert_from, convert_to, vector_type } => seq![
            ("convert_from"@, enum_text(vector_space_name(convert_from))),
            ("convert_to"@, enum_text(vector_space_name(convert_to))),
            ("vector_type"@, enum_text(vector_type_name(vector_type))),
        ],
        SimpleKind::VectorMath { operation } => seq![("operation"@, enum_text(vector_operation_name(operation)))],
        SimpleKind::PrincipledBsdf { distribution, subsurface_method } => match subsurface_method {
            Some(m) => seq![
                ("distribution"@, enum_text(bsdf_distribution_name(distribution))),
                ("subsurface_method"@, enum_text(subsurface_method_name(m))),
            ],
            None => seq![("distribution"@, enum_text(bsdf_distribution_name(distribution)))],
        },
        SimpleKind::GlossyBsdf { distribution } => seq![("distribution"@, enum_text(bsdf_distribution_name(distribution)))],
        _ => seq![],
    }
}

/// The keyword arguments that a node's construction statement passes besides
/// its inputs.
pub open spec fn attributes(n: Node) -> Seq<(Seq<char>, Seq<char>)> {
    match n.kind {
        NodeKind::Group(r) => seq![("node_tree"@, "node_group_"@ + snake_case(r.group_name@) + "()"@)],
        NodeKind::Simple(k) => simple_attributes(k, n.inputs@),
        NodeKind::Color(v) => seq![("value"@, vec3_text(v))],
        NodeKind::ImageTexture(t) => seq![
            ("image"@, "load_image("@ + (match t.filename {
                Some(f) => debug_quoted(f@),
                None => "None"@,
            }) + ")"@),
        ],
        NodeKind::NormalMap { attribute, space } => seq![
            ("uv_map"@, debug_quoted(attribute@)),
            ("space"@, enum_text(normal_space_name(space))),
        ],
        NodeKind::Uvmap { attribute, from_dupli } => seq![
            ("uv_map"@, debug_quoted(attribute@)),
            ("from_instancer"@, bool_text(from_dupli)),
        ],
        _ => seq![],
    }
}

fn put(r: &mut Vec<(String, String)>, k: &str, v: String)
    ensures
        final(r).deep_view() == old(r).deep_view().push((k@, v@)),
{
    let ghost before = r.deep_view();
    r.push((k.to_owned(), v));
    assert(r.deep_view() =~= before.push((k@, v@)));
}

fn find_input<'a>(inputs: &'a Vec<NodeInput>, name: &str) -> (r: Option<&'a NodeInput>)
    ensures
        r matches Some(i) ==> first_named(inputs@, name@) == Some(*i),
        r is None ==> first_named(inputs@, name@) is None,
{
    let mut k: usize = 0;
    assert(inputs@.skip(0) =~= inputs@);
    while k < inputs.len()
        invariant
            0 <= k <= inputs@.len(),
            first_named(inputs@.skip(k as int), name@) == first_named(inputs@, name@),
        decreases inputs@.len() - k,
    {
        assert(inputs@.skip(k as int).drop_first() =~= inputs@.skip(k + 1));
        if crate::text::str_eq(inputs[k].name.as_str(), name) {
            return Some(&inputs[k]);
        }
        k = k + 1;
    }
    None
}

fn enum_attr(r: &mut Vec<(String, String)>, k: &str, variant: &str)
    ensures
        final(r).deep_view() == old(r).deep_view().push((k@, enum_text(variant@))),
{
    put(r, k, python_enum(variant));
}

fn bool_attr(r: &mut Vec<(String, String)>, k: &str, b: bool)
    ensures
        final(r).deep_view() == old(r).deep_view().push((k@, bool_text(b))),
{
    put(r, k, python_bool(b));
}

fn simple_attributes_exec(k: &SimpleKind, inputs: &Vec<NodeInput>) -> (r: Vec<(String, String)>)
    ensures
        r.deep_view() == simple_attributes(*k, inputs@),
{
    let mut r: Vec<(String, String)> = Vec::new();
    match k {
        SimpleKind::Bump { enable, invert } => {
            bool_attr(&mut r, "mute", !*enable);
            bool_attr(&mut r, "invert", *invert);
        },
        SimpleKind::RoundingEdgeNormal { enable } => {
            bool_attr(&mut r, "mute", !*enable);
            proof {
                reveal_strlit("Samples");
            }
            if let Some(i) = find_input(inputs, "Samples") {
                put(&mut r, "samples", i.value.to_text());
            }
        },
        SimpleKind::SwitchClosure { enable } => {
            bool_attr(&mut r, "mute", !*enable);
        },
        SimpleKind::Math { operation, use_clamp } => {
            enum_attr(&mut r, "operation", operation.variant_name());
            bool_attr(&mut r, "use_clamp", *use_clamp);
        },
        SimpleKind::ProjectToAxisPlane => {
            put(&mut r, "node_tree", "node_group_project_to_axis_plane()".to_owned());
        },
        SimpleKind::MixValue { mix_type, use_clamp } => {
            put(&mut r, "data_type", "'FLOAT'".to_owned());
            enum_attr(&mut r, "blend_type", mix_type.variant_name());
            bool_attr(&mut r, "clamp_factor", *use_clamp);
            bool_attr(&mut r, "clamp_result", *use_clamp);
        },
        SimpleKind::SwitchFloat { enable } => {
            put(&mut r, "data_type", "'FLOAT'".to_owned());
            bool_attr(&mut r, "mute", !*enable);
        },
        SimpleKind::UvDegradation => {
            put(&mut r, "node_tree", "node_group_uv_degradation()".to_owned());
        },
        SimpleKind::Mix { operation, use_clamp: _ } => {
            put(&mut r, "data_type", "'RGBA'".to_owned());
            enum_attr(&mut r, "blend_type", operation.variant_name());
        },
        SimpleKind::VectorTransform { convert_from, convert_to, vector_type } => {
            enum_attr(&mut r, "convert_from", convert_from.variant_name());
            enum_attr(&mut r, "convert_to", convert_to.variant_name());
            enum_attr(&mut r, "vector_type", vector_type.variant_name());
        },
        SimpleKind::VectorMath { operation } => {
            enum_attr(&mut r, "operation", operation.variant_name());
        },
        SimpleKind::PrincipledBsdf { distribution, subsurface_method } => {
            enum_attr(&mut r, "distribution", distribution.variant_name());
            if let Some(m) = subsurface_method {
                enum_attr(&mut r, "subsurface_method", m.variant_name());
            }
        },
        SimpleKind::GlossyBsdf { distribution } => {
            enum_attr(&mut r, "distribution", distribution.variant_name());
        },
        _ => {},
    }
    assert(r.deep_view() =~= simple_attributes(*k, inputs@));
    r
}

impl Node {
    /// The keyword arguments of this node's construction statement.
    pub fn attributes(&self) -> (r: Vec<(String, String)>)
        ensures
            r.deep_view() == attributes(*self),
    {
        let mut r: Vec<(String, String)> = Vec::new();
        match &self.kind {
            NodeKind::Group(g) => {
                let mut v = concat("node_group_", to_snake(g.group_name.as_str()).as_str());
                v.append("()");
                put(&mut r, "node_tree", v);
            },
            NodeKind::Simple(k) => {
                return simple_attributes_exec(k, &self.inputs);
            },
            NodeKind::Color(v) => {
                put(&mut r, "value", v.to_text());
            },
            NodeKind::ImageTexture(t) => {
                let name = match &t.filename {
                    Some(f) => quote_str(f.as_str()),
                    None => "None".to_owned(),
                };
                let mut v = concat("load_image(", name.as_str());
                v.append(")");
                put(&mut r, "image", v);
            },
            NodeKind::NormalMap { attribute, space } => {
                put(&mut r, "uv_map", quote_str(attribute.as_str()));
                enum_attr(&mut r, "space", space.variant_name());
            },
            NodeKind::Uvmap { attribute, from_dupli } => {
                put(&mut r, "uv_map", quote_str(attribute.as_str()));
                bool_attr(&mut r, "from_instancer", *from_dupli);
            },
            _ => {},
        }
        assert(r.deep_view() =~= attributes(*self));
        r
    }
}

/// `var`'s statements that set the literal values recorded at a call site.
pub open spec fn group_value_lines(var: Seq<char>, ins: Seq<GroupReferenceInput>) -> Seq<Seq<char>>
    decreases ins.len(),
{
    if ins.len() == 0 {
        seq![]
    } else {
        let rest = group_value_lines(var, ins.drop_last());
        match ins.last().value {
            Some(v) => rest.push(var + ".node.inputs['"@ + ins.last().name@ + "'].default_value = "@ + value_text(v)),
            None => rest,
        }
    }
}

pub open spec fn axis_line(tm: Seq<char>, attr: Seq<char>, a: Option<Axis>) -> Seq<Seq<char>> {
    match a {
        Some(x) => seq![tm + "."@ + attr + " = '"@ + axis_name(x) + "'"@],
        None => seq![],
    }
}

/// The statements that set a texture node's coordinate mapping.
pub open spec fn tex_mapping_lines(t: TexMapping, var: Seq<char>) -> Seq<Seq<char>> {
    let tm = var + ".node.texture_mapping"@;
    seq![
        tm + ".rotation = "@ + vec3_text(t.rotation),
        tm + ".scale = "@ + vec3_text(t.scale),
        tm + ".translation = "@ + vec3_text(t.translation),
        tm + ".vector_type = "@ + enum_text(tex_mapping_type_name(t.mapping_type)),
    ] + axis_line(tm, "mapping_x"@, t.x_mapping) + axis_line(tm, "mapping_y"@, t.y_mapping) + axis_line(
        tm,
        "mapping_z"@,
        t.z_mapping,
    ) + match t.use_minmax {
        Some(b) => seq![tm + ".use_minmax = "@ + bool_text(b)],
        None => seq![],
    }
}

/// The statements that follow a node's construction, for properties the
/// constructor cannot set.
pub open spec fn after(n: Node) -> Seq<Seq<char>> {
    let var = n.name@;
    match n.kind {
        NodeKind::Group(r) => group_value_lines(var, r.inputs@),
        NodeKind::NoiseTexture(t) => tex_mapping_lines(t, var),
        NodeKind::RgbRamp { interpolate, ramp: _, ramp_alpha: _ } => seq![
            var + ".node.color_ramp.interpolation = '"@ + (if interpolate { "LINEAR"@ } else { "CONSTANT"@ }) + "'"@,
        ],
        NodeKind::Value(t) => seq![var + ".node.outputs[0].default_value = "@ + t@],
        NodeKind::Vector(v) => seq![
            var + ".node.inputs[0].default_value = "@ + v.x@,
            var + ".node.inputs[1].default_value = "@ + v.y@,
            var + ".node.inputs[2].default_value = "@ + v.z@,
        ],
        _ => seq![],
    }
}

fn push_line(r: &mut Vec<String>, line: String)
    ensures
        final(r).deep_view() == old(r).deep_view().push(line@),
{
    let ghost before = r.deep_view();
    r.push(line);
    assert(r.deep_view() =~= before.push(line@));
}

fn join3(a: &str, b: &str, c: &str) -> (r: String)
    ensures
        r@ == a@ + b@ + c@,
{
    let mut r = concat(a, b);
    r.append(c);
    r
}

fn axis_line_exec(r: &mut Vec<String>, tm: &str, attr: &str, a: Option<Axis>)
    ensures
        final(r).deep_view() == old(r).deep_view() + axis_line(tm@, attr@, a),
{
    let ghost before = r.deep_view();
    if let Some(x) = a {
        let mut line = join3(tm, ".", attr);
        line.append(" = '");
        line.append(x.variant_name());
        line.append("'");
        push_line(r, line);
    }
    assert(r.deep_view() =~= before + axis_line(tm@, attr@, a));
}

impl TexMapping {
    /// The statements that set the coordinate mapping of node `var`.
    pub fn to_python(&self, var: &str) -> (r: Vec<String>)
        ensures
            r.deep_view() == tex_mapping_lines(*self, var@),
    {
        let tm = concat(var, ".node.texture_mapping");
        let mut r: Vec<String> = Vec::new();
        let rot = self.rotation.to_text();
        push_line(&mut r, join3(tm.as_str(), ".rotation = ", rot.as_str()));
        let scale = self.scale.to_text();
        push_line(&mut r, join3(tm.as_str(), ".scale = ", scale.as_str()));
        let tr = self.translation.to_text();
        push_line(&mut r, join3(tm.as_str(), ".translation = ", tr.as_str()));
        let vt = python_enum(self.mapping_type.variant_name());
        push_line(&mut r, join3(tm.as_str(), ".vector_type = ", vt.as_str()));
        let ghost head = r.deep_view();
        axis_line_exec(&mut r, tm.as_str(), "mapping_x", self.x_mapping);
        axis_line_exec(&mut r, tm.as_str(), "mapping_y", self.y_mapping);
        axis_line_exec(&mut r, tm.as_str(), "mapping_z", self.z_mapping);
        let ghost before = r.deep_view();
        if let Some(b) = self.use_minmax {
            let t = python_bool(b);
            push_line(&mut r, join3(tm.as_str(), ".use_minmax = ", t.as_str()));
        }
        assert(r.deep_view() =~= tex_mapping_lines(*self, var@));
        r
    }
}

fn group_value_lines_exec(var: &str, ins: &Vec<GroupReferenceInput>) -> (r: Vec<String>)
    ensures
        r.deep_view() == group_value_lines(var@, ins@),
{
    let mut r: Vec<String> = Vec::new();
    let mut k: usize = 0;
    while k < ins.len()
        invariant
            0 <= k <= ins@.len(),
            r.deep_view() == group_value_lines(var@, ins@.take(k as int)),
        decreases ins@.len() - k,
    {
        assert(ins@.take(k + 1).drop_last() =~= ins@.take(k as int));
        assert(ins@.take(k + 1).last() == ins@[k as int]);
        if let Some(v) = &ins[k].value {
            let mut line = join3(var, ".node.inputs['", ins[k].name.as_str());
            line.append("'].default_value = ");
            let t = v.to_text();
            line.append(t.as_str());
            push_line(&mut r, line);
        }
        k = k + 1;
    }
    assert(ins@.take(k as int) =~= ins@);
    r
}

impl Node {
    /// The statements that follow this node's construction.
    pub fn after(&self) -> (r: Vec<String>)
        ensures
            r.deep_view() == after(*self),
    {
        let var = self.name.as_str();
        let mut r: Vec<String> = Vec::new();
        match &self.kind {
            NodeKind::Group(g) => {
                return group_value_lines_exec(var, &g.inputs);
            },
            NodeKind::NoiseTexture(t) => {
                return t.to_python(var);
            },
            NodeKind::RgbRamp { interpolate, ramp: _, ramp_alpha: _ } => {
                let mode = if *interpolate { "LINEAR" } else { "CONSTANT" };
                let mut line = join3(var, ".node.color_ramp.interpolation = '", mode);
                line.append("'");
                push_line(&mut r, line);
            },
            NodeKind::Value(t) => {
                push_line(&mut r, join3(var, ".node.outputs[0].default_value = ", t.as_str()));
            },
            NodeKind::Vector(v) => {
                push_line(&mut r, join3(var, ".node.inputs[0].default_value = ", v.x.as_str()));
                push_line(&mut r, join3(var, ".node.inputs[1].default_value = ", v.y.as_str()));
                push_line(&mut r, join3(var, ".node.inputs[2].default_value = ", v.z.as_str()));
            },
            _ => {},
        }
        assert(r.deep_view() =~= after(*self));
        r
    }
}

/// How a node shows its declared literal inputs.
#[derive(Clone, Copy, Debug, PartialEq, Eq, Structural)]
pub enum ShowMode {
    /// Each input as declared.
    Plain,
    /// Each input but `Samples`, which becomes an attribute.
    NoSamples,
    /// Each input, a float `...Tint` widened to a color and a color
    /// `SubsurfaceColor` written as a vector.
    Principled,
}

pub open spec fn ends_with(s: Seq<char>, p: Seq<char>) -> bool {
    p.len() <= s.len() && s.skip(s.len() - p.len()) == p
}

/// A principled shader input's value as the target expects it.
pub open spec fn principled_text(i: NodeInput) -> Seq<char> {
    if ends_with(i.name@, "Tint"@) {
        match i.value {
            NodeInputValue::Float(t) => "("@ + t@ + ", "@ + t@ + ", "@ + t@ + ", 1.0)"@,
            _ => value_text(i.value),
        }
    } else if i.name@ == "SubsurfaceColor"@ {
        match i.value {
            NodeInputValue::Color(c) => vec3_text(c),
            _ => value_text(i.value),
        }
    } else {
        value_text(i.value)
    }
}

/// The (socket, value) pairs that declared inputs show in the given mode.
pub open spec fn shown_pairs(s: Seq<NodeInput>, m: ShowMode) -> Seq<(Seq<char>, Seq<char>)>
    decreases s.len(),
{
    if s.len() == 0 {
        seq![]
    } else {
        let rest = shown_pairs(s.drop_last(), m);
        let i = s.last();
        match m {
            ShowMode::Plain => rest.push((i.name@, value_text(i.value))),
            ShowMode::NoSamples => if i.name@ == "Samples"@ {
                rest
            } else {
                rest.push((i.name@, value_text(i.value)))
            },
            ShowMode::Principled => rest.push((i.name@, principled_text(i))),
        }
    }
}

/// Node kinds whose declared inputs are passed to the constructor as they are.
pub open spec fn shows_inputs(k: NodeKind) -> bool {
    match k {
        NodeKind::Simple(s) => match s {
            SimpleKind::Bump { .. } | SimpleKind::MixClosure | SimpleKind::Math { .. } | SimpleKind::DiffuseBsdf
            | SimpleKind::MixValue { .. } | SimpleKind::SwitchFloat { .. } | SimpleKind::VectorMath { .. }
            | SimpleKind::BrightnessContrast | SimpleKind::GlossyBsdf { .. } | SimpleKind::VoronoiTexture
            | SimpleKind::AbsorptionVolume | SimpleKind::LayerWeight | SimpleKind::TranslucentBsdf
            | SimpleKind::TransparentBsdf | SimpleKind::Emission => true,
            _ => false,
        },
        NodeKind::NoiseTexture(_) | NodeKind::NormalMap { .. } => true,
        _ => false,
    }
}

/// The literal (socket, value) pairs of a node's input mapping.
pub open spec fn shown(n: Node) -> Seq<(Seq<char>, Seq<char>)> {
    match n.kind {
        NodeKind::Simple(SimpleKind::PrincipledBsdf { .. }) => shown_pairs(n.inputs@, ShowMode::Principled),
        NodeKind::Simple(SimpleKind::RoundingEdgeNormal { .. }) => shown_pairs(n.inputs@, ShowMode::NoSamples),
        NodeKind::Mapping(t) => shown_pairs(n.inputs@, ShowMode::Plain) + seq![
            ("Location"@, vec3_text(t.translation)),
            ("Rotation"@, vec3_text(t.rotation)),
            ("Scale"@, vec3_text(t.scale)),
        ],
        _ => if shows_inputs(n.kind) {
            shown_pairs(n.inputs@, ShowMode::Plain)
        } else {
            seq![]
        },
    }
}

fn ends_with_tint(s: &str) -> (r: bool)
    ensures
        r == ends_with(s@, "Tint"@),
{
    proof {
        reveal_strlit("Tint");
    }
    let n = s.unicode_len();
    if n < 4 {
        return false;
    }
    let r = starts_with_at(s, "Tint", n - 4);
    assert(s@.skip(n - 4) =~= s@.subrange(n - 4, n as int));
    r
}

fn principled_text_exec(i: &NodeInput) -> (r: String)
    ensures
        r@ == principled_text(*i),
{
    if ends_with_tint(i.name.as_str()) {
        match &i.value {
            NodeInputValue::Float(t) => {
                let mut s = join3("(", t.as_str(), ", ");
                s.append(t.as_str());
                s.append(", ");
                s.append(t.as_str());
                s.append(", 1.0)");
                s
            },
            _ => i.value.to_text(),
        }
    } else if crate::text::str_eq(i.name.as_str(), "SubsurfaceColor") {
        match &i.value {
            NodeInputValue::Color(c) => c.to_text(),
            _ => i.value.to_text(),
        }
    } else {
        i.value.to_text()
    }
}

fn shown_pairs_exec(r: &mut Vec<(String, String)>, s: &Vec<NodeInput>, m: ShowMode)
    ensures
        final(r).deep_view() == old(r).deep_view() + shown_pairs(s@, m),
{
    let ghost r0 = r.deep_view();
    let mut k: usize = 0;
    assert(r.deep_view() =~= r0 + shown_pairs(s@.take(0), m));
    while k < s.len()
        invariant
            0 <= k <= s@.len(),
            r.deep_view() == r0 + shown_pairs(s@.take(k as int), m),
        decreases s@.len() - k,
    {
        assert(s@.take(k + 1).drop_last() =~= s@.take(k as int));
        assert(s@.take(k + 1).last() == s@[k as int]);
        let i = &s[k];
        let ghost before = r.deep_view();
        match m {
            ShowMode::Plain => {
                put(r, i.name.as_str(), i.value.to_text());
            },
            ShowMode::NoSamples => {
                if !crate::text::str_eq(i.name.as_str(), "Samples") {
                    put(r, i.name.as_str(), i.value.to_text());
                }
            },
            ShowMode::Principled => {
                put(r, i.name.as_str(), principled_text_exec(i));
            },
        }
        assert(r.deep_view() =~= r0 + shown_pairs(s@.take(k + 1), m));
        k = k + 1;
    }
    assert(s@.take(k as int) =~= s@);
}

fn shows_inputs_exec(k: &NodeKind) -> (r: bool)
    ensures
        r == shows_inputs(*k),
{
    match k {
        NodeKind::Simple(s) => match s {
            SimpleKind::Bump { .. } | SimpleKind::MixClosure | SimpleKind::Math { .. } | SimpleKind::DiffuseBsdf
            | SimpleKind::MixValue { .. } | SimpleKind::SwitchFloat { .. } | SimpleKind::VectorMath { .. }
            | SimpleKind::BrightnessContrast | SimpleKind::GlossyBsdf { .. } | SimpleKind::VoronoiTexture
            | SimpleKind::AbsorptionVolume | SimpleKind::LayerWeight | SimpleKind::TranslucentBsdf
            | SimpleKind::TransparentBsdf | SimpleKind::Emission => true,
            _ => false,
        },
        NodeKind::NoiseTexture(_) | NodeKind::NormalMap { .. } => true,
        _ => false,
    }
}

impl Node {
    /// The literal (socket, value) pairs of this node's input mapping.
    pub fn inputs_override(&self) -> (r: Vec<(String, String)>)
        ensures
            r.deep_view() == shown(*self),
    {
        let mut r: Vec<(String, String)> = Vec::new();
        let ghost e = r.deep_view();
        match &self.kind {
            NodeKind::Simple(SimpleKind::PrincipledBsdf { .. }) => {
                shown_pairs_exec(&mut r, &self.inputs, ShowMode::Principled);
            },
            NodeKind::Simple(SimpleKind::RoundingEdgeNormal { .. }) => {
                shown_pairs_exec(&mut r, &self.inputs, ShowMode::NoSamples);
            },
            NodeKind::Mapping(t) => {
                shown_pairs_exec(&mut r, &self.inputs, ShowMode::Plain);
                put(&mut r, "Location", t.translation.to_text());
                put(&mut r, "Rotation", t.rotation.to_text());
                put(&mut r, "Scale", t.scale.to_text());
            },
            _ => {
                if shows_inputs_exec(&self.kind) {
                    shown_pairs_exec(&mut r, &self.inputs, ShowMode::Plain);
                }
            },
        }
        assert(e =~= Seq::<(Seq<char>, Seq<char>)>::empty());
        assert(r.deep_view() =~= shown(*self));
        r
    }
}

/// A node's input mapping: its shown literal inputs, then one entry per
/// inbound link in link order, each keyed through the input aliases. When a
/// literal and a link name the same socket, the link's entry comes later and
/// so takes precedence in the generated mapping.
pub open spec fn input_entries(nodes: Seq<Node>, links: Seq<Link>, j: int) -> Seq<Seq<char>> {
    shown(nodes[j]).map_values(|p: (Seq<char>, Seq<char>)| input_key(construct_of(nodes[j].kind), p.0) + ": "@ + p.1)
        + inbound_entries(nodes, links, j)
}

/// Writes node `j`'s input mapping entries.
pub fn node_input_entries(nodes: &Vec<Node>, links: &Vec<Link>, j: usize) -> (r: Vec<String>)
    requires
        unique_node_names(nodes@),
        j < nodes@.len(),
    ensures
        r.deep_view() == input_entries(nodes@, links@, j as int),
{
    let node = &nodes[j];
    let construct = node.python_type();
    let pairs = node.inputs_override();
    let ghost lits = shown(*node).map_values(|p: (Seq<char>, Seq<char>)| input_key(construct_of(node.kind), p.0) + ": "@ + p.1);
    let mut r: Vec<String> = Vec::new();
    let mut k: usize = 0;
    while k < pairs.len()
        invariant
            node == nodes@[j as int],
            construct@ == construct_of(node.kind),
            pairs.deep_view() == shown(*node),
            0 <= k <= pairs@.len(),
            lits == shown(*node).map_values(|p: (Seq<char>, Seq<char>)| input_key(construct_of(node.kind), p.0) + ": "@ + p.1),
            r.deep_view() == lits.take(k as int),
        decreases pairs@.len() - k,
    {
        assert(pairs.deep_view()[k as int] == (pairs@[k as int].0@, pairs@[k as int].1@));
        let mut line = input_key_text(construct, pairs[k].0.as_str());
        line.append(": ");
        line.append(pairs[k].1.as_str());
        push_line(&mut r, line);
        assert(lits.take(k + 1) =~= lits.take(k as int).push(lits[k as int]));
        k = k + 1;
    }
    assert(lits.take(k as int) =~= lits);
    let mut wired = wired_inputs(nodes, links, j);
    let ghost before = r.deep_view();
    r.append(&mut wired);
    assert(r.deep_view() =~= before + inbound_entries(nodes@, links@, j as int));
    r
}

/// The method of the graph builder that constructs a node of this kind.
pub open spec fn method(k: NodeKind) -> Seq<char> {
    match k {
        NodeKind::Group(_) | NodeKind::Simple(SimpleKind::UvDegradation) | NodeKind::Simple(SimpleKind::ProjectToAxisPlane) => "group_node"@,
        NodeKind::Simple(SimpleKind::Math { .. }) => "math_node"@,
        _ => "node"@,
    }
}

/// The first argument of a node's construction: the group function, the math
/// operation, or the target construct.
pub open spec fn first_arg(k: NodeKind) -> Seq<char> {
    match k {
        NodeKind::Group(r) => snake_case(r.group_name@) + "_node_group"@,
        NodeKind::Simple(SimpleKind::UvDegradation) => "uv_degradation_node_group"@,
        NodeKind::Simple(SimpleKind::ProjectToAxisPlane) => "project_to_axis_plane_node_group"@,
        NodeKind::Simple(SimpleKind::Math { operation, use_clamp: _ }) => enum_text(math_operation_name(operation)),
        _ => "bpy.types."@ + construct_of(k),
    }
}

pub open spec fn attribute_lines(a: Seq<(Seq<char>, Seq<char>)>) -> Seq<Seq<char>> {
    a.map_values(|p: (Seq<char>, Seq<char>)| "    "@ + p.0 + "="@ + p.1 + ","@)
}

/// The input mapping argument: nothing when there are no entries, else one
/// line per entry between braces, keyword-named when attributes precede it.
pub open spec fn input_block(has_attributes: bool, e: Seq<Seq<char>>) -> Seq<Seq<char>> {
    if e.len() == 0 {
        seq![]
    } else {
        seq![if has_attributes { "    inputs={"@ } else { "    {"@ }] + e.map_values(|x: Seq<char>| "        "@ + x + ","@)
            + seq!["    },"@]
    }
}

/// The statements that build node `j` at layout coordinates `(x, y)`, followed
/// by a blank line.
pub open spec fn node_lines(nodes: Seq<Node>, links: Seq<Link>, j: int, x: nat, y: nat) -> Seq<Seq<char>> {
    let n = nodes[j];
    let a = attributes(n);
    seq![n.name@ + " = graph."@ + method(n.kind) + "("@, "    "@ + first_arg(n.kind) + ","@] + attribute_lines(a)
        + input_block(a.len() > 0, input_entries(nodes, links, j)) + seq![")"@, location(n.name@, x, y)] + after(n)
        + seq![""@]
}

/// The statements for one tier, placed in column `x`, one row per node.
pub open spec fn tier_lines(nodes: Seq<Node>, links: Seq<Link>, tier: Seq<usize>, x: nat) -> Seq<Seq<char>>
    decreases tier.len(),
{
    if tier.len() == 0 {
        seq![]
    } else {
        tier_lines(nodes, links, tier.drop_last(), x) + node_lines(nodes, links, tier.last() as int, x, ((tier.len() - 1) * 200) as nat)
    }
}

/// The statements for every tier in order, one column per tier.
pub open spec fn tiers_lines(nodes: Seq<Node>, links: Seq<Link>, tiers: Seq<Seq<usize>>) -> Seq<Seq<char>>
    decreases tiers.len(),
{
    if tiers.len() == 0 {
        seq![]
    } else {
        tiers_lines(nodes, links, tiers.drop_last()) + tier_lines(nodes, links, tiers.last(), ((tiers.len() - 1) * 150) as nat)
    }
}

/// The body of a group's function: the interface declarations, a blank line,
/// every node in scheduler order, and the statement returning the graph.
pub open spec fn group_body(g: Group, i: Interface, tiers: Seq<Seq<usize>>) -> Seq<Seq<char>> {
    declarations(i) + seq![""@] + tiers_lines(g.shader.nodes@, g.shader.links@, tiers) + seq!["return graph"@]
}

fn method_text(k: &NodeKind) -> (r: &'static str)
    ensures
        r@ == method(*k),
{
    match k {
        NodeKind::Group(_) | NodeKind::Simple(SimpleKind::UvDegradation) | NodeKind::Simple(SimpleKind::ProjectToAxisPlane) => "group_node",
        NodeKind::Simple(SimpleKind::Math { .. }) => "math_node",
        _ => "node",
    }
}

fn first_arg_text(n: &Node) -> (r: String)
    ensures
        r@ == first_arg(n.kind),
{
    match &n.kind {
        NodeKind::Group(r) => concat(to_snake(r.group_name.as_str()).as_str(), "_node_group"),
        NodeKind::Simple(SimpleKind::UvDegradation) => "uv_degradation_node_group".to_owned(),
        NodeKind::Simple(SimpleKind::ProjectToAxisPlane) => "project_to_axis_plane_node_group".to_owned(),
        NodeKind::Simple(SimpleKind::Math { operation, use_clamp: _ }) => python_enum(operation.variant_name()),
        _ => concat("bpy.types.", n.python_type()),
    }
}

fn append_lines(r: &mut Vec<String>, more: Vec<String>)
    ensures
        final(r).deep_view() == old(r).deep_view() + more.deep_view(),
{
    let ghost before = r.deep_view();
    let ghost m = more.deep_view();
    let mut more = more;
    r.append(&mut more);
    assert(r.deep_view() =~= before + m);
}

/// Writes the statements that build node `j` at `(x, y)`.
pub fn node_block(nodes: &Vec<Node>, links: &Vec<Link>, j: usize, x: u128, y: u128) -> (r: Vec<String>)
    requires
        unique_node_names(nodes@),
        j < nodes@.len(),
    ensures
        r.deep_view() == node_lines(nodes@, links@, j as int, x as nat, y as nat),
{
    let n = &nodes[j];
    let var = n.name.as_str();
    let mut r: Vec<String> = Vec::new();
    let mut head = join3(var, " = graph.", method_text(&n.kind));
    head.append("(");
    push_line(&mut r, head);
    let first = first_arg_text(n);
    push_line(&mut r, join3("    ", first.as_str(), ","));
    let attrs = n.attributes();
    let ghost a = attributes(*n);
    let ghost al = attribute_lines(a);
    let ghost r0 = r.deep_view();
    let mut k: usize = 0;
    while k < attrs.len()
        invariant
            attrs.deep_view() == a,
            al == attribute_lines(a),
            0 <= k <= attrs@.len(),
            r.deep_view() == r0 + al.take(k as int),
        decreases attrs@.len() - k,
    {
        assert(attrs.deep_view()[k as int] == (attrs@[k as int].0@, attrs@[k as int].1@));
        let mut line = join3("    ", attrs[k].0.as_str(), "=");
        line.append(attrs[k].1.as_str());
        line.append(",");
        push_line(&mut r, line);
        assert(al.take(k + 1) =~= al.take(k as int).push(al[k as int]));
        k = k + 1;
    }
    assert(al.take(k as int) =~= al);
    let entries = node_input_entries(nodes, links, j);
    let ghost e = entries.deep_view();
    let ghost r1 = r.deep_view();
    if entries.len() > 0 {
        if attrs.len() > 0 {
            push_line(&mut r, "    inputs={".to_owned());
        } else {
            push_line(&mut r, "    {".to_owned());
        }
        let ghost r2 = r.deep_view();
        let ghost el = e.map_values(|x: Seq<char>| "        "@ + x + ","@);
        let mut q: usize = 0;
        while q < entries.len()
            invariant
                entries.deep_view() == e,
                el == e.map_values(|x: Seq<char>| "        "@ + x + ","@),
                0 <= q <= entries@.len(),
                r.deep_view() == r2 + el.take(q as int),
            decreases entries@.len() - q,
        {
            assert(e[q as int] == entries@[q as int]@);
            push_line(&mut r, join3("        ", entries[q].as_str(), ","));
            assert(el.take(q + 1) =~= el.take(q as int).push(el[q as int]));
            q = q + 1;
        }
        assert(el.take(q as int) =~= el);
        push_line(&mut r, "    },".to_owned());
    }
    assert(r.deep_view() =~= r1 + input_block(a.len() > 0, e));
    push_line(&mut r, ")".to_owned());
    push_line(&mut r, location_line(var, x, y));
    append_lines(&mut r, n.after());
    push_line(&mut r, "".to_owned());
    assert(r.deep_view() =~= node_lines(nodes@, links@, j as int, x as nat, y as nat));
    r
}

/// Writes the body of a group's function: its interface declarations, a blank
/// line, the statements that build each node in scheduler order (column by
/// tier, row by position in the tier), and the statement returning the graph.
/// A shader that cannot be scheduled is an error.
pub fn group_to_python(group: &Group, interface: &Interface) -> (r: Result<Vec<String>, CycleOrUnreachableNodeError>)
    requires
        unique_node_names(group.shader.nodes@),
    ensures
        r matches Err(e) ==> is_stall(group.shader.nodes@, group.shader.links@, e.unplaced@),
        r matches Ok(lines) ==> exists|t: Seq<Seq<usize>>|
            is_layering(group.shader.nodes@, group.shader.links@, t) && lines.deep_view() == group_body(*group, *interface, t),
{
    let nodes = &group.shader.nodes;
    let links = &group.shader.links;
    let tiers = match topographic_sort(nodes, links) {
        Ok(t) => t,
        Err(e) => {
            return Err(e);
        },
    };
    let ghost tv = tiers_view(tiers@);
    let mut lines = interface_lines(interface);
    push_line(&mut lines, "".to_owned());
    let ghost head = lines.deep_view();
    let mut t: usize = 0;
    assert(tv.take(0) =~= Seq::<Seq<usize>>::empty());
    while t < tiers.len()
        invariant
            nodes == &group.shader.nodes,
            links == &group.shader.links,
            unique_node_names(nodes@),
            tv == tiers_view(tiers@),
            is_layering(nodes@, links@, tv),
            0 <= t <= tiers@.len(),
            lines.deep_view() == head + tiers_lines(nodes@, links@, tv.take(t as int)),
        decreases tiers@.len() - t,
    {
        let tier = &tiers[t];
        assert(tier@ == tv[t as int]);
        let ghost before = lines.deep_view();
        let mut k: usize = 0;
        assert(tier@.take(0) =~= Seq::<usize>::empty());
        while k < tier.len()
            invariant
                nodes == &group.shader.nodes,
                links == &group.shader.links,
                unique_node_names(nodes@),
                is_layering(nodes@, links@, tv),
                t < tv.len(),
                tier@ == tv[t as int],
                0 <= k <= tier@.len(),
                lines.deep_view() == before + tier_lines(nodes@, links@, tier@.take(k as int), (t * 150) as nat),
            decreases tier@.len() - k,
        {
            assert(tier@.take(k + 1).drop_last() =~= tier@.take(k as int));
            assert(tier@.take(k + 1).last() == tier@[k as int]);
            assert(tv[t as int][k as int] < nodes@.len());
            let block = node_block(nodes, links, tier[k], t as u128 * 150, k as u128 * 200);
            append_lines(&mut lines, block);
            assert(lines.deep_view() =~= before + tier_lines(nodes@, links@, tier@.take(k + 1), (t * 150) as nat));
            k = k + 1;
        }
        assert(tier@.take(k as int) =~= tier@);
        assert(tv.take(t + 1).drop_last() =~= tv.take(t as int));
        assert(tv.take(t + 1).last() == tv[t as int]);
        assert(lines.deep_view() =~= head + tiers_lines(nodes@, links@, tv.take(t + 1)));
        t = t + 1;
    }
    assert(tv.take(t as int) =~= tv);
    push_line(&mut lines, "return graph".to_owned());
    assert(lines.deep_view() =~= group_body(*group, *interface, tv));
    Ok(lines)
}

} // verus!
