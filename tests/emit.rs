use xml2py::emit::{group_to_python, node_block};
use xml2py::generate::{the_big_kahuna, GenerationError};
use xml2py::graph::{
    Axis, Eyesight, Group, GroupReference, GroupReferenceInput, Link, Material, MathOperation, MixOperation, Node,
    NodeInput, NodeKind, Shader, SimpleKind, TexMapping, TexMappingType,
};
use xml2py::interface::{Interface, InterfaceSocket};
use xml2py::socket::SocketType;
use xml2py::value::{NodeInputValue, Vec3};

fn v3(x: &str, y: &str, z: &str) -> Vec3 {
    Vec3 { x: x.to_string(), y: y.to_string(), z: z.to_string() }
}

fn node(name: &str, kind: NodeKind) -> Node {
    Node { name: name.to_string(), kind, inputs: vec![] }
}

fn lines(v: &[&str]) -> Vec<String> {
    v.iter().map(|s| s.to_string()).collect()
}

#[test]
fn color_into_mix_generates_both_nodes() {
    let group = Group {
        name: "Scenario".to_string(),
        shader: Shader {
            nodes: vec![
                node("m1", NodeKind::Simple(SimpleKind::Mix { operation: MixOperation::Mix, use_clamp: false })),
                node("c1", NodeKind::Color(v3("1", "0", "0"))),
            ],
            links: vec![Link::new("c1", "Color", "m1", "Color1")],
        },
    };
    let iface = Interface { inputs: vec![], outputs: vec![] };
    let body = group_to_python(&group, &iface).ok().unwrap();
    assert_eq!(
        body,
        lines(&[
            "",
            "c1 = graph.node(",
            "    bpy.types.ShaderNodeRGB,",
            "    value=(1, 0, 0),",
            ")",
            "c1.node.location = (0, 0)",
            "",
            "m1 = graph.node(",
            "    bpy.types.ShaderNodeMix,",
            "    data_type='RGBA',",
            "    blend_type='MIX',",
            "    inputs={",
            "        \"A\": c1[\"Color\"],",
            "    },",
            ")",
            "m1.node.location = (150, 0)",
            "",
            "return graph",
        ])
    );
}

#[test]
fn a_cycle_is_reported_by_group_to_python() {
    let group = Group {
        name: "Loop".to_string(),
        shader: Shader {
            nodes: vec![node("a", NodeKind::Value("1".to_string()))],
            links: vec![Link::new("a", "Value", "a", "Value")],
        },
    };
    let iface = Interface { inputs: vec![], outputs: vec![] };
    assert_eq!(group_to_python(&group, &iface).err().unwrap().unplaced, vec![0]);
}

#[test]
fn math_node_and_group_call_blocks() {
    let mut math = node("sum", NodeKind::Simple(SimpleKind::Math { operation: MathOperation::LessThan, use_clamp: true }));
    math.inputs = vec![NodeInput::new("Value2", NodeInputValue::Float("3".to_string()))];
    let call = node(
        "pearl",
        NodeKind::Group(GroupReference {
            group_name: "Pearl Base".to_string(),
            inputs: vec![GroupReferenceInput {
                name: "Tint".to_string(),
                data_type: SocketType::Float,
                value: Some(NodeInputValue::Float("0.5".to_string())),
            }],
            outputs: vec![],
        }),
    );
    let nodes = vec![math, call];
    assert_eq!(
        node_block(&nodes, &vec![], 0, 300, 200),
        lines(&[
            "sum = graph.math_node(",
            "    'LESS_THAN',",
            "    operation='LESS_THAN',",
            "    use_clamp=True,",
            "    inputs={",
            "        1: 3,",
            "    },",
            ")",
            "sum.node.location = (300, 200)",
            "",
        ])
    );
    assert_eq!(
        node_block(&nodes, &vec![], 1, 0, 0),
        lines(&[
            "pearl = graph.group_node(",
            "    pearl_base_node_group,",
            "    node_tree=node_group_pearl_base(),",
            ")",
            "pearl.node.location = (0, 0)",
            "pearl.node.inputs['Tint'].default_value = 0.5",
            "",
        ])
    );
}

#[test]
fn vector_node_sets_its_components_afterwards() {
    let n = node("v", NodeKind::Vector(v3("1", "2", "3")));
    assert_eq!(
        n.after(),
        lines(&[
            "v.node.inputs[0].default_value = 1",
            "v.node.inputs[1].default_value = 2",
            "v.node.inputs[2].default_value = 3",
        ])
    );
    assert!(n.attributes().is_empty());
}

#[test]
fn texture_mapping_statements() {
    let t = TexMapping {
        rotation: v3("0", "0", "0"),
        scale: v3("1", "1", "1"),
        translation: v3("0", "0", "0"),
        mapping_type: TexMappingType::Point,
        x_mapping: Some(Axis::X),
        y_mapping: None,
        z_mapping: Some(Axis::Z),
        use_minmax: Some(false),
    };
    assert_eq!(
        t.to_python("n"),
        lines(&[
            "n.node.texture_mapping.rotation = (0, 0, 0)",
            "n.node.texture_mapping.scale = (1, 1, 1)",
            "n.node.texture_mapping.translation = (0, 0, 0)",
            "n.node.texture_mapping.vector_type = 'POINT'",
            "n.node.texture_mapping.mapping_x = 'X'",
            "n.node.texture_mapping.mapping_z = 'Z'",
            "n.node.texture_mapping.use_minmax = False",
        ])
    );
}

#[test]
fn principled_tint_is_widened() {
    let mut n = node(
        "p",
        NodeKind::Simple(SimpleKind::PrincipledBsdf {
            distribution: xml2py::graph::BsdfDistribution::Ggx,
            subsurface_method: None,
        }),
    );
    n.inputs = vec![
        NodeInput::new("SheenTint", NodeInputValue::Float("0.5".to_string())),
        NodeInput::new("SubsurfaceColor", NodeInputValue::Color(v3("1", "2", "3"))),
    ];
    let shown: Vec<(String, String)> = n.inputs_override();
    assert_eq!(
        shown,
        vec![
            ("SheenTint".to_string(), "(0.5, 0.5, 0.5, 1.0)".to_string()),
            ("SubsurfaceColor".to_string(), "(1, 2, 3)".to_string()),
        ]
    );
}

fn boundary_group() -> Group {
    Group {
        name: "Tint Group".to_string(),
        shader: Shader {
            nodes: vec![
                node("in", NodeKind::Simple(SimpleKind::GroupInput)),
                node("out", NodeKind::Simple(SimpleKind::GroupOutput)),
            ],
            links: vec![Link::new("in", "Base", "out", "Color")],
        },
    }
}

fn material_calling(group: &str) -> Material {
    Material {
        name: "Plastic".to_string(),
        heterogeneous_volume: false,
        use_local_tuning: false,
        use_mis: true,
        use_transparent_shadow: true,
        diffuse_ao_factor: None,
        glossy_ao_factor: None,
        subsurface_ao_factor: None,
        subsurface_factor: None,
        transmission_ao_factor: None,
        shader: Shader {
            nodes: vec![node(
                "t",
                NodeKind::Group(GroupReference {
                    group_name: group.to_string(),
                    inputs: vec![GroupReferenceInput { name: "Base".to_string(), data_type: SocketType::Color, value: None }],
                    outputs: vec![xml2py::graph::GroupReferenceOutput { name: "Color".to_string(), data_type: SocketType::Color }],
                }),
            )],
            links: vec![],
        },
    }
}

#[test]
fn whole_file_has_one_function_per_reachable_group() {
    let doc = Eyesight { materials: vec![material_calling("Tint Group")], groups: vec![boundary_group()] };
    let text = the_big_kahuna(&doc, &vec!["Tint Group".to_string()]).ok().unwrap();
    let expected = [
        "import bpy\n\nfrom .shader_graph import ShaderGraph, load_image\n\n\n",
        "def tint_group_node_group(graph: ShaderGraph):\n",
        "    graph.input(bpy.types.NodeSocketColor, \"Base\")\n",
        "    graph.output(bpy.types.NodeSocketColor, \"Color\")\n",
        "    \n",
        "    in_ = graph.node(\n",
    ]
    .concat();
    assert!(text.starts_with(&expected[..expected.len() - "    in_ = graph.node(\n".len()]));
    assert!(text.contains("    in = graph.node(\n        bpy.types.NodeGroupInput,\n    )\n"));
    assert!(text.ends_with("    return graph\n\n\n"));
}

#[test]
fn whole_file_reports_a_missing_root() {
    let doc = Eyesight { materials: vec![material_calling("Tint Group")], groups: vec![boundary_group()] };
    assert!(matches!(
        the_big_kahuna(&doc, &vec!["Nope".to_string()]),
        Err(GenerationError::UnknownGroup(e)) if e.group == "Nope"
    ));
}

#[test]
fn link_entry_follows_literal_on_the_same_socket() {
    let mut mix = node(
        "m",
        NodeKind::Simple(SimpleKind::MixValue { mix_type: xml2py::graph::MixType::Mix, use_clamp: false }),
    );
    mix.inputs = vec![NodeInput::new("Value1", NodeInputValue::Float("0.25".to_string()))];
    let group = Group {
        name: "Precedence".to_string(),
        shader: Shader {
            nodes: vec![node("v", NodeKind::Value("3".to_string())), mix],
            links: vec![Link::new("v", "Value", "m", "Value1")],
        },
    };
    let body = group_to_python(&group, &Interface { inputs: vec![], outputs: vec![] }).ok().unwrap();
    let a = body.iter().position(|l| l == "        \"A\": 0.25,").unwrap();
    let b = body.iter().position(|l| l == "        \"A\": v[\"Value\"],").unwrap();
    assert!(a < b, "the link's entry must come after the literal so that it wins");
}
