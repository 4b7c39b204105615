use xml2py::aliases::{input_alias, output_alias};
use xml2py::codegen::{get_socket_key, integer_key, interface_lines, location_line, wired_input, wired_inputs};
use xml2py::emit::node_input_entries;
use xml2py::graph::{Link, MixOperation, Node, NodeInput, NodeKind, SimpleKind};
use xml2py::interface::{Interface, InterfaceSocket};
use xml2py::socket::SocketType;
use xml2py::schedule::topographic_sort;
use xml2py::value::{NodeInputValue, Vec3};

fn color(name: &str) -> Node {
    let v = Vec3 { x: "1".to_string(), y: "0".to_string(), z: "0".to_string() };
    Node { name: name.to_string(), kind: NodeKind::Color(v), inputs: vec![] }
}

fn mix(name: &str) -> Node {
    Node {
        name: name.to_string(),
        kind: NodeKind::Simple(SimpleKind::Mix { operation: MixOperation::Mix, use_clamp: false }),
        inputs: vec![],
    }
}

#[test]
fn color_into_mix_scenario() {
    let nodes = vec![color("c1"), mix("m1")];
    let links = vec![Link::new("c1", "Color", "m1", "Color1")];
    let tiers = topographic_sort(&nodes, &links).ok().unwrap();
    assert_eq!(tiers, vec![vec![0], vec![1]]);
    assert_eq!(nodes[1].python_type(), "ShaderNodeMix");
    assert_eq!(nodes[0].python_type(), "ShaderNodeRGB");
    let entries = wired_inputs(&nodes, &links, 1);
    assert_eq!(entries, vec!["\"A\": c1[\"Color\"]".to_string()]);
    assert!(wired_inputs(&nodes, &links, 0).is_empty());
}

#[test]
fn output_alias_renames_the_source_socket() {
    assert_eq!(
        wired_input("ShaderNodeMix", "Fac", "m0", "ShaderNodeMix", "Color"),
        "\"Factor\": m0[\"Result\"]"
    );
}

#[test]
fn numeric_alias_becomes_an_index() {
    assert_eq!(
        wired_input("ShaderNodeMath", "Value2", "v", "ShaderNodeValue", "Value"),
        "1: v[\"Value\"]"
    );
}

#[test]
fn alias_tables_pass_unknown_names_through() {
    assert_eq!(input_alias("ShaderNodeMix", "Color2"), Some("B"));
    assert_eq!(input_alias("ShaderNodeBsdfPrincipled", "Clearcoat Roughness"), Some("Coat Roughness"));
    assert_eq!(input_alias("ShaderNodeMix", "Nothing"), None);
    assert_eq!(input_alias("ShaderNodeUnknown", "Fac"), None);
    assert_eq!(output_alias("ShaderNodeTexVoronoi", "Fac"), Some("Distance"));
    assert_eq!(output_alias("ShaderNodeMix", "Fac"), None);
}

#[test]
fn socket_keys() {
    assert_eq!(get_socket_key("0"), "0");
    assert_eq!(get_socket_key("007"), "7");
    assert_eq!(get_socket_key("+3"), "3");
    assert_eq!(get_socket_key("4294967295"), "4294967295");
    assert_eq!(get_socket_key("4294967296"), "4294967296");
    assert_eq!(get_socket_key("000123456789012345678901234567890"), "123456789012345678901234567890");
    assert_eq!(get_socket_key("000"), "0");
    assert_eq!(get_socket_key("+"), "\"+\"");
    assert_eq!(get_socket_key("-1"), "\"-1\"");
    assert_eq!(get_socket_key("Base Color"), "\"Base Color\"");
    assert_eq!(get_socket_key("say \"hi\""), "\"say \\\"hi\\\"\"");
    assert_eq!(get_socket_key(""), "\"\"");
}

#[test]
fn integer_keys_agree_with_std_where_std_reads_them() {
    for s in ["0", "12", "+", "+9", "", "1a", "4294967295", "007"] {
        let ours = integer_key(s);
        let std = s.parse::<u128>().ok().map(|n| n.to_string());
        assert_eq!(ours, std, "{s}");
    }
}

#[test]
fn interface_declarations_inputs_first() {
    let i = Interface {
        inputs: vec![InterfaceSocket { name: "Base".to_string(), data_type: SocketType::Color }],
        outputs: vec![InterfaceSocket { name: "Shader".to_string(), data_type: SocketType::Closure }],
    };
    assert_eq!(
        interface_lines(&i),
        vec![
            "graph.input(bpy.types.NodeSocketColor, \"Base\")".to_string(),
            "graph.output(bpy.types.NodeSocketShader, \"Shader\")".to_string(),
        ]
    );
}

#[test]
fn location_statement() {
    assert_eq!(location_line("m1", 150, 0), "m1.node.location = (150, 0)");
}

#[test]
fn literal_defaults_come_before_links() {
    let mut m = Node {
        name: "m1".to_string(),
        kind: NodeKind::Simple(SimpleKind::MixValue { mix_type: xml2py::graph::MixType::Mix, use_clamp: false }),
        inputs: vec![],
    };
    m.inputs = vec![
        NodeInput::new("Fac", NodeInputValue::Float("0.5".to_string())),
        NodeInput::new("Value1", NodeInputValue::Boolean(true)),
    ];
    let nodes = vec![color("c1"), m];
    let links = vec![Link::new("c1", "Color", "m1", "Value1")];
    assert_eq!(
        node_input_entries(&nodes, &links, 1),
        vec![
            "\"Factor\": 0.5".to_string(),
            "\"A\": True".to_string(),
            "\"A\": c1[\"Color\"]".to_string(),
        ]
    );
}
