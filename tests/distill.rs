use xml2py::distill::{color_variants, sort_links, without_color};
use xml2py::graph::{
    GroupReference, GroupReferenceInput, Link, Material, Node, NodeInput, NodeKind, Shader, SimpleKind,
};
use xml2py::socket::SocketType;
use xml2py::value::{NodeInputValue, Vec3};

fn vec3(x: &str) -> Vec3 {
    Vec3 { x: x.to_string(), y: x.to_string(), z: x.to_string() }
}

fn material(red: &str, offset: &str, tint: &str, links: Vec<Link>) -> Material {
    let nodes = vec![
        Node { name: "XOffset".to_string(), kind: NodeKind::Value(offset.to_string()), inputs: vec![] },
        Node { name: "RGB".to_string(), kind: NodeKind::Color(vec3(red)), inputs: vec![] },
        Node {
            name: "glow".to_string(),
            kind: NodeKind::Simple(SimpleKind::Emission),
            inputs: vec![
                NodeInput::new("Color", NodeInputValue::Color(vec3(red))),
                NodeInput::new("Strength", NodeInputValue::Float("2".to_string())),
            ],
        },
        Node {
            name: "pearl".to_string(),
            kind: NodeKind::Group(GroupReference {
                group_name: "PEARL-GROUP".to_string(),
                inputs: vec![GroupReferenceInput {
                    name: "Tint".to_string(),
                    data_type: SocketType::Float,
                    value: Some(NodeInputValue::Float(tint.to_string())),
                }],
                outputs: vec![],
            }),
            inputs: vec![],
        },
    ];
    Material {
        name: format!("PEARL-{red}"),
        heterogeneous_volume: false,
        use_local_tuning: false,
        use_mis: true,
        use_transparent_shadow: true,
        diffuse_ao_factor: None,
        glossy_ao_factor: None,
        subsurface_ao_factor: None,
        subsurface_factor: None,
        transmission_ao_factor: None,
        shader: Shader { nodes, links },
    }
}

#[test]
fn clearing_color_sorts_and_zeroes() {
    let m = without_color(material("0.7", "3", "0.2", vec![]));
    assert!(m.name.is_empty());
    let names: Vec<&str> = m.shader.nodes.iter().map(|n| n.name.as_str()).collect();
    assert_eq!(names, vec!["RGB", "XOffset", "glow", "pearl"]);
    assert!(matches!(&m.shader.nodes[0].kind, NodeKind::Color(v) if v.x == "0"));
    assert!(matches!(&m.shader.nodes[1].kind, NodeKind::Value(t) if t == "0"));
    assert!(matches!(&m.shader.nodes[2].inputs[0].value, NodeInputValue::Color(v) if v.y == "0"));
    assert!(matches!(&m.shader.nodes[2].inputs[1].value, NodeInputValue::Float(t) if t == "2"));
}

#[test]
fn color_variants_match_after_clearing() {
    let l1 = Link::new("RGB", "Color", "glow", "Color");
    let l2 = Link::new("XOffset", "Value", "pearl", "Tint");
    let ms = vec![
        material("0.1", "1", "0.3", vec![l1.clone(), l2.clone()]),
        material("0.9", "5", "0.8", vec![l2.clone(), l1.clone()]),
        material("0.9", "5", "0.8", vec![l1.clone()]),
    ];
    assert_eq!(color_variants(ms, 0), vec![true, true, false]);
}

#[test]
fn links_sort_by_their_fields() {
    let sorted = sort_links(vec![
        Link::new("b", "x", "c", "y"),
        Link::new("a", "z", "c", "y"),
        Link::new("a", "x", "b", "y"),
        Link::new("a", "x", "b", "y"),
    ]);
    let ends: Vec<(String, String)> = sorted.iter().map(|l| (l.from_node.clone(), l.to_node.clone())).collect();
    assert_eq!(
        ends,
        vec![
            ("a".to_string(), "b".to_string()),
            ("a".to_string(), "b".to_string()),
            ("a".to_string(), "c".to_string()),
            ("b".to_string(), "c".to_string()),
        ]
    );
}
