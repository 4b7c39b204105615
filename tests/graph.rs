use xml2py::graph::{
    Eyesight, Group, GroupReference, GroupReferenceInput, GroupReferenceOutput, Link, MixOperation,
    Node, NodeKind, Shader, SimpleKind,
};
use xml2py::interface::{check_interfaces, discover_sockets, InterfaceError};
use xml2py::schedule::topographic_sort;
use xml2py::socket::SocketType;
use xml2py::text::decimal_text;
use xml2py::value::{NodeInputValue, Vec3};

fn node(name: &str, kind: NodeKind) -> Node {
    Node { name: name.to_string(), kind, inputs: vec![] }
}

fn simple(name: &str, kind: SimpleKind) -> Node {
    node(name, NodeKind::Simple(kind))
}

fn call(name: &str, group: &str, inputs: &[(&str, SocketType)], outputs: &[(&str, SocketType)]) -> Node {
    node(
        name,
        NodeKind::Group(GroupReference {
            group_name: group.to_string(),
            inputs: inputs
                .iter()
                .map(|(n, t)| GroupReferenceInput { name: n.to_string(), data_type: *t, value: None })
                .collect(),
            outputs: outputs
                .iter()
                .map(|(n, t)| GroupReferenceOutput { name: n.to_string(), data_type: *t })
                .collect(),
        }),
    )
}

fn color(name: &str) -> Node {
    let v = Vec3 { x: "1".to_string(), y: "0".to_string(), z: "0".to_string() };
    node(name, NodeKind::Color(v))
}

fn mix(name: &str) -> Node {
    simple(name, SimpleKind::Mix { operation: MixOperation::Mix, use_clamp: false })
}

#[test]
fn color_into_mix_schedules_in_two_tiers() {
    let nodes = vec![mix("m1"), color("c1")];
    let links = vec![Link::new("c1", "Color", "m1", "Color1")];
    let tiers = topographic_sort(&nodes, &links).ok().unwrap();
    assert_eq!(tiers, vec![vec![1], vec![0]]);
}

#[test]
fn tiers_are_sorted_by_name() {
    let nodes = vec![color("zeta"), color("alpha"), mix("mid")];
    let links = vec![Link::new("alpha", "Color", "mid", "Color1"), Link::new("zeta", "Color", "mid", "Color2")];
    let tiers = topographic_sort(&nodes, &links).ok().unwrap();
    assert_eq!(tiers, vec![vec![1, 0], vec![2]]);
}

#[test]
fn longest_path_sets_the_tier() {
    let nodes = vec![color("a"), mix("b"), mix("c")];
    let links = vec![
        Link::new("a", "Color", "b", "Color1"),
        Link::new("b", "Color", "c", "Color1"),
        Link::new("a", "Color", "c", "Color2"),
    ];
    let tiers = topographic_sort(&nodes, &links).ok().unwrap();
    assert_eq!(tiers, vec![vec![0], vec![1], vec![2]]);
}

#[test]
fn a_cycle_stalls_the_scheduler() {
    let nodes = vec![color("a"), mix("b"), mix("c")];
    let links = vec![Link::new("b", "Color", "c", "Color1"), Link::new("c", "Color", "b", "Color1")];
    let err = topographic_sort(&nodes, &links).err().unwrap();
    assert_eq!(err.unplaced, vec![1, 2]);
}

#[test]
fn a_link_from_a_missing_node_stalls_the_scheduler() {
    let nodes = vec![mix("b")];
    let links = vec![Link::new("ghost", "Color", "b", "Color1")];
    let err = topographic_sort(&nodes, &links).err().unwrap();
    assert_eq!(err.unplaced, vec![0]);
}

#[test]
fn repeated_runs_give_identical_tiers() {
    let nodes = vec![color("c"), color("b"), mix("a"), mix("d")];
    let links = vec![Link::new("c", "Color", "a", "Color1"), Link::new("a", "Result", "d", "Color1")];
    let first = topographic_sort(&nodes, &links).ok().unwrap();
    let second = topographic_sort(&nodes, &links).ok().unwrap();
    assert_eq!(first, second);
    assert_eq!(first, vec![vec![1, 0], vec![2], vec![3]]);
}

fn group(name: &str, nodes: Vec<Node>, links: Vec<Link>) -> Group {
    Group { name: name.to_string(), shader: Shader { nodes, links } }
}

fn boundary_group() -> Group {
    group(
        "Tint",
        vec![simple("in", SimpleKind::GroupInput), mix("m"), simple("out", SimpleKind::GroupOutput)],
        vec![
            Link::new("in", "Base", "m", "Color1"),
            Link::new("in", "Amount", "m", "Fac"),
            Link::new("m", "Result", "out", "Color"),
        ],
    )
}

#[test]
fn discover_reads_boundary_links() {
    let inc = discover_sockets(&boundary_group()).ok().unwrap();
    assert_eq!(inc.inputs, vec!["Base".to_string(), "Amount".to_string()]);
    assert_eq!(inc.outputs, vec!["Color".to_string()]);
}

#[test]
fn link_between_boundaries_declares_both_sockets() {
    let g = group(
        "Pass",
        vec![simple("in", SimpleKind::GroupInput), simple("out", SimpleKind::GroupOutput)],
        vec![Link::new("in", "Value", "out", "Result")],
    );
    let inc = discover_sockets(&g).ok().unwrap();
    assert_eq!(inc.inputs, vec!["Value".to_string()]);
    assert_eq!(inc.outputs, vec!["Result".to_string()]);
}

#[test]
fn group_without_output_boundary_has_no_outputs() {
    let g = group(
        "Sink",
        vec![simple("in", SimpleKind::GroupInput), mix("m")],
        vec![Link::new("in", "Base", "m", "Color1")],
    );
    let inc = discover_sockets(&g).ok().unwrap();
    assert_eq!(inc.inputs, vec!["Base".to_string()]);
    assert!(inc.outputs.is_empty());
}

#[test]
fn two_input_boundaries_are_an_error() {
    let g = group(
        "Twice",
        vec![simple("a", SimpleKind::GroupInput), simple("b", SimpleKind::GroupInput)],
        vec![],
    );
    assert!(matches!(discover_sockets(&g), Err(InterfaceError::DuplicateBoundary { .. })));
}

fn material_calling(calls: Vec<Node>) -> xml2py::graph::Material {
    xml2py::graph::Material {
        name: "Plastic".to_string(),
        heterogeneous_volume: false,
        use_local_tuning: false,
        use_mis: true,
        use_transparent_shadow: true,
        diffuse_ao_factor: None,
        glossy_ao_factor: None,
        subsurface_ao_factor: None,
        subsurface_factor: None,
        transmission_ao_factor: None,
        shader: Shader { nodes: calls, links: vec![] },
    }
}

#[test]
fn inference_types_every_used_socket() {
    let doc = Eyesight {
        materials: vec![material_calling(vec![call(
            "t",
            "Tint",
            &[("Base", SocketType::Color), ("Amount", SocketType::Float)],
            &[("Color", SocketType::Color)],
        )])],
        groups: vec![boundary_group(), group("Unused", vec![], vec![])],
    };
    let inf = check_interfaces(&doc).ok().unwrap();
    assert_eq!(inf.interfaces.len(), 1);
    let tint = &inf.interfaces[0];
    assert_eq!(tint.group, "Tint");
    let inputs: Vec<(String, SocketType)> =
        tint.interface.inputs.iter().map(|s| (s.name.clone(), s.data_type)).collect();
    assert_eq!(inputs, vec![("Amount".to_string(), SocketType::Float), ("Base".to_string(), SocketType::Color)]);
    assert_eq!(tint.interface.outputs.len(), 1);
    assert_eq!(tint.interface.outputs[0].data_type, SocketType::Color);
    assert!(inf.warnings.is_empty());
}

#[test]
fn unused_declared_socket_is_a_warning() {
    let doc = Eyesight {
        materials: vec![material_calling(vec![call("t", "Tint", &[("Base", SocketType::Color)], &[])])],
        groups: vec![boundary_group()],
    };
    let inf = check_interfaces(&doc).ok().unwrap();
    let unused: Vec<String> = inf.warnings.iter().map(|w| w.socket.clone()).collect();
    assert_eq!(unused, vec!["Amount".to_string(), "Color".to_string()]);
    assert_eq!(inf.interfaces[0].interface.inputs.len(), 1);
}

#[test]
fn conflicting_call_sites_name_group_and_socket() {
    let doc = Eyesight {
        materials: vec![material_calling(vec![
            call("t1", "Tint", &[("Amount", SocketType::Float)], &[]),
            call("t2", "Tint", &[("Amount", SocketType::Color)], &[]),
        ])],
        groups: vec![boundary_group()],
    };
    match check_interfaces(&doc) {
        Err(InterfaceError::TypeMismatch { group, output, socket }) => {
            assert_eq!(group, "Tint");
            assert!(!output);
            assert_eq!(socket, "Amount");
        },
        other => panic!("expected a type mismatch, got {other:?}"),
    }
}

#[test]
fn calling_an_unknown_group_is_an_error() {
    let doc = Eyesight {
        materials: vec![material_calling(vec![call("x", "Nowhere", &[], &[])])],
        groups: vec![boundary_group()],
    };
    assert!(matches!(check_interfaces(&doc), Err(InterfaceError::UnknownGroup { .. })));
}

#[test]
fn socket_type_class_names() {
    assert_eq!(SocketType::Closure.python_type(), "NodeSocketShader");
    assert_eq!(SocketType::Float.python_type(), "NodeSocketFloat");
}

#[test]
fn literal_values_render_for_the_target() {
    let c = NodeInputValue::Color(Vec3 { x: "0.5".into(), y: "1".into(), z: "0".into() });
    assert_eq!(c.to_text(), "(0.5, 1, 0, 1.0)");
    assert_eq!(NodeInputValue::Int(407).to_text(), "407");
    assert_eq!(NodeInputValue::Boolean(false).to_text(), "False");
    assert_eq!(decimal_text(0), "0");
    assert_eq!(decimal_text(18446744073709551615), "18446744073709551615");
}
