use xml2py::names::{
    beautify_group_name, beautify_material_name, beautify_node_name, pascal_name, python_enum, replace_all,
    trim_end_matches, trim_start_matches,
};

#[test]
fn node_names_lose_group_prefix_and_become_snake_case() {
    let mut name = "Normal GroupAnitique Bump".to_string();
    beautify_node_name(&mut name, "Normal Group", "NormalGroup");
    assert_eq!(name, "antique_bump");
    let mut name = "NormalGroupGhromeLevel".to_string();
    beautify_node_name(&mut name, "Normal Group", "NormalGroup");
    assert_eq!(name, "chrome_level");
}

#[test]
fn group_names_drop_their_suffix() {
    let mut name = "PEARL-GROUP".to_string();
    beautify_group_name(&mut name);
    assert_eq!(name, "Pearl");
    let mut name = "TransGroup".to_string();
    beautify_group_name(&mut name);
    assert_eq!(name, "Trans");
}

#[test]
fn material_names_join_trans_with_a_hyphen() {
    let mut name = "TRANS-TRANS_BRIGHT_GREEN".to_string();
    beautify_material_name(&mut name);
    assert_eq!(name, "Trans-Bright Green");
    let mut name = "SOLID-BLUE".to_string();
    beautify_material_name(&mut name);
    assert_eq!(name, "Solid Blue");
}

#[test]
fn pascal_and_enum_spellings() {
    assert_eq!(pascal_name("trans group base"), "TransGroupBase");
    assert_eq!(python_enum("LessThan"), "'LESS_THAN'");
    assert_eq!(python_enum("Ggx"), "'GGX'");
}

#[test]
fn trimming_repeats_the_pattern() {
    assert_eq!(trim_start_matches("ababc", "ab"), "c");
    assert_eq!(trim_start_matches("abc", ""), "abc");
    assert_eq!(trim_end_matches("x-GROUP-GROUP", "-GROUP"), "x");
    assert_eq!(trim_end_matches("Group", "Group"), "");
}

#[test]
fn whole_document_is_renamed() {
    use_doc();
}

fn use_doc() {
    let call = xml2py::graph::Node {
        name: "NormalGroupGhromeCall".to_string(),
        kind: xml2py::graph::NodeKind::Group(xml2py::graph::GroupReference {
            group_name: "PEARL-GROUP".to_string(),
            inputs: vec![],
            outputs: vec![],
        }),
        inputs: vec![],
    };
    let group = xml2py::graph::Group {
        name: "NormalGroup".to_string(),
        shader: xml2py::graph::Shader {
            nodes: vec![call.clone()],
            links: vec![xml2py::graph::Link::new("NormalGroupGhromeCall", "Out", "NormalGroupBump", "In")],
        },
    };
    let material = xml2py::graph::Material {
        name: "TRANS-TRANS_RED".to_string(),
        heterogeneous_volume: false,
        use_local_tuning: false,
        use_mis: true,
        use_transparent_shadow: true,
        diffuse_ao_factor: None,
        glossy_ao_factor: None,
        subsurface_ao_factor: None,
        subsurface_factor: None,
        transmission_ao_factor: None,
        shader: xml2py::graph::Shader { nodes: vec![call], links: vec![] },
    };
    let mut doc = xml2py::graph::Eyesight { materials: vec![material], groups: vec![group] };
    xml2py::names::beautify_names(&mut doc);
    assert_eq!(doc.groups[0].name, "Normal");
    assert_eq!(doc.groups[0].shader.nodes[0].name, "chrome_call");
    assert_eq!(doc.groups[0].shader.links[0].from_node, "chrome_call");
    assert_eq!(doc.groups[0].shader.links[0].to_node, "bump");
    assert!(matches!(&doc.groups[0].shader.nodes[0].kind, xml2py::graph::NodeKind::Group(r) if r.group_name == "Pearl"));
    assert_eq!(doc.materials[0].name, "Trans-Red");
    assert_eq!(doc.materials[0].shader.nodes[0].name, "NormalGroupGhromeCall");
}

#[test]
fn replacement_matches_std() {
    for (s, from, to) in [("aaaa", "aa", "b"), ("Trans Trans Trans", "Trans ", "Trans-"), ("xyz", "q", "r"), ("", "a", "b"), ("abab", "ab", "")] {
        assert_eq!(replace_all(s, from, to), s.replace(from, to), "{s}");
    }
}
