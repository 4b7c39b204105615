use xml2py::graph::{Eyesight, Group, Link, Material, Node, NodeKind, Shader, SimpleKind, VectorOperation};
use xml2py::merge::{merge, merge_eyesight};
use xml2py::rewrite::{add_slope_roughness, implement_vector_average, rewrite_passes, run_passes, RewritePass};
use xml2py::value::Vec3;

fn rgb(name: &str, r: &str) -> Node {
    Node {
        name: name.to_string(),
        kind: NodeKind::Color(Vec3 { x: r.to_string(), y: "0".to_string(), z: "0".to_string() }),
        inputs: vec![],
    }
}

fn material(name: &str, red: &str) -> Material {
    Material {
        name: name.to_string(),
        heterogeneous_volume: false,
        use_local_tuning: false,
        use_mis: true,
        use_transparent_shadow: true,
        diffuse_ao_factor: None,
        glossy_ao_factor: None,
        subsurface_ao_factor: None,
        subsurface_factor: None,
        transmission_ao_factor: None,
        shader: Shader { nodes: vec![rgb("RGB", red)], links: vec![] },
    }
}

fn group(name: &str) -> Group {
    Group { name: name.to_string(), shader: Shader { nodes: vec![rgb("c", "1")], links: vec![] } }
}

fn names<T>(v: &[T], f: impl Fn(&T) -> &str) -> Vec<String> {
    v.iter().map(|x| f(x).to_string()).collect()
}

#[test]
fn merge_is_a_sorted_union() {
    let a = vec![group("Solid"), group("Base")];
    let b = vec![group("Base"), group("Chrome")];
    let m = merge(a, b).ok().unwrap();
    assert_eq!(names(&m, |g| &g.name), vec!["Base", "Chrome", "Solid"]);
}

#[test]
fn merge_commutes_without_conflicts() {
    let ab = merge(vec![group("Solid"), group("Base")], vec![group("Base"), group("Chrome")]).ok().unwrap();
    let ba = merge(vec![group("Base"), group("Chrome")], vec![group("Solid"), group("Base")]).ok().unwrap();
    assert_eq!(names(&ab, |g| &g.name), names(&ba, |g| &g.name));
}

#[test]
fn color_only_difference_still_conflicts() {
    let a = Eyesight { materials: vec![material("SOLID-BLUE", "0")], groups: vec![] };
    let b = Eyesight { materials: vec![material("SOLID-BLUE", "1")], groups: vec![] };
    let err = merge_eyesight(a, b).err().unwrap();
    assert_eq!(err.name, "SOLID-BLUE");
}

#[test]
fn identical_materials_merge() {
    let a = Eyesight { materials: vec![material("SOLID-BLUE", "0")], groups: vec![group("G")] };
    let b = Eyesight { materials: vec![material("SOLID-BLUE", "0")], groups: vec![] };
    let d = merge_eyesight(a, b).ok().unwrap();
    assert_eq!(d.materials.len(), 1);
    assert_eq!(d.groups.len(), 1);
}

#[test]
fn vector_average_becomes_vector_mix() {
    let mut shader = Shader {
        nodes: vec![
            Node {
                name: "avg".to_string(),
                kind: NodeKind::Simple(SimpleKind::VectorMath { operation: VectorOperation::Average }),
                inputs: vec![],
            },
            Node {
                name: "add".to_string(),
                kind: NodeKind::Simple(SimpleKind::VectorMath { operation: VectorOperation::Add }),
                inputs: vec![],
            },
        ],
        links: vec![Link::new("avg", "Vector", "add", "Vector1")],
    };
    implement_vector_average(&mut shader);
    assert!(matches!(shader.nodes[0].kind, NodeKind::Simple(SimpleKind::MixVector)));
    assert_eq!(shader.nodes[0].name, "avg");
    assert!(matches!(shader.nodes[1].kind, NodeKind::Simple(SimpleKind::VectorMath { operation: VectorOperation::Add })));
    assert_eq!(shader.links.len(), 1);
}

#[test]
fn slope_patch_needs_its_anchor() {
    let mut doc = Eyesight { materials: vec![], groups: vec![group("Other")] };
    assert_eq!(add_slope_roughness(&mut doc).err().unwrap().anchor, "Normal");
    let mut doc = Eyesight { materials: vec![], groups: vec![group("Normal")] };
    assert_eq!(add_slope_roughness(&mut doc).err().unwrap().anchor, "rough_surface");
}

#[test]
fn slope_patch_extends_the_normal_group() {
    let mut normal = group("Normal");
    normal.shader.nodes.push(rgb("rough_surface", "1"));
    let mut doc = Eyesight { materials: vec![], groups: vec![group("A"), normal] };
    add_slope_roughness(&mut doc).ok().unwrap();
    let g = &doc.groups[1];
    assert_eq!(names(&g.shader.nodes, |n| &n.name), vec!["c", "rough_surface", "is_slope", "choose_roughness"]);
    assert_eq!(g.shader.links.len(), 2);
    assert_eq!(g.shader.links[1].to_socket, "Scale");
    assert_eq!(doc.groups[0].shader.nodes.len(), 1);
}

#[test]
fn repeated_names_within_a_document() {
    let m = merge(vec![group("Base"), group("Base")], vec![]).ok().unwrap();
    assert_eq!(names(&m, |g| &g.name), vec!["Base"]);
    let a = Eyesight { materials: vec![material("X", "0"), material("X", "1")], groups: vec![] };
    let b = Eyesight { materials: vec![], groups: vec![] };
    assert_eq!(merge_eyesight(a, b).err().unwrap().name, "X");
}

#[test]
fn passes_run_in_their_fixed_order() {
    let passes = rewrite_passes();
    assert_eq!(passes, vec![RewritePass::VectorAverage, RewritePass::SlopeRoughness]);
    assert_eq!(passes[0].name(), "vector-average lowering");
    let avg = Node {
        name: "avg".to_string(),
        kind: NodeKind::Simple(SimpleKind::VectorMath { operation: VectorOperation::Average }),
        inputs: vec![],
    };
    let mut with_avg = group("Other");
    with_avg.shader.nodes.push(avg.clone());
    let mut m = material("M", "0");
    m.shader.nodes.push(avg);
    let mut doc = Eyesight { materials: vec![m], groups: vec![with_avg] };
    let err = run_passes(&mut doc, &passes).err().unwrap();
    assert_eq!(err.anchor, "Normal");
    assert!(matches!(doc.groups[0].shader.nodes[1].kind, NodeKind::Simple(SimpleKind::MixVector)));
    assert!(matches!(doc.materials[0].shader.nodes[1].kind, NodeKind::Simple(SimpleKind::MixVector)));
    let mut normal = group("Normal");
    normal.shader.nodes.push(rgb("rough_surface", "1"));
    let mut doc = Eyesight { materials: vec![], groups: vec![normal] };
    run_passes(&mut doc, &passes).ok().unwrap();
    assert_eq!(doc.groups[0].shader.nodes.len(), 4);
}
