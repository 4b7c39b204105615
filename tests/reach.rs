use xml2py::graph::{Eyesight, Group, GroupReference, Node, NodeKind, Shader};
use xml2py::reach::reachable_groups;

fn call(name: &str, group: &str) -> Node {
    Node {
        name: name.to_string(),
        kind: NodeKind::Group(GroupReference { group_name: group.to_string(), inputs: vec![], outputs: vec![] }),
        inputs: vec![],
    }
}

fn group(name: &str, calls: &[&str]) -> Group {
    Group {
        name: name.to_string(),
        shader: Shader { nodes: calls.iter().enumerate().map(|(i, g)| call(&format!("n{i}"), g)).collect(), links: vec![] },
    }
}

#[test]
fn closure_over_group_references() {
    let doc = Eyesight {
        materials: vec![],
        groups: vec![
            group("Solid", &["Normal", "Base"]),
            group("Normal", &["Base"]),
            group("Base", &[]),
            group("Unreached", &["Solid"]),
            group("Trans", &["Base"]),
        ],
    };
    let order = reachable_groups(&doc, &vec!["Solid".to_string(), "Trans".to_string()]).ok().unwrap();
    assert_eq!(order, vec![4, 2, 0, 1]);
}

#[test]
fn cycles_terminate() {
    let doc = Eyesight { materials: vec![], groups: vec![group("A", &["B"]), group("B", &["A"])] };
    assert_eq!(reachable_groups(&doc, &vec!["A".to_string()]).ok().unwrap(), vec![0, 1]);
}

#[test]
fn missing_group_is_reported() {
    let doc = Eyesight { materials: vec![], groups: vec![group("A", &["Gone"])] };
    assert_eq!(reachable_groups(&doc, &vec!["A".to_string()]).err().unwrap().group, "Gone");
    assert_eq!(reachable_groups(&doc, &vec!["Nope".to_string()]).err().unwrap().group, "Nope");
}

#[test]
fn walk_goes_deep_before_wide() {
    let doc = Eyesight {
        materials: vec![],
        groups: vec![group("Root", &["A", "B"]), group("A", &[]), group("B", &["C"]), group("C", &[])],
    };
    assert_eq!(reachable_groups(&doc, &vec!["Root".to_string()]).ok().unwrap(), vec![0, 2, 3, 1]);
}
