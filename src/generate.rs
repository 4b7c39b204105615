use vstd::prelude::*;
use crate::emit::{group_body, group_to_python};
use crate::graph::{Eyesight, names_unique};
use crate::interface::{
    GroupInterface, Inference, InterfaceError, all_boundaries_unique, calls_defined, check_interfaces,
    defines, inference_ok, no_conflict,
};
use crate::names::{snake_case, to_snake};
use crate::reach::{UnknownGroupError, dfs_order, reachable_groups};
use crate::schedule::{CycleOrUnreachableNodeError, is_layering, is_stall, unique_node_names};
use crate::text::{concat, str_eq};
use crate::usage::{strings, usages};

verus! {

/// Why generating the whole file failed.
#[derive(Debug)]
pub enum GenerationError {
    Interface(InterfaceError),
    UnknownGroup(UnknownGroupError),
    Schedule(CycleOrUnreachableNodeError),
}

/// The fixed text that opens every generated file.
pub open spec fn preamble() -> Seq<char> {
    "import bpy\n\nfrom .shader_graph import ShaderGraph, load_image\n\n\n"@
}

/// Every line indented by four spaces and ended by a newline.
pub open spec fn indented(lines: Seq<Seq<char>>) -> Seq<char>
    decreases lines.len(),
{
    if lines.len() == 0 {
        seq![]
    } else {
        indented(lines.drop_last()) + "    "@ + lines.last() + "\n"@
    }
}

/// The function that builds group `name`, with the given body, followed by
/// two blank lines.
pub open spec fn function_text(name: Seq<char>, body: Seq<Seq<char>>) -> Seq<char> {
    "def "@ + snake_case(name) + "_node_group(graph: ShaderGraph):\n"@ + indented(body) + "\n\n"@
}

/// Position `i` holds the first interface of group `g`.
pub open spec fn first_interface(ifs: Seq<GroupInterface>, g: Seq<char>, i: int) -> bool {
    0 <= i < ifs.len() && ifs[i].group@ == g && forall|j: int| 0 <= j < i ==> ifs[j].group@ != g
}

pub open spec fn has_group_interface(ifs: Seq<GroupInterface>, g: Seq<char>) -> bool {
    exists|i: int| first_interface(ifs, g, i)
}

/// The first interface of group `g`.
pub open spec fn interface_for(ifs: Seq<GroupInterface>, g: Seq<char>) -> GroupInterface {
    ifs[choose|i: int| first_interface(ifs, g, i)]
}

proof fn lemma_first_unique(ifs: Seq<GroupInterface>, g: Seq<char>, i: int, j: int)
    requires
        first_interface(ifs, g, i),
        first_interface(ifs, g, j),
    ensures
        i == j,
{
    if i < j {
        assert(ifs[i].group@ != g);
    } else if j < i {
        assert(ifs[j].group@ != g);
    }
}

/// The functions for the groups listed in `order`, in that order, skipping
/// those without an interface; `bodies[k]` is the body for `order[k]`.
pub open spec fn functions(doc: Eyesight, order: Seq<usize>, ifs: Seq<GroupInterface>, bodies: Seq<Seq<Seq<char>>>) -> Seq<char>
    decreases bodies.len(),
{
    if bodies.len() == 0 {
        seq![]
    } else {
        let k = bodies.len() - 1;
        let name = doc.groups@[order[k] as int].name@;
        functions(doc, order, ifs, bodies.drop_last()) + if has_group_interface(ifs, name) {
            function_text(name, bodies.last())
        } else {
            seq![]
        }
    }
}

/// Each body is the generated body of its group under the group's interface,
/// for some valid layering of the group's shader.
pub open spec fn bodies_ok(doc: Eyesight, order: Seq<usize>, ifs: Seq<GroupInterface>, bodies: Seq<Seq<Seq<char>>>) -> bool {
    forall|k: int| 0 <= k < bodies.len() && has_group_interface(ifs, doc.groups@[order[k] as int].name@) ==> body_ok(
        doc,
        order,
        ifs,
        k,
        #[trigger] bodies[k],
    )
}

/// `b` is the generated body of group `order[k]` under its interface, for some
/// valid layering of its shader.
pub open spec fn body_ok(doc: Eyesight, order: Seq<usize>, ifs: Seq<GroupInterface>, k: int, b: Seq<Seq<char>>) -> bool {
    exists|t: Seq<Seq<usize>>|
        is_layering(doc.groups@[order[k] as int].shader.nodes@, doc.groups@[order[k] as int].shader.links@, t)
            && b == group_body(doc.groups@[order[k] as int], interface_for(ifs, doc.groups@[order[k] as int].name@).interface, t)
}

fn find_interface(ifs: &Vec<GroupInterface>, g: &str) -> (r: Option<usize>)
    ensures
        r matches Some(i) ==> first_interface(ifs@, g@, i as int),
        r is None ==> !has_group_interface(ifs@, g@),
{
    let mut i: usize = 0;
    while i < ifs.len()
        invariant
            0 <= i <= ifs@.len(),
            forall|j: int| 0 <= j < i ==> ifs@[j].group@ != g@,
        decreases ifs@.len() - i,
    {
        if str_eq(ifs[i].group.as_str(), g) {
            return Some(i);
        }
        i = i + 1;
    }
    None
}

fn function_text_exec(name: &str, body: &Vec<String>) -> (r: String)
    ensures
        r@ == function_text(name@, body.deep_view()),
{
    let mut text = concat("def ", to_snake(name).as_str());
    text.append("_node_group(graph: ShaderGraph):\n");
    let ghost head = text@;
    let mut k: usize = 0;
    while k < body.len()
        invariant
            0 <= k <= body@.len(),
            text@ == head + indented(body.deep_view().take(k as int)),
        decreases body@.len() - k,
    {
        assert(body.deep_view().take(k + 1).drop_last() =~= body.deep_view().take(k as int));
        assert(body.deep_view().take(k + 1).last() == body@[k as int]@);
        text.append("    ");
        text.append(body[k].as_str());
        text.append("\n");
        assert(text@ =~= head + indented(body.deep_view().take(k + 1)));
        k = k + 1;
    }
    assert(body.deep_view().take(k as int) =~= body.deep_view());
    text.append("\n\n");
    text
}

/// Generates the whole file: the preamble, then one function per group that is
/// reachable from the roots and has an interface, in the order the groups are
/// reached. Interface inference, an unknown group and an unschedulable shader
/// are errors.
pub fn the_big_kahuna(doc: &Eyesight, roots: &Vec<String>) -> (r: Result<String, GenerationError>)
    requires
        names_unique(doc.groups@),
        forall|gi: int| 0 <= gi < doc.groups@.len() ==> unique_node_names(#[trigger] doc.groups@[gi].shader.nodes@),
    ensures
        r is Ok ==> all_boundaries_unique(*doc) && calls_defined(*doc) && no_conflict(usages(*doc)),
        r is Ok ==> dfs_order(*doc, roots@) is Some,
        r matches Ok(text) ==> exists|order: Seq<usize>, inf: Inference, bodies: Seq<Seq<Seq<char>>>|
            dfs_order(*doc, roots@) == Some(order) && inference_ok(*doc, inf) && bodies.len() == order.len()
                && bodies_ok(*doc, order, inf.interfaces@, bodies)
                && text@ == preamble() + functions(*doc, order, inf.interfaces@, bodies),
        r matches Err(GenerationError::Interface(_)) ==> !(all_boundaries_unique(*doc) && calls_defined(*doc) && no_conflict(usages(*doc))),
        r matches Err(GenerationError::UnknownGroup(e)) ==> !defines(*doc, e.group@) && dfs_order(*doc, roots@) is None,
        r matches Err(GenerationError::Schedule(e)) ==> exists|order: Seq<usize>, inf: Inference, k: int|
            dfs_order(*doc, roots@) == Some(order) && inference_ok(*doc, inf) && 0 <= k < order.len()
                && has_group_interface(inf.interfaces@, doc.groups@[order[k] as int].name@) && is_stall(
                doc.groups@[order[k] as int].shader.nodes@,
                doc.groups@[order[k] as int].shader.links@,
                e.unplaced@,
            ),
{
    let inf = match check_interfaces(doc) {
        Ok(i) => i,
        Err(e) => {
            return Err(GenerationError::Interface(e));
        },
    };
    let order = match reachable_groups(doc, roots) {
        Ok(o) => o,
        Err(e) => {
            return Err(GenerationError::UnknownGroup(e));
        },
    };
    let ghost ifs = inf.interfaces@;
    let mut text = "import bpy\n\nfrom .shader_graph import ShaderGraph, load_image\n\n\n".to_owned();
    let ghost mut bodies: Seq<Seq<Seq<char>>> = seq![];
    let mut k: usize = 0;
    while k < order.len()
        invariant
            names_unique(doc.groups@),
            forall|gi: int| 0 <= gi < doc.groups@.len() ==> unique_node_names(#[trigger] doc.groups@[gi].shader.nodes@),
            dfs_order(*doc, roots@) == Some(order@),
            forall|q: int| 0 <= q < order@.len() ==> order@[q] < doc.groups@.len(),
            inference_ok(*doc, inf),
            all_boundaries_unique(*doc) && calls_defined(*doc) && no_conflict(usages(*doc)),
            ifs == inf.interfaces@,
            0 <= k <= order@.len(),
            bodies.len() == k,
            bodies_ok(*doc, order@, ifs, bodies),
            text@ == preamble() + functions(*doc, order@, ifs, bodies),
        decreases order@.len() - k,
    {
        let gi = order[k];
        let group = &doc.groups[gi];
        let ghost name = group.name@;
        let ghost b0 = bodies;
        match find_interface(&inf.interfaces, group.name.as_str()) {
            None => {
                proof {
                    bodies = bodies.push(seq![]);
                    assert(bodies.drop_last() =~= b0);
                }
            },
            Some(ii) => {
                let body = match group_to_python(group, &inf.interfaces[ii].interface) {
                    Ok(b) => b,
                    Err(e) => {
                        proof {
                            assert(first_interface(ifs, name, ii as int));
                            assert(has_group_interface(ifs, doc.groups@[order@[k as int] as int].name@));
                        }
                        return Err(GenerationError::Schedule(e));
                    },
                };
                let f = function_text_exec(group.name.as_str(), &body);
                text.append(f.as_str());
                proof {
                    let c = choose|i: int| first_interface(ifs, name, i);
                    lemma_first_unique(ifs, name, c, ii as int);
                    assert(interface_for(ifs, name) == ifs[ii as int]);
                    assert(body_ok(*doc, order@, ifs, k as int, body.deep_view()));
                    bodies = bodies.push(body.deep_view());
                    assert(bodies.drop_last() =~= b0);
                }
            },
        }
        proof {
            assert(bodies.last() == bodies[k as int]);
            assert forall|q: int| 0 <= q < bodies.len() && has_group_interface(ifs, doc.groups@[order@[q] as int].name@) implies body_ok(
                *doc,
                order@,
                ifs,
                q,
                #[trigger] bodies[q],
            ) by {
                if q < k {
                    assert(bodies[q] == b0[q]);
                }
            }
        }
        k = k + 1;
    }
    proof {
        assert(preamble() == "import bpy\n\nfrom .shader_graph import ShaderGraph, load_image\n\n\n"@);
    }
    Ok(text)
}

} // verus!
