use vstd::prelude::*;
use crate::graph::{
    Material,
    Eyesight, Group, GroupReference, Link, MixType, Named, Node, NodeInput, NodeKind, Shader, SimpleKind,
    VectorOperation,
};
use crate::interface::find_group;
use crate::schedule::find_node;
use crate::value::NodeInputValue;

verus! {

/// A node that averages two vectors, which the target cannot do directly.
pub open spec fn is_vector_average(n: Node) -> bool {
    n.kind matches NodeKind::Simple(SimpleKind::VectorMath { operation: VectorOperation::Average })
}

/// Replaces every vector-average node by a vector mix of the same name, which
/// averages its two inputs at the default factor. Links keep pointing at the
/// node by name, so its connections carry over.
pub fn implement_vector_average(shader: &mut Shader)
    ensures
        final(shader).links@ == old(shader).links@,
        final(shader).nodes@.len() == old(shader).nodes@.len(),
        forall|i: int| 0 <= i < old(shader).nodes@.len() ==> {
            let n = old(shader).nodes@[i];
            let m = #[trigger] final(shader).nodes@[i];
            if is_vector_average(n) {
                m.name@ == n.name@ && m.kind == NodeKind::Simple(SimpleKind::MixVector) && m.inputs@.len() == 0
            } else {
                m == n
            }
        },
{
    let ghost old_nodes = shader.nodes@;
    let mut i: usize = 0;
    while i < shader.nodes.len()
        invariant
            shader.nodes@.len() == old_nodes.len(),
            shader.links@ == old(shader).links@,
            old_nodes == old(shader).nodes@,
            0 <= i <= old_nodes.len(),
            forall|k: int| i <= k < old_nodes.len() ==> shader.nodes@[k] == old_nodes[k],
            forall|k: int| 0 <= k < i ==> {
                let n = old_nodes[k];
                let m = #[trigger] shader.nodes@[k];
                if is_vector_average(n) {
                    m.name@ == n.name@ && m.kind == NodeKind::Simple(SimpleKind::MixVector) && m.inputs@.len() == 0
                } else {
                    m == n
                }
            },
        decreases old_nodes.len() - i,
    {
        let average = match &shader.nodes[i].kind {
            NodeKind::Simple(SimpleKind::VectorMath { operation: VectorOperation::Average }) => true,
            _ => false,
        };
        if average {
            let name = shader.nodes[i].name.clone();
            shader.nodes.set(i, Node { name, kind: NodeKind::Simple(SimpleKind::MixVector), inputs: Vec::new() });
        }
        i = i + 1;
    }
}

pub open spec fn link_is(l: Link, from_node: Seq<char>, from_socket: Seq<char>, to_node: Seq<char>, to_socket: Seq<char>) -> bool {
    l.from_node@ == from_node && l.from_socket@ == from_socket && l.to_node@ == to_node && l.to_socket@ == to_socket
}

pub open spec fn float_literal(i: NodeInput, name: Seq<char>, text: Seq<char>) -> bool {
    i.name@ == name && match i.value {
        NodeInputValue::Float(t) => t@ == text,
        _ => false,
    }
}

/// The two nodes of the slope patch: a call of `Is Slope` with no sockets, and
/// a clamped value mix between the literals 2 and 140.
pub open spec fn slope_patch(call: Node, choose: Node) -> bool {
    &&& call.name@ == "is_slope"@
    &&& call.inputs@.len() == 0
    &&& match call.kind {
        NodeKind::Group(r) => r.group_name@ == "Is Slope"@ && r.inputs@.len() == 0 && r.outputs@.len() == 0,
        _ => false,
    }
    &&& choose.name@ == "choose_roughness"@
    &&& choose.kind == NodeKind::Simple(SimpleKind::MixValue { mix_type: MixType::Mix, use_clamp: true })
    &&& choose.inputs@.len() == 2
    &&& float_literal(choose.inputs@[0], "A"@, "2"@)
    &&& float_literal(choose.inputs@[1], "B"@, "140"@)
}

/// `after_doc` is `before_doc` with the slope patch spliced into its `Normal`
/// group: two nodes and two links appended, everything else unchanged.
pub open spec fn slope_patched(before_doc: Eyesight, after_doc: Eyesight) -> bool {
    &&& after_doc.materials@ == before_doc.materials@
    &&& after_doc.groups@.len() == before_doc.groups@.len()
    &&& exists|gi: int| 0 <= gi < before_doc.groups@.len() && before_doc.groups@[gi].name@ == "Normal"@ && {
        let before = before_doc.groups@[gi];
        let after = after_doc.groups@[gi];
        &&& after.name@ == before.name@
        &&& after.shader.nodes@.len() == before.shader.nodes@.len() + 2
        &&& after.shader.nodes@.take(before.shader.nodes@.len() as int) == before.shader.nodes@
        &&& slope_patch(after.shader.nodes@[before.shader.nodes@.len() as int], after.shader.nodes@[before.shader.nodes@.len() as int + 1])
        &&& after.shader.links@.len() == before.shader.links@.len() + 2
        &&& after.shader.links@.take(before.shader.links@.len() as int) == before.shader.links@
        &&& link_is(after.shader.links@[before.shader.links@.len() as int], "is_slope"@, "0"@, "choose_roughness"@, "Factor"@)
        &&& link_is(after.shader.links@[before.shader.links@.len() as int + 1], "choose_roughness"@, "0"@, "rough_surface"@, "Scale"@)
        &&& forall|gj: int| 0 <= gj < before_doc.groups@.len() && gj != gi ==> after_doc.groups@[gj] == before_doc.groups@[gj]
    }
}

/// A rewrite pass could not find the group or node it patches.
#[derive(Debug)]
pub struct MissingRewriteAnchorError {
    pub anchor: String,
}

/// The group that the slope-roughness patch extends, and the node in it whose
/// scale the patch drives.
pub open spec fn slope_anchor_present(doc: Eyesight) -> bool {
    exists|gi: int, ni: int|
        0 <= gi < doc.groups@.len() && doc.groups@[gi].name@ == "Normal"@ && 0 <= ni
            < doc.groups@[gi].shader.nodes@.len() && doc.groups@[gi].shader.nodes@[ni].name@ == "rough_surface"@
}

/// Extends the `Normal` group so that its `rough_surface` scale is chosen by
/// whether the surface is a slope: a call of `Is Slope` drives a value mix
/// between 2 and 140, which feeds the scale.
pub fn add_slope_roughness(doc: &mut Eyesight) -> (r: Result<(), MissingRewriteAnchorError>)
    requires
        crate::graph::names_unique(old(doc).groups@),
    ensures
        r is Ok <==> slope_anchor_present(*old(doc)),
        r is Err ==> *final(doc) == *old(doc),
        r is Ok ==> slope_patched(*old(doc), *final(doc)),
{
    proof {
        reveal_strlit("Normal");
        reveal_strlit("rough_surface");
    }
    let gi = match find_group(&doc.groups, "Normal") {
        Some(gi) => gi,
        None => {
            return Err(MissingRewriteAnchorError { anchor: "Normal".to_owned() });
        },
    };
    if find_node(&doc.groups[gi].shader.nodes, "rough_surface").is_none() {
        proof {
            assert forall|gj: int, ni: int|
                0 <= gj < doc.groups@.len() && doc.groups@[gj].name@ == "Normal"@ && 0 <= ni
                    < doc.groups@[gj].shader.nodes@.len() implies doc.groups@[gj].shader.nodes@[ni].name@ != "rough_surface"@ by {
                assert(doc.groups@[gj].name_view() == doc.groups@[gi as int].name_view());
            }
        }
        return Err(MissingRewriteAnchorError { anchor: "rough_surface".to_owned() });
    }
    let ghost ni = choose|ni: int| 0 <= ni < doc.groups@[gi as int].shader.nodes@.len() && doc.groups@[gi as int].shader.nodes@[ni].name@ == "rough_surface"@;
    let ghost before = doc.groups@[gi as int];
    let mut group = Group { name: String::new(), shader: Shader { nodes: Vec::new(), links: Vec::new() } };
    doc.groups.set_and_swap(gi, &mut group);
    group.shader.nodes.push(Node {
        name: "is_slope".to_owned(),
        kind: NodeKind::Group(GroupReference { group_name: "Is Slope".to_owned(), inputs: Vec::new(), outputs: Vec::new() }),
        inputs: Vec::new(),
    });
    let mut inputs: Vec<NodeInput> = Vec::new();
    inputs.push(NodeInput::new("A", NodeInputValue::Float("2".to_owned())));
    inputs.push(NodeInput::new("B", NodeInputValue::Float("140".to_owned())));
    let ghost inputs_view = inputs@;
    assert(float_literal(inputs_view[0], "A"@, "2"@));
    assert(float_literal(inputs_view[1], "B"@, "140"@));
    group.shader.nodes.push(Node {
        name: "choose_roughness".to_owned(),
        kind: NodeKind::Simple(SimpleKind::MixValue { mix_type: MixType::Mix, use_clamp: true }),
        inputs,
    });
    group.shader.links.push(Link::new("is_slope", "0", "choose_roughness", "Factor"));
    group.shader.links.push(Link::new("choose_roughness", "0", "rough_surface", "Scale"));
    let ghost after = group;
    proof {
        let n = before.shader.nodes@.len() as int;
        assert(after.shader.nodes@[n].name@ == "is_slope"@);
        assert(after.shader.nodes@[n + 1].inputs@ == inputs_view);
        assert(slope_patch(after.shader.nodes@[n], after.shader.nodes@[n + 1]));
    }
    doc.groups.set_and_swap(gi, &mut group);
    proof {
        assert(slope_anchor_present(*old(doc))) by {
            assert(old(doc).groups@[gi as int].shader.nodes@[ni].name@ == "rough_surface"@);
        }
        assert(after.shader.nodes@.take(before.shader.nodes@.len() as int) =~= before.shader.nodes@);
        assert(after.shader.links@.take(before.shader.links@.len() as int) =~= before.shader.links@);
    }
    Ok(())
}

/// `after` is shader `before` with every vector-average node lowered to a
/// vector mix of the same name.
pub open spec fn lowered(before: Shader, after: Shader) -> bool {
    &&& after.links@ == before.links@
    &&& after.nodes@.len() == before.nodes@.len()
    &&& forall|i: int| 0 <= i < before.nodes@.len() ==> {
        let n = before.nodes@[i];
        let m = #[trigger] after.nodes@[i];
        if is_vector_average(n) {
            m.name@ == n.name@ && m.kind == NodeKind::Simple(SimpleKind::MixVector) && m.inputs@.len() == 0
        } else {
            m == n
        }
    }
}

pub open spec fn material_lowered(before: Material, after: Material) -> bool {
    &&& after.name == before.name
    &&& after.heterogeneous_volume == before.heterogeneous_volume
    &&& after.use_local_tuning == before.use_local_tuning
    &&& after.use_mis == before.use_mis
    &&& after.use_transparent_shadow == before.use_transparent_shadow
    &&& after.diffuse_ao_factor == before.diffuse_ao_factor
    &&& after.glossy_ao_factor == before.glossy_ao_factor
    &&& after.subsurface_ao_factor == before.subsurface_ao_factor
    &&& after.subsurface_factor == before.subsurface_factor
    &&& after.transmission_ao_factor == before.transmission_ao_factor
    &&& lowered(before.shader, after.shader)
}

/// `after` is `before` with vector averages lowered in every shader, of every
/// material and every group.
pub open spec fn averaged(before: Eyesight, after: Eyesight) -> bool {
    &&& after.materials@.len() == before.materials@.len()
    &&& forall|k: int| 0 <= k < before.materials@.len() ==> material_lowered(before.materials@[k], #[trigger] after.materials@[k])
    &&& after.groups@.len() == before.groups@.len()
    &&& forall|k: int| 0 <= k < before.groups@.len() ==> (#[trigger] after.groups@[k]).name == before.groups@[k].name
        && lowered(before.groups@[k].shader, after.groups@[k].shader)
}

/// Lowers vector averages in every shader of the document.
pub fn lower_vector_averages(doc: &mut Eyesight)
    ensures
        averaged(*old(doc), *final(doc)),
{
    let mut taken = Eyesight { materials: Vec::new(), groups: Vec::new() };
    std::mem::swap(doc, &mut taken);
    let ghost d0 = taken;
    let Eyesight { materials, groups } = taken;
    let mut src = materials;
    let mut out: Vec<Material> = Vec::new();
    while src.len() > 0
        invariant
            out@.len() + src@.len() == d0.materials@.len(),
            src@ == d0.materials@.skip(out@.len() as int),
            forall|k: int| 0 <= k < out@.len() ==> material_lowered(d0.materials@[k], #[trigger] out@[k]),
        decreases src@.len(),
    {
        let ghost m = out@.len() as int;
        let x = src.remove(0);
        assert(x == d0.materials@[m]);
        assert(src@ =~= d0.materials@.skip(m + 1));
        let Material {
            name,
            heterogeneous_volume,
            use_local_tuning,
            use_mis,
            use_transparent_shadow,
            diffuse_ao_factor,
            glossy_ao_factor,
            subsurface_ao_factor,
            subsurface_factor,
            transmission_ao_factor,
            shader,
        } = x;
        let mut shader = shader;
        implement_vector_average(&mut shader);
        out.push(Material {
            name,
            heterogeneous_volume,
            use_local_tuning,
            use_mis,
            use_transparent_shadow,
            diffuse_ao_factor,
            glossy_ao_factor,
            subsurface_ao_factor,
            subsurface_factor,
            transmission_ao_factor,
            shader,
        });
    }
    let mut gsrc = groups;
    let mut gout: Vec<Group> = Vec::new();
    while gsrc.len() > 0
        invariant
            gout@.len() + gsrc@.len() == d0.groups@.len(),
            gsrc@ == d0.groups@.skip(gout@.len() as int),
            forall|k: int| 0 <= k < gout@.len() ==> (#[trigger] gout@[k]).name == d0.groups@[k].name
                && lowered(d0.groups@[k].shader, gout@[k].shader),
        decreases gsrc@.len(),
    {
        let ghost m = gout@.len() as int;
        let x = gsrc.remove(0);
        assert(x == d0.groups@[m]);
        assert(gsrc@ =~= d0.groups@.skip(m + 1));
        let Group { name, shader } = x;
        let mut shader = shader;
        implement_vector_average(&mut shader);
        gout.push(Group { name, shader });
    }
    *doc = Eyesight { materials: out, groups: gout };
}

/// A named structural pass over a document.
#[derive(Clone, Copy, Debug, PartialEq, Eq, Structural)]
pub enum RewritePass {
    /// Replaces vector averages, which the target lacks, by vector mixes.
    VectorAverage,
    /// Splices the slope-dependent roughness into the `Normal` group.
    SlopeRoughness,
}

/// The passes, in the order they run.
pub open spec fn pass_order() -> Seq<RewritePass> {
    seq![RewritePass::VectorAverage, RewritePass::SlopeRoughness]
}

impl RewritePass {
    /// The pass's name, for reports.
    pub fn name(&self) -> (r: &'static str)
        ensures
            r@ == (match *self {
                RewritePass::VectorAverage => "vector-average lowering"@,
                RewritePass::SlopeRoughness => "slope roughness"@,
            }),
    {
        match self {
            RewritePass::VectorAverage => "vector-average lowering",
            RewritePass::SlopeRoughness => "slope roughness",
        }
    }
}

/// The rewrite passes, in the order they run.
pub fn rewrite_passes() -> (r: Vec<RewritePass>)
    ensures
        r@ == pass_order(),
{
    let mut r: Vec<RewritePass> = Vec::new();
    r.push(RewritePass::VectorAverage);
    r.push(RewritePass::SlopeRoughness);
    assert(r@ =~= pass_order());
    r
}

/// What a pass that succeeds does to a document.
pub open spec fn pass_effect(before: Eyesight, after: Eyesight, p: RewritePass) -> bool {
    match p {
        RewritePass::VectorAverage => averaged(before, after),
        RewritePass::SlopeRoughness => slope_anchor_present(before) && slope_patched(before, after),
    }
}

/// Whether a pass can run: the slope patch needs its anchor.
pub open spec fn pass_applies(before: Eyesight, p: RewritePass) -> bool {
    match p {
        RewritePass::VectorAverage => true,
        RewritePass::SlopeRoughness => slope_anchor_present(before),
    }
}

proof fn lemma_names_kept(before: Eyesight, after: Eyesight)
    requires
        crate::graph::names_unique(before.groups@),
        after.groups@.len() == before.groups@.len(),
        forall|k: int| 0 <= k < before.groups@.len() ==> (#[trigger] after.groups@[k]).name@ == before.groups@[k].name@,
    ensures
        crate::graph::names_unique(after.groups@),
{
    assert forall|i: int, j: int| 0 <= i < after.groups@.len() && 0 <= j < after.groups@.len() && i != j
        implies after.groups@[i].name_view() != after.groups@[j].name_view() by {
        assert(before.groups@[i].name_view() != before.groups@[j].name_view());
    }
}

/// Runs one pass.
pub fn apply_pass(doc: &mut Eyesight, p: RewritePass) -> (r: Result<(), MissingRewriteAnchorError>)
    requires
        crate::graph::names_unique(old(doc).groups@),
    ensures
        r is Ok <==> pass_applies(*old(doc), p),
        r is Ok ==> pass_effect(*old(doc), *final(doc), p),
        r is Err ==> *final(doc) == *old(doc),
        crate::graph::names_unique(final(doc).groups@),
{
    match p {
        RewritePass::VectorAverage => {
            let ghost before = *doc;
            lower_vector_averages(doc);
            proof {
                assert forall|k: int| 0 <= k < before.groups@.len() implies (#[trigger] doc.groups@[k]).name@ == before.groups@[k].name@ by {
                    assert(doc.groups@[k].name == before.groups@[k].name);
                }
                lemma_names_kept(before, *doc);
            }
            Ok(())
        },
        RewritePass::SlopeRoughness => {
            let ghost before = *doc;
            let r = add_slope_roughness(doc);
            proof {
                if r is Ok {
                    let gi = choose|gi: int| 0 <= gi < before.groups@.len() && before.groups@[gi].name@ == "Normal"@ && {
                        let b = before.groups@[gi];
                        let a = doc.groups@[gi];
                        &&& a.name@ == b.name@
                        &&& a.shader.nodes@.len() == b.shader.nodes@.len() + 2
                        &&& a.shader.nodes@.take(b.shader.nodes@.len() as int) == b.shader.nodes@
                        &&& slope_patch(a.shader.nodes@[b.shader.nodes@.len() as int], a.shader.nodes@[b.shader.nodes@.len() as int + 1])
                        &&& a.shader.links@.len() == b.shader.links@.len() + 2
                        &&& a.shader.links@.take(b.shader.links@.len() as int) == b.shader.links@
                        &&& link_is(a.shader.links@[b.shader.links@.len() as int], "is_slope"@, "0"@, "choose_roughness"@, "Factor"@)
                        &&& link_is(a.shader.links@[b.shader.links@.len() as int + 1], "choose_roughness"@, "0"@, "rough_surface"@, "Scale"@)
                        &&& forall|gj: int| 0 <= gj < before.groups@.len() && gj != gi ==> doc.groups@[gj] == before.groups@[gj]
                    };
                    assert forall|k: int| 0 <= k < before.groups@.len() implies (#[trigger] doc.groups@[k]).name@ == before.groups@[k].name@ by {
                        if k != gi {
                            assert(doc.groups@[k] == before.groups@[k]);
                        }
                    }
                    lemma_names_kept(before, *doc);
                }
            }
            r
        },
    }
}

/// Runs the passes in order, stopping at the first that cannot find its
/// anchor; the document is then left as the earlier passes made it.
pub fn run_passes(doc: &mut Eyesight, passes: &Vec<RewritePass>) -> (r: Result<(), MissingRewriteAnchorError>)
    requires
        crate::graph::names_unique(old(doc).groups@),
    ensures
        r is Ok ==> exists|steps: Seq<Eyesight>|
            steps.len() == passes@.len() + 1 && steps[0] == *old(doc) && steps.last() == *final(doc) && forall|i: int|
                0 <= i < passes@.len() ==> pass_effect(steps[i], #[trigger] steps[i + 1], passes@[i]),
        r is Err ==> exists|steps: Seq<Eyesight>|
            steps.len() <= passes@.len() && steps.len() > 0 && steps[0] == *old(doc) && steps.last() == *final(doc)
                && !pass_applies(steps.last(), passes@[steps.len() - 1]) && forall|i: int|
                0 <= i < steps.len() - 1 ==> pass_effect(steps[i], #[trigger] steps[i + 1], passes@[i]),
{
    let ghost mut steps: Seq<Eyesight> = seq![*doc];
    let mut i: usize = 0;
    while i < passes.len()
        invariant
            0 <= i <= passes@.len(),
            crate::graph::names_unique(doc.groups@),
            steps.len() == i + 1,
            steps[0] == *old(doc),
            steps.last() == *doc,
            forall|q: int| 0 <= q < i ==> pass_effect(steps[q], #[trigger] steps[q + 1], passes@[q]),
        decreases passes@.len() - i,
    {
        let ghost before = *doc;
        match apply_pass(doc, passes[i]) {
            Err(e) => {
                assert(steps.last() == before);
                return Err(e);
            },
            Ok(()) => {},
        }
        proof {
            let s0 = steps;
            steps = steps.push(*doc);
            assert forall|q: int| 0 <= q < i + 1 implies pass_effect(steps[q], #[trigger] steps[q + 1], passes@[q]) by {
                if q < i {
                    assert(steps[q] == s0[q] && steps[q + 1] == s0[q + 1]);
                }
            }
        }
        i = i + 1;
    }
    Ok(())
}

} // verus!
