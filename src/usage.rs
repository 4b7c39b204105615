use vstd::prelude::*;
use crate::graph::{Eyesight, Group, GroupReference, GroupReferenceInput, GroupReferenceOutput, Material, Node, NodeKind, Shader};
use crate::socket::SocketType;

verus! {

/// A socket of a group as one call site uses it: the group, whether the socket
/// is an output, its name and its type.
pub struct Usage {
    pub group: Seq<char>,
    pub output: bool,
    pub socket: Seq<char>,
    pub data_type: SocketType,
}

/// A socket usage as collected from a document.
#[derive(Debug)]
pub struct UsageRecord {
    pub group: String,
    pub output: bool,
    pub socket: String,
    pub data_type: SocketType,
}

impl View for UsageRecord {
    type V = Usage;

    open spec fn view(&self) -> Usage {
        Usage { group: self.group@, output: self.output, socket: self.socket@, data_type: self.data_type }
    }
}

pub open spec fn records(v: Seq<UsageRecord>) -> Seq<Usage> {
    v.map_values(|u: UsageRecord| u@)
}

pub open spec fn strings(v: Seq<String>) -> Seq<Seq<char>> {
    v.map_values(|s: String| s@)
}

/// The usages at one call site: its inputs, then its outputs.
pub open spec fn call_usages(r: GroupReference) -> Seq<Usage> {
    r.inputs@.map_values(|i: GroupReferenceInput| Usage { group: r.group_name@, output: false, socket: i.name@, data_type: i.data_type })
        + r.outputs@.map_values(|o: GroupReferenceOutput| Usage { group: r.group_name@, output: true, socket: o.name@, data_type: o.data_type })
}

pub open spec fn node_usages(n: Node) -> Seq<Usage> {
    match n.kind {
        NodeKind::Group(r) => call_usages(r),
        _ => Seq::empty(),
    }
}

pub open spec fn node_calls(n: Node) -> Seq<Seq<char>> {
    match n.kind {
        NodeKind::Group(r) => seq![r.group_name@],
        _ => Seq::empty(),
    }
}

pub open spec fn nodes_usages(ns: Seq<Node>) -> Seq<Usage>
    decreases ns.len(),
{
    if ns.len() == 0 {
        Seq::empty()
    } else {
        nodes_usages(ns.drop_last()) + node_usages(ns.last())
    }
}

pub open spec fn nodes_calls(ns: Seq<Node>) -> Seq<Seq<char>>
    decreases ns.len(),
{
    if ns.len() == 0 {
        Seq::empty()
    } else {
        nodes_calls(ns.drop_last()) + node_calls(ns.last())
    }
}

pub open spec fn shaders_usages(ss: Seq<Shader>) -> Seq<Usage>
    decreases ss.len(),
{
    if ss.len() == 0 {
        Seq::empty()
    } else {
        shaders_usages(ss.drop_last()) + nodes_usages(ss.last().nodes@)
    }
}

pub open spec fn shaders_calls(ss: Seq<Shader>) -> Seq<Seq<char>>
    decreases ss.len(),
{
    if ss.len() == 0 {
        Seq::empty()
    } else {
        shaders_calls(ss.drop_last()) + nodes_calls(ss.last().nodes@)
    }
}

/// Every shader of a document: the materials', then the groups'.
pub open spec fn document_shaders(doc: Eyesight) -> Seq<Shader> {
    doc.materials@.map_values(|m: Material| m.shader) + doc.groups@.map_values(|g: Group| g.shader)
}

/// Every socket usage at every call site of a document, in document order.
pub open spec fn usages(doc: Eyesight) -> Seq<Usage> {
    shaders_usages(document_shaders(doc))
}

/// The group named at every call site of a document, in document order.
pub open spec fn calls(doc: Eyesight) -> Seq<Seq<char>> {
    shaders_calls(document_shaders(doc))
}

fn collect_call(r: &GroupReference, uses: &mut Vec<UsageRecord>)
    ensures
        records(final(uses)@) == records(old(uses)@) + call_usages(*r),
{
    let ghost u0 = records(uses@);
    let ghost ins = r.inputs@.map_values(|i: GroupReferenceInput| Usage { group: r.group_name@, output: false, socket: i.name@, data_type: i.data_type });
    let ghost outs = r.outputs@.map_values(|o: GroupReferenceOutput| Usage { group: r.group_name@, output: true, socket: o.name@, data_type: o.data_type });
    let mut k: usize = 0;
    while k < r.inputs.len()
        invariant
            0 <= k <= r.inputs@.len(),
            ins == r.inputs@.map_values(|i: GroupReferenceInput| Usage { group: r.group_name@, output: false, socket: i.name@, data_type: i.data_type }),
            records(uses@) == u0 + ins.take(k as int),
        decreases r.inputs@.len() - k,
    {
        let ghost before = uses@;
        uses.push(UsageRecord {
            group: r.group_name.clone(),
            output: false,
            socket: r.inputs[k].name.clone(),
            data_type: r.inputs[k].data_type,
        });
        assert(records(uses@) =~= records(before).push(ins[k as int]));
        assert(ins.take(k + 1) =~= ins.take(k as int).push(ins[k as int]));
        k = k + 1;
    }
    assert(ins.take(k as int) =~= ins);
    let mut k: usize = 0;
    while k < r.outputs.len()
        invariant
            0 <= k <= r.outputs@.len(),
            outs == r.outputs@.map_values(|o: GroupReferenceOutput| Usage { group: r.group_name@, output: true, socket: o.name@, data_type: o.data_type }),
            records(uses@) == u0 + ins + outs.take(k as int),
        decreases r.outputs@.len() - k,
    {
        let ghost before = uses@;
        uses.push(UsageRecord {
            group: r.group_name.clone(),
            output: true,
            socket: r.outputs[k].name.clone(),
            data_type: r.outputs[k].data_type,
        });
        assert(records(uses@) =~= records(before).push(outs[k as int]));
        assert(outs.take(k + 1) =~= outs.take(k as int).push(outs[k as int]));
        k = k + 1;
    }
    assert(outs.take(k as int) =~= outs);
    assert(u0 + ins + outs =~= u0 + call_usages(*r));
}

fn collect_shader(shader: &Shader, calls: &mut Vec<String>, uses: &mut Vec<UsageRecord>)
    ensures
        strings(final(calls)@) == strings(old(calls)@) + nodes_calls(shader.nodes@),
        records(final(uses)@) == records(old(uses)@) + nodes_usages(shader.nodes@),
{
    let ghost c0 = strings(calls@);
    let ghost u0 = records(uses@);
    let ghost ns = shader.nodes@;
    let mut i: usize = 0;
    while i < shader.nodes.len()
        invariant
            ns == shader.nodes@,
            0 <= i <= ns.len(),
            strings(calls@) == c0 + nodes_calls(ns.take(i as int)),
            records(uses@) == u0 + nodes_usages(ns.take(i as int)),
        decreases ns.len() - i,
    {
        assert(ns.take(i + 1).drop_last() =~= ns.take(i as int));
        match &shader.nodes[i].kind {
            NodeKind::Group(r) => {
                let ghost before = calls@;
                calls.push(r.group_name.clone());
                assert(strings(calls@) =~= strings(before).push(r.group_name@));
                assert(strings(calls@) =~= c0 + nodes_calls(ns.take(i + 1)));
                collect_call(r, uses);
                assert(records(uses@) =~= u0 + nodes_usages(ns.take(i + 1)));
            },
            _ => {
                assert(strings(calls@) =~= c0 + nodes_calls(ns.take(i + 1)));
                assert(records(uses@) =~= u0 + nodes_usages(ns.take(i + 1)));
            },
        }
        i = i + 1;
    }
    assert(ns.take(i as int) =~= ns);
}

/// Collects the group named at every call site and every socket usage, over
/// the materials' shaders and then the groups'.
pub fn collect_usages(doc: &Eyesight) -> (r: (Vec<String>, Vec<UsageRecord>))
    ensures
        strings(r.0@) == calls(*doc),
        records(r.1@) == usages(*doc),
{
    let ghost ss = document_shaders(*doc);
    let ghost nm = doc.materials@.len();
    let mut calls: Vec<String> = Vec::new();
    let mut uses: Vec<UsageRecord> = Vec::new();
    assert(strings(calls@) =~= shaders_calls(ss.take(0)));
    assert(records(uses@) =~= shaders_usages(ss.take(0)));
    let mut i: usize = 0;
    while i < doc.materials.len()
        invariant
            ss == document_shaders(*doc),
            nm == doc.materials@.len(),
            0 <= i <= nm,
            strings(calls@) == shaders_calls(ss.take(i as int)),
            records(uses@) == shaders_usages(ss.take(i as int)),
        decreases nm - i,
    {
        assert(ss.take(i + 1).drop_last() =~= ss.take(i as int));
        assert(ss[i as int] == doc.materials@[i as int].shader);
        collect_shader(&doc.materials[i].shader, &mut calls, &mut uses);
        i = i + 1;
    }
    let mut j: usize = 0;
    while j < doc.groups.len()
        invariant
            ss == document_shaders(*doc),
            nm == doc.materials@.len(),
            0 <= j <= doc.groups@.len(),
            strings(calls@) == shaders_calls(ss.take(nm + j)),
            records(uses@) == shaders_usages(ss.take(nm + j)),
        decreases doc.groups@.len() - j,
    {
        assert(ss.take(nm + j + 1).drop_last() =~= ss.take(nm + j));
        assert(ss[nm + j] == doc.groups@[j as int].shader);
        collect_shader(&doc.groups[j].shader, &mut calls, &mut uses);
        j = j + 1;
    }
    assert(ss.take(nm + j) =~= ss);
    (calls, uses)
}

} // verus!
