use vstd::prelude::*;
use crate::graph::{Eyesight, Group, Link, Named, Node, NodeKind, Shader, SimpleKind};
use crate::merge::{has_name, insert_by_name, sorted_names};
use crate::socket::SocketType;
use crate::text::str_eq;
use crate::usage::{Usage, UsageRecord, calls, collect_usages, records, strings, usages};

verus! {

pub open spec fn is_input_boundary(n: Node) -> bool {
    match n.kind {
        NodeKind::Simple(SimpleKind::GroupInput) => true,
        _ => false,
    }
}

pub open spec fn is_output_boundary(n: Node) -> bool {
    match n.kind {
        NodeKind::Simple(SimpleKind::GroupOutput) => true,
        _ => false,
    }
}

/// A shader holds at most one boundary node of each kind.
pub open spec fn boundaries_unique(sh: Shader) -> bool {
    &&& forall|i: int, j: int|
        0 <= i < sh.nodes@.len() && 0 <= j < sh.nodes@.len() && is_input_boundary(sh.nodes@[i])
            && is_input_boundary(sh.nodes@[j]) ==> i == j
    &&& forall|i: int, j: int|
        0 <= i < sh.nodes@.len() && 0 <= j < sh.nodes@.len() && is_output_boundary(sh.nodes@[i])
            && is_output_boundary(sh.nodes@[j]) ==> i == j
}

pub open spec fn starts_at_input(sh: Shader, l: Link) -> bool {
    exists|i: int| 0 <= i < sh.nodes@.len() && is_input_boundary(sh.nodes@[i]) && l.from_node@ == sh.nodes@[i].name@
}

pub open spec fn ends_at_output(sh: Shader, l: Link) -> bool {
    exists|i: int| 0 <= i < sh.nodes@.len() && is_output_boundary(sh.nodes@[i]) && l.to_node@ == sh.nodes@[i].name@
}

/// `s` is an input socket of the group: some link leaves the input boundary
/// from a socket of that name.
pub open spec fn input_candidate(sh: Shader, s: Seq<char>) -> bool {
    exists|l: int| 0 <= l < sh.links@.len() && starts_at_input(sh, sh.links@[l]) && sh.links@[l].from_socket@ == s
}

/// `s` is an output socket of the group: some link reaches the output
/// boundary at a socket of that name.
pub open spec fn output_candidate(sh: Shader, s: Seq<char>) -> bool {
    exists|l: int|
        0 <= l < sh.links@.len() && ends_at_output(sh, sh.links@[l])
            && sh.links@[l].to_socket@ == s
}

/// A group whose shader has no output boundary declares no output sockets.
pub proof fn lemma_no_output_boundary(sh: Shader)
    requires
        forall|i: int| 0 <= i < sh.nodes@.len() ==> !is_output_boundary(#[trigger] sh.nodes@[i]),
    ensures
        forall|s: Seq<char>| !output_candidate(sh, s),
{
    assert forall|s: Seq<char>| !output_candidate(sh, s) by {
        if output_candidate(sh, s) {
            let l = choose|l: int| 0 <= l < sh.links@.len() && ends_at_output(sh, sh.links@[l]) && sh.links@[l].to_socket@ == s;
            let i = choose|i: int| 0 <= i < sh.nodes@.len() && is_output_boundary(sh.nodes@[i]) && sh.links@[l].to_node@ == sh.nodes@[i].name@;
        }
    }
}

pub open spec fn candidate(sh: Shader, output: bool, s: Seq<char>) -> bool {
    if output {
        output_candidate(sh, s)
    } else {
        input_candidate(sh, s)
    }
}

pub open spec fn distinct(s: Seq<Seq<char>>) -> bool {
    forall|a: int, b: int| 0 <= a < s.len() && 0 <= b < s.len() && a != b ==> s[a] != s[b]
}

/// The socket names that a group's boundary nodes declare, not yet typed.
#[derive(Debug)]
pub struct IncompleteInterface {
    pub inputs: Vec<String>,
    pub outputs: Vec<String>,
}

/// Why interface inference failed.
#[derive(Debug)]
pub enum InterfaceError {
    /// A group's shader holds two input or two output boundary nodes.
    DuplicateBoundary { group: String },
    /// A call site names a group that the document does not define.
    UnknownGroup { group: String },
    /// Two call sites use one socket of a group with different types.
    TypeMismatch { group: String, output: bool, socket: String },
}

/// Whether `v` holds `s`.
pub fn contains_str(v: &Vec<String>, s: &str) -> (r: bool)
    ensures
        r == strings(v@).contains(s@),
{
    let mut i: usize = 0;
    while i < v.len()
        invariant
            0 <= i <= v@.len(),
            forall|k: int| 0 <= k < i ==> v@[k]@ != s@,
        decreases v@.len() - i,
    {
        if str_eq(v[i].as_str(), s) {
            assert(strings(v@)[i as int] == s@);
            return true;
        }
        i = i + 1;
    }
    proof {
        if strings(v@).contains(s@) {
            let k = choose|k: int| 0 <= k < strings(v@).len() && strings(v@)[k] == s@;
            assert(v@[k]@ == s@);
        }
    }
    false
}

fn add_name(v: &mut Vec<String>, s: &String)
    requires
        distinct(strings(old(v)@)),
    ensures
        distinct(strings(final(v)@)),
        forall|x: Seq<char>| strings(final(v)@).contains(x) <==> (strings(old(v)@).contains(x) || x == s@),
{
    if !contains_str(v, s.as_str()) {
        let ghost before = strings(v@);
        v.push(s.clone());
        assert(strings(v@) =~= before.push(s@));
        assert forall|x: Seq<char>| strings(v@).contains(x) <==> (before.contains(x) || x == s@) by {
            if before.contains(x) {
                let k = choose|k: int| 0 <= k < before.len() && before[k] == x;
                assert(strings(v@)[k] == x);
            }
            if x == s@ {
                assert(strings(v@)[before.len() as int] == x);
            }
            if strings(v@).contains(x) && x != s@ {
                let k = choose|k: int| 0 <= k < strings(v@).len() && strings(v@)[k] == x;
                assert(before[k] == x);
            }
        }
    }
}

/// The declared sockets of a group: the names of the sockets that links leave
/// the input boundary from, and of those that links reach the output boundary
/// at; a link from one boundary to the other counts for both. A group without
/// an output boundary has no outputs.
pub fn discover_sockets(group: &Group) -> (r: Result<IncompleteInterface, InterfaceError>)
    ensures
        r is Ok <==> boundaries_unique(group.shader),
        r matches Ok(i) ==> {
            &&& distinct(strings(i.inputs@))
            &&& distinct(strings(i.outputs@))
            &&& forall|s: Seq<char>| strings(i.inputs@).contains(s) <==> input_candidate(group.shader, s)
            &&& forall|s: Seq<char>| strings(i.outputs@).contains(s) <==> output_candidate(group.shader, s)
        },
        r matches Err(e) ==> e matches InterfaceError::DuplicateBoundary { group: g } && g@ == group.name@,
{
    let nodes = &group.shader.nodes;
    let links = &group.shader.links;
    let ghost sh = group.shader;
    let mut input_node: Option<usize> = None;
    let mut output_node: Option<usize> = None;
    let mut i: usize = 0;
    while i < nodes.len()
        invariant
            nodes@ == sh.nodes@,
            sh == group.shader,
            0 <= i <= nodes@.len(),
            input_node matches Some(a) ==> a < i && is_input_boundary(nodes@[a as int]),
            input_node is None ==> forall|k: int| 0 <= k < i ==> !is_input_boundary(nodes@[k]),
            input_node matches Some(a) ==> forall|k: int| 0 <= k < i && is_input_boundary(nodes@[k]) ==> k == a,
            output_node matches Some(a) ==> a < i && is_output_boundary(nodes@[a as int]),
            output_node is None ==> forall|k: int| 0 <= k < i ==> !is_output_boundary(nodes@[k]),
            output_node matches Some(a) ==> forall|k: int| 0 <= k < i && is_output_boundary(nodes@[k]) ==> k == a,
        decreases nodes@.len() - i,
    {
        match &nodes[i].kind {
            NodeKind::Simple(SimpleKind::GroupInput) => {
                if let Some(a) = input_node {
                    assert(is_input_boundary(nodes@[a as int]));
                    assert(is_input_boundary(nodes@[i as int]));
                    assert(nodes@ == group.shader.nodes@);
                    assert(!boundaries_unique(group.shader));
                    return Err(InterfaceError::DuplicateBoundary { group: group.name.clone() });
                }
                input_node = Some(i);
            },
            NodeKind::Simple(SimpleKind::GroupOutput) => {
                if let Some(a) = output_node {
                    assert(is_output_boundary(nodes@[a as int]));
                    assert(is_output_boundary(nodes@[i as int]));
                    assert(nodes@ == group.shader.nodes@);
                    assert(!boundaries_unique(group.shader));
                    return Err(InterfaceError::DuplicateBoundary { group: group.name.clone() });
                }
                output_node = Some(i);
            },
            _ => {},
        }
        i = i + 1;
    }
    let mut inputs: Vec<String> = Vec::new();
    let mut outputs: Vec<String> = Vec::new();
    let mut l: usize = 0;
    while l < links.len()
        invariant
            nodes@ == sh.nodes@,
            sh == group.shader,
            links@ == sh.links@,
            boundaries_unique(sh),
            0 <= l <= links@.len(),
            input_node matches Some(a) ==> a < nodes@.len() && is_input_boundary(nodes@[a as int]),
            input_node is None ==> forall|k: int| 0 <= k < nodes@.len() ==> !is_input_boundary(nodes@[k]),
            output_node matches Some(a) ==> a < nodes@.len() && is_output_boundary(nodes@[a as int]),
            output_node is None ==> forall|k: int| 0 <= k < nodes@.len() ==> !is_output_boundary(nodes@[k]),
            distinct(strings(inputs@)),
            distinct(strings(outputs@)),
            forall|s: Seq<char>| strings(inputs@).contains(s) <==> exists|m: int|
                0 <= m < l && starts_at_input(sh, links@[m]) && links@[m].from_socket@ == s,
            forall|s: Seq<char>| strings(outputs@).contains(s) <==> exists|m: int|
                0 <= m < l && ends_at_output(sh, links@[m]) && links@[m].to_socket@ == s,
        decreases links@.len() - l,
    {
        let from_input = match input_node {
            Some(a) => str_eq(links[l].from_node.as_str(), nodes[a].name.as_str()),
            None => false,
        };
        assert(from_input == starts_at_input(sh, links@[l as int]));
        let to_output = match output_node {
            Some(a) => str_eq(links[l].to_node.as_str(), nodes[a].name.as_str()),
            None => false,
        };
        assert(to_output == ends_at_output(sh, links@[l as int]));
        if from_input {
            add_name(&mut inputs, &links[l].from_socket);
        }
        if to_output {
            add_name(&mut outputs, &links[l].to_socket);
        }
        assert forall|s: Seq<char>| strings(inputs@).contains(s) <==> exists|m: int|
            0 <= m < l + 1 && starts_at_input(sh, links@[m]) && links@[m].from_socket@ == s by {
            if exists|m: int| 0 <= m < l + 1 && starts_at_input(sh, links@[m]) && links@[m].from_socket@ == s {
                let m = choose|m: int| 0 <= m < l + 1 && starts_at_input(sh, links@[m]) && links@[m].from_socket@ == s;
                if m < l {
                    assert(exists|m: int| 0 <= m < l && starts_at_input(sh, links@[m]) && links@[m].from_socket@ == s);
                }
            }
        }
        assert forall|s: Seq<char>| strings(outputs@).contains(s) <==> exists|m: int|
            0 <= m < l + 1 && ends_at_output(sh, links@[m]) && links@[m].to_socket@ == s by {
            if exists|m: int| 0 <= m < l + 1 && ends_at_output(sh, links@[m]) && links@[m].to_socket@ == s {
                let m = choose|m: int| 0 <= m < l + 1 && ends_at_output(sh, links@[m]) && links@[m].to_socket@ == s;
                if m < l {
                    assert(exists|m: int| 0 <= m < l && ends_at_output(sh, links@[m]) && links@[m].to_socket@ == s);
                }
            }
        }
        l = l + 1;
    }
    Ok(IncompleteInterface { inputs, outputs })
}

/// One socket of one group in the inference table, typed once a call site
/// has used it.
pub struct Slot {
    pub group: Seq<char>,
    pub output: bool,
    pub socket: Seq<char>,
    pub data_type: Option<SocketType>,
}

#[derive(Debug)]
pub struct Candidate {
    pub group: String,
    pub output: bool,
    pub socket: String,
    pub data_type: Option<SocketType>,
}

impl View for Candidate {
    type V = Slot;

    open spec fn view(&self) -> Slot {
        Slot { group: self.group@, output: self.output, socket: self.socket@, data_type: self.data_type }
    }
}

pub open spec fn slots(v: Seq<Candidate>) -> Seq<Slot> {
    v.map_values(|c: Candidate| c@)
}

pub open spec fn keyed(u: Usage, s: Slot) -> bool {
    u.group == s.group && u.output == s.output && u.socket == s.socket
}

pub open spec fn same_key(a: Slot, b: Slot) -> bool {
    a.group == b.group && a.output == b.output && a.socket == b.socket
}

pub open spec fn same_socket(a: Usage, b: Usage) -> bool {
    a.group == b.group && a.output == b.output && a.socket == b.socket
}

pub open spec fn keys_unique(t: Seq<Slot>) -> bool {
    forall|a: int, b: int| 0 <= a < t.len() && 0 <= b < t.len() && a != b ==> !same_key(t[a], t[b])
}

/// Usages `a` and `b` name one socket of one group with different types.
pub open spec fn conflicting(us: Seq<Usage>, a: int, b: int) -> bool {
    0 <= a < us.len() && 0 <= b < us.len() && same_socket(us[a], us[b]) && us[a].data_type != us[b].data_type
}

/// Usage `b` disagrees with some other usage.
pub open spec fn conflict_at(us: Seq<Usage>, b: int) -> bool {
    exists|a: int| conflicting(us, a, b)
}

/// All usages of one socket of one group agree on its type.
pub open spec fn no_conflict(us: Seq<Usage>) -> bool {
    forall|a: int, b: int| !conflicting(us, a, b)
}

/// The index of the entry for the usage's socket, if any.
fn find_slot(table: &Vec<Candidate>, u: &UsageRecord) -> (r: Option<usize>)
    ensures
        r matches Some(p) ==> p < table@.len() && keyed(u@, slots(table@)[p as int]),
        r is None ==> forall|p: int| 0 <= p < table@.len() ==> !keyed(u@, slots(table@)[p]),
{
    let mut p: usize = 0;
    while p < table.len()
        invariant
            0 <= p <= table@.len(),
            forall|q: int| 0 <= q < p ==> !keyed(u@, slots(table@)[q]),
        decreases table@.len() - p,
    {
        if table[p].output == u.output && str_eq(table[p].group.as_str(), u.group.as_str()) && str_eq(
            table[p].socket.as_str(),
            u.socket.as_str(),
        ) {
            return Some(p);
        }
        p = p + 1;
    }
    None
}

/// Records one usage: the first one of a socket sets its type; a later one
/// must agree with it. Returns whether it agreed.
pub fn check_socket_type(table: &mut Vec<Candidate>, u: &UsageRecord) -> (r: bool)
    requires
        keys_unique(slots(old(table)@)),
    ensures
        keys_unique(slots(final(table)@)),
        r ==> final(table)@.len() >= old(table)@.len(),
        r ==> forall|p: int| 0 <= p < old(table)@.len() ==> same_key(slots(final(table)@)[p], slots(old(table)@)[p])
            && slots(final(table)@)[p].data_type == if keyed(u@, slots(old(table)@)[p]) { Some(u.data_type) } else { slots(old(table)@)[p].data_type },
        r ==> forall|p: int| 0 <= p < old(table)@.len() && keyed(u@, slots(old(table)@)[p]) ==>
            (slots(old(table)@)[p].data_type is None || slots(old(table)@)[p].data_type == Some(u.data_type)),
        r && final(table)@.len() > old(table)@.len() ==> final(table)@.len() == old(table)@.len() + 1
            && keyed(u@, slots(final(table)@).last()) && slots(final(table)@).last().data_type == Some(u.data_type)
            && forall|p: int| 0 <= p < old(table)@.len() ==> !keyed(u@, slots(old(table)@)[p]),
        r && final(table)@.len() == old(table)@.len() ==> exists|p: int| 0 <= p < old(table)@.len() && keyed(u@, slots(old(table)@)[p]),
        !r ==> exists|p: int| 0 <= p < old(table)@.len() && keyed(u@, slots(old(table)@)[p])
            && slots(old(table)@)[p].data_type is Some && slots(old(table)@)[p].data_type != Some(u.data_type),
{
    let ghost t0 = slots(table@);
    match find_slot(table, u) {
        None => {
            table.push(Candidate { group: u.group.clone(), output: u.output, socket: u.socket.clone(), data_type: Some(u.data_type) });
            assert(slots(table@) =~= t0.push(slots(table@).last()));
            assert forall|a: int, b: int| 0 <= a < slots(table@).len() && 0 <= b < slots(table@).len() && a != b
                implies !same_key(slots(table@)[a], slots(table@)[b]) by {
                if a < t0.len() && b < t0.len() {
                    assert(slots(table@)[a] == t0[a] && slots(table@)[b] == t0[b]);
                }
            }
            true
        },
        Some(p) => {
            match table[p].data_type {
                None => {
                    let c = Candidate {
                        group: table[p].group.clone(),
                        output: table[p].output,
                        socket: table[p].socket.clone(),
                        data_type: Some(u.data_type),
                    };
                    table.set(p, c);
                    assert forall|q: int| 0 <= q < t0.len() && q != p implies !keyed(u@, t0[q]) by {
                        assert(!same_key(t0[q], t0[p as int]));
                    }
                    assert forall|a: int, b: int| 0 <= a < slots(table@).len() && 0 <= b < slots(table@).len() && a != b
                        implies !same_key(slots(table@)[a], slots(table@)[b]) by {
                        assert(same_key(slots(table@)[a], t0[a]) && same_key(slots(table@)[b], t0[b]));
                    }
                    true
                },
                Some(t) => {
                    assert forall|q: int| 0 <= q < t0.len() && q != p implies !keyed(u@, t0[q]) by {
                        assert(!same_key(t0[q], t0[p as int]));
                    }
                    t == u.data_type
                },
            }
        },
    }
}

/// The table after every usage has been recorded without disagreement.
pub open spec fn resolved(t0: Seq<Slot>, t: Seq<Slot>, us: Seq<Usage>) -> bool {
    &&& keys_unique(t)
    &&& t0.len() <= t.len()
    &&& forall|q: int| 0 <= q < t0.len() ==> #[trigger] same_key(t[q], t0[q])
    &&& forall|p: int| 0 <= p < t.len() && t[p].data_type is Some ==> witnessed(us, #[trigger] t[p])
    &&& forall|p: int, k: int| 0 <= p < t.len() && t[p].data_type is None && 0 <= k < us.len() ==> !#[trigger] keyed(us[k], t[p])
    &&& forall|k: int| 0 <= k < us.len() ==> has_slot(t, #[trigger] us[k])
    &&& forall|p: int| t0.len() <= p < t.len() ==> used(us, #[trigger] t[p])
}

/// Some usage names the slot's socket, with the slot's type.
pub open spec fn witnessed(us: Seq<Usage>, s: Slot) -> bool {
    exists|k: int| 0 <= k < us.len() && keyed(us[k], s) && Some(us[k].data_type) == s.data_type
}

/// Some usage names the slot's socket.
pub open spec fn used(us: Seq<Usage>, s: Slot) -> bool {
    exists|k: int| 0 <= k < us.len() && keyed(us[k], s)
}

/// The table has an entry for the usage's socket.
pub open spec fn has_slot(t: Seq<Slot>, u: Usage) -> bool {
    exists|p: int| 0 <= p < t.len() && keyed(u, t[p])
}

/// Records every usage in order. On a disagreement returns the index of the
/// usage that disagreed with an earlier one.
#[verifier::rlimit(50)]
fn resolve(table: &mut Vec<Candidate>, uses: &Vec<UsageRecord>) -> (r: Option<usize>)
    requires
        keys_unique(slots(old(table)@)),
        forall|p: int| 0 <= p < old(table)@.len() ==> slots(old(table)@)[p].data_type is None,
    ensures
        r is None ==> no_conflict(records(uses@)) && resolved(slots(old(table)@), slots(final(table)@), records(uses@)),
        r is Some ==> r->0 < uses@.len(),
        r is Some ==> conflict_at(records(uses@), r->0 as int),
{
    let ghost t0 = slots(table@);
    let ghost us = records(uses@);
    let mut i: usize = 0;
    while i < uses.len()
        invariant
            us == records(uses@),
            0 <= i <= us.len(),
            forall|p: int| 0 <= p < t0.len() ==> t0[p].data_type is None,
            resolved(t0, slots(table@), us.take(i as int)),
            no_conflict(us.take(i as int)),
            forall|p: int, k: int| 0 <= p < table@.len() && 0 <= k < i && keyed(us[k], slots(table@)[p]) ==>
                slots(table@)[p].data_type == Some(us[k].data_type),
        decreases us.len() - i,
    {
        let ghost t1 = slots(table@);
        let ghost pre = us.take(i as int);
        let ghost post = us.take(i + 1);
        assert(post =~= pre.push(us[i as int]));
        assert(us[i as int] == uses@[i as int]@);
        let ok = check_socket_type(table, &uses[i]);
        let ghost t2 = slots(table@);
        if !ok {
            proof {
                let p = choose|p: int| 0 <= p < t1.len() && keyed(us[i as int], t1[p]) && t1[p].data_type is Some
                    && t1[p].data_type != Some(us[i as int].data_type);
                assert(witnessed(pre, t1[p]));
                let k2 = choose|k: int| 0 <= k < pre.len() && keyed(pre[k], t1[p]) && Some(pre[k].data_type) == t1[p].data_type;
                assert(pre[k2] == us[k2]);
                assert(conflicting(us, k2, i as int));
                assert(conflicting(records(uses@), k2, i as int));
            }
            assert(conflict_at(records(uses@), i as int));
            assert(i < uses@.len());
            return Some(i);
        }
        proof {
            let u = us[i as int];
            assert forall|a: int, b: int| !conflicting(post, a, b) by {
                if conflicting(post, a, b) {
                    if a < i && b < i {
                        assert(conflicting(pre, a, b));
                    } else {
                        let k = if a == i { b } else { a };
                        if k < i {
                            assert(post[k] == pre[k]);
                            assert(has_slot(t1, pre[k]));
                            let p = choose|p: int| 0 <= p < t1.len() && keyed(pre[k], t1[p]);
                            assert(keyed(u, t1[p]));
                            assert(t1[p].data_type == Some(pre[k].data_type));
                        }
                    }
                }
            }
            assert forall|q: int| 0 <= q < t0.len() implies #[trigger] same_key(t2[q], t0[q]) by {
                assert(same_key(t1[q], t0[q]));
            }
            assert forall|p: int| 0 <= p < t2.len() && t2[p].data_type is Some implies witnessed(post, #[trigger] t2[p]) by {
                if p < t1.len() && !keyed(u, t1[p]) {
                    assert(witnessed(pre, t1[p]));
                    let k = choose|k: int| 0 <= k < pre.len() && keyed(pre[k], t1[p]) && Some(pre[k].data_type) == t1[p].data_type;
                    assert(post[k] == pre[k]);
                    assert(keyed(post[k], t2[p]));
                } else {
                    assert(post[i as int] == u);
                    assert(keyed(post[i as int], t2[p]));
                }
            }
            assert forall|p: int, k: int| 0 <= p < t2.len() && t2[p].data_type is None && 0 <= k < post.len() implies !#[trigger] keyed(post[k], t2[p]) by {
                if k < i {
                    assert(post[k] == pre[k]);
                }
            }
            assert forall|k: int| 0 <= k < post.len() implies has_slot(t2, #[trigger] post[k]) by {
                if k < i {
                    assert(has_slot(t1, pre[k]));
                    let p = choose|p: int| 0 <= p < t1.len() && keyed(pre[k], t1[p]);
                    assert(post[k] == pre[k]);
                    assert(keyed(post[k], t2[p]));
                } else if t2.len() > t1.len() {
                    assert(keyed(post[k], t2[t2.len() - 1]));
                } else {
                    let p = choose|p: int| 0 <= p < t1.len() && keyed(u, t1[p]);
                    assert(keyed(post[k], t2[p]));
                }
            }
            assert forall|p: int| t0.len() <= p < t2.len() implies used(post, #[trigger] t2[p]) by {
                if p < t1.len() {
                    assert(used(pre, t1[p]));
                    let k = choose|k: int| 0 <= k < pre.len() && keyed(pre[k], t1[p]);
                    assert(post[k] == pre[k]);
                    assert(keyed(post[k], t2[p]));
                } else {
                    assert(keyed(post[i as int], t2[p]));
                }
            }
            assert forall|p: int, k: int| 0 <= p < t2.len() && 0 <= k < i + 1 && keyed(us[k], t2[p]) implies
                t2[p].data_type == Some(us[k].data_type) by {
                if k < i && p < t1.len() {
                    assert(keyed(us[k], t1[p]));
                    if keyed(u, t1[p]) {
                        assert(!conflicting(post, k, i as int));
                    }
                } else if k < i {
                    assert(forall|q: int| 0 <= q < t1.len() ==> !keyed(u, t1[q]));
                    assert(has_slot(t1, pre[k]));
                    let q = choose|q: int| 0 <= q < t1.len() && keyed(pre[k], t1[q]);
                    assert(keyed(u, t1[q]));
                }
            }
        }
        i = i + 1;
    }
    assert(us.take(i as int) =~= us);
    None
}

/// A socket of a group's interface with its inferred type.
#[derive(Debug)]
pub struct InterfaceSocket {
    pub name: String,
    pub data_type: SocketType,
}

/// The inferred external signature of a group.
#[derive(Debug)]
pub struct Interface {
    pub inputs: Vec<InterfaceSocket>,
    pub outputs: Vec<InterfaceSocket>,
}

/// A group together with its inferred interface.
#[derive(Debug)]
pub struct GroupInterface {
    pub group: String,
    pub interface: Interface,
}

/// A socket that a group's boundary declares but that no call site uses.
#[derive(Debug)]
pub struct UnknownSocketWarning {
    pub group: String,
    pub output: bool,
    pub socket: String,
}

/// The outcome of interface inference: an interface for every group that is
/// called at least once, and the declared sockets that stayed unused.
#[derive(Debug)]
pub struct Inference {
    pub interfaces: Vec<GroupInterface>,
    pub warnings: Vec<UnknownSocketWarning>,
}

pub open spec fn socket_names(v: Seq<InterfaceSocket>) -> Seq<Seq<char>> {
    v.map_values(|x: InterfaceSocket| x.name@)
}

/// Some usage uses socket `s` of group `g` on the given side with type `t`.
pub open spec fn typed_use(us: Seq<Usage>, g: Seq<char>, output: bool, s: Seq<char>, t: SocketType) -> bool {
    exists|k: int| 0 <= k < us.len() && us[k].group == g && us[k].output == output && us[k].socket == s && us[k].data_type == t
}

/// Some usage uses socket `s` of group `g` on the given side.
pub open spec fn any_use(us: Seq<Usage>, g: Seq<char>, output: bool, s: Seq<char>) -> bool {
    exists|k: int| 0 <= k < us.len() && us[k].group == g && us[k].output == output && us[k].socket == s
}

/// The sockets of one side of group `g`'s interface are exactly those that
/// call sites use, each once, with the type they use it with.
pub open spec fn side_inferred(us: Seq<Usage>, g: Seq<char>, output: bool, v: Seq<InterfaceSocket>) -> bool {
    &&& distinct(socket_names(v))
    &&& forall|x: int| 0 <= x < v.len() ==> typed_use(us, g, output, #[trigger] v[x].name@, v[x].data_type)
    &&& forall|k: int| 0 <= k < us.len() && us[k].group == g && us[k].output == output ==> socket_names(v).contains(#[trigger] us[k].socket)
}

/// The sockets of one side of group `g` in the table: those typed, and those
/// left untyped.
pub open spec fn side_of_table(t: Seq<Slot>, g: Seq<char>, output: bool, v: Seq<InterfaceSocket>) -> bool {
    &&& forall|x: int| 0 <= x < v.len() ==> slot_for(t, g, output, #[trigger] v[x])
    &&& forall|p: int| 0 <= p < t.len() && t[p].group == g && t[p].output == output && t[p].data_type is Some
        ==> socket_names(v).contains(#[trigger] t[p].socket)
    &&& distinct(socket_names(v))
}

/// The table types socket `x` of group `g` as `x` has it.
pub open spec fn slot_for(t: Seq<Slot>, g: Seq<char>, output: bool, x: InterfaceSocket) -> bool {
    exists|p: int| 0 <= p < t.len() && t[p].group == g && t[p].output == output
        && t[p].socket == x.name@ && t[p].data_type == Some(x.data_type)
}

impl Named for InterfaceSocket {
    open spec fn name_view(&self) -> Seq<char> {
        self.name@
    }

    fn name(&self) -> (r: &str) {
        self.name.as_str()
    }
}

/// The sockets sorted by name.
fn sort_sockets(v: Vec<InterfaceSocket>) -> (r: Vec<InterfaceSocket>)
    requires
        distinct(socket_names(v@)),
    ensures
        sorted_names(r@),
        crate::graph::names_unique(r@),
        forall|x: InterfaceSocket| r@.contains(x) <==> v@.contains(x),
{
    let ghost v0 = v@;
    let mut src = v;
    let mut r: Vec<InterfaceSocket> = Vec::new();
    while src.len() > 0
        invariant
            distinct(socket_names(v0)),
            src@ == v0.take(src@.len() as int),
            src@.len() <= v0.len(),
            sorted_names(r@),
            crate::graph::names_unique(r@),
            forall|y: InterfaceSocket| #[trigger] r@.contains(y) <==> exists|i: int| src@.len() <= i < v0.len() && v0[i] == y,
        decreases src@.len(),
    {
        let ghost n = src@.len() as int;
        let x = src.pop().unwrap();
        assert(x == v0[n - 1]);
        proof {
            if has_name(r@, x.name_view()) {
                let k = choose|k: int| 0 <= k < r@.len() && r@[k].name_view() == x.name_view();
                assert(r@.contains(r@[k]));
                let i = choose|i: int| n <= i < v0.len() && v0[i] == r@[k];
                assert(socket_names(v0)[i] == socket_names(v0)[n - 1]);
            }
        }
        insert_by_name(&mut r, x);
        proof {
            assert(src@ =~= v0.take(n - 1));
            assert forall|y: InterfaceSocket| #[trigger] r@.contains(y) <==> exists|i: int| n - 1 <= i < v0.len() && v0[i] == y by {
                if exists|i: int| n - 1 <= i < v0.len() && v0[i] == y {
                    let i = choose|i: int| n - 1 <= i < v0.len() && v0[i] == y;
                    if i >= n {
                        assert(exists|i: int| n <= i < v0.len() && v0[i] == y);
                    }
                }
            }
        }
    }
    proof {
        assert forall|y: InterfaceSocket| r@.contains(y) <==> v0.contains(y) by {
            if v0.contains(y) {
                let i = choose|i: int| 0 <= i < v0.len() && v0[i] == y;
                assert(exists|i: int| 0 <= i < v0.len() && v0[i] == y);
            }
        }
    }
    r
}

/// Sorting a side keeps what is inferred of it.
proof fn lemma_sorted_side(us: Seq<Usage>, g: Seq<char>, side: bool, v: Seq<InterfaceSocket>, w: Seq<InterfaceSocket>)
    requires
        side_inferred(us, g, side, v),
        crate::graph::names_unique(w),
        forall|x: InterfaceSocket| w.contains(x) <==> v.contains(x),
    ensures
        side_inferred(us, g, side, w),
{
    assert forall|a: int, b: int| 0 <= a < socket_names(w).len() && 0 <= b < socket_names(w).len() && a != b
        implies socket_names(w)[a] != socket_names(w)[b] by {
        assert(w[a].name_view() != w[b].name_view());
    }
    assert forall|x: int| 0 <= x < w.len() implies typed_use(us, g, side, #[trigger] w[x].name@, w[x].data_type) by {
        assert(w.contains(w[x]));
        let y = choose|y: int| 0 <= y < v.len() && v[y] == w[x];
    }
    assert forall|k: int| 0 <= k < us.len() && us[k].group == g && us[k].output == side implies socket_names(w).contains(#[trigger] us[k].socket) by {
        assert(socket_names(v).contains(us[k].socket));
        let y = choose|y: int| 0 <= y < socket_names(v).len() && socket_names(v)[y] == us[k].socket;
        assert(v.contains(v[y]));
        let x = choose|x: int| 0 <= x < w.len() && w[x] == v[y];
        assert(socket_names(w)[x] == us[k].socket);
    }
}

fn push_socket(v: &mut Vec<InterfaceSocket>, c: &Candidate, t: SocketType)
    ensures
        final(v)@.len() == old(v)@.len() + 1,
        forall|x: int| 0 <= x < old(v)@.len() ==> final(v)@[x] == old(v)@[x],
        final(v)@.last().name@ == c.socket@,
        final(v)@.last().data_type == t,
        socket_names(final(v)@) == socket_names(old(v)@).push(c.socket@),
{
    let ghost before = v@;
    v.push(InterfaceSocket { name: c.socket.clone(), data_type: t });
    assert(socket_names(v@) =~= socket_names(before).push(c.socket@));
}

proof fn lemma_side_extend(
    tp: Seq<Slot>,
    s: Slot,
    g: Seq<char>,
    side: bool,
    v0: Seq<InterfaceSocket>,
    v: Seq<InterfaceSocket>,
)
    requires
        side_of_table(tp, g, side, v0),
        keys_unique(tp.push(s)),
        s.group == g && s.output == side && s.data_type is Some ==> v.len() == v0.len() + 1
            && (forall|x: int| 0 <= x < v0.len() ==> v[x] == v0[x]) && v.last().name@ == s.socket
            && Some(v.last().data_type) == s.data_type && socket_names(v) == socket_names(v0).push(s.socket),
        !(s.group == g && s.output == side && s.data_type is Some) ==> v == v0,
    ensures
        side_of_table(tp.push(s), g, side, v),
{
    let tp1 = tp.push(s);
    let p = tp.len() as int;
    assert(tp1[p] == s);
    assert forall|x: int| 0 <= x < v.len() implies slot_for(tp1, g, side, #[trigger] v[x]) by {
        if x < v0.len() {
            assert(v[x] == v0[x]);
            assert(slot_for(tp, g, side, v0[x]));
            let q = choose|q: int| 0 <= q < tp.len() && tp[q].group == g && tp[q].output == side
                && tp[q].socket == v0[x].name@ && tp[q].data_type == Some(v0[x].data_type);
            assert(tp1[q] == tp[q]);
        } else {
            assert(tp1[p] == s);
            assert(x == v.len() - 1);
        }
    }
    assert forall|q: int| 0 <= q < tp1.len() && tp1[q].group == g && tp1[q].output == side && tp1[q].data_type is Some
        implies socket_names(v).contains(#[trigger] tp1[q].socket) by {
        if q < p {
            assert(tp1[q] == tp[q]);
            assert(socket_names(v0).contains(tp[q].socket));
            let y = choose|y: int| 0 <= y < socket_names(v0).len() && socket_names(v0)[y] == tp[q].socket;
            assert(socket_names(v)[y] == socket_names(v0)[y]);
        } else {
            assert(socket_names(v)[v.len() - 1] == s.socket);
        }
    }
    if s.group == g && s.output == side && s.data_type is Some {
        assert forall|y: int| 0 <= y < v0.len() implies v0[y].name@ != s.socket by {
            assert(slot_for(tp, g, side, v0[y]));
            let q = choose|q: int| 0 <= q < tp.len() && tp[q].group == g && tp[q].output == side
                && tp[q].socket == v0[y].name@ && tp[q].data_type == Some(v0[y].data_type);
            assert(tp1[q] == tp[q]);
            assert(!same_key(tp1[q], tp1[p]));
        }
        assert forall|a: int, b: int| 0 <= a < socket_names(v).len() && 0 <= b < socket_names(v).len() && a != b
            implies socket_names(v)[a] != socket_names(v)[b] by {
            if a < v0.len() && b < v0.len() {
                assert(socket_names(v)[a] == socket_names(v0)[a]);
                assert(socket_names(v)[b] == socket_names(v0)[b]);
            } else if a < v0.len() {
                assert(socket_names(v)[a] == v0[a].name@);
                assert(socket_names(v)[b] == s.socket);
            } else {
                assert(socket_names(v)[b] == v0[b].name@);
                assert(socket_names(v)[a] == s.socket);
            }
        }
        assert(distinct(socket_names(v)));
    } else {
        assert(distinct(socket_names(v)));
    }
}

/// Reads group `g`'s interface and its untyped sockets off the table.
fn interface_of(table: &Vec<Candidate>, g: &String) -> (r: (Interface, Vec<UnknownSocketWarning>))
    requires
        keys_unique(slots(table@)),
    ensures
        side_of_table(slots(table@), g@, false, r.0.inputs@),
        side_of_table(slots(table@), g@, true, r.0.outputs@),
        forall|w: int| 0 <= w < r.1@.len() ==> r.1@[w].group@ == g@ && exists|p: int| 0 <= p < table@.len()
            && same_key(slots(table@)[p], Slot { group: g@, output: r.1@[w].output, socket: r.1@[w].socket@, data_type: None })
            && slots(table@)[p].data_type is None,
        forall|p: int| 0 <= p < table@.len() && slots(table@)[p].group == g@ && slots(table@)[p].data_type is None
            ==> exists|w: int| 0 <= w < r.1@.len() && r.1@[w].output == slots(table@)[p].output && r.1@[w].socket@ == slots(table@)[p].socket,
{
    let ghost t = slots(table@);
    let mut inputs: Vec<InterfaceSocket> = Vec::new();
    let mut outputs: Vec<InterfaceSocket> = Vec::new();
    let mut warnings: Vec<UnknownSocketWarning> = Vec::new();
    let mut p: usize = 0;
    while p < table.len()
        invariant
            t == slots(table@),
            keys_unique(t),
            0 <= p <= t.len(),
            side_of_table(t.take(p as int), g@, false, inputs@),
            side_of_table(t.take(p as int), g@, true, outputs@),
            forall|w: int| 0 <= w < warnings@.len() ==> warnings@[w].group@ == g@ && exists|q: int| 0 <= q < p
                && same_key(t[q], Slot { group: g@, output: warnings@[w].output, socket: warnings@[w].socket@, data_type: None })
                && t[q].data_type is None,
            forall|q: int| 0 <= q < p && t[q].group == g@ && t[q].data_type is None
                ==> exists|w: int| 0 <= w < warnings@.len() && warnings@[w].output == t[q].output && warnings@[w].socket@ == t[q].socket,
        decreases t.len() - p,
    {
        let ghost tp = t.take(p as int);
        let ghost tp1 = t.take(p + 1);
        assert(tp1 =~= tp.push(t[p as int]));
        assert(table@[p as int]@ == t[p as int]);
        let ghost old_in = inputs@;
        let ghost old_out = outputs@;
        let ghost old_w = warnings@;
        let c = &table[p];
        if c.group == *g {
            match c.data_type {
                Some(dt) => {
                    if c.output {
                        push_socket(&mut outputs, c, dt);
                    } else {
                        push_socket(&mut inputs, c, dt);
                    }
                },
                None => {
                    warnings.push(UnknownSocketWarning { group: g.clone(), output: c.output, socket: c.socket.clone() });
                },
            }
        }
        proof {
            lemma_side_extend(tp, t[p as int], g@, false, old_in, inputs@);
            lemma_side_extend(tp, t[p as int], g@, true, old_out, outputs@);
            assert(side_of_table(tp1, g@, false, inputs@));
            assert(side_of_table(tp1, g@, true, outputs@));
            assert forall|w: int| 0 <= w < warnings@.len() implies warnings@[w].group@ == g@ && exists|q: int| 0 <= q < p + 1
                && same_key(t[q], Slot { group: g@, output: warnings@[w].output, socket: warnings@[w].socket@, data_type: None })
                && t[q].data_type is None by {
                if w < old_w.len() {
                    assert(warnings@[w] == old_w[w]);
                } else {
                    assert(same_key(t[p as int], Slot { group: g@, output: warnings@[w].output, socket: warnings@[w].socket@, data_type: None }));
                }
            }
            assert forall|q: int| 0 <= q < p + 1 && t[q].group == g@ && t[q].data_type is None
                implies exists|w: int| 0 <= w < warnings@.len() && warnings@[w].output == t[q].output && warnings@[w].socket@ == t[q].socket by {
                if q < p {
                    let w = choose|w: int| 0 <= w < old_w.len() && old_w[w].output == t[q].output && old_w[w].socket@ == t[q].socket;
                    assert(warnings@[w] == old_w[w]);
                } else {
                    assert(warnings@[warnings@.len() - 1].socket@ == t[q].socket);
                }
            }
        }
        p = p + 1;
    }
    assert(t.take(p as int) =~= t);
    (Interface { inputs, outputs }, warnings)
}

/// The document defines a group of that name.
pub open spec fn defines(doc: Eyesight, g: Seq<char>) -> bool {
    exists|gi: int| 0 <= gi < doc.groups@.len() && doc.groups@[gi].name@ == g
}

/// A group of that name declares socket `s` on its boundary, on the given side.
pub open spec fn declared(doc: Eyesight, g: Seq<char>, output: bool, s: Seq<char>) -> bool {
    exists|gi: int| 0 <= gi < doc.groups@.len() && doc.groups@[gi].name@ == g && candidate(doc.groups@[gi].shader, output, s)
}

pub open spec fn all_boundaries_unique(doc: Eyesight) -> bool {
    forall|gi: int| 0 <= gi < doc.groups@.len() ==> boundaries_unique(#[trigger] doc.groups@[gi].shader)
}

/// Every call site names a group that the document defines.
pub open spec fn calls_defined(doc: Eyesight) -> bool {
    forall|c: int| 0 <= c < calls(doc).len() ==> defines(doc, #[trigger] calls(doc)[c])
}

pub open spec fn has_interface(v: Seq<GroupInterface>, g: Seq<char>) -> bool {
    exists|k: int| 0 <= k < v.len() && v[k].group@ == g
}

pub open spec fn has_warning(v: Seq<UnknownSocketWarning>, g: Seq<char>, output: bool, s: Seq<char>) -> bool {
    exists|w: int| 0 <= w < v.len() && v[w].group@ == g && v[w].output == output && v[w].socket@ == s
}

fn push_slots(table: &mut Vec<Candidate>, g: &String, names: &Vec<String>, output: bool)
    requires
        keys_unique(slots(old(table)@)),
        distinct(strings(names@)),
        forall|p: int| 0 <= p < old(table)@.len() ==> !(slots(old(table)@)[p].group == g@ && slots(old(table)@)[p].output == output),
    ensures
        keys_unique(slots(final(table)@)),
        final(table)@.len() == old(table)@.len() + names@.len(),
        forall|p: int| 0 <= p < old(table)@.len() ==> slots(final(table)@)[p] == slots(old(table)@)[p],
        forall|q: int| 0 <= q < names@.len() ==> slots(final(table)@)[old(table)@.len() + q]
            == (Slot { group: g@, output, socket: names@[q]@, data_type: None }),
{
    let ghost t0 = slots(table@);
    let mut q: usize = 0;
    while q < names.len()
        invariant
            0 <= q <= names@.len(),
            distinct(strings(names@)),
            table@.len() == t0.len() + q,
            keys_unique(slots(table@)),
            forall|p: int| 0 <= p < t0.len() ==> !(t0[p].group == g@ && t0[p].output == output),
            forall|p: int| 0 <= p < t0.len() ==> slots(table@)[p] == t0[p],
            forall|k: int| 0 <= k < q ==> slots(table@)[t0.len() + k] == (Slot { group: g@, output, socket: names@[k]@, data_type: None }),
        decreases names@.len() - q,
    {
        let ghost before = slots(table@);
        table.push(Candidate { group: g.clone(), output, socket: names[q].clone(), data_type: None });
        let ghost after = slots(table@);
        assert(after =~= before.push(Slot { group: g@, output, socket: names@[q as int]@, data_type: None }));
        assert forall|a: int, b: int| 0 <= a < after.len() && 0 <= b < after.len() && a != b implies !same_key(after[a], after[b]) by {
            if a < before.len() && b < before.len() {
                assert(after[a] == before[a] && after[b] == before[b]);
            } else {
                let o = if a < before.len() { a } else { b };
                if o < t0.len() {
                    assert(after[o] == t0[o]);
                } else {
                    let k = o - t0.len();
                    assert(after[o] == before[o]);
                    assert(strings(names@)[k] != strings(names@)[q as int]);
                }
            }
        }
        q = q + 1;
    }
}

/// One of the first `n` groups declares the slot's socket.
pub open spec fn declared_in(groups: Seq<Group>, n: int, s: Slot) -> bool {
    exists|gi: int| 0 <= gi < n && gi < groups.len() && groups[gi].name@ == s.group && candidate(groups[gi].shader, s.output, s.socket)
}

/// The table of every group's declared sockets, all untyped.
fn build_table(groups: &Vec<Group>) -> (r: Result<Vec<Candidate>, InterfaceError>)
    requires
        crate::graph::names_unique(groups@),
    ensures
        r is Ok <==> forall|gi: int| 0 <= gi < groups@.len() ==> boundaries_unique(#[trigger] groups@[gi].shader),
        r matches Err(e) ==> e matches InterfaceError::DuplicateBoundary { group } && exists|gi: int|
            0 <= gi < groups@.len() && groups@[gi].name@ == group@ && !boundaries_unique(groups@[gi].shader),
        r matches Ok(t) ==> keys_unique(slots(t@)),
        r matches Ok(t) ==> forall|p: int| 0 <= p < t@.len() ==> (#[trigger] slots(t@)[p]).data_type is None,
        r matches Ok(t) ==> forall|p: int| 0 <= p < t@.len() ==> declared_in(groups@, groups@.len() as int, #[trigger] slots(t@)[p]),
        r matches Ok(t) ==> forall|gi: int, output: bool, s: Seq<char>| 0 <= gi < groups@.len() && #[trigger] candidate(groups@[gi].shader, output, s)
            ==> has_slot(slots(t@), Usage { group: groups@[gi].name@, output, socket: s, data_type: SocketType::Float }),
{
    let mut t: Vec<Candidate> = Vec::new();
    let mut gi: usize = 0;
    while gi < groups.len()
        invariant
            crate::graph::names_unique(groups@),
            0 <= gi <= groups@.len(),
            forall|gj: int| 0 <= gj < gi ==> boundaries_unique(#[trigger] groups@[gj].shader),
            keys_unique(slots(t@)),
            forall|p: int| 0 <= p < t@.len() ==> (#[trigger] slots(t@)[p]).data_type is None,
            forall|p: int| 0 <= p < t@.len() ==> declared_in(groups@, gi as int, #[trigger] slots(t@)[p]),
            forall|gj: int, output: bool, s: Seq<char>| 0 <= gj < gi && #[trigger] candidate(groups@[gj].shader, output, s)
                ==> has_slot(slots(t@), Usage { group: groups@[gj].name@, output, socket: s, data_type: SocketType::Float }),
        decreases groups@.len() - gi,
    {
        let group = &groups[gi];
        let inc = match discover_sockets(group) {
            Err(e) => {
                return Err(e);
            },
            Ok(inc) => inc,
        };
        let ghost t0 = slots(t@);
        proof {
            assert forall|p: int| 0 <= p < t0.len() implies t0[p].group != group.name@ by {
                assert(declared_in(groups@, gi as int, t0[p]));
                let gj = choose|gj: int| 0 <= gj < gi && groups@[gj].name@ == (#[trigger] t0[p]).group
                    && candidate(groups@[gj].shader, t0[p].output, t0[p].socket);
                assert(groups@[gj].name_view() != groups@[gi as int].name_view());
            }
        }
        push_slots(&mut t, &group.name, &inc.inputs, false);
        let ghost t1 = slots(t@);
        proof {
            assert forall|p: int| 0 <= p < t1.len() implies !(t1[p].group == group.name@ && t1[p].output == true) by {
                if p < t0.len() {
                    assert(t1[p] == t0[p]);
                } else {
                    let q = p - t0.len();
                    assert(t1.len() == t0.len() + inc.inputs@.len());
                    assert(0 <= q < inc.inputs@.len());
                    assert(t1[t0.len() + q] == (Slot { group: group.name@, output: false, socket: inc.inputs@[q]@, data_type: None }));
                }
            }
        }
        push_slots(&mut t, &group.name, &inc.outputs, true);
        let ghost t2 = slots(t@);
        proof {
            let ni = inc.inputs@.len() as int;
            assert forall|p: int| 0 <= p < t2.len() implies (#[trigger] t2[p]).data_type is None && declared_in(groups@, gi + 1, t2[p]) by {
                if p < t0.len() {
                    assert(t2[p] == t0[p]);
                    assert(t1[p] == t0[p]);
                    assert(declared_in(groups@, gi as int, t0[p]));
                    let gj = choose|gj: int| 0 <= gj < gi && groups@[gj].name@ == t0[p].group
                        && candidate(groups@[gj].shader, t0[p].output, t0[p].socket);
                } else if p < t1.len() {
                    assert(t2[p] == t1[p]);
                    let q = p - t0.len();
                    assert(strings(inc.inputs@)[q] == inc.inputs@[q]@);
                    assert(strings(inc.inputs@).contains(t2[p].socket));
                    assert(candidate(groups@[gi as int].shader, t2[p].output, t2[p].socket));
                } else {
                    let q = p - t1.len();
                    assert(strings(inc.outputs@)[q] == inc.outputs@[q]@);
                    assert(strings(inc.outputs@).contains(t2[p].socket));
                    assert(candidate(groups@[gi as int].shader, t2[p].output, t2[p].socket));
                }
            }
            assert forall|gj: int, output: bool, s: Seq<char>| 0 <= gj < gi + 1 && #[trigger] candidate(groups@[gj].shader, output, s)
                implies has_slot(t2, Usage { group: groups@[gj].name@, output, socket: s, data_type: SocketType::Float }) by {
                let u = Usage { group: groups@[gj].name@, output, socket: s, data_type: SocketType::Float };
                if gj < gi {
                    assert(has_slot(t0, u));
                    let p = choose|p: int| 0 <= p < t0.len() && keyed(u, t0[p]);
                    assert(t2[p] == t0[p]);
                } else if output {
                    assert(strings(inc.outputs@).contains(s));
                    let q = choose|q: int| 0 <= q < strings(inc.outputs@).len() && strings(inc.outputs@)[q] == s;
                    assert(keyed(u, t2[t1.len() + q]));
                } else {
                    assert(strings(inc.inputs@).contains(s));
                    let q = choose|q: int| 0 <= q < strings(inc.inputs@).len() && strings(inc.inputs@)[q] == s;
                    assert(t2[t0.len() + q] == t1[t0.len() + q]);
                    assert(keyed(u, t2[t0.len() + q]));
                }
            }
        }
        gi = gi + 1;
    }
    Ok(t)
}

/// The index of the group with the given name, if any.
pub fn find_group(groups: &Vec<Group>, name: &str) -> (r: Option<usize>)
    ensures
        r matches Some(i) ==> i < groups@.len() && groups@[i as int].name@ == name@,
        r is None ==> forall|i: int| 0 <= i < groups@.len() ==> groups@[i].name@ != name@,
{
    let mut i: usize = 0;
    while i < groups.len()
        invariant
            0 <= i <= groups@.len(),
            forall|k: int| 0 <= k < i ==> groups@[k].name@ != name@,
        decreases groups@.len() - i,
    {
        if str_eq(groups[i].name.as_str(), name) {
            return Some(i);
        }
        i = i + 1;
    }
    None
}

proof fn lemma_side_inferred(us: Seq<Usage>, t0: Seq<Slot>, t: Seq<Slot>, g: Seq<char>, side: bool, v: Seq<InterfaceSocket>)
    requires
        resolved(t0, t, us),
        side_of_table(t, g, side, v),
    ensures
        side_inferred(us, g, side, v),
{
    assert forall|x: int| 0 <= x < v.len() implies typed_use(us, g, side, #[trigger] v[x].name@, v[x].data_type) by {
        assert(slot_for(t, g, side, v[x]));
        let p = choose|p: int| 0 <= p < t.len() && t[p].group == g && t[p].output == side
            && t[p].socket == v[x].name@ && t[p].data_type == Some(v[x].data_type);
        assert(witnessed(us, t[p]));
        let k = choose|k: int| 0 <= k < us.len() && keyed(us[k], t[p]) && Some(us[k].data_type) == t[p].data_type;
    }
    assert forall|k: int| 0 <= k < us.len() && us[k].group == g && us[k].output == side implies socket_names(v).contains(#[trigger] us[k].socket) by {
        assert(has_slot(t, us[k]));
        let p = choose|p: int| 0 <= p < t.len() && keyed(us[k], t[p]);
        assert(keyed(us[k], t[p]));
    }
}

proof fn lemma_warnings_sound(doc: Eyesight, t0: Seq<Slot>, t: Seq<Slot>, g: Seq<char>, ws: Seq<UnknownSocketWarning>)
    requires
        resolved(t0, t, usages(doc)),
        forall|p: int| 0 <= p < t0.len() ==> declared_in(doc.groups@, doc.groups@.len() as int, #[trigger] t0[p]),
        forall|w: int| 0 <= w < ws.len() ==> ws[w].group@ == g && exists|p: int| 0 <= p < t.len()
            && same_key(t[p], Slot { group: g, output: ws[w].output, socket: ws[w].socket@, data_type: None })
            && t[p].data_type is None,
    ensures
        forall|w: int| 0 <= w < ws.len() ==> declared(doc, g, ws[w].output, #[trigger] ws[w].socket@)
            && !any_use(usages(doc), g, ws[w].output, ws[w].socket@),
{
    let us = usages(doc);
    assert forall|w: int| 0 <= w < ws.len() implies declared(doc, g, ws[w].output, #[trigger] ws[w].socket@)
        && !any_use(us, g, ws[w].output, ws[w].socket@) by {
        let p = choose|p: int| 0 <= p < t.len()
            && same_key(t[p], Slot { group: g, output: ws[w].output, socket: ws[w].socket@, data_type: None })
            && t[p].data_type is None;
        if any_use(us, g, ws[w].output, ws[w].socket@) {
            let k = choose|k: int| 0 <= k < us.len() && us[k].group == g && us[k].output == ws[w].output && us[k].socket == ws[w].socket@;
            assert(keyed(us[k], t[p]));
        }
        if p >= t0.len() {
            assert(used(us, t[p]));
            let k = choose|k: int| 0 <= k < us.len() && keyed(us[k], t[p]);
            assert(keyed(us[k], t[p]));
        }
        assert(same_key(t[p], t0[p]));
        assert(declared_in(doc.groups@, doc.groups@.len() as int, t0[p]));
    }
}

proof fn lemma_warnings_complete(doc: Eyesight, t0: Seq<Slot>, t: Seq<Slot>, gi: int, ws: Seq<UnknownSocketWarning>, output: bool, s: Seq<char>)
    requires
        resolved(t0, t, usages(doc)),
        0 <= gi < doc.groups@.len(),
        candidate(doc.groups@[gi].shader, output, s),
        !any_use(usages(doc), doc.groups@[gi].name@, output, s),
        has_slot(t0, Usage { group: doc.groups@[gi].name@, output, socket: s, data_type: SocketType::Float }),
        forall|p: int| 0 <= p < t.len() && t[p].group == doc.groups@[gi].name@ && t[p].data_type is None
            ==> exists|w: int| 0 <= w < ws.len() && ws[w].output == t[p].output && ws[w].socket@ == t[p].socket,
    ensures
        exists|w: int| 0 <= w < ws.len() && ws[w].output == output && ws[w].socket@ == s,
{
    let us = usages(doc);
    let g = doc.groups@[gi].name@;
    let u = Usage { group: g, output, socket: s, data_type: SocketType::Float };
    let q = choose|q: int| 0 <= q < t0.len() && keyed(u, t0[q]);
    assert(same_key(t[q], t0[q]));
    if t[q].data_type is Some {
        assert(witnessed(us, t[q]));
        let k = choose|k: int| 0 <= k < us.len() && keyed(us[k], t[q]) && Some(us[k].data_type) == t[q].data_type;
        assert(us[k].group == g && us[k].output == output && us[k].socket == s);
    }
    assert(t[q].group == g && t[q].data_type is None);
}

fn assemble(doc: &Eyesight, calls: &Vec<String>, table: &Vec<Candidate>, t0: Ghost<Seq<Slot>>) -> (inf: Inference)
    requires
        strings(calls@) == crate::usage::calls(*doc),
        keys_unique(slots(table@)),
        resolved(t0@, slots(table@), usages(*doc)),
        forall|p: int| 0 <= p < t0@.len() ==> declared_in(doc.groups@, doc.groups@.len() as int, #[trigger] t0@[p]),
        forall|gj: int, output: bool, s: Seq<char>| 0 <= gj < doc.groups@.len() && #[trigger] candidate(doc.groups@[gj].shader, output, s)
            ==> has_slot(t0@, Usage { group: doc.groups@[gj].name@, output, socket: s, data_type: SocketType::Float }),
    ensures
        forall|gj: int, output: bool, s: Seq<char>| 0 <= gj < doc.groups@.len() && crate::usage::calls(*doc).contains(doc.groups@[gj].name@)
            && #[trigger] candidate(doc.groups@[gj].shader, output, s) && !any_use(usages(*doc), doc.groups@[gj].name@, output, s)
            ==> has_warning(inf.warnings@, doc.groups@[gj].name@, output, s),
        forall|w: int| 0 <= w < inf.warnings@.len() ==> crate::usage::calls(*doc).contains(#[trigger] inf.warnings@[w].group@)
            && declared(*doc, inf.warnings@[w].group@, inf.warnings@[w].output, inf.warnings@[w].socket@)
            && !any_use(usages(*doc), inf.warnings@[w].group@, inf.warnings@[w].output, inf.warnings@[w].socket@),
        forall|k: int| 0 <= k < inf.interfaces@.len() ==> side_inferred(usages(*doc), #[trigger] inf.interfaces@[k].group@, false, inf.interfaces@[k].interface.inputs@)
            && side_inferred(usages(*doc), inf.interfaces@[k].group@, true, inf.interfaces@[k].interface.outputs@)
            && sorted_names(inf.interfaces@[k].interface.inputs@) && sorted_names(inf.interfaces@[k].interface.outputs@),
        forall|k: int| 0 <= k < inf.interfaces@.len() ==> defines(*doc, #[trigger] inf.interfaces@[k].group@)
            && crate::usage::calls(*doc).contains(inf.interfaces@[k].group@),
        forall|gi: int| 0 <= gi < doc.groups@.len() && crate::usage::calls(*doc).contains(#[trigger] doc.groups@[gi].name@)
            ==> has_interface(inf.interfaces@, doc.groups@[gi].name@),
{
    let groups = &doc.groups;
    let mut interfaces: Vec<GroupInterface> = Vec::new();
    let mut warnings: Vec<UnknownSocketWarning> = Vec::new();
    let mut gi: usize = 0;
    while gi < groups.len()
        invariant
            groups == &doc.groups,
            strings(calls@) == crate::usage::calls(*doc),
            keys_unique(slots(table@)),
            resolved(t0@, slots(table@), usages(*doc)),
            forall|p: int| 0 <= p < t0@.len() ==> declared_in(doc.groups@, doc.groups@.len() as int, #[trigger] t0@[p]),
            forall|gj: int, output: bool, s: Seq<char>| 0 <= gj < doc.groups@.len() && #[trigger] candidate(doc.groups@[gj].shader, output, s)
                ==> has_slot(t0@, Usage { group: doc.groups@[gj].name@, output, socket: s, data_type: SocketType::Float }),
            forall|gj: int, output: bool, s: Seq<char>| 0 <= gj < gi && crate::usage::calls(*doc).contains(doc.groups@[gj].name@)
                && #[trigger] candidate(doc.groups@[gj].shader, output, s) && !any_use(usages(*doc), doc.groups@[gj].name@, output, s)
                ==> has_warning(warnings@, doc.groups@[gj].name@, output, s),
            forall|w: int| 0 <= w < warnings@.len() ==> crate::usage::calls(*doc).contains(#[trigger] warnings@[w].group@)
                && declared(*doc, warnings@[w].group@, warnings@[w].output, warnings@[w].socket@)
                && !any_use(usages(*doc), warnings@[w].group@, warnings@[w].output, warnings@[w].socket@),
            forall|k: int| 0 <= k < interfaces@.len() ==> side_inferred(usages(*doc), #[trigger] interfaces@[k].group@, false, interfaces@[k].interface.inputs@)
                && side_inferred(usages(*doc), interfaces@[k].group@, true, interfaces@[k].interface.outputs@)
            && sorted_names(interfaces@[k].interface.inputs@) && sorted_names(interfaces@[k].interface.outputs@),
            0 <= gi <= groups@.len(),
            forall|k: int| 0 <= k < interfaces@.len() ==> defines(*doc, #[trigger] interfaces@[k].group@)
                && crate::usage::calls(*doc).contains(interfaces@[k].group@),
            forall|gj: int| 0 <= gj < gi && crate::usage::calls(*doc).contains(#[trigger] doc.groups@[gj].name@)
                ==> has_interface(interfaces@, doc.groups@[gj].name@),
        decreases groups@.len() - gi,
    {
        let name = &groups[gi].name;
        if contains_str(calls, name.as_str()) {
            let (raw, mut ws) = interface_of(table, name);
            proof {
                lemma_side_inferred(usages(*doc), t0@, slots(table@), name@, false, raw.inputs@);
                lemma_side_inferred(usages(*doc), t0@, slots(table@), name@, true, raw.outputs@);
            }
            let ghost (ri, ro) = (raw.inputs@, raw.outputs@);
            let Interface { inputs, outputs } = raw;
            let iface = Interface { inputs: sort_sockets(inputs), outputs: sort_sockets(outputs) };
            proof {
                lemma_sorted_side(usages(*doc), name@, false, ri, iface.inputs@);
                lemma_sorted_side(usages(*doc), name@, true, ro, iface.outputs@);
                lemma_warnings_sound(*doc, t0@, slots(table@), name@, ws@);
            }
            let ghost old_i = interfaces@;
            let ghost old_w = warnings@;
            let ghost ws0 = ws@;
            interfaces.push(GroupInterface { group: name.clone(), interface: iface });
            warnings.append(&mut ws);
            proof {
                assert(defines(*doc, name@));
                assert forall|w: int| 0 <= w < warnings@.len() implies crate::usage::calls(*doc).contains(#[trigger] warnings@[w].group@)
                    && declared(*doc, warnings@[w].group@, warnings@[w].output, warnings@[w].socket@)
                    && !any_use(usages(*doc), warnings@[w].group@, warnings@[w].output, warnings@[w].socket@) by {
                    if w < old_w.len() {
                        assert(warnings@[w] == old_w[w]);
                    } else {
                        assert(warnings@[w] == ws0[w - old_w.len()]);
                    }
                }
                assert forall|gj: int, output: bool, s: Seq<char>| 0 <= gj < gi + 1 && crate::usage::calls(*doc).contains(doc.groups@[gj].name@)
                    && #[trigger] candidate(doc.groups@[gj].shader, output, s) && !any_use(usages(*doc), doc.groups@[gj].name@, output, s)
                    implies has_warning(warnings@, doc.groups@[gj].name@, output, s) by {
                    if gj < gi {
                        let w = choose|w: int| 0 <= w < old_w.len() && old_w[w].group@ == doc.groups@[gj].name@
                            && old_w[w].output == output && old_w[w].socket@ == s;
                        assert(warnings@[w] == old_w[w]);
                    } else {
                        lemma_warnings_complete(*doc, t0@, slots(table@), gj, ws0, output, s);
                        let w = choose|w: int| 0 <= w < ws0.len() && ws0[w].output == output && ws0[w].socket@ == s;
                        assert(warnings@[old_w.len() + w] == ws0[w]);
                        assert(ws0[w].group@ == name@);
                    }
                }
                assert forall|k: int| 0 <= k < interfaces@.len() implies defines(*doc, #[trigger] interfaces@[k].group@)
                    && crate::usage::calls(*doc).contains(interfaces@[k].group@)
                    && side_inferred(usages(*doc), interfaces@[k].group@, false, interfaces@[k].interface.inputs@)
                    && side_inferred(usages(*doc), interfaces@[k].group@, true, interfaces@[k].interface.outputs@)
            && sorted_names(interfaces@[k].interface.inputs@) && sorted_names(interfaces@[k].interface.outputs@) by {
                    if k < old_i.len() {
                        assert(interfaces@[k] == old_i[k]);
                    }
                }
                assert forall|gj: int| 0 <= gj < gi + 1 && crate::usage::calls(*doc).contains(#[trigger] doc.groups@[gj].name@)
                    implies has_interface(interfaces@, doc.groups@[gj].name@) by {
                    if gj < gi {
                        assert(has_interface(old_i, doc.groups@[gj].name@));
                        let k = choose|k: int| 0 <= k < old_i.len() && old_i[k].group@ == doc.groups@[gj].name@;
                        assert(interfaces@[k] == old_i[k]);
                    } else {
                        assert(interfaces@[old_i.len() as int].group@ == doc.groups@[gj].name@);
                    }
                }
            }
        }
        gi = gi + 1;
    }
    Inference { interfaces, warnings }
}

/// The interfaces are those of the groups called at least once, each side
/// holding exactly the sockets its call sites use with their one type; the
/// warnings are exactly the declared sockets of those groups that no call site
/// uses.
pub open spec fn inference_ok(doc: Eyesight, inf: Inference) -> bool {
    &&& forall|k: int| 0 <= k < inf.interfaces@.len() ==> defines(doc, #[trigger] inf.interfaces@[k].group@)
            && calls(doc).contains(inf.interfaces@[k].group@)
    &&& forall|gi: int| 0 <= gi < doc.groups@.len() && calls(doc).contains(#[trigger] doc.groups@[gi].name@)
            ==> has_interface(inf.interfaces@, doc.groups@[gi].name@)
    &&& forall|k: int| 0 <= k < inf.interfaces@.len() ==> side_inferred(usages(doc), #[trigger] inf.interfaces@[k].group@, false, inf.interfaces@[k].interface.inputs@)
            && side_inferred(usages(doc), inf.interfaces@[k].group@, true, inf.interfaces@[k].interface.outputs@)
            && sorted_names(inf.interfaces@[k].interface.inputs@) && sorted_names(inf.interfaces@[k].interface.outputs@)
    &&& forall|gi: int, output: bool, s: Seq<char>| 0 <= gi < doc.groups@.len() && calls(doc).contains(doc.groups@[gi].name@)
            && #[trigger] candidate(doc.groups@[gi].shader, output, s) && !any_use(usages(doc), doc.groups@[gi].name@, output, s)
            ==> has_warning(inf.warnings@, doc.groups@[gi].name@, output, s)
    &&& forall|w: int| 0 <= w < inf.warnings@.len() ==> calls(doc).contains(#[trigger] inf.warnings@[w].group@)
            && declared(doc, inf.warnings@[w].group@, inf.warnings@[w].output, inf.warnings@[w].socket@)
            && !any_use(usages(doc), inf.warnings@[w].group@, inf.warnings@[w].output, inf.warnings@[w].socket@)
}

/// Infers the interface of every group that some call site uses, from the
/// sockets that the call sites use. Declared sockets that no call site uses
/// are reported as warnings; disagreeing usages, a call of an unknown group
/// and a group with two boundary nodes of one kind are errors.
pub fn check_interfaces(doc: &Eyesight) -> (r: Result<Inference, InterfaceError>)
    requires
        crate::graph::names_unique(doc.groups@),
    ensures
        r is Ok <==> all_boundaries_unique(*doc) && calls_defined(*doc) && no_conflict(usages(*doc)),
        r matches Err(InterfaceError::DuplicateBoundary { group }) ==> exists|gi: int|
            0 <= gi < doc.groups@.len() && doc.groups@[gi].name@ == group@ && !boundaries_unique(doc.groups@[gi].shader),
        r matches Err(InterfaceError::UnknownGroup { group }) ==> calls(*doc).contains(group@) && !defines(*doc, group@),
        r matches Err(InterfaceError::TypeMismatch { group, output, socket }) ==> exists|b: int|
            conflict_at(usages(*doc), b) && 0 <= b < usages(*doc).len() && usages(*doc)[b].group == group@
                && usages(*doc)[b].output == output && usages(*doc)[b].socket == socket@,
        r matches Ok(inf) ==> inference_ok(*doc, inf),
{
    let groups = &doc.groups;
    let mut table = match build_table(groups) {
        Err(e) => {
            return Err(e);
        },
        Ok(t) => t,
    };
    let ghost t0 = slots(table@);
    let (calls, uses) = collect_usages(doc);
    let mut c: usize = 0;
    while c < calls.len()
        invariant
            strings(calls@) == crate::usage::calls(*doc),
            groups == &doc.groups,
            0 <= c <= calls@.len(),
            forall|k: int| 0 <= k < c ==> defines(*doc, #[trigger] crate::usage::calls(*doc)[k]),
        decreases calls@.len() - c,
    {
        assert(strings(calls@)[c as int] == calls@[c as int]@);
        let found = find_group(groups, calls[c].as_str());
        if let Some(i) = found {
            assert(doc.groups@[i as int].name@ == crate::usage::calls(*doc)[c as int]);
        }
        if found.is_none() {
            assert(crate::usage::calls(*doc).contains(calls@[c as int]@));
            assert(!defines(*doc, calls@[c as int]@));
            assert(!calls_defined(*doc)) by {
                assert(!defines(*doc, crate::usage::calls(*doc)[c as int]));
            }
            return Err(InterfaceError::UnknownGroup { group: calls[c].clone() });
        }
        c = c + 1;
    }
    if let Some(k) = resolve(&mut table, &uses) {
        assert(records(uses@)[k as int] == uses@[k as int]@);
        return Err(InterfaceError::TypeMismatch {
            group: uses[k].group.clone(),
            output: uses[k].output,
            socket: uses[k].socket.clone(),
        });
    }
    let inf = assemble(doc, &calls, &table, Ghost(t0));
    proof {
        assert forall|cc: int| 0 <= cc < crate::usage::calls(*doc).len() implies defines(*doc, #[trigger] crate::usage::calls(*doc)[cc]) by {
        }
    }
    Ok(inf)
}

} // verus!
