use vstd::prelude::*;
use crate::graph::{Eyesight, Named, NodeKind};
use crate::interface::{defines, find_group};
use crate::schedule::{count_false, lemma_count_false_update};
use crate::usage::{node_calls, nodes_calls, strings};

verus! {

/// The index of the group named `g`, if the document defines one.
pub open spec fn group_index(doc: Eyesight, g: Seq<char>) -> Option<int> {
    if exists|gi: int| 0 <= gi < doc.groups@.len() && doc.groups@[gi].name@ == g {
        Some(choose|gi: int| 0 <= gi < doc.groups@.len() && doc.groups@[gi].name@ == g)
    } else {
        None
    }
}

/// A depth-first walk over group references. `stack` holds the names still
/// to visit, its last entry first; `marks` the groups already visited and
/// `order` the visited groups in the order they were first reached. Visiting a
/// group pushes the groups its nodes call, in node order, so the last of them
/// is visited next. A name that no group has ends the walk with nothing.
pub open spec fn dfs(doc: Eyesight, marks: Seq<bool>, stack: Seq<Seq<char>>, order: Seq<usize>) -> Option<Seq<usize>>
    decreases count_false(marks), stack.len(),
    via dfs_decreases
{
    if stack.len() == 0 {
        Some(order)
    } else {
        match group_index(doc, stack.last()) {
            None => None,
            Some(gi) => if gi < 0 || gi >= marks.len() || marks[gi] {
                dfs(doc, marks, stack.drop_last(), order)
            } else {
                dfs(
                    doc,
                    marks.update(gi, true),
                    stack.drop_last() + nodes_calls(doc.groups@[gi].shader.nodes@),
                    order.push(gi as usize),
                )
            },
        }
    }
}

#[via_fn]
proof fn dfs_decreases(doc: Eyesight, marks: Seq<bool>, stack: Seq<Seq<char>>, order: Seq<usize>) {
    if stack.len() > 0 {
        if let Some(gi) = group_index(doc, stack.last()) {
            if !(gi < 0 || gi >= marks.len() || marks[gi]) {
                lemma_count_false_update(marks, gi);
            }
        }
    }
}

/// The groups reached from the roots in depth-first discovery order: the
/// roots are stacked in order, so the last root is walked first.
pub open spec fn dfs_order(doc: Eyesight, roots: Seq<String>) -> Option<Seq<usize>> {
    dfs(doc, Seq::new(doc.groups@.len(), |i: int| false), strings(roots), seq![])
}

/// A group reachable from the roots is missing from the document.
#[derive(Debug)]
pub struct UnknownGroupError {
    pub group: String,
}

/// The groups reachable from the roots through group references, as indices,
/// in depth-first discovery order. A name on the way that no group has is an
/// error.
pub fn reachable_groups(doc: &Eyesight, roots: &Vec<String>) -> (r: Result<Vec<usize>, UnknownGroupError>)
    requires
        crate::graph::names_unique(doc.groups@),
    ensures
        r is Ok <==> dfs_order(*doc, roots@) is Some,
        r matches Ok(order) ==> dfs_order(*doc, roots@) == Some(order@),
        r matches Ok(order) ==> forall|k: int| 0 <= k < order@.len() ==> order@[k] < doc.groups@.len(),
        r matches Err(e) ==> !defines(*doc, e.group@),
{
    let n = doc.groups.len();
    let mut marks: Vec<bool> = Vec::new();
    let mut i: usize = 0;
    while i < n
        invariant
            n == doc.groups@.len(),
            0 <= i <= n,
            marks@.len() == i,
            forall|q: int| 0 <= q < i ==> !marks@[q],
        decreases n - i,
    {
        marks.push(false);
        i = i + 1;
    }
    assert(marks@ =~= Seq::new(doc.groups@.len(), |i: int| false));
    let mut stack: Vec<String> = Vec::new();
    let mut k: usize = 0;
    while k < roots.len()
        invariant
            0 <= k <= roots@.len(),
            strings(stack@) == strings(roots@).take(k as int),
        decreases roots@.len() - k,
    {
        let ghost before = strings(stack@);
        stack.push(roots[k].clone());
        assert(strings(stack@) =~= before.push(roots@[k as int]@));
        assert(strings(roots@).take(k + 1) =~= strings(roots@).take(k as int).push(roots@[k as int]@));
        k = k + 1;
    }
    assert(strings(roots@).take(roots@.len() as int) =~= strings(roots@));
    let mut order: Vec<usize> = Vec::new();
    let ghost total = dfs_order(*doc, roots@);
    loop
        invariant
            n == doc.groups@.len(),
            crate::graph::names_unique(doc.groups@),
            marks@.len() == n,
            forall|q: int| 0 <= q < order@.len() ==> order@[q] < n,
            total == dfs_order(*doc, roots@),
            dfs(*doc, marks@, strings(stack@), order@) == total,
        decreases count_false(marks@), stack@.len(),
    {
        let ghost st = strings(stack@);
        let g = match stack.pop() {
            Some(g) => g,
            None => {
                assert(st.len() == 0);
                return Ok(order);
            },
        };
        let ghost rest = strings(stack@);
        assert(st.last() == g@);
        assert(st.drop_last() =~= rest);
        let found = find_group(&doc.groups, g.as_str());
        match found {
            None => {
                assert(group_index(*doc, g@) is None);
                return Err(UnknownGroupError { group: g });
            },
            Some(gi) => {
                proof {
                    let c = choose|c: int| 0 <= c < doc.groups@.len() && doc.groups@[c].name@ == g@;
                    if c != gi {
                        assert(doc.groups@[c].name_view() != doc.groups@[gi as int].name_view());
                    }
                    assert(group_index(*doc, g@) == Some(gi as int));
                }
                if !marks[gi] {
                    proof {
                        lemma_count_false_update(marks@, gi as int);
                    }
                    marks.set(gi, true);
                    order.push(gi);
                    let nodes = &doc.groups[gi].shader.nodes;
                    let mut j: usize = 0;
                    assert(nodes@.take(0) =~= Seq::<crate::graph::Node>::empty());
                    assert(rest =~= rest + nodes_calls(nodes@.take(0)));
                    while j < nodes.len()
                        invariant
                            nodes == &doc.groups@[gi as int].shader.nodes,
                            0 <= j <= nodes@.len(),
                            strings(stack@) == rest + nodes_calls(nodes@.take(j as int)),
                        decreases nodes@.len() - j,
                    {
                        assert(nodes@.take(j + 1).drop_last() =~= nodes@.take(j as int));
                        assert(nodes@.take(j + 1).last() == nodes@[j as int]);
                        if let NodeKind::Group(r) = &nodes[j].kind {
                            let ghost before = strings(stack@);
                            stack.push(r.group_name.clone());
                            assert(strings(stack@) =~= before.push(r.group_name@));
                            assert(node_calls(nodes@[j as int]) == seq![r.group_name@]);
                            assert(strings(stack@) =~= rest + nodes_calls(nodes@.take(j + 1)));
                        } else {
                            assert(node_calls(nodes@[j as int]) =~= Seq::<Seq<char>>::empty());
                            assert(strings(stack@) =~= rest + nodes_calls(nodes@.take(j + 1)));
                        }
                        j = j + 1;
                    }
                    assert(nodes@.take(j as int) =~= nodes@);
                }
            },
        }
    }
}

} // verus!
