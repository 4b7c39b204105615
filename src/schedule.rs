use vstd::prelude::*;
use crate::graph::{Link, Node};
use crate::order::{Ordering, compare_str, lex_lt, lemma_lex_lt_irreflexive, lemma_lex_lt_transitive};
use crate::text::str_eq;

verus! {

/// No two nodes of a shader share a name.
pub open spec fn unique_node_names(nodes: Seq<Node>) -> bool {
    forall|i: int, j: int|
        0 <= i < nodes.len() && 0 <= j < nodes.len() && i != j ==> nodes[i].name@
            != nodes[j].name@
}

/// Link `l` ends at node `j`.
pub open spec fn link_into(nodes: Seq<Node>, links: Seq<Link>, l: int, j: int) -> bool {
    0 <= l < links.len() && 0 <= j < nodes.len() && links[l].to_node@ == nodes[j].name@
}

/// Node `i` is listed in tier `t`.
pub open spec fn in_tier(tiers: Seq<Seq<usize>>, t: int, i: int) -> bool {
    0 <= t < tiers.len() && exists|k: int| 0 <= k < tiers[t].len() && tiers[t][k] == i
}

/// Node `i` is listed in some tier.
pub open spec fn scheduled(tiers: Seq<Seq<usize>>, i: int) -> bool {
    exists|t: int| in_tier(tiers, t, i)
}

/// The node that link `l` starts from is listed in tier `t`.
pub open spec fn source_in_tier(
    nodes: Seq<Node>,
    links: Seq<Link>,
    tiers: Seq<Seq<usize>>,
    l: int,
    t: int,
) -> bool {
    exists|i: int| 0 <= i < nodes.len() && nodes[i].name@ == links[l].from_node@ && in_tier(tiers, t, i)
}

/// Link `l` starts at a node listed in a tier before `t`.
pub open spec fn source_earlier(nodes: Seq<Node>, links: Seq<Link>, tiers: Seq<Seq<usize>>, l: int, t: int) -> bool {
    exists|t2: int| 0 <= t2 < t && source_in_tier(nodes, links, tiers, l, t2)
}

/// Some link into node `j` starts at a node listed in tier `t`.
pub open spec fn fed_from_tier(nodes: Seq<Node>, links: Seq<Link>, tiers: Seq<Seq<usize>>, j: int, t: int) -> bool {
    exists|l: int| link_into(nodes, links, l, j) && source_in_tier(nodes, links, tiers, l, t)
}

/// `tiers` lists node indices such that every node stands in exactly one tier;
/// every link into a node starts at a node of an earlier tier; a node of a
/// later tier than the first has a link from the tier just before; and the
/// nodes of a tier come in strictly increasing order of name.
pub open spec fn is_layering(nodes: Seq<Node>, links: Seq<Link>, tiers: Seq<Seq<usize>>) -> bool {
    &&& forall|t: int| 0 <= t < tiers.len() ==> tiers[t].len() > 0
    &&& forall|t: int, k: int|
        0 <= t < tiers.len() && 0 <= k < tiers[t].len() ==> tiers[t][k] < nodes.len()
    &&& forall|t1: int, k1: int, t2: int, k2: int|
        0 <= t1 < tiers.len() && 0 <= k1 < tiers[t1].len() && 0 <= t2 < tiers.len() && 0 <= k2
            < tiers[t2].len() && tiers[t1][k1] == tiers[t2][k2] ==> t1 == t2 && k1 == k2
    &&& forall|i: int| 0 <= i < nodes.len() ==> #[trigger] scheduled(tiers, i)
    &&& forall|t: int, k: int, l: int|
        0 <= t < tiers.len() && 0 <= k < tiers[t].len() && link_into(nodes, links, l, tiers[t][k] as int)
            ==> source_earlier(nodes, links, tiers, l, t)
    &&& forall|t: int, k: int|
        0 < t < tiers.len() && 0 <= k < tiers[t].len() ==> fed_from_tier(nodes, links, tiers, #[trigger] tiers[t][k] as int, t - 1)
    &&& forall|t: int| 0 <= t < tiers.len() ==> sorted_by_name(nodes, #[trigger] tiers[t])
}

/// The nodes listed in `stuck` can never be scheduled: each has a link into it
/// that starts at a node also listed there, or at a name that no node has.
pub open spec fn is_stall(nodes: Seq<Node>, links: Seq<Link>, stuck: Seq<usize>) -> bool {
    &&& stuck.len() > 0
    &&& forall|k: int| 0 <= k < stuck.len() ==> stuck[k] < nodes.len()
    &&& forall|k: int|
        0 <= k < stuck.len() ==> #[trigger] stuck_at(nodes, links, stuck, k)
}

/// Some link holds back the node listed at position `k` of `stuck`.
pub open spec fn stuck_at(nodes: Seq<Node>, links: Seq<Link>, stuck: Seq<usize>, k: int) -> bool {
    exists|l: int| held_back(nodes, links, stuck, l, stuck[k] as int)
}

/// Link `l` ends at node `j` and starts at a node listed in `stuck`, or at a
/// name that no node has.
pub open spec fn held_back(nodes: Seq<Node>, links: Seq<Link>, stuck: Seq<usize>, l: int, j: int) -> bool {
    link_into(nodes, links, l, j) && forall|i: int|
        0 <= i < nodes.len() && nodes[i].name@ == links[l].from_node@ ==> stuck.contains(i as usize)
}

/// The scheduler stalled: a cycle, or a link from a node that does not exist.
#[derive(Clone, Debug)]
pub struct CycleOrUnreachableNodeError {
    pub unplaced: Vec<usize>,
}

/// The index of the node with the given name, if any.
pub fn find_node(nodes: &Vec<Node>, name: &str) -> (r: Option<usize>)
    ensures
        r matches Some(i) ==> i < nodes@.len() && nodes@[i as int].name@ == name@,
        r is None ==> forall|i: int| 0 <= i < nodes@.len() ==> nodes@[i].name@ != name@,
{
    let mut i: usize = 0;
    while i < nodes.len()
        invariant
            0 <= i <= nodes@.len(),
            forall|k: int| 0 <= k < i ==> nodes@[k].name@ != name@,
        decreases nodes@.len() - i,
    {
        if str_eq(nodes[i].name.as_str(), name) {
            return Some(i);
        }
        i = i + 1;
    }
    None
}

/// Every link into node `j` starts at a node that is marked in `placed`.
pub open spec fn is_ready(nodes: Seq<Node>, links: Seq<Link>, placed: Seq<bool>, j: int) -> bool {
    forall|l: int|
        link_into(nodes, links, l, j) ==> exists|i: int|
            0 <= i < nodes.len() && nodes[i].name@ == links[l].from_node@ && placed[i]
}

/// Whether every link into node `j` starts at a node that is already placed.
fn ready(nodes: &Vec<Node>, links: &Vec<Link>, placed: &Vec<bool>, j: usize) -> (r: bool)
    requires
        unique_node_names(nodes@),
        placed@.len() == nodes@.len(),
        j < nodes@.len(),
    ensures
        r == is_ready(nodes@, links@, placed@, j as int),
{
    let mut l: usize = 0;
    while l < links.len()
        invariant
            unique_node_names(nodes@),
            placed@.len() == nodes@.len(),
            j < nodes@.len(),
            0 <= l <= links@.len(),
            forall|m: int|
                0 <= m < l && link_into(nodes@, links@, m, j as int) ==> exists|i: int|
                    0 <= i < nodes@.len() && nodes@[i].name@ == links@[m].from_node@ && placed@[i],
        decreases links@.len() - l,
    {
        if str_eq(links[l].to_node.as_str(), nodes[j].name.as_str()) {
            match find_node(nodes, links[l].from_node.as_str()) {
                Some(i) => {
                    if !placed[i] {
                        assert(link_into(nodes@, links@, l as int, j as int));
                        return false;
                    }
                },
                None => {
                    assert(link_into(nodes@, links@, l as int, j as int));
                    return false;
                },
            }
        }
        l = l + 1;
    }
    true
}

/// The tiers as sequences of node indices.
pub open spec fn tiers_view(tiers: Seq<Vec<usize>>) -> Seq<Seq<usize>> {
    tiers.map_values(|t: Vec<usize>| t@)
}

/// Consecutive entries of `tier` name nodes in strictly increasing order.
pub open spec fn sorted_by_name(nodes: Seq<Node>, tier: Seq<usize>) -> bool {
    forall|k: int|
        0 <= k && k + 1 < tier.len() ==> lex_lt(
            nodes[#[trigger] tier[k] as int].name@,
            nodes[tier[k + 1] as int].name@,
        )
}

pub open spec fn no_duplicates(s: Seq<usize>) -> bool {
    forall|a: int, b: int| 0 <= a < s.len() && 0 <= b < s.len() && a != b ==> s[a] != s[b]
}

/// `i` is an entry of `s`.
pub open spec fn listed(s: Seq<usize>, i: int) -> bool {
    exists|q: int| 0 <= q < s.len() && s[q] as int == i
}

/// The number of entries that are `false`.
pub open spec fn count_false(s: Seq<bool>) -> nat
    decreases s.len(),
{
    if s.len() == 0 {
        0
    } else {
        count_false(s.drop_last()) + if s.last() {
            0nat
        } else {
            1nat
        }
    }
}

pub proof fn lemma_count_false_update(s: Seq<bool>, i: int)
    requires
        0 <= i < s.len(),
        !s[i],
    ensures
        count_false(s.update(i, true)) + 1 == count_false(s),
    decreases s.len(),
{
    let u = s.update(i, true);
    if i == s.len() - 1 {
        assert(u.drop_last() =~= s.drop_last());
    } else {
        assert(u.drop_last() =~= s.drop_last().update(i, true));
        lemma_count_false_update(s.drop_last(), i);
    }
}

/// Inserts `j` into a tier so that names stay in increasing order.
fn insert_sorted(nodes: &Vec<Node>, tier: &mut Vec<usize>, j: usize)
    requires
        unique_node_names(nodes@),
        j < nodes@.len(),
        forall|k: int| 0 <= k < old(tier)@.len() ==> old(tier)@[k] < nodes@.len(),
        !old(tier)@.contains(j),
        no_duplicates(old(tier)@),
        sorted_by_name(nodes@, old(tier)@),
    ensures
        final(tier)@.len() == old(tier)@.len() + 1,
        forall|x: usize| final(tier)@.contains(x) <==> (old(tier)@.contains(x) || x == j),
        forall|k: int| 0 <= k < final(tier)@.len() ==> final(tier)@[k] < nodes@.len(),
        no_duplicates(final(tier)@),
        sorted_by_name(nodes@, final(tier)@),
{
    let ghost t0 = tier@;
    let mut p: usize = 0;
    let mut stop = false;
    while p < tier.len() && !stop
        invariant
            tier@ == t0,
            0 <= p <= t0.len(),
            forall|k: int| 0 <= k < t0.len() ==> t0[k] < nodes@.len(),
            j < nodes@.len(),
            unique_node_names(nodes@),
            !t0.contains(j),
            forall|q: int| 0 <= q < p ==> lex_lt(nodes@[t0[q] as int].name@, nodes@[j as int].name@),
            stop ==> p < t0.len() && lex_lt(nodes@[j as int].name@, nodes@[t0[p as int] as int].name@),
        decreases t0.len() - p + if stop { 0int } else { 1int },
    {
        let c = compare_str(nodes[tier[p]].name.as_str(), nodes[j].name.as_str());
        if c == Ordering::Less {
            p = p + 1;
        } else {
            assert(t0[p as int] != j) by {
                assert(t0.contains(t0[p as int]));
            }
            stop = true;
        }
    }
    tier.insert(p, j);
    let ghost t1 = tier@;
    assert(t1 == t0.insert(p as int, j));
    assert forall|x: usize| t1.contains(x) <==> (t0.contains(x) || x == j) by {
        if t1.contains(x) {
            let k = choose|k: int| 0 <= k < t1.len() && t1[k] == x;
            if k < p {
                assert(t0[k] == x);
            } else if k > p {
                assert(t0[k - 1] == x);
            }
        }
        if t0.contains(x) {
            let k = choose|k: int| 0 <= k < t0.len() && t0[k] == x;
            if k < p {
                assert(t1[k] == x);
            } else {
                assert(t1[k + 1] == x);
            }
        }
        if x == j {
            assert(t1[p as int] == x);
        }
    }
    assert forall|a: int, b: int| 0 <= a < t1.len() && 0 <= b < t1.len() && a != b implies t1[a] != t1[b] by {
        if a == p {
            if b < p { assert(t0.contains(t0[b])); } else if b > p { assert(t0.contains(t0[b - 1])); }
        } else if b == p {
            if a < p { assert(t0.contains(t0[a])); } else if a > p { assert(t0.contains(t0[a - 1])); }
        }
    }
}

/// The unplaced nodes that are ready, sorted by name.
fn next_tier(nodes: &Vec<Node>, links: &Vec<Link>, placed: &Vec<bool>) -> (tier: Vec<usize>)
    requires
        unique_node_names(nodes@),
        placed@.len() == nodes@.len(),
    ensures
        forall|x: int| listed(tier@, x) <==> (0 <= x < nodes@.len() && !placed@[x] && is_ready(nodes@, links@, placed@, x)),
        forall|k: int| 0 <= k < tier@.len() ==> tier@[k] < nodes@.len(),
        no_duplicates(tier@),
        sorted_by_name(nodes@, tier@),
{
    let n = nodes.len();
    let mut tier: Vec<usize> = Vec::new();
    let mut j: usize = 0;
    while j < n
        invariant
            n == nodes@.len(),
            unique_node_names(nodes@),
            placed@.len() == n,
            0 <= j <= n,
            forall|k: int| 0 <= k < tier@.len() ==> tier@[k] < j,
            forall|x: usize| tier@.contains(x) <==> (x < j && !placed@[x as int] && is_ready(nodes@, links@, placed@, x as int)),
            no_duplicates(tier@),
            sorted_by_name(nodes@, tier@),
        decreases n - j,
    {
        if !placed[j] && ready(nodes, links, placed, j) {
            assert(!tier@.contains(j)) by {
                if tier@.contains(j) {
                    let k = choose|k: int| 0 <= k < tier@.len() && tier@[k] == j;
                }
            }
            let ghost before = tier@;
            insert_sorted(nodes, &mut tier, j);
            assert forall|k: int| 0 <= k < tier@.len() implies tier@[k] < j + 1 by {
                assert(tier@.contains(tier@[k]));
                if tier@[k] != j {
                    assert(before.contains(tier@[k]));
                }
            }
        }
        j = j + 1;
    }
    assert forall|x: int| listed(tier@, x) <==> (0 <= x < nodes@.len() && !placed@[x] && is_ready(nodes@, links@, placed@, x)) by {
        if listed(tier@, x) {
            let q = choose|q: int| 0 <= q < tier@.len() && tier@[q] as int == x;
            assert(tier@.contains(tier@[q]));
        }
        if 0 <= x < nodes@.len() && !placed@[x] && is_ready(nodes@, links@, placed@, x) {
            assert(tier@.contains(x as usize));
            let q = choose|q: int| 0 <= q < tier@.len() && tier@[q] == x as usize;
        }
    }
    tier
}

/// The indices of the entries that are `false`, in increasing order.
fn collect_unplaced(placed: &Vec<bool>) -> (r: Vec<usize>)
    ensures
        forall|x: usize| r@.contains(x) <==> (x < placed@.len() && !placed@[x as int]),
        forall|q: int| 0 <= q < r@.len() ==> r@[q] < placed@.len(),
{
    let n = placed.len();
    let mut r: Vec<usize> = Vec::new();
    let mut k: usize = 0;
    while k < n
        invariant
            n == placed@.len(),
            0 <= k <= n,
            forall|x: usize| r@.contains(x) <==> (x < k && !placed@[x as int]),
            forall|q: int| 0 <= q < r@.len() ==> r@[q] < k,
        decreases n - k,
    {
        if !placed[k] {
            let ghost before = r@;
            r.push(k);
            assert forall|x: usize| r@.contains(x) <==> (x < k + 1 && !placed@[x as int]) by {
                if r@.contains(x) && x != k {
                    let q = choose|q: int| 0 <= q < r@.len() && r@[q] == x;
                    assert(before[q] == x);
                }
                if x < k && !placed@[x as int] {
                    let q = choose|q: int| 0 <= q < before.len() && before[q] == x;
                    assert(r@[q] == x);
                }
                if x == k {
                    assert(r@[before.len() as int] == x);
                }
            }
        }
        k = k + 1;
    }
    r
}

/// Sets the entries listed in `tier`, which were all `false`.
fn mark_placed(placed: &mut Vec<bool>, tier: &Vec<usize>)
    requires
        no_duplicates(tier@),
        forall|q: int| 0 <= q < tier@.len() ==> tier@[q] < old(placed)@.len() && !old(placed)@[tier@[q] as int],
    ensures
        final(placed)@.len() == old(placed)@.len(),
        forall|i: int| 0 <= i < old(placed)@.len() ==> final(placed)@[i] == (old(placed)@[i] || listed(tier@, i)),
        count_false(final(placed)@) + tier@.len() == count_false(old(placed)@),
{
    let ghost p0 = placed@;
    let mut k: usize = 0;
    while k < tier.len()
        invariant
            placed@.len() == p0.len(),
            0 <= k <= tier@.len(),
            no_duplicates(tier@),
            forall|q: int| 0 <= q < tier@.len() ==> tier@[q] < p0.len() && !p0[tier@[q] as int],
            forall|i: int| 0 <= i < p0.len() ==> placed@[i] == (p0[i] || listed(tier@.take(k as int), i)),
            count_false(placed@) + k == count_false(p0),
        decreases tier@.len() - k,
    {
        let x = tier[k];
        proof {
            assert(!placed@[x as int]) by {
                if listed(tier@.take(k as int), x as int) {
                    let q = choose|q: int| 0 <= q < k && tier@.take(k as int)[q] == x;
                    assert(tier@[q] == tier@[k as int]);
                }
            }
            lemma_count_false_update(placed@, x as int);
        }
        let ghost before = placed@;
        placed.set(x, true);
        proof {
            let tk = tier@.take(k as int);
            let tk1 = tier@.take(k + 1);
            assert(tk1 == tk.push(x));
            assert forall|i: int| 0 <= i < p0.len() implies placed@[i] == (p0[i] || listed(tk1, i)) by {
                if listed(tk, i) {
                    let q = choose|q: int| 0 <= q < tk.len() && tk[q] as int == i;
                    assert(tk1[q] == tk[q]);
                }
                if listed(tk1, i) && i != x {
                    let q = choose|q: int| 0 <= q < tk1.len() && tk1[q] as int == i;
                    assert(tk[q] == tk1[q]);
                }
                if i == x {
                    assert(tk1[k as int] == x);
                }
            }
        }
        k = k + 1;
    }
    assert(tier@.take(tier@.len() as int) == tier@);
}

/// The scheduler's state after some tiers: `level` gives each placed node's
/// tier and -1 for the others.
#[verifier::opaque]
pub open spec fn layering_state(
    nodes: Seq<Node>,
    links: Seq<Link>,
    placed: Seq<bool>,
    level: Seq<int>,
    tv: Seq<Seq<usize>>,
) -> bool {
    let n = nodes.len();
    &&& placed.len() == n
    &&& level.len() == n
    &&& forall|i: int| 0 <= i < n ==> (placed[i] <==> 0 <= #[trigger] level[i] < tv.len())
    &&& forall|i: int| 0 <= i < n && !placed[i] ==> level[i] == -1
    &&& forall|t: int, k: int|
        0 <= t < tv.len() && 0 <= k < tv[t].len() ==> #[trigger] tv[t][k] < n && level[tv[t][k] as int] == t
    &&& forall|i: int| 0 <= i < n && #[trigger] placed[i] ==> listed(tv[level[i]], i)
    &&& forall|t: int|
        0 <= t < tv.len() ==> (#[trigger] tv[t]).len() > 0 && no_duplicates(tv[t]) && sorted_by_name(nodes, tv[t])
    &&& forall|t: int, k: int, l: int|
        0 <= t < tv.len() && 0 <= k < tv[t].len() && #[trigger] link_into(nodes, links, l, tv[t][k] as int)
            ==> source_below(nodes, links, level, l, t)
    &&& forall|t: int, k: int|
        0 < t < tv.len() && 0 <= k < tv[t].len() ==> fed_from_level(nodes, links, level, #[trigger] tv[t][k] as int, t - 1)
    &&& forall|j: int|
        0 <= j < n && !#[trigger] placed[j] && tv.len() > 0 ==> blocked(nodes, links, level, j, tv.len() - 1)
}

/// Link `l` starts at a node placed at a level below `t`.
pub open spec fn source_below(nodes: Seq<Node>, links: Seq<Link>, level: Seq<int>, l: int, t: int) -> bool {
    exists|i: int| 0 <= i < nodes.len() && nodes[i].name@ == links[l].from_node@ && 0 <= #[trigger] level[i] < t
}

/// Some link into node `j` starts at a node placed at level `t`.
pub open spec fn fed_from_level(nodes: Seq<Node>, links: Seq<Link>, level: Seq<int>, j: int, t: int) -> bool {
    exists|l: int, i: int|
        link_into(nodes, links, l, j) && 0 <= i < nodes.len() && nodes[i].name@ == links[l].from_node@ && level[i] == t
}

/// Some link into node `j` starts only at nodes that are unplaced or placed at
/// level `t` or later.
pub open spec fn blocked(nodes: Seq<Node>, links: Seq<Link>, level: Seq<int>, j: int, t: int) -> bool {
    exists|l: int|
        link_into(nodes, links, l, j) && forall|i: int|
            0 <= i < nodes.len() && nodes[i].name@ == links[l].from_node@ ==> (level[i] == -1 || level[i] >= t)
}

/// The levels after the nodes of `tier` are placed at level `t`.
pub open spec fn next_level(level: Seq<int>, tier: Seq<usize>, t: int) -> Seq<int> {
    Seq::new(level.len(), |i: int| if listed(tier, i) { t } else { level[i] })
}

proof fn lemma_layering_start(nodes: Seq<Node>, links: Seq<Link>, placed: Seq<bool>)
    requires
        placed.len() == nodes.len(),
        forall|i: int| 0 <= i < placed.len() ==> !placed[i],
    ensures
        layering_state(nodes, links, placed, Seq::new(nodes.len(), |k: int| -1), Seq::empty()),
{
    reveal(layering_state);
}

#[verifier::rlimit(100)]
proof fn lemma_layering_step(
    nodes: Seq<Node>,
    links: Seq<Link>,
    placed: Seq<bool>,
    level: Seq<int>,
    tv: Seq<Seq<usize>>,
    tier: Seq<usize>,
    placed2: Seq<bool>,
)
    requires
        layering_state(nodes, links, placed, level, tv),
        tier.len() > 0,
        forall|x: int| listed(tier, x) <==> (0 <= x < nodes.len() && !placed[x] && is_ready(nodes, links, placed, x)),
        forall|k: int| 0 <= k < tier.len() ==> tier[k] < nodes.len(),
        no_duplicates(tier),
        sorted_by_name(nodes, tier),
        placed2.len() == placed.len(),
        forall|i: int| 0 <= i < placed.len() ==> placed2[i] == (placed[i] || listed(tier, i)),
    ensures
        layering_state(
            nodes,
            links,
            placed2,
            next_level(level, tier, tv.len() as int),
            tv.push(tier),
        ),
{
    let n = nodes.len();
    let t = tv.len() as int;
    let level2 = next_level(level, tier, t);
    let tv2 = tv.push(tier);
    reveal(layering_state);
    assert forall|i: int| 0 <= i < n implies (placed2[i] <==> 0 <= #[trigger] level2[i] < tv2.len()) && (!placed2[i] ==> level2[i] == -1) by {
        if listed(tier, i) {
            assert(!placed[i]);
        }
    }
    assert forall|t1: int| 0 <= t1 < tv2.len() implies (#[trigger] tv2[t1]).len() > 0 && no_duplicates(tv2[t1]) && sorted_by_name(nodes, tv2[t1]) by {
        if t1 < t {
            assert(tv2[t1] == tv[t1]);
        }
    }
    assert forall|i: int| 0 <= i < n && #[trigger] placed2[i] implies listed(tv2[level2[i]], i) by {
        if listed(tier, i) {
        } else {
            assert(placed[i]);
        }
    }
    assert forall|t1: int, k: int| 0 <= t1 < tv2.len() && 0 <= k < tv2[t1].len() implies #[trigger] tv2[t1][k] < n && level2[tv2[t1][k] as int] == t1 by {
        if t1 == t {
            assert(listed(tier, tier[k] as int));
        } else {
            let x = tv[t1][k] as int;
            assert(placed[x]);
            if listed(tier, x) {
                assert(!placed[x]);
            }
        }
    }
    assert forall|t1: int, k: int, l: int|
        0 <= t1 < tv2.len() && 0 <= k < tv2[t1].len() && #[trigger] link_into(nodes, links, l, tv2[t1][k] as int)
            implies source_below(nodes, links, level2, l, t1) by {
        if t1 == t {
            let x = tier[k] as int;
            assert(listed(tier, x));
            assert(is_ready(nodes, links, placed, x));
            let i = choose|i: int| 0 <= i < n && nodes[i].name@ == links[l].from_node@ && placed[i];
            assert(!listed(tier, i));
            assert(level2[i] == level[i]);
            assert(0 <= level2[i] < t1);
        } else {
            let i = choose|i: int| 0 <= i < n && nodes[i].name@ == links[l].from_node@ && 0 <= #[trigger] level[i] < t1;
            assert(placed[i]);
            assert(!listed(tier, i));
            assert(level2[i] == level[i]);
            assert(0 <= level2[i] < t1);
        }
    }
    assert forall|t1: int, k: int| 0 < t1 < tv2.len() && 0 <= k < tv2[t1].len() implies fed_from_level(nodes, links, level2, #[trigger] tv2[t1][k] as int, t1 - 1) by {
        if t1 == t {
            let x = tier[k] as int;
            assert(listed(tier, x));
            assert(!placed[x]);
            assert(blocked(nodes, links, level, x, t - 1));
            let l = choose|l: int| link_into(nodes, links, l, x) && forall|i: int|
                0 <= i < n && nodes[i].name@ == links[l].from_node@ ==> (level[i] == -1 || level[i] >= tv.len() - 1);
            let i = choose|i: int| 0 <= i < n && nodes[i].name@ == links[l].from_node@ && placed[i];
            assert(!listed(tier, i));
            assert(level2[i] == level[i]);
            assert(tv2[t1][k] == x);
            assert(link_into(nodes, links, l, x) && 0 <= i < n && nodes[i].name@ == links[l].from_node@ && level2[i] == t1 - 1);
        } else {
            assert(tv2[t1] == tv[t1]);
            assert(fed_from_level(nodes, links, level, tv[t1][k] as int, t1 - 1));
            let (l, i) = choose|l: int, i: int| link_into(nodes, links, l, tv[t1][k] as int) && 0 <= i < n && nodes[i].name@
                == links[l].from_node@ && level[i] == t1 - 1;
            assert(placed[i]);
            assert(!listed(tier, i));
            assert(level2[i] == level[i]);
            assert(link_into(nodes, links, l, tv2[t1][k] as int) && 0 <= i < n && nodes[i].name@ == links[l].from_node@ && level2[i] == t1 - 1);
        }
    }
    assert forall|j: int| 0 <= j < n && !#[trigger] placed2[j] && tv2.len() > 0 implies blocked(nodes, links, level2, j, tv2.len() - 1) by {
        assert(!placed[j] && !listed(tier, j));
        assert(!is_ready(nodes, links, placed, j));
        let l = choose|l: int| link_into(nodes, links, l, j) && !(exists|i: int|
            0 <= i < n && nodes[i].name@ == links[l].from_node@ && placed[i]);
        assert forall|i: int| 0 <= i < n && nodes[i].name@ == links[l].from_node@ implies (level2[i] == -1 || level2[i] >= tv2.len() - 1) by {
            assert(!placed[i]);
        }
        assert(link_into(nodes, links, l, j));
    }
    assert(placed2.len() == n && level2.len() == n);
}

/// Orders the nodes of a shader into tiers: the first holds every node with no
/// link into it, and each later one every node not yet placed whose links all
/// start at placed nodes. Within a tier the nodes are sorted by name.
pub fn topographic_sort(nodes: &Vec<Node>, links: &Vec<Link>) -> (r: Result<Vec<Vec<usize>>, CycleOrUnreachableNodeError>)
    requires
        unique_node_names(nodes@),
    ensures
        r matches Ok(tiers) ==> is_layering(nodes@, links@, tiers_view(tiers@)),
        r matches Err(e) ==> is_stall(nodes@, links@, e.unplaced@),
{
    let n = nodes.len();
    let mut placed: Vec<bool> = Vec::new();
    let mut i: usize = 0;
    while i < n
        invariant
            n == nodes@.len(),
            0 <= i <= n,
            placed@.len() == i,
            forall|k: int| 0 <= k < i ==> !placed@[k],
        decreases n - i,
    {
        placed.push(false);
        i = i + 1;
    }
    let ghost mut level: Seq<int> = Seq::new(n as nat, |k: int| -1);
    let ghost mut tv: Seq<Seq<usize>> = Seq::empty();
    proof {
        lemma_layering_start(nodes@, links@, placed@);
    }
    let mut tiers: Vec<Vec<usize>> = Vec::new();
    loop
        invariant
            n == nodes@.len(),
            unique_node_names(nodes@),
            layering_state(nodes@, links@, placed@, level, tv),
            placed@.len() == n,
            tiers_view(tiers@) == tv,
        decreases count_false(placed@),
    {
        let tier = next_tier(nodes, links, &placed);
        if tier.len() == 0 {
            let unplaced = collect_unplaced(&placed);
            if unplaced.len() == 0 {
                proof {
                    assert forall|i: int| 0 <= i < nodes@.len() implies placed@[i] by {
                        assert(!unplaced@.contains(i as usize));
                    }
                    lemma_layering_done(nodes@, links@, placed@, level, tv);
                }
                return Ok(tiers);
            }
            proof {
                assert forall|x: int| !(0 <= x < nodes@.len() && !placed@[x] && is_ready(nodes@, links@, placed@, x)) by {
                    if 0 <= x < nodes@.len() && !placed@[x] && is_ready(nodes@, links@, placed@, x) {
                        assert(listed(tier@, x));
                        let q = choose|q: int| 0 <= q < tier@.len() && tier@[q] as int == x;
                    }
                }
                lemma_layering_stuck(nodes@, links@, placed@, unplaced@);
            }
            return Err(CycleOrUnreachableNodeError { unplaced });
        }
        let ghost old_placed = placed@;
        mark_placed(&mut placed, &tier);
        proof {
            lemma_layering_step(nodes@, links@, old_placed, level, tv, tier@, placed@);
            level = next_level(level, tier@, tv.len() as int);
            tv = tv.push(tier@);
        }
        tiers.push(tier);
        assert(tiers_view(tiers@) =~= tv);
    }
}

#[verifier::rlimit(100)]
proof fn lemma_layering_done(
    nodes: Seq<Node>,
    links: Seq<Link>,
    placed: Seq<bool>,
    level: Seq<int>,
    tv: Seq<Seq<usize>>,
)
    requires
        layering_state(nodes, links, placed, level, tv),
        placed.len() == nodes.len(),
        forall|i: int| 0 <= i < nodes.len() ==> placed[i],
    ensures
        is_layering(nodes, links, tv),
{
    reveal(layering_state);
    let n = nodes.len();
    assert forall|i: int| 0 <= i < n implies #[trigger] scheduled(tv, i) by {
        assert(placed[i]);
        let q = choose|q: int| 0 <= q < tv[level[i]].len() && tv[level[i]][q] as int == i;
        assert(in_tier(tv, level[i], i));
    }
    assert forall|t1: int, k1: int, t2: int, k2: int|
        0 <= t1 < tv.len() && 0 <= k1 < tv[t1].len() && 0 <= t2 < tv.len() && 0 <= k2
            < tv[t2].len() && tv[t1][k1] == tv[t2][k2] implies t1 == t2 && k1 == k2 by {
        assert(level[tv[t1][k1] as int] == t1);
        assert(level[tv[t2][k2] as int] == t2);
        assert(no_duplicates(tv[t1]));
    }
    assert forall|t: int, k: int, l: int|
        0 <= t < tv.len() && 0 <= k < tv[t].len() && link_into(nodes, links, l, tv[t][k] as int)
            implies source_earlier(nodes, links, tv, l, t) by {
        assert(source_below(nodes, links, level, l, t));
        let i = choose|i: int| 0 <= i < n && nodes[i].name@ == links[l].from_node@ && 0 <= #[trigger] level[i] < t;
        assert(placed[i]);
        let q = choose|q: int| 0 <= q < tv[level[i]].len() && tv[level[i]][q] as int == i;
        assert(in_tier(tv, level[i], i));
        assert(source_in_tier(nodes, links, tv, l, level[i]));
    }
    assert forall|t: int, k: int|
        0 < t < tv.len() && 0 <= k < tv[t].len() implies fed_from_tier(nodes, links, tv, #[trigger] tv[t][k] as int, t - 1) by {
        assert(fed_from_level(nodes, links, level, tv[t][k] as int, t - 1));
        let (l, i) = choose|l: int, i: int| link_into(nodes, links, l, #[trigger] tv[t][k] as int) && 0 <= i < n && nodes[i].name@
                == links[l].from_node@ && level[i] == t - 1;
        assert(placed[i]);
        let q = choose|q: int| 0 <= q < tv[level[i]].len() && tv[level[i]][q] as int == i;
        assert(in_tier(tv, t - 1, i));
        assert(source_in_tier(nodes, links, tv, l, t - 1));
        assert(link_into(nodes, links, l, tv[t][k] as int));
    }
    assert(forall|t: int| 0 <= t < tv.len() ==> tv[t].len() > 0);
    assert(forall|t: int, k: int| 0 <= t < tv.len() && 0 <= k < tv[t].len() ==> tv[t][k] < nodes.len());
    assert(forall|t: int| 0 <= t < tv.len() ==> sorted_by_name(nodes, #[trigger] tv[t]));

}

#[verifier::rlimit(100)]
proof fn lemma_layering_stuck(
    nodes: Seq<Node>,
    links: Seq<Link>,
    placed: Seq<bool>,
    unplaced: Seq<usize>,
)
    requires
        placed.len() == nodes.len(),
        nodes.len() <= usize::MAX,
        forall|x: int| !(0 <= x < nodes.len() && !placed[x] && is_ready(nodes, links, placed, x)),
        unplaced.len() > 0,
        forall|x: usize| unplaced.contains(x) <==> (x < placed.len() && !placed[x as int]),
        forall|q: int| 0 <= q < unplaced.len() ==> unplaced[q] < placed.len(),
    ensures
        is_stall(nodes, links, unplaced),
{
    let n = nodes.len();
    assert forall|k: int| 0 <= k < unplaced.len() implies #[trigger] stuck_at(nodes, links, unplaced, k) by {
        let q = k;
        let x = unplaced[q];
        assert(unplaced.contains(x));
        assert(!is_ready(nodes, links, placed, x as int));
        let l = choose|l: int| link_into(nodes, links, l, x as int) && !(exists|i: int|
            0 <= i < n && nodes[i].name@ == links[l].from_node@ && placed[i]);
        assert forall|i: int| 0 <= i < nodes.len() && nodes[i].name@ == links[l].from_node@ implies unplaced.contains(i as usize) by {
            assert(!placed[i]);
        }
        assert(held_back(nodes, links, unplaced, l, x as int));
    }
    assert(unplaced.len() > 0);
    assert(forall|k: int| 0 <= k < unplaced.len() ==> unplaced[k] < nodes.len());
    assert(is_stall(nodes, links, unplaced));
}

/// The tier that lists node `i`.
pub open spec fn level_of(tiers: Seq<Seq<usize>>, i: int) -> int {
    choose|t: int| in_tier(tiers, t, i)
}

proof fn lemma_level(nodes: Seq<Node>, links: Seq<Link>, tiers: Seq<Seq<usize>>, i: int)
    requires
        is_layering(nodes, links, tiers),
        0 <= i < nodes.len(),
    ensures
        in_tier(tiers, level_of(tiers, i), i),
        forall|t: int| #[trigger] in_tier(tiers, t, i) ==> t == level_of(tiers, i),
{
    assert(scheduled(tiers, i));
    let l = level_of(tiers, i);
    assert forall|t: int| #[trigger] in_tier(tiers, t, i) implies t == l by {
        let k1 = choose|k: int| 0 <= k < tiers[t].len() && tiers[t][k] == i;
        let k2 = choose|k: int| 0 <= k < tiers[l].len() && tiers[l][k] == i;
    }
}

#[verifier::rlimit(60)]
proof fn lemma_levels_agree(nodes: Seq<Node>, links: Seq<Link>, t1: Seq<Seq<usize>>, t2: Seq<Seq<usize>>, i: int)
    requires
        unique_node_names(nodes),
        is_layering(nodes, links, t1),
        is_layering(nodes, links, t2),
        0 <= i < nodes.len(),
    ensures
        level_of(t1, i) == level_of(t2, i),
    decreases level_of(t1, i),
{
    lemma_level(nodes, links, t1, i);
    lemma_level(nodes, links, t2, i);
    let l1 = level_of(t1, i);
    let l2 = level_of(t2, i);
    let k1 = choose|k: int| 0 <= k < t1[l1].len() && t1[l1][k] == i;
    let k2 = choose|k: int| 0 <= k < t2[l2].len() && t2[l2][k] == i;
    if l2 > 0 {
        assert(fed_from_tier(nodes, links, t2, t2[l2][k2] as int, l2 - 1));
        let l = choose|l: int| link_into(nodes, links, l, i) && source_in_tier(nodes, links, t2, l, l2 - 1);
        let s = choose|s: int| 0 <= s < nodes.len() && nodes[s].name@ == links[l].from_node@ && in_tier(t2, l2 - 1, s);
        assert(link_into(nodes, links, l, t1[l1][k1] as int));
        assert(source_earlier(nodes, links, t1, l, l1));
        let e = choose|e: int| 0 <= e < l1 && source_in_tier(nodes, links, t1, l, e);
        let s2 = choose|s2: int| 0 <= s2 < nodes.len() && nodes[s2].name@ == links[l].from_node@ && in_tier(t1, e, s2);
        assert(s2 == s);
        lemma_level(nodes, links, t1, s);
        lemma_level(nodes, links, t2, s);
        lemma_levels_agree(nodes, links, t1, t2, s);
        assert(l2 <= l1);
    }
    if l1 > 0 {
        assert(fed_from_tier(nodes, links, t1, t1[l1][k1] as int, l1 - 1));
        let l = choose|l: int| link_into(nodes, links, l, i) && source_in_tier(nodes, links, t1, l, l1 - 1);
        let s = choose|s: int| 0 <= s < nodes.len() && nodes[s].name@ == links[l].from_node@ && in_tier(t1, l1 - 1, s);
        lemma_level(nodes, links, t1, s);
        lemma_level(nodes, links, t2, s);
        lemma_levels_agree(nodes, links, t1, t2, s);
        assert(link_into(nodes, links, l, t2[l2][k2] as int));
        assert(source_earlier(nodes, links, t2, l, l2));
        let e = choose|e: int| 0 <= e < l2 && source_in_tier(nodes, links, t2, l, e);
        let s2 = choose|s2: int| 0 <= s2 < nodes.len() && nodes[s2].name@ == links[l].from_node@ && in_tier(t2, e, s2);
        assert(s2 == s);
        assert(l1 <= l2);
    } else if l2 > 0 {
        assert(fed_from_tier(nodes, links, t2, t2[l2][k2] as int, l2 - 1));
        let l = choose|l: int| link_into(nodes, links, l, i) && source_in_tier(nodes, links, t2, l, l2 - 1);
        assert(link_into(nodes, links, l, t1[l1][k1] as int));
        assert(source_earlier(nodes, links, t1, l, l1));
    }
}

proof fn lemma_tier_pair(nodes: Seq<Node>, tier: Seq<usize>, i: int, j: int)
    requires
        sorted_by_name(nodes, tier),
        0 <= i < j < tier.len(),
    ensures
        lex_lt(nodes[tier[i] as int].name@, nodes[tier[j] as int].name@),
    decreases j - i,
{
    if j > i + 1 {
        lemma_tier_pair(nodes, tier, i, j - 1);
        assert(lex_lt(nodes[tier[j - 1] as int].name@, nodes[tier[j] as int].name@));
        lemma_lex_lt_transitive(nodes[tier[i] as int].name@, nodes[tier[j - 1] as int].name@, nodes[tier[j] as int].name@);
    }
}

proof fn lemma_tier_tail(nodes: Seq<Node>, a: Seq<usize>)
    requires
        sorted_by_name(nodes, a),
        a.len() > 0,
        forall|k: int| 0 <= k < a.len() ==> a[k] < nodes.len(),
    ensures
        sorted_by_name(nodes, a.drop_first()),
        forall|z: usize| a.drop_first().contains(z) <==> (a.contains(z) && z != a[0]),
{
    let a1 = a.drop_first();
    let x = nodes[a[0] as int].name@;
    assert forall|z: usize| a1.contains(z) <==> (a.contains(z) && z != a[0]) by {
        if a1.contains(z) {
            let k = choose|k: int| 0 <= k < a1.len() && a1[k] == z;
            assert(a[k + 1] == z);
            lemma_tier_pair(nodes, a, 0, k + 1);
            lemma_lex_lt_irreflexive(x);
        }
        if a.contains(z) && z != a[0] {
            let k = choose|k: int| 0 <= k < a.len() && a[k] == z;
            assert(a1[k - 1] == z);
        }
    }
    assert forall|k: int| 0 <= k && k + 1 < a1.len() implies lex_lt(nodes[#[trigger] a1[k] as int].name@, nodes[a1[k + 1] as int].name@) by {
        assert(a1[k] == a[k + 1] && a1[k + 1] == a[k + 2]);
    }
}

#[verifier::rlimit(100)]
proof fn lemma_same_tier(nodes: Seq<Node>, a: Seq<usize>, b: Seq<usize>)
    requires
        unique_node_names(nodes),
        sorted_by_name(nodes, a),
        sorted_by_name(nodes, b),
        forall|k: int| 0 <= k < a.len() ==> a[k] < nodes.len(),
        forall|k: int| 0 <= k < b.len() ==> b[k] < nodes.len(),
        forall|x: usize| a.contains(x) <==> b.contains(x),
    ensures
        a == b,
    decreases a.len(),
{
    if a.len() == 0 {
        if b.len() > 0 {
            assert(b.contains(b[0]));
        }
        assert(a =~= b);
    } else {
        assert(a.contains(a[0]));
        assert(b.len() > 0);
        assert(b.contains(b[0]));
        let j = choose|j: int| 0 <= j < b.len() && b[j] == a[0];
        let i = choose|i: int| 0 <= i < a.len() && a[i] == b[0];
        let x = nodes[a[0] as int].name@;
        let y = nodes[b[0] as int].name@;
        if j > 0 {
            lemma_tier_pair(nodes, b, 0, j);
            if i > 0 {
                lemma_tier_pair(nodes, a, 0, i);
                lemma_lex_lt_transitive(x, y, x);
            }
            lemma_lex_lt_irreflexive(x);
        }
        assert(a[0] == b[0]);
        let a1 = a.drop_first();
        let b1 = b.drop_first();
        lemma_tier_tail(nodes, a);
        lemma_tier_tail(nodes, b);
        assert forall|z: usize| a1.contains(z) <==> b1.contains(z) by {
            assert(a1.contains(z) == (a.contains(z) && z != a[0]));
            assert(b1.contains(z) == (b.contains(z) && z != b[0]));
        }
        assert forall|k: int| 0 <= k < a1.len() implies a1[k] < nodes.len() by {
            assert(a1[k] == a[k + 1]);
        }
        assert forall|k: int| 0 <= k < b1.len() implies b1[k] < nodes.len() by {
            assert(b1[k] == b[k + 1]);
        }
        lemma_same_tier(nodes, a1, b1);
        assert(a =~= seq![a[0]] + a1);
        assert(b =~= seq![b[0]] + b1);
    }
}

/// The layering is determined by the shader: two layerings of the same nodes
/// and links are identical, so repeated runs give the same tiers in the same
/// order.
pub proof fn lemma_layering_unique(nodes: Seq<Node>, links: Seq<Link>, t1: Seq<Seq<usize>>, t2: Seq<Seq<usize>>)
    requires
        unique_node_names(nodes),
        is_layering(nodes, links, t1),
        is_layering(nodes, links, t2),
    ensures
        t1 == t2,
{
    assert forall|t: int, x: usize| 0 <= t < t1.len() && #[trigger] t1[t].contains(x) implies t < t2.len() && t2[t].contains(x) by {
        let k = choose|k: int| 0 <= k < t1[t].len() && t1[t][k] == x;
        assert(in_tier(t1, t, x as int));
        lemma_level(nodes, links, t1, x as int);
        lemma_level(nodes, links, t2, x as int);
        lemma_levels_agree(nodes, links, t1, t2, x as int);
        let k2 = choose|k: int| 0 <= k < t2[t].len() && t2[t][k] == x;
        assert(t2[t].contains(t2[t][k2]));
    }
    assert forall|t: int, x: usize| 0 <= t < t2.len() && #[trigger] t2[t].contains(x) implies t < t1.len() && t1[t].contains(x) by {
        let k = choose|k: int| 0 <= k < t2[t].len() && t2[t][k] == x;
        assert(in_tier(t2, t, x as int));
        lemma_level(nodes, links, t1, x as int);
        lemma_level(nodes, links, t2, x as int);
        lemma_levels_agree(nodes, links, t1, t2, x as int);
        let k2 = choose|k: int| 0 <= k < t1[t].len() && t1[t][k] == x;
        assert(t1[t].contains(t1[t][k2]));
    }
    if t1.len() > t2.len() {
        let t = t2.len() as int;
        assert(t1[t].contains(t1[t][0]));
    }
    if t2.len() > t1.len() {
        let t = t1.len() as int;
        assert(t2[t].contains(t2[t][0]));
    }
    assert forall|t: int| 0 <= t < t1.len() implies t1[t] == t2[t] by {
        assert(sorted_by_name(nodes, t1[t]));
        assert(sorted_by_name(nodes, t2[t]));
        lemma_same_tier(nodes, t1[t], t2[t]);
    }
    assert(t1 =~= t2);
}

proof fn lemma_stuck_not_below(nodes: Seq<Node>, links: Seq<Link>, tiers: Seq<Seq<usize>>, stuck: Seq<usize>, t: int)
    requires
        is_layering(nodes, links, tiers),
        is_stall(nodes, links, stuck),
        0 <= t,
    ensures
        forall|q: int, u: int| 0 <= q < stuck.len() && 0 <= u < t ==> !#[trigger] in_tier(tiers, u, stuck[q] as int),
    decreases t,
{
    if t > 0 {
        lemma_stuck_not_below(nodes, links, tiers, stuck, t - 1);
        assert forall|q: int, u: int| 0 <= q < stuck.len() && 0 <= u < t implies !#[trigger] in_tier(tiers, u, stuck[q] as int) by {
            if u == t - 1 && in_tier(tiers, u, stuck[q] as int) {
                let x = stuck[q] as int;
                let k = choose|k: int| 0 <= k < tiers[u].len() && tiers[u][k] == x;
                assert(stuck_at(nodes, links, stuck, q));
                let l = choose|l: int| held_back(nodes, links, stuck, l, stuck[q] as int);
                assert(link_into(nodes, links, l, tiers[u][k] as int));
                assert(source_earlier(nodes, links, tiers, l, u));
                let e = choose|e: int| 0 <= e < u && source_in_tier(nodes, links, tiers, l, e);
                let s = choose|s: int| 0 <= s < nodes.len() && nodes[s].name@ == links[l].from_node@ && in_tier(tiers, e, s);
                assert(stuck.contains(s as usize));
                let q2 = choose|q2: int| 0 <= q2 < stuck.len() && stuck[q2] == s as usize;
                assert(!in_tier(tiers, e, stuck[q2] as int));
            }
        }
    }
}

/// A shader that has a layering has no stall: scheduling either succeeds or
/// stalls, never both.
pub proof fn lemma_layering_excludes_stall(nodes: Seq<Node>, links: Seq<Link>, tiers: Seq<Seq<usize>>, stuck: Seq<usize>)
    requires
        is_layering(nodes, links, tiers),
    ensures
        !is_stall(nodes, links, stuck),
{
    if is_stall(nodes, links, stuck) {
        lemma_stuck_not_below(nodes, links, tiers, stuck, tiers.len() as int);
        let x = stuck[0] as int;
        assert(scheduled(tiers, x));
        let t = choose|t: int| in_tier(tiers, t, x);
        assert(!in_tier(tiers, t, stuck[0] as int));
    }
}

/// Every link of `a` has a copy, field for field, in `b`.
pub open spec fn links_covered(a: Seq<Link>, b: Seq<Link>) -> bool {
    forall|l: int| 0 <= l < a.len() ==> exists|m: int| 0 <= m < b.len() && crate::graph::same_link(#[trigger] a[l], b[m])
}

proof fn lemma_layering_transfers(nodes: Seq<Node>, a: Seq<Link>, b: Seq<Link>, tiers: Seq<Seq<usize>>)
    requires
        is_layering(nodes, a, tiers),
        links_covered(a, b),
        links_covered(b, a),
    ensures
        is_layering(nodes, b, tiers),
{
    assert forall|t: int, k: int, m: int|
        0 <= t < tiers.len() && 0 <= k < tiers[t].len() && link_into(nodes, b, m, tiers[t][k] as int)
            implies source_earlier(nodes, b, tiers, m, t) by {
        let l = choose|l: int| 0 <= l < a.len() && crate::graph::same_link(b[m], a[l]);
        assert(link_into(nodes, a, l, tiers[t][k] as int));
        assert(source_earlier(nodes, a, tiers, l, t));
        let e = choose|e: int| 0 <= e < t && source_in_tier(nodes, a, tiers, l, e);
        let s = choose|s: int| 0 <= s < nodes.len() && nodes[s].name@ == a[l].from_node@ && in_tier(tiers, e, s);
        assert(source_in_tier(nodes, b, tiers, m, e));
    }
    assert forall|t: int, k: int|
        0 < t < tiers.len() && 0 <= k < tiers[t].len() implies fed_from_tier(nodes, b, tiers, #[trigger] tiers[t][k] as int, t - 1) by {
        assert(fed_from_tier(nodes, a, tiers, tiers[t][k] as int, t - 1));
        let l = choose|l: int| link_into(nodes, a, l, tiers[t][k] as int) && source_in_tier(nodes, a, tiers, l, t - 1);
        let m = choose|m: int| 0 <= m < b.len() && crate::graph::same_link(a[l], b[m]);
        let s = choose|s: int| 0 <= s < nodes.len() && nodes[s].name@ == a[l].from_node@ && in_tier(tiers, t - 1, s);
        assert(source_in_tier(nodes, b, tiers, m, t - 1));
        assert(link_into(nodes, b, m, tiers[t][k] as int));
    }
}

/// Reordering or repeating links does not change the layering: two link lists
/// holding the same links give the same tiers.
pub proof fn lemma_layering_ignores_link_order(nodes: Seq<Node>, a: Seq<Link>, b: Seq<Link>, ta: Seq<Seq<usize>>, tb: Seq<Seq<usize>>)
    requires
        unique_node_names(nodes),
        links_covered(a, b),
        links_covered(b, a),
        is_layering(nodes, a, ta),
        is_layering(nodes, b, tb),
    ensures
        ta == tb,
{
    lemma_layering_transfers(nodes, a, b, ta);
    lemma_layering_unique(nodes, b, ta, tb);
}

} // verus!
