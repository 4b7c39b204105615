use vstd::prelude::*;
use crate::graph::{GroupReference, GroupReferenceInput, Link, Material, Node, NodeInput, NodeKind, SimpleKind, names_unique, same_link};
use crate::merge::{Entity, conflict, has_name, insert_by_name, sorted_names};
use crate::graph::{Named, Shader};
use crate::order::{Ordering, compare_str, lex_lt};
use crate::text::str_eq;
use crate::value::{NodeInputValue, Vec3};

verus! {

/// Link `a` comes before link `b`: by source node, then target node, then
/// source socket, then target socket.
pub open spec fn link_lt(a: Link, b: Link) -> bool {
    lex_lt(a.from_node@, b.from_node@) || (a.from_node@ == b.from_node@ && (lex_lt(a.to_node@, b.to_node@) || (
    a.to_node@ == b.to_node@ && (lex_lt(a.from_socket@, b.from_socket@) || (a.from_socket@ == b.from_socket@
        && lex_lt(a.to_socket@, b.to_socket@))))))
}

pub open spec fn link_le(a: Link, b: Link) -> bool {
    link_lt(a, b) || same_link(a, b)
}

pub open spec fn sorted_links(s: Seq<Link>) -> bool {
    forall|k: int| 0 <= k && k + 1 < s.len() ==> link_le(#[trigger] s[k], s[k + 1])
}

fn compare_links(a: &Link, b: &Link) -> (r: Ordering)
    ensures
        r == Ordering::Less ==> link_lt(*a, *b),
        r == Ordering::Greater ==> link_lt(*b, *a),
        r == Ordering::Equal <==> same_link(*a, *b),
{
    let c = compare_str(a.from_node.as_str(), b.from_node.as_str());
    if c != Ordering::Equal {
        return c;
    }
    let c = compare_str(a.to_node.as_str(), b.to_node.as_str());
    if c != Ordering::Equal {
        return c;
    }
    let c = compare_str(a.from_socket.as_str(), b.from_socket.as_str());
    if c != Ordering::Equal {
        return c;
    }
    compare_str(a.to_socket.as_str(), b.to_socket.as_str())
}

fn insert_link(v: &mut Vec<Link>, x: Link)
    requires
        sorted_links(old(v)@),
    ensures
        sorted_links(final(v)@),
        final(v)@.len() == old(v)@.len() + 1,
        forall|y: Link| final(v)@.contains(y) <==> (old(v)@.contains(y) || y == x),
        final(v)@.to_multiset() == old(v)@.to_multiset().insert(x),
{
    let ghost t0 = v@;
    let mut p: usize = 0;
    let mut stop = false;
    while p < v.len() && !stop
        invariant
            v@ == t0,
            0 <= p <= t0.len(),
            forall|q: int| 0 <= q < p ==> link_le(t0[q], x),
            stop ==> p < t0.len() && link_lt(x, t0[p as int]),
        decreases t0.len() - p + if stop { 0int } else { 1int },
    {
        if compare_links(&v[p], &x) == Ordering::Greater {
            stop = true;
        } else {
            p = p + 1;
        }
    }
    v.insert(p, x);
    let ghost t1 = v@;
    assert(t1 == t0.insert(p as int, x));
    assert forall|y: Link| t1.contains(y) <==> (t0.contains(y) || y == x) by {
        if t1.contains(y) {
            let k = choose|k: int| 0 <= k < t1.len() && t1[k] == y;
            if k < p {
                assert(t0[k] == y);
            } else if k > p {
                assert(t0[k - 1] == y);
            }
        }
        if t0.contains(y) {
            let k = choose|k: int| 0 <= k < t0.len() && t0[k] == y;
            if k < p {
                assert(t1[k] == y);
            } else {
                assert(t1[k + 1] == y);
            }
        }
        if y == x {
            assert(t1[p as int] == y);
        }
    }
    assert forall|k: int| 0 <= k && k + 1 < t1.len() implies link_le(#[trigger] t1[k], t1[k + 1]) by {
        if k + 1 < p {
            assert(t1[k] == t0[k] && t1[k + 1] == t0[k + 1]);
        } else if k + 1 == p {
            assert(t1[k] == t0[k]);
        } else if k == p {
            assert(t1[k + 1] == t0[k]);
        } else {
            assert(t1[k] == t0[k - 1] && t1[k + 1] == t0[k]);
        }
    }
    proof {
        broadcast use vstd::seq_lib::group_to_multiset_ensures;
        assert(t1.remove(p as int) =~= t0);
        assert(t1.to_multiset().remove(x) == t0.to_multiset());
        assert(t1.to_multiset().count(x) > 0);
        assert(t1.to_multiset() =~= t0.to_multiset().insert(x));
    }
}

/// The links in order, each kept as often as it occurs.
pub fn sort_links(links: Vec<Link>) -> (r: Vec<Link>)
    ensures
        sorted_links(r@),
        r@.len() == links@.len(),
        forall|y: Link| r@.contains(y) <==> links@.contains(y),
        r@.to_multiset() == links@.to_multiset(),
{
    let ghost l0 = links@;
    let mut links = links;
    let mut r: Vec<Link> = Vec::new();
    proof {
        broadcast use vstd::seq_lib::group_to_multiset_ensures;
        vstd::multiset::lemma_multiset_empty_len(r@.to_multiset());
        assert(r@.to_multiset().add(links@.to_multiset()) =~= l0.to_multiset());
    }
    while links.len() > 0
        invariant
            links@ == l0.take(links@.len() as int),
            links@.len() <= l0.len(),
            sorted_links(r@),
            r@.len() + links@.len() == l0.len(),
            r@.to_multiset().add(links@.to_multiset()) == l0.to_multiset(),
            forall|y: Link| #[trigger] r@.contains(y) <==> exists|i: int| links@.len() <= i < l0.len() && l0[i] == y,
        decreases links@.len(),
    {
        let ghost n = links@.len() as int;
        let x = links.pop().unwrap();
        assert(x == l0[n - 1]);
        let ghost r0 = r@;
        let ghost lk = links@;
        proof {
            broadcast use vstd::seq_lib::group_to_multiset_ensures;
            assert(lk.push(x) =~= l0.take(n));
        }
        insert_link(&mut r, x);
        proof {
            broadcast use vstd::seq_lib::group_to_multiset_ensures;
            assert(r@.to_multiset().add(links@.to_multiset()) =~= l0.to_multiset());
            assert(links@ =~= l0.take(n - 1));
            assert forall|y: Link| #[trigger] r@.contains(y) <==> exists|i: int| n - 1 <= i < l0.len() && l0[i] == y by {
                if exists|i: int| n - 1 <= i < l0.len() && l0[i] == y {
                    let i = choose|i: int| n - 1 <= i < l0.len() && l0[i] == y;
                    if i >= n {
                        assert(exists|i: int| n <= i < l0.len() && l0[i] == y);
                    }
                }
            }
        }
    }
    proof {
        broadcast use vstd::seq_lib::group_to_multiset_ensures;
        vstd::multiset::lemma_multiset_empty_len(links@.to_multiset());
        assert(r@.to_multiset() =~= l0.to_multiset());
        assert forall|y: Link| r@.contains(y) <==> l0.contains(y) by {
            if l0.contains(y) {
                let i = choose|i: int| 0 <= i < l0.len() && l0[i] == y;
                assert(exists|i: int| 0 <= i < l0.len() && l0[i] == y);
            }
        }
    }
    r
}

/// The color nodes whose value the distiller clears.
pub open spec fn is_color_node_name(s: Seq<char>) -> bool {
    s == "RGB"@ || s == "RGB_GlowDark"@ || s == "RGB_Chip"@ || s == "RGB_White"@ || s == "RGB_Second"@
}

/// The groups whose call-site values the distiller clears.
pub open spec fn is_tinted_group(s: Seq<char>) -> bool {
    s == "PEARL-GROUP"@ || s == "PEARL-FLAT-GROUP"@ || s == "SATIN-GROUP"@
}

pub open spec fn is_zero(v: Vec3) -> bool {
    v.x@ == "0"@ && v.y@ == "0"@ && v.z@ == "0"@
}

pub open spec fn zero_color_kind(k: NodeKind) -> bool {
    match k {
        NodeKind::Color(v) => is_zero(v),
        _ => false,
    }
}

pub open spec fn zero_value_kind(k: NodeKind) -> bool {
    match k {
        NodeKind::Value(t) => t@ == "0"@,
        _ => false,
    }
}

pub open spec fn zero_float(v: Option<NodeInputValue>) -> bool {
    match v {
        Some(NodeInputValue::Float(t)) => t@ == "0"@,
        _ => false,
    }
}

pub open spec fn zero_color_value(v: NodeInputValue) -> bool {
    match v {
        NodeInputValue::Color(c) => is_zero(c),
        _ => false,
    }
}

fn zero() -> (r: Vec3)
    ensures
        is_zero(r),
{
    Vec3 { x: "0".to_owned(), y: "0".to_owned(), z: "0".to_owned() }
}

fn color_node_name(s: &str) -> (r: bool)
    ensures
        r == is_color_node_name(s@),
{
    str_eq(s, "RGB") || str_eq(s, "RGB_GlowDark") || str_eq(s, "RGB_Chip") || str_eq(s, "RGB_White") || str_eq(s, "RGB_Second")
}

fn tinted_group(s: &str) -> (r: bool)
    ensures
        r == is_tinted_group(s@),
{
    str_eq(s, "PEARL-GROUP") || str_eq(s, "PEARL-FLAT-GROUP") || str_eq(s, "SATIN-GROUP")
}

/// `after` is `before` with its color-bearing data cleared: the value of a
/// listed color node, every call-site value of a listed group, the value of
/// the `XOffset` value node and the `Color` input of an emission node.
pub open spec fn colorless(before: Node, after: Node) -> bool {
    &&& after.name@ == before.name@
    &&& match before.kind {
        NodeKind::Color(_) if is_color_node_name(before.name@) => after.inputs == before.inputs
            && zero_color_kind(after.kind),
        NodeKind::Group(r) if is_tinted_group(r.group_name@) => after.inputs == before.inputs && match after.kind {
            NodeKind::Group(r2) => r2.group_name@ == r.group_name@ && r2.outputs == r.outputs && r2.inputs@.len()
                == r.inputs@.len() && forall|k: int| 0 <= k < r.inputs@.len() ==> (#[trigger] r2.inputs@[k]).name@
                == r.inputs@[k].name@ && r2.inputs@[k].data_type == r.inputs@[k].data_type && zero_float(r2.inputs@[k].value),
            _ => false,
        },
        NodeKind::Value(_) if before.name@ == "XOffset"@ => after.inputs == before.inputs
            && zero_value_kind(after.kind),
        NodeKind::Simple(SimpleKind::Emission) => after.kind == before.kind && after.inputs@.len() == before.inputs@.len()
            && forall|k: int| 0 <= k < before.inputs@.len() ==> (#[trigger] after.inputs@[k]).name@ == before.inputs@[k].name@
            && if before.inputs@[k].name@ == "Color"@ {
                zero_color_value(after.inputs@[k].value)
            } else {
                after.inputs@[k].value == before.inputs@[k].value
            },
        _ => after == before,
    }
}

fn clear_call_values(r: &GroupReference) -> (out: Vec<GroupReferenceInput>)
    ensures
        out@.len() == r.inputs@.len(),
        forall|k: int| 0 <= k < r.inputs@.len() ==> (#[trigger] out@[k]).name@ == r.inputs@[k].name@
            && out@[k].data_type == r.inputs@[k].data_type && zero_float(out@[k].value),
{
    let mut out: Vec<GroupReferenceInput> = Vec::new();
    let mut k: usize = 0;
    while k < r.inputs.len()
        invariant
            0 <= k <= r.inputs@.len(),
            out@.len() == k,
            forall|q: int| 0 <= q < k ==> (#[trigger] out@[q]).name@ == r.inputs@[q].name@
                && out@[q].data_type == r.inputs@[q].data_type && zero_float(out@[q].value),
        decreases r.inputs@.len() - k,
    {
        out.push(GroupReferenceInput {
            name: r.inputs[k].name.clone(),
            data_type: r.inputs[k].data_type,
            value: Some(NodeInputValue::Float("0".to_owned())),
        });
        k = k + 1;
    }
    out
}

fn clear_emission_color(inputs: Vec<NodeInput>) -> (out: Vec<NodeInput>)
    ensures
        out@.len() == inputs@.len(),
        forall|k: int| 0 <= k < inputs@.len() ==> (#[trigger] out@[k]).name@ == inputs@[k].name@
            && if inputs@[k].name@ == "Color"@ {
                zero_color_value(out@[k].value)
            } else {
                out@[k].value == inputs@[k].value
            },
{
    let ghost i0 = inputs@;
    let mut src = inputs;
    let mut out: Vec<NodeInput> = Vec::new();
    while src.len() > 0
        invariant
            out@.len() + src@.len() == i0.len(),
            src@ == i0.skip(out@.len() as int),
            forall|k: int| 0 <= k < out@.len() ==> (#[trigger] out@[k]).name@ == i0[k].name@
                && if i0[k].name@ == "Color"@ {
                    zero_color_value(out@[k].value)
                } else {
                    out@[k].value == i0[k].value
                },
        decreases src@.len(),
    {
        let ghost m = out@.len() as int;
        let x = src.remove(0);
        assert(x == i0[m]);
        assert(src@ =~= i0.skip(m + 1));
        if str_eq(x.name.as_str(), "Color") {
            out.push(NodeInput { name: x.name, value: NodeInputValue::Color(zero()) });
        } else {
            out.push(x);
        }
    }
    out
}

/// Clears the color-bearing data of one node.
pub fn without_color_node(n: Node) -> (r: Node)
    ensures
        colorless(n, r),
{
    let is_color = color_node_name(n.name.as_str());
    let is_offset = str_eq(n.name.as_str(), "XOffset");
    let Node { name, kind, inputs } = n;
    match kind {
        NodeKind::Color(v) => {
            if is_color {
                Node { name, kind: NodeKind::Color(zero()), inputs }
            } else {
                Node { name, kind: NodeKind::Color(v), inputs }
            }
        },
        NodeKind::Group(r) => {
            if tinted_group(r.group_name.as_str()) {
                let cleared = clear_call_values(&r);
                let GroupReference { group_name, inputs: _, outputs } = r;
                Node { name, kind: NodeKind::Group(GroupReference { group_name, inputs: cleared, outputs }), inputs }
            } else {
                Node { name, kind: NodeKind::Group(r), inputs }
            }
        },
        NodeKind::Value(t) => {
            if is_offset {
                Node { name, kind: NodeKind::Value("0".to_owned()), inputs }
            } else {
                Node { name, kind: NodeKind::Value(t), inputs }
            }
        },
        NodeKind::Simple(SimpleKind::Emission) => {
            let cleared = clear_emission_color(inputs);
            Node { name, kind: NodeKind::Simple(SimpleKind::Emission), inputs: cleared }
        },
        other => Node { name, kind: other, inputs },
    }
}

/// Some node of `bn` from position `lo` on clears to `y`.
pub open spec fn source_from(bn: Seq<Node>, lo: int, y: Node) -> bool {
    exists|i: int| lo <= i < bn.len() && colorless(bn[i], y)
}

/// Some node of `an` is `x` cleared.
pub open spec fn image_in(an: Seq<Node>, x: Node) -> bool {
    exists|k: int| 0 <= k < an.len() && colorless(x, an[k])
}

/// `after` is `before` with its color-bearing data cleared, its name emptied,
/// its nodes sorted by name and its links sorted.
pub open spec fn material_colorless(before: Material, after: Material) -> bool {
    let bn = before.shader.nodes@;
    let an = after.shader.nodes@;
    &&& after.name@.len() == 0
    &&& after.heterogeneous_volume == before.heterogeneous_volume
    &&& after.use_local_tuning == before.use_local_tuning
    &&& after.use_mis == before.use_mis
    &&& after.use_transparent_shadow == before.use_transparent_shadow
    &&& after.diffuse_ao_factor == before.diffuse_ao_factor
    &&& after.glossy_ao_factor == before.glossy_ao_factor
    &&& after.subsurface_ao_factor == before.subsurface_ao_factor
    &&& after.subsurface_factor == before.subsurface_factor
    &&& after.transmission_ao_factor == before.transmission_ao_factor
    &&& sorted_names(an)
    &&& an.len() == bn.len()
    &&& forall|k: int| 0 <= k < an.len() ==> source_from(bn, 0, #[trigger] an[k])
    &&& forall|i: int| 0 <= i < bn.len() ==> image_in(an, #[trigger] bn[i])
    &&& sorted_links(after.shader.links@)
    &&& after.shader.links@.to_multiset() == before.shader.links@.to_multiset()
}

/// Clears a material's color-bearing data and puts its nodes and links in a
/// canonical order, so that two color variants become equal.
pub fn without_color(m: Material) -> (r: Material)
    requires
        names_unique(m.shader.nodes@),
    ensures
        material_colorless(m, r),
{
    let ghost m0 = m;
    let ghost n0 = m.shader.nodes@;
    let Material {
        name: _,
        heterogeneous_volume,
        use_local_tuning,
        use_mis,
        use_transparent_shadow,
        diffuse_ao_factor,
        glossy_ao_factor,
        subsurface_ao_factor,
        subsurface_factor,
        transmission_ao_factor,
        shader,
    } = m;
    let Shader { nodes, links } = shader;
    let mut src = nodes;
    let mut out: Vec<Node> = Vec::new();
    while src.len() > 0
        invariant
            names_unique(n0),
            src@ == n0.take(src@.len() as int),
            src@.len() <= n0.len(),
            out@.len() + src@.len() == n0.len(),
            sorted_names(out@),
            forall|k: int| 0 <= k < out@.len() ==> source_from(n0, src@.len() as int, #[trigger] out@[k]),
            forall|i: int| src@.len() <= i < n0.len() ==> image_in(out@, #[trigger] n0[i]),
        decreases src@.len(),
    {
        let ghost c = src@.len() as int;
        let x = src.pop().unwrap();
        assert(x == n0[c - 1]);
        let y = without_color_node(x);
        proof {
            if has_name(out@, y.name_view()) {
                let k = choose|k: int| 0 <= k < out@.len() && out@[k].name_view() == y.name_view();
                assert(source_from(n0, c, out@[k]));
                let i = choose|i: int| c <= i < n0.len() && colorless(n0[i], out@[k]);
                assert(n0[i].name_view() != n0[c - 1].name_view());
            }
        }
        let ghost o0 = out@;
        insert_by_name(&mut out, y);
        proof {
            assert(src@ =~= n0.take(c - 1));
            assert forall|k: int| 0 <= k < out@.len() implies source_from(n0, c - 1, #[trigger] out@[k]) by {
                assert(out@.contains(out@[k]));
                if out@[k] == y {
                    assert(colorless(n0[c - 1], out@[k]));
                    assert(c - 1 <= c - 1 < n0.len());
                } else {
                    assert(o0.contains(out@[k]));
                    let k0 = choose|k0: int| 0 <= k0 < o0.len() && o0[k0] == out@[k];
                    assert(source_from(n0, c, o0[k0]));
                    let i = choose|i: int| c <= i < n0.len() && colorless(n0[i], o0[k0]);
                    assert(colorless(n0[i], out@[k]));
                }
            }
            assert forall|i: int| c - 1 <= i < n0.len() implies image_in(out@, #[trigger] n0[i]) by {
                if i == c - 1 {
                    assert(out@.contains(y));
                    let k = choose|k: int| 0 <= k < out@.len() && out@[k] == y;
                    assert(colorless(n0[i], out@[k]));
                } else {
                    assert(image_in(o0, n0[i]));
                    let k0 = choose|k0: int| 0 <= k0 < o0.len() && colorless(n0[i], o0[k0]);
                    assert(o0.contains(o0[k0]));
                    assert(out@.contains(o0[k0]));
                    let k = choose|k: int| 0 <= k < out@.len() && out@[k] == o0[k0];
                    assert(colorless(n0[i], out@[k]));
                }
            }
        }
    }
    let sorted = sort_links(links);
    Material {
        name: String::new(),
        heterogeneous_volume,
        use_local_tuning,
        use_mis,
        use_transparent_shadow,
        diffuse_ao_factor,
        glossy_ao_factor,
        subsurface_ao_factor,
        subsurface_factor,
        transmission_ao_factor,
        shader: Shader { nodes: out, links: sorted },
    }
}

/// Each entry of `ns` is the matching material of `ms` with its color cleared.
pub open spec fn all_colorless(ms: Seq<Material>, ns: Seq<Material>) -> bool {
    ns.len() == ms.len() && forall|k: int| 0 <= k < ms.len() ==> material_colorless(#[trigger] ms[k], ns[k])
}

/// Entry `k` of `flags` says whether material `k` equals the probe once both
/// have their color cleared.
pub open spec fn variant_flags(flags: Seq<bool>, ns: Seq<Material>, probe: int) -> bool {
    flags.len() == ns.len() && forall|k: int| 0 <= k < ns.len() ==> #[trigger] flags[k] == ns[k].same_spec(&ns[probe])
}

/// Marks the materials that are color variants of the probe: equal to it once
/// the color-bearing data of both is cleared.
pub fn color_variants(materials: Vec<Material>, probe: usize) -> (r: Vec<bool>)
    requires
        probe < materials@.len(),
        forall|k: int| 0 <= k < materials@.len() ==> names_unique(#[trigger] materials@[k].shader.nodes@),
    ensures
        exists|ns: Seq<Material>| all_colorless(materials@, ns) && variant_flags(r@, ns, probe as int),
{
    let ghost m0 = materials@;
    let mut src = materials;
    let mut ns: Vec<Material> = Vec::new();
    while src.len() > 0
        invariant
            ns@.len() + src@.len() == m0.len(),
            src@ == m0.skip(ns@.len() as int),
            forall|k: int| 0 <= k < m0.len() ==> names_unique(#[trigger] m0[k].shader.nodes@),
            forall|k: int| 0 <= k < ns@.len() ==> material_colorless(#[trigger] m0[k], ns@[k]),
        decreases src@.len(),
    {
        let ghost c = ns@.len() as int;
        let x = src.remove(0);
        assert(x == m0[c]);
        assert(src@ =~= m0.skip(c + 1));
        let y = without_color(x);
        ns.push(y);
    }
    let mut flags: Vec<bool> = Vec::new();
    let mut k: usize = 0;
    while k < ns.len()
        invariant
            probe < ns@.len(),
            0 <= k <= ns@.len(),
            flags@.len() == k,
            forall|q: int| 0 <= q < k ==> #[trigger] flags@[q] == ns@[q].same_spec(&ns@[probe as int]),
        decreases ns@.len() - k,
    {
        flags.push(ns[k].same_as(&ns[probe]));
        k = k + 1;
    }
    assert(all_colorless(m0, ns@));
    assert(variant_flags(flags@, ns@, probe as int));
    flags
}

/// Merging compares materials as they are: two same-named materials that are
/// color variants of each other, equal once their color is cleared, still
/// conflict when they differ before clearing.
pub proof fn lemma_merge_ignores_color_clearing(
    a: Seq<Material>,
    b: Seq<Material>,
    i: int,
    j: int,
    na: Material,
    nb: Material,
)
    requires
        0 <= i < a.len(),
        0 <= j < b.len(),
        a[i].name@ == b[j].name@,
        material_colorless(a[i], na),
        material_colorless(b[j], nb),
        na.same_spec(&nb),
        !a[i].same_spec(&b[j]),
    ensures
        conflict(a + b),
{
    let c = a + b;
    assert(c[i] == a[i] && c[a.len() + j] == b[j]);
    assert(a[i].name_view() == b[j].name_view());
}

} // verus!
