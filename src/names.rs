use vstd::prelude::*;
use crate::graph::{Eyesight, Group, GroupReference, Link, Material, Node, NodeKind, Shader};
use crate::text::concat;

verus! {

/// heck's snake case of a string.
pub uninterp spec fn snake_case(s: Seq<char>) -> Seq<char>;

/// heck's title case of a string.
pub uninterp spec fn title_case(s: Seq<char>) -> Seq<char>;

/// heck's upper camel case of a string.
pub uninterp spec fn pascal_case(s: Seq<char>) -> Seq<char>;

/// heck's upper-case snake case of a string.
pub uninterp spec fn shouty_snake_case(s: Seq<char>) -> Seq<char>;

/// Every non-overlapping occurrence of `from`, taken left to right, replaced
/// by `to`, as `str::replace` does for a non-empty pattern.
pub open spec fn replaced(s: Seq<char>, from: Seq<char>, to: Seq<char>) -> Seq<char>
    decreases s.len(),
{
    if from.len() == 0 || s.len() == 0 {
        s
    } else if from.len() <= s.len() && s.take(from.len() as int) == from {
        to + replaced(s.skip(from.len() as int), from, to)
    } else {
        seq![s[0]] + replaced(s.drop_first(), from, to)
    }
}

/// Relies on heck's `ToSnakeCase::to_snake_case`, a function of the string alone.
#[verifier::external_body]
pub(crate) fn to_snake(s: &str) -> (r: String)
    ensures
        r@ == snake_case(s@),
{
    heck::ToSnakeCase::to_snake_case(s)
}

/// Relies on heck's `ToTitleCase::to_title_case`, a function of the string alone.
#[verifier::external_body]
fn to_title(s: &str) -> (r: String)
    ensures
        r@ == title_case(s@),
{
    heck::ToTitleCase::to_title_case(s)
}

/// Relies on heck's `ToPascalCase::to_pascal_case`, a function of the string alone.
#[verifier::external_body]
fn to_pascal(s: &str) -> (r: String)
    ensures
        r@ == pascal_case(s@),
{
    heck::ToPascalCase::to_pascal_case(s)
}

/// Relies on heck's `ToShoutySnakeCase::to_shouty_snake_case`, a function of the
/// string alone.
#[verifier::external_body]
fn to_shouty_snake(s: &str) -> (r: String)
    ensures
        r@ == shouty_snake_case(s@),
{
    heck::ToShoutySnakeCase::to_shouty_snake_case(s)
}

/// Replaces every non-overlapping occurrence of a non-empty `from`, left to
/// right, by `to`.
pub fn replace_all(s: &str, from: &str, to: &str) -> (r: String)
    requires
        from@.len() > 0,
    ensures
        r@ == replaced(s@, from@, to@),
{
    let n = s.unicode_len();
    let m = from.unicode_len();
    let mut out = String::new();
    let mut i: usize = 0;
    assert(s@.skip(0) =~= s@);
    while i < n
        invariant
            n == s@.len(),
            m == from@.len(),
            m > 0,
            i <= n,
            out@ + replaced(s@.skip(i as int), from@, to@) == replaced(s@, from@, to@),
        decreases n - i,
    {
        let ghost rest = s@.skip(i as int);
        if m <= n - i && starts_with_at(s, from, i) {
            assert(rest.take(m as int) =~= s@.subrange(i as int, i + m));
            assert(rest.skip(m as int) =~= s@.skip(i + m));
            out.append(to);
            assert(out@ + replaced(s@.skip(i + m), from@, to@) =~= replaced(s@, from@, to@));
            i = i + m;
        } else {
            proof {
                if m <= n - i {
                    assert(rest.take(m as int) =~= s@.subrange(i as int, i + m));
                }
            }
            let c = s.substring_char(i, i + 1);
            assert(c@ =~= seq![rest[0]]);
            assert(rest.drop_first() =~= s@.skip(i + 1));
            out.append(c);
            assert(out@ + replaced(s@.skip(i + 1), from@, to@) =~= replaced(s@, from@, to@));
            i = i + 1;
        }
    }
    assert(s@.skip(n as int).len() == 0);
    assert(out@ =~= replaced(s@, from@, to@));
    out
}

/// `s` with every leading repetition of `p` removed (`p` empty removes nothing).
pub open spec fn trim_start(s: Seq<char>, p: Seq<char>) -> Seq<char>
    decreases s.len(),
{
    if p.len() > 0 && p.len() <= s.len() && s.take(p.len() as int) == p {
        trim_start(s.skip(p.len() as int), p)
    } else {
        s
    }
}

/// `s` with every trailing repetition of `p` removed (`p` empty removes nothing).
pub open spec fn trim_end(s: Seq<char>, p: Seq<char>) -> Seq<char>
    decreases s.len(),
{
    if p.len() > 0 && p.len() <= s.len() && s.skip(s.len() - p.len()) == p {
        trim_end(s.take(s.len() - p.len()), p)
    } else {
        s
    }
}

pub(crate) fn starts_with_at(s: &str, p: &str, at: usize) -> (r: bool)
    requires
        at <= s@.len(),
    ensures
        r == (p@.len() <= s@.len() - at && s@.subrange(at as int, at + p@.len()) == p@),
{
    let n = s.unicode_len();
    let m = p.unicode_len();
    if m > n - at {
        return false;
    }
    let mut i: usize = 0;
    while i < m
        invariant
            n == s@.len(),
            m == p@.len(),
            at + m <= n,
            0 <= i <= m,
            s@.subrange(at as int, at + i) == p@.take(i as int),
        decreases m - i,
    {
        if s.get_char(at + i) != p.get_char(i) {
            assert(s@.subrange(at as int, at + m)[i as int] != p@[i as int]);
            return false;
        }
        assert(s@.subrange(at as int, at + i + 1) == s@.subrange(at as int, at + i).push(s@[at + i]));
        assert(p@.take(i + 1) == p@.take(i as int).push(p@[i as int]));
        i = i + 1;
    }
    assert(p@.take(m as int) == p@);
    true
}

/// `str::trim_start_matches` with a string pattern.
pub fn trim_start_matches(s: &str, p: &str) -> (r: String)
    ensures
        r@ == trim_start(s@, p@),
{
    let n = s.unicode_len();
    let m = p.unicode_len();
    if m == 0 {
        return s.to_owned();
    }
    let mut at: usize = 0;
    assert(s@.skip(0) == s@);
    while m <= n - at && starts_with_at(s, p, at)
        invariant
            n == s@.len(),
            m == p@.len(),
            m > 0,
            at <= n,
            trim_start(s@.skip(at as int), p@) == trim_start(s@, p@),
        decreases n - at,
    {
        assert(s@.skip(at as int).take(m as int) == s@.subrange(at as int, at + m));
        assert(s@.skip(at as int).skip(m as int) == s@.skip(at + m));
        at = at + m;
    }
    proof {
        if m <= n - at {
            assert(s@.skip(at as int).take(m as int) == s@.subrange(at as int, at + m));
        }
    }
    let rest = s.substring_char(at, n);
    assert(rest@ == s@.skip(at as int));
    rest.to_owned()
}

/// `str::trim_end_matches` with a string pattern.
pub fn trim_end_matches(s: &str, p: &str) -> (r: String)
    ensures
        r@ == trim_end(s@, p@),
{
    let n = s.unicode_len();
    let m = p.unicode_len();
    if m == 0 {
        return s.to_owned();
    }
    let mut end: usize = n;
    assert(s@.take(n as int) == s@);
    while end >= m && starts_with_at(s, p, end - m)
        invariant
            n == s@.len(),
            m == p@.len(),
            m > 0,
            end <= n,
            trim_end(s@.take(end as int), p@) == trim_end(s@, p@),
        decreases end,
    {
        assert(s@.take(end as int).skip(end - m) == s@.subrange(end - m, end as int));
        assert(s@.take(end as int).take(end - m) == s@.take(end - m));
        end = end - m;
    }
    proof {
        if m <= end {
            assert(s@.take(end as int).skip(end - m) == s@.subrange(end - m, end as int));
        }
    }
    let rest = s.substring_char(0, end);
    assert(rest@ == s@.take(end as int));
    rest.to_owned()
}

/// The tidied name of a node of a group: known misspellings corrected, the
/// group's name (as written, then in upper camel case) stripped from the
/// front, and the rest in snake case.
pub open spec fn beautified_node_name(name: Seq<char>, group: Seq<char>, pascal: Seq<char>) -> Seq<char> {
    let fixed = replaced(replaced(replaced(name, "Anitique"@, "Antique"@), "Anique"@, "Antique"@), "Ghrome"@, "Chrome"@);
    snake_case(trim_start(trim_start(fixed, group), pascal))
}

pub fn beautify_node_name(name: &mut String, original_group_name: &str, pascal_group_name: &str)
    ensures
        final(name)@ == beautified_node_name(old(name)@, original_group_name@, pascal_group_name@),
{
    proof {
        reveal_strlit("Anitique");
        reveal_strlit("Anique");
        reveal_strlit("Ghrome");
    }
    let a = replace_all(name.as_str(), "Anitique", "Antique");
    let b = replace_all(a.as_str(), "Anique", "Antique");
    let c = replace_all(b.as_str(), "Ghrome", "Chrome");
    let d = trim_start_matches(c.as_str(), original_group_name);
    let e = trim_start_matches(d.as_str(), pascal_group_name);
    *name = to_snake(e.as_str());
}

/// The tidied name of a group: a trailing `-GROUP`, then a trailing `Group`,
/// removed, and the rest in title case.
pub open spec fn beautified_group_name(name: Seq<char>) -> Seq<char> {
    title_case(trim_end(trim_end(name, "-GROUP"@), "Group"@))
}

pub fn beautify_group_name(name: &mut String)
    ensures
        final(name)@ == beautified_group_name(old(name)@),
{
    let a = trim_end_matches(name.as_str(), "-GROUP");
    let b = trim_end_matches(a.as_str(), "Group");
    *name = to_title(b.as_str());
}

/// The tidied name of a material: title case, with `Trans Trans` collapsed
/// and `Trans ` joined by a hyphen.
pub open spec fn beautified_material_name(name: Seq<char>) -> Seq<char> {
    replaced(replaced(title_case(name), "Trans Trans"@, "Trans"@), "Trans "@, "Trans-"@)
}

pub fn beautify_material_name(name: &mut String)
    ensures
        final(name)@ == beautified_material_name(old(name)@),
{
    let a = to_title(name.as_str());
    proof {
        reveal_strlit("Trans Trans");
        reveal_strlit("Trans ");
    }
    let b = replace_all(a.as_str(), "Trans Trans", "Trans");
    *name = replace_all(b.as_str(), "Trans ", "Trans-");
}

/// A group's name in upper camel case, as node names may begin with it.
pub fn pascal_name(name: &str) -> (r: String)
    ensures
        r@ == pascal_case(name@),
{
    to_pascal(name)
}

/// An enumerated setting as the target spells it: the variant's name in
/// upper-case snake case, in single quotes.
pub fn python_enum(variant: &str) -> (r: String)
    ensures
        r@ == "'"@ + shouty_snake_case(variant@) + "'"@,
{
    let s = to_shouty_snake(variant);
    let mut r = concat("'", s.as_str());
    r.append("'");
    r
}

/// `after` is the node kind `before` with a group call's group renamed.
pub open spec fn call_renamed(before: NodeKind, after: NodeKind) -> bool {
    match before {
        NodeKind::Group(r) => match after {
            NodeKind::Group(r2) => r2.group_name@ == beautified_group_name(r.group_name@) && r2.inputs == r.inputs
                && r2.outputs == r.outputs,
            _ => false,
        },
        _ => after == before,
    }
}

/// A node of group `g` (upper camel case `p`) after tidying: its name tidied,
/// a group call renamed, its inputs kept.
pub open spec fn node_renamed(before: Node, after: Node, g: Seq<char>, p: Seq<char>, rename_node: bool) -> bool {
    &&& after.name@ == (if rename_node { beautified_node_name(before.name@, g, p) } else { before.name@ })
    &&& call_renamed(before.kind, after.kind)
    &&& after.inputs == before.inputs
}

pub open spec fn link_renamed(before: Link, after: Link, g: Seq<char>, p: Seq<char>) -> bool {
    &&& after.from_node@ == beautified_node_name(before.from_node@, g, p)
    &&& after.to_node@ == beautified_node_name(before.to_node@, g, p)
    &&& after.from_socket == before.from_socket
    &&& after.to_socket == before.to_socket
}

fn rename_call(kind: NodeKind) -> (r: NodeKind)
    ensures
        call_renamed(kind, r),
{
    match kind {
        NodeKind::Group(r) => {
            let GroupReference { group_name, inputs, outputs } = r;
            let mut group_name = group_name;
            beautify_group_name(&mut group_name);
            NodeKind::Group(GroupReference { group_name, inputs, outputs })
        },
        other => other,
    }
}

fn rename_nodes(nodes: Vec<Node>, g: &str, p: &str, rename_node: bool) -> (r: Vec<Node>)
    ensures
        r@.len() == nodes@.len(),
        forall|k: int| 0 <= k < nodes@.len() ==> node_renamed(nodes@[k], #[trigger] r@[k], g@, p@, rename_node),
{
    let ghost n0 = nodes@;
    let mut src = nodes;
    let mut out: Vec<Node> = Vec::new();
    while src.len() > 0
        invariant
            out@.len() + src@.len() == n0.len(),
            src@ == n0.skip(out@.len() as int),
            forall|k: int| 0 <= k < out@.len() ==> node_renamed(n0[k], #[trigger] out@[k], g@, p@, rename_node),
        decreases src@.len(),
    {
        let ghost m = out@.len() as int;
        let x = src.remove(0);
        assert(x == n0[m]);
        assert(src@ =~= n0.skip(m + 1));
        let Node { name, kind, inputs } = x;
        let mut name = name;
        if rename_node {
            beautify_node_name(&mut name, g, p);
        }
        out.push(Node { name, kind: rename_call(kind), inputs });
    }
    out
}

fn rename_links(links: Vec<Link>, g: &str, p: &str) -> (r: Vec<Link>)
    ensures
        r@.len() == links@.len(),
        forall|k: int| 0 <= k < links@.len() ==> link_renamed(links@[k], #[trigger] r@[k], g@, p@),
{
    let ghost l0 = links@;
    let mut src = links;
    let mut out: Vec<Link> = Vec::new();
    while src.len() > 0
        invariant
            out@.len() + src@.len() == l0.len(),
            src@ == l0.skip(out@.len() as int),
            forall|k: int| 0 <= k < out@.len() ==> link_renamed(l0[k], #[trigger] out@[k], g@, p@),
        decreases src@.len(),
    {
        let ghost m = out@.len() as int;
        let x = src.remove(0);
        assert(x == l0[m]);
        assert(src@ =~= l0.skip(m + 1));
        let Link { from_node, to_node, from_socket, to_socket } = x;
        let mut from_node = from_node;
        let mut to_node = to_node;
        beautify_node_name(&mut from_node, g, p);
        beautify_node_name(&mut to_node, g, p);
        out.push(Link { from_node, to_node, from_socket, to_socket });
    }
    out
}

/// `after` is group `before` with its name, node names, link ends and group
/// calls tidied.
pub open spec fn group_renamed(before: Group, after: Group) -> bool {
    let p = pascal_case(before.name@);
    &&& after.name@ == beautified_group_name(before.name@)
    &&& after.shader.nodes@.len() == before.shader.nodes@.len()
    &&& forall|k: int| 0 <= k < before.shader.nodes@.len() ==> node_renamed(before.shader.nodes@[k], #[trigger] after.shader.nodes@[k], before.name@, p, true)
    &&& after.shader.links@.len() == before.shader.links@.len()
    &&& forall|k: int| 0 <= k < before.shader.links@.len() ==> link_renamed(before.shader.links@[k], #[trigger] after.shader.links@[k], before.name@, p)
}

/// `after` is material `before` with its name and group calls tidied.
pub open spec fn material_renamed(before: Material, after: Material) -> bool {
    &&& after.name@ == beautified_material_name(before.name@)
    &&& after.heterogeneous_volume == before.heterogeneous_volume
    &&& after.use_local_tuning == before.use_local_tuning
    &&& after.use_mis == before.use_mis
    &&& after.use_transparent_shadow == before.use_transparent_shadow
    &&& after.diffuse_ao_factor == before.diffuse_ao_factor
    &&& after.glossy_ao_factor == before.glossy_ao_factor
    &&& after.subsurface_ao_factor == before.subsurface_ao_factor
    &&& after.subsurface_factor == before.subsurface_factor
    &&& after.transmission_ao_factor == before.transmission_ao_factor
    &&& after.shader.nodes@.len() == before.shader.nodes@.len()
    &&& forall|k: int| 0 <= k < before.shader.nodes@.len() ==> node_renamed(before.shader.nodes@[k], #[trigger] after.shader.nodes@[k], seq![], seq![], false)
    &&& after.shader.links == before.shader.links
}

fn rename_group(g: Group) -> (r: Group)
    ensures
        group_renamed(g, r),
{
    let Group { name, shader } = g;
    let Shader { nodes, links } = shader;
    let pascal = to_pascal(name.as_str());
    let nodes = rename_nodes(nodes, name.as_str(), pascal.as_str(), true);
    let links = rename_links(links, name.as_str(), pascal.as_str());
    let mut name = name;
    beautify_group_name(&mut name);
    Group { name, shader: Shader { nodes, links } }
}

fn rename_material(m: Material) -> (r: Material)
    ensures
        material_renamed(m, r),
{
    let Material {
        name,
        heterogeneous_volume,
        use_local_tuning,
        use_mis,
        use_transparent_shadow,
        diffuse_ao_factor,
        glossy_ao_factor,
        subsurface_ao_factor,
        subsurface_factor,
        transmission_ao_factor,
        shader,
    } = m;
    let Shader { nodes, links } = shader;
    let nodes = rename_nodes(nodes, "", "", false);
    proof {
        reveal_strlit("");
    }
    let mut name = name;
    beautify_material_name(&mut name);
    Material {
        name,
        heterogeneous_volume,
        use_local_tuning,
        use_mis,
        use_transparent_shadow,
        diffuse_ao_factor,
        glossy_ao_factor,
        subsurface_ao_factor,
        subsurface_factor,
        transmission_ao_factor,
        shader: Shader { nodes, links },
    }
}

/// Tidies every name of a document: each group's name, its nodes' names and
/// its links' ends (with the group's own name stripped from their front), the
/// group named at every call, and each material's name.
pub fn beautify_names(doc: &mut Eyesight)
    ensures
        final(doc).groups@.len() == old(doc).groups@.len(),
        forall|k: int| 0 <= k < old(doc).groups@.len() ==> group_renamed(old(doc).groups@[k], #[trigger] final(doc).groups@[k]),
        final(doc).materials@.len() == old(doc).materials@.len(),
        forall|k: int| 0 <= k < old(doc).materials@.len() ==> material_renamed(old(doc).materials@[k], #[trigger] final(doc).materials@[k]),
{
    let mut taken = Eyesight { materials: Vec::new(), groups: Vec::new() };
    std::mem::swap(doc, &mut taken);
    let Eyesight { materials, groups } = taken;
    let ghost g0 = groups@;
    let mut src = groups;
    let mut new_groups: Vec<Group> = Vec::new();
    while src.len() > 0
        invariant
            new_groups@.len() + src@.len() == g0.len(),
            src@ == g0.skip(new_groups@.len() as int),
            forall|k: int| 0 <= k < new_groups@.len() ==> group_renamed(g0[k], #[trigger] new_groups@[k]),
        decreases src@.len(),
    {
        let ghost m = new_groups@.len() as int;
        let x = src.remove(0);
        assert(x == g0[m]);
        assert(src@ =~= g0.skip(m + 1));
        new_groups.push(rename_group(x));
    }
    let ghost m0 = materials@;
    let mut src = materials;
    let mut new_materials: Vec<Material> = Vec::new();
    while src.len() > 0
        invariant
            new_materials@.len() + src@.len() == m0.len(),
            src@ == m0.skip(new_materials@.len() as int),
            forall|k: int| 0 <= k < new_materials@.len() ==> material_renamed(m0[k], #[trigger] new_materials@[k]),
        decreases src@.len(),
    {
        let ghost m = new_materials@.len() as int;
        let x = src.remove(0);
        assert(x == m0[m]);
        assert(src@ =~= m0.skip(m + 1));
        new_materials.push(rename_material(x));
    }
    *doc = Eyesight { materials: new_materials, groups: new_groups };
}

} // verus!
