use vstd::prelude::*;
use crate::graph::{
    Eyesight, Group, ImageTexture, GroupReference, GroupReferenceInput, GroupReferenceOutput, Link, Material, Named, Node,
    NodeInput, NodeKind, Shader, TexMapping, names_unique, same_link,
};
use crate::order::{Ordering, compare_str, lex_lt, lemma_lex_lt_irreflexive, lemma_lex_lt_transitive};
use crate::value::{NodeInputValue, Vec3, same_value, same_vec3};

verus! {

pub open spec fn same_input(a: NodeInput, b: NodeInput) -> bool {
    a.name@ == b.name@ && same_value(a.value, b.value)
}

fn input_eq(a: &NodeInput, b: &NodeInput) -> (r: bool)
    ensures
        r == same_input(*a, *b),
{
    a.name == b.name && a.value.same_as(&b.value)
}

pub open spec fn same_optional_value(a: Option<NodeInputValue>, b: Option<NodeInputValue>) -> bool {
    match (a, b) {
        (None, None) => true,
        (Some(x), Some(y)) => same_value(x, y),
        _ => false,
    }
}

pub open spec fn same_call_input(a: GroupReferenceInput, b: GroupReferenceInput) -> bool {
    a.name@ == b.name@ && a.data_type == b.data_type && same_optional_value(a.value, b.value)
}

fn call_input_eq(a: &GroupReferenceInput, b: &GroupReferenceInput) -> (r: bool)
    ensures
        r == same_call_input(*a, *b),
{
    let values = match (&a.value, &b.value) {
        (None, None) => true,
        (Some(x), Some(y)) => x.same_as(y),
        _ => false,
    };
    a.name == b.name && a.data_type == b.data_type && values
}

pub open spec fn same_call_output(a: GroupReferenceOutput, b: GroupReferenceOutput) -> bool {
    a.name@ == b.name@ && a.data_type == b.data_type
}

fn call_output_eq(a: &GroupReferenceOutput, b: &GroupReferenceOutput) -> (r: bool)
    ensures
        r == same_call_output(*a, *b),
{
    a.name == b.name && a.data_type == b.data_type
}

fn link_eq(a: &Link, b: &Link) -> (r: bool)
    ensures
        r == same_link(*a, *b),
{
    a.same_as(b)
}

pub open spec fn same_inputs(a: Seq<NodeInput>, b: Seq<NodeInput>) -> bool {
    a.len() == b.len() && forall|i: int| 0 <= i < a.len() ==> #[trigger] same_input(a[i], b[i])
}

fn same_inputs_exec(a: &Vec<NodeInput>, b: &Vec<NodeInput>) -> (r: bool)
    ensures
        r == same_inputs(a@, b@),
{
    if a.len() != b.len() {
        return false;
    }
    let mut i: usize = 0;
    while i < a.len()
        invariant
            a@.len() == b@.len(),
            0 <= i <= a@.len(),
            forall|k: int| 0 <= k < i ==> #[trigger] same_input(a@[k], b@[k]),
        decreases a@.len() - i,
    {
        if !input_eq(&a[i], &b[i]) {
            return false;
        }
        i = i + 1;
    }
    true
}
pub open spec fn same_call_inputs(a: Seq<GroupReferenceInput>, b: Seq<GroupReferenceInput>) -> bool {
    a.len() == b.len() && forall|i: int| 0 <= i < a.len() ==> #[trigger] same_call_input(a[i], b[i])
}

fn same_call_inputs_exec(a: &Vec<GroupReferenceInput>, b: &Vec<GroupReferenceInput>) -> (r: bool)
    ensures
        r == same_call_inputs(a@, b@),
{
    if a.len() != b.len() {
        return false;
    }
    let mut i: usize = 0;
    while i < a.len()
        invariant
            a@.len() == b@.len(),
            0 <= i <= a@.len(),
            forall|k: int| 0 <= k < i ==> #[trigger] same_call_input(a@[k], b@[k]),
        decreases a@.len() - i,
    {
        if !call_input_eq(&a[i], &b[i]) {
            return false;
        }
        i = i + 1;
    }
    true
}
pub open spec fn same_call_outputs(a: Seq<GroupReferenceOutput>, b: Seq<GroupReferenceOutput>) -> bool {
    a.len() == b.len() && forall|i: int| 0 <= i < a.len() ==> #[trigger] same_call_output(a[i], b[i])
}

fn same_call_outputs_exec(a: &Vec<GroupReferenceOutput>, b: &Vec<GroupReferenceOutput>) -> (r: bool)
    ensures
        r == same_call_outputs(a@, b@),
{
    if a.len() != b.len() {
        return false;
    }
    let mut i: usize = 0;
    while i < a.len()
        invariant
            a@.len() == b@.len(),
            0 <= i <= a@.len(),
            forall|k: int| 0 <= k < i ==> #[trigger] same_call_output(a@[k], b@[k]),
        decreases a@.len() - i,
    {
        if !call_output_eq(&a[i], &b[i]) {
            return false;
        }
        i = i + 1;
    }
    true
}
pub open spec fn same_links(a: Seq<Link>, b: Seq<Link>) -> bool {
    a.len() == b.len() && forall|i: int| 0 <= i < a.len() ==> #[trigger] same_link(a[i], b[i])
}

fn same_links_exec(a: &Vec<Link>, b: &Vec<Link>) -> (r: bool)
    ensures
        r == same_links(a@, b@),
{
    if a.len() != b.len() {
        return false;
    }
    let mut i: usize = 0;
    while i < a.len()
        invariant
            a@.len() == b@.len(),
            0 <= i <= a@.len(),
            forall|k: int| 0 <= k < i ==> #[trigger] same_link(a@[k], b@[k]),
        decreases a@.len() - i,
    {
        if !link_eq(&a[i], &b[i]) {
            return false;
        }
        i = i + 1;
    }
    true
}

pub open spec fn same_reference(a: GroupReference, b: GroupReference) -> bool {
    a.group_name@ == b.group_name@ && same_call_inputs(a.inputs@, b.inputs@) && same_call_outputs(a.outputs@, b.outputs@)
}

pub open spec fn same_text(a: Option<String>, b: Option<String>) -> bool {
    match (a, b) {
        (None, None) => true,
        (Some(x), Some(y)) => x@ == y@,
        _ => false,
    }
}

fn text_eq(a: &Option<String>, b: &Option<String>) -> (r: bool)
    ensures
        r == same_text(*a, *b),
{
    match (a, b) {
        (None, None) => true,
        (Some(x), Some(y)) => *x == *y,
        _ => false,
    }
}

pub open spec fn same_tex_mapping(a: TexMapping, b: TexMapping) -> bool {
    same_vec3(a.rotation, b.rotation) && same_vec3(a.scale, b.scale) && same_vec3(a.translation, b.translation)
        && a.mapping_type == b.mapping_type && a.x_mapping == b.x_mapping && a.y_mapping == b.y_mapping
        && a.z_mapping == b.z_mapping && a.use_minmax == b.use_minmax
}

fn tex_mapping_eq(a: &TexMapping, b: &TexMapping) -> (r: bool)
    ensures
        r == same_tex_mapping(*a, *b),
{
    a.rotation.same_as(&b.rotation) && a.scale.same_as(&b.scale) && a.translation.same_as(&b.translation)
        && a.mapping_type == b.mapping_type && a.x_mapping == b.x_mapping && a.y_mapping == b.y_mapping
        && a.z_mapping == b.z_mapping && a.use_minmax == b.use_minmax
}

pub open spec fn same_image(a: ImageTexture, b: ImageTexture) -> bool {
    a.color_space == b.color_space && a.extension == b.extension && same_text(a.filename, b.filename)
        && a.interpolation == b.interpolation && a.max_mip_lvl == b.max_mip_lvl && a.projection == b.projection
        && same_tex_mapping(a.tex_mapping, b.tex_mapping) && a.texel_per_pixel@ == b.texel_per_pixel@
}

fn image_eq(a: &ImageTexture, b: &ImageTexture) -> (r: bool)
    ensures
        r == same_image(*a, *b),
{
    a.color_space == b.color_space && a.extension == b.extension && text_eq(&a.filename, &b.filename)
        && a.interpolation == b.interpolation && a.max_mip_lvl == b.max_mip_lvl && a.projection == b.projection
        && tex_mapping_eq(&a.tex_mapping, &b.tex_mapping) && a.texel_per_pixel == b.texel_per_pixel
}

pub open spec fn same_kind(a: NodeKind, b: NodeKind) -> bool {
    match (a, b) {
        (NodeKind::Group(x), NodeKind::Group(y)) => same_reference(x, y),
        (NodeKind::Simple(x), NodeKind::Simple(y)) => x == y,
        (NodeKind::Color(x), NodeKind::Color(y)) => same_vec3(x, y),
        (NodeKind::Value(x), NodeKind::Value(y)) => x@ == y@,
        (NodeKind::Vector(x), NodeKind::Vector(y)) => same_vec3(x, y),
        (NodeKind::NoiseTexture(x), NodeKind::NoiseTexture(y)) => same_tex_mapping(x, y),
        (NodeKind::Mapping(x), NodeKind::Mapping(y)) => same_tex_mapping(x, y),
        (NodeKind::ImageTexture(x), NodeKind::ImageTexture(y)) => same_image(x, y),
        (
            NodeKind::RgbRamp { interpolate: i1, ramp: r1, ramp_alpha: a1 },
            NodeKind::RgbRamp { interpolate: i2, ramp: r2, ramp_alpha: a2 },
        ) => i1 == i2 && r1@ == r2@ && a1@ == a2@,
        (
            NodeKind::RgbCurves { curves: c1, min_x: l1, max_x: h1 },
            NodeKind::RgbCurves { curves: c2, min_x: l2, max_x: h2 },
        ) => c1@ == c2@ && l1@ == l2@ && h1@ == h2@,
        (NodeKind::NormalMap { attribute: a1, space: s1 }, NodeKind::NormalMap { attribute: a2, space: s2 }) => a1@
            == a2@ && s1 == s2,
        (NodeKind::Uvmap { attribute: a1, from_dupli: d1 }, NodeKind::Uvmap { attribute: a2, from_dupli: d2 }) => a1@
            == a2@ && d1 == d2,
        _ => false,
    }
}

fn kind_eq(a: &NodeKind, b: &NodeKind) -> (r: bool)
    ensures
        r == same_kind(*a, *b),
{
    match (a, b) {
        (NodeKind::Group(x), NodeKind::Group(y)) => x.group_name == y.group_name && same_call_inputs_exec(&x.inputs, &y.inputs)
            && same_call_outputs_exec(&x.outputs, &y.outputs),
        (NodeKind::Simple(x), NodeKind::Simple(y)) => *x == *y,
        (NodeKind::Color(x), NodeKind::Color(y)) => x.same_as(y),
        (NodeKind::Value(x), NodeKind::Value(y)) => *x == *y,
        (NodeKind::Vector(x), NodeKind::Vector(y)) => x.same_as(y),
        (NodeKind::NoiseTexture(x), NodeKind::NoiseTexture(y)) => tex_mapping_eq(x, y),
        (NodeKind::Mapping(x), NodeKind::Mapping(y)) => tex_mapping_eq(x, y),
        (NodeKind::ImageTexture(x), NodeKind::ImageTexture(y)) => image_eq(x, y),
        (
            NodeKind::RgbRamp { interpolate: i1, ramp: r1, ramp_alpha: a1 },
            NodeKind::RgbRamp { interpolate: i2, ramp: r2, ramp_alpha: a2 },
        ) => *i1 == *i2 && *r1 == *r2 && *a1 == *a2,
        (
            NodeKind::RgbCurves { curves: c1, min_x: l1, max_x: h1 },
            NodeKind::RgbCurves { curves: c2, min_x: l2, max_x: h2 },
        ) => *c1 == *c2 && *l1 == *l2 && *h1 == *h2,
        (NodeKind::NormalMap { attribute: a1, space: s1 }, NodeKind::NormalMap { attribute: a2, space: s2 }) => *a1
            == *a2 && *s1 == *s2,
        (NodeKind::Uvmap { attribute: a1, from_dupli: d1 }, NodeKind::Uvmap { attribute: a2, from_dupli: d2 }) => *a1
            == *a2 && *d1 == *d2,
        _ => false,
    }
}

pub open spec fn same_node(a: Node, b: Node) -> bool {
    a.name@ == b.name@ && same_kind(a.kind, b.kind) && same_inputs(a.inputs@, b.inputs@)
}

fn node_eq(a: &Node, b: &Node) -> (r: bool)
    ensures
        r == same_node(*a, *b),
{
    a.name == b.name && kind_eq(&a.kind, &b.kind) && same_inputs_exec(&a.inputs, &b.inputs)
}

pub open spec fn same_nodes(a: Seq<Node>, b: Seq<Node>) -> bool {
    a.len() == b.len() && forall|i: int| 0 <= i < a.len() ==> #[trigger] same_node(a[i], b[i])
}

fn same_nodes_exec(a: &Vec<Node>, b: &Vec<Node>) -> (r: bool)
    ensures
        r == same_nodes(a@, b@),
{
    if a.len() != b.len() {
        return false;
    }
    let mut i: usize = 0;
    while i < a.len()
        invariant
            a@.len() == b@.len(),
            0 <= i <= a@.len(),
            forall|k: int| 0 <= k < i ==> #[trigger] same_node(a@[k], b@[k]),
        decreases a@.len() - i,
    {
        if !node_eq(&a[i], &b[i]) {
            return false;
        }
        i = i + 1;
    }
    true
}

pub open spec fn same_shader(a: Shader, b: Shader) -> bool {
    same_nodes(a.nodes@, b.nodes@) && same_links(a.links@, b.links@)
}

fn shader_eq(a: &Shader, b: &Shader) -> (r: bool)
    ensures
        r == same_shader(*a, *b),
{
    same_nodes_exec(&a.nodes, &b.nodes) && same_links_exec(&a.links, &b.links)
}

/// Entities that a document holds by name and that can be compared field by
/// field.
pub trait Entity: Named {
    spec fn same_spec(&self, o: &Self) -> bool;

    fn same_as(&self, o: &Self) -> (r: bool)
        ensures
            r == self.same_spec(o),
    ;

    /// Every entity is structurally equal to itself.
    proof fn lemma_same_reflexive(&self)
        ensures
            self.same_spec(self),
    ;

    /// Structural equality does not depend on the order of comparison.
    proof fn lemma_same_symmetric(&self, o: &Self)
        requires
            self.same_spec(o),
        ensures
            o.same_spec(self),
    ;
}

proof fn lemma_value_same(a: NodeInputValue, b: NodeInputValue)
    ensures
        same_value(a, a),
        same_value(a, b) ==> same_value(b, a),
{
    match a {
        NodeInputValue::Float(_) => {},
        NodeInputValue::Vector(_) => {},
        NodeInputValue::Int(_) => {},
        NodeInputValue::Color(_) => {},
        NodeInputValue::Boolean(_) => {},
    }
}

proof fn lemma_kind_same(a: NodeKind, b: NodeKind)
    ensures
        same_kind(a, a),
        same_kind(a, b) ==> same_kind(b, a),
{
    match a {
        NodeKind::Group(r) => {
            assert forall|i: int| 0 <= i < r.inputs@.len() implies #[trigger] same_call_input(r.inputs@[i], r.inputs@[i]) by {
                match r.inputs@[i].value {
                    Some(v) => lemma_value_same(v, v),
                    None => {},
                }
            }
            if let NodeKind::Group(r2) = b {
                if same_kind(a, b) {
                    assert forall|i: int| 0 <= i < r2.inputs@.len() implies #[trigger] same_call_input(r2.inputs@[i], r.inputs@[i]) by {
                        assert(same_call_input(r.inputs@[i], r2.inputs@[i]));
                        match (r.inputs@[i].value, r2.inputs@[i].value) {
                            (Some(v), Some(w)) => lemma_value_same(v, w),
                            _ => {},
                        }
                    }
                    assert forall|i: int| 0 <= i < r2.outputs@.len() implies #[trigger] same_call_output(r2.outputs@[i], r.outputs@[i]) by {
                        assert(same_call_output(r.outputs@[i], r2.outputs@[i]));
                    }
                }
            }
        },
        _ => {},
    }
}

proof fn lemma_nodes_same(a: Seq<Node>, b: Seq<Node>)
    ensures
        same_nodes(a, a),
        same_nodes(a, b) ==> same_nodes(b, a),
{
    assert forall|i: int| 0 <= i < a.len() implies #[trigger] same_node(a[i], a[i]) by {
        lemma_kind_same(a[i].kind, a[i].kind);
        assert forall|k: int| 0 <= k < a[i].inputs@.len() implies #[trigger] same_input(a[i].inputs@[k], a[i].inputs@[k]) by {
            lemma_value_same(a[i].inputs@[k].value, a[i].inputs@[k].value);
        }
    }
    if same_nodes(a, b) {
        assert forall|i: int| 0 <= i < b.len() implies #[trigger] same_node(b[i], a[i]) by {
            assert(same_node(a[i], b[i]));
            lemma_kind_same(a[i].kind, b[i].kind);
            assert forall|k: int| 0 <= k < b[i].inputs@.len() implies #[trigger] same_input(b[i].inputs@[k], a[i].inputs@[k]) by {
                assert(same_input(a[i].inputs@[k], b[i].inputs@[k]));
                lemma_value_same(a[i].inputs@[k].value, b[i].inputs@[k].value);
            }
        }
    }
}

proof fn lemma_shader_same(a: Shader, b: Shader)
    ensures
        same_shader(a, a),
        same_shader(a, b) ==> same_shader(b, a),
{
    lemma_nodes_same(a.nodes@, b.nodes@);
    if same_shader(a, b) {
        assert forall|i: int| 0 <= i < b.links@.len() implies #[trigger] same_link(b.links@[i], a.links@[i]) by {
            assert(same_link(a.links@[i], b.links@[i]));
        }
    }
}

/// Merging a document with itself succeeds: no two of its same-named
/// entities differ.
pub proof fn lemma_merge_self_succeeds<T: Entity>(a: Seq<T>)
    requires
        names_unique(a),
    ensures
        !conflict(a + a),
{
    let c = a + a;
    assert forall|i: int, j: int| 0 <= i < j < c.len() && c[i].name_view() == c[j].name_view() implies c[i].same_spec(&c[j]) by {
        let i0 = if i < a.len() { i } else { i - a.len() };
        let j0 = if j < a.len() { j } else { j - a.len() };
        assert(c[i] == a[i0] && c[j] == a[j0]);
        assert(i0 == j0);
        a[i0].lemma_same_reflexive();
    }
}

impl Entity for Group {
    open spec fn same_spec(&self, o: &Self) -> bool {
        self.name@ == o.name@ && same_shader(self.shader, o.shader)
    }

    fn same_as(&self, o: &Self) -> (r: bool) {
        self.name == o.name && shader_eq(&self.shader, &o.shader)
    }

    proof fn lemma_same_reflexive(&self) {
        lemma_shader_same(self.shader, self.shader);
    }

    proof fn lemma_same_symmetric(&self, o: &Self) {
        lemma_shader_same(self.shader, o.shader);
    }
}

impl Entity for Material {
    open spec fn same_spec(&self, o: &Self) -> bool {
        self.name@ == o.name@ && self.heterogeneous_volume == o.heterogeneous_volume && self.use_local_tuning
            == o.use_local_tuning && self.use_mis == o.use_mis && self.use_transparent_shadow
            == o.use_transparent_shadow && same_text(self.diffuse_ao_factor, o.diffuse_ao_factor) && same_text(
            self.glossy_ao_factor,
            o.glossy_ao_factor,
        ) && same_text(self.subsurface_ao_factor, o.subsurface_ao_factor) && same_text(
            self.subsurface_factor,
            o.subsurface_factor,
        ) && same_text(self.transmission_ao_factor, o.transmission_ao_factor) && same_shader(self.shader, o.shader)
    }

    fn same_as(&self, o: &Self) -> (r: bool) {
        self.name == o.name && self.heterogeneous_volume == o.heterogeneous_volume && self.use_local_tuning
            == o.use_local_tuning && self.use_mis == o.use_mis && self.use_transparent_shadow
            == o.use_transparent_shadow && text_eq(&self.diffuse_ao_factor, &o.diffuse_ao_factor) && text_eq(
            &self.glossy_ao_factor,
            &o.glossy_ao_factor,
        ) && text_eq(&self.subsurface_ao_factor, &o.subsurface_ao_factor) && text_eq(
            &self.subsurface_factor,
            &o.subsurface_factor,
        ) && text_eq(&self.transmission_ao_factor, &o.transmission_ao_factor) && shader_eq(&self.shader, &o.shader)
    }

    proof fn lemma_same_reflexive(&self) {
        lemma_shader_same(self.shader, self.shader);
    }

    proof fn lemma_same_symmetric(&self, o: &Self) {
        lemma_shader_same(self.shader, o.shader);
    }
}

/// Consecutive items come in strictly increasing order of name.
pub open spec fn sorted_names<T: Named>(s: Seq<T>) -> bool {
    forall|k: int| 0 <= k && k + 1 < s.len() ==> lex_lt((#[trigger] s[k]).name_view(), s[k + 1].name_view())
}

/// Some item of `s` has that name.
pub open spec fn has_name<T: Named>(s: Seq<T>, n: Seq<char>) -> bool {
    exists|i: int| 0 <= i < s.len() && s[i].name_view() == n
}

/// Two of the entities hold one name but differ.
pub open spec fn conflict<T: Entity>(c: Seq<T>) -> bool {
    exists|i: int, j: int| 0 <= i < j < c.len() && c[i].name_view() == c[j].name_view() && !c[i].same_spec(&c[j])
}

/// `v` is a merge of `a` and `b`: sorted by name, each name once, every name
/// of either input present, every entry an entity of one of them.
pub open spec fn merged<T: Entity>(a: Seq<T>, b: Seq<T>, v: Seq<T>) -> bool {
    &&& sorted_names(v)
    &&& names_unique(v)
    &&& forall|i: int| 0 <= i < (a + b).len() ==> has_name(v, #[trigger] (a + b)[i].name_view())
    &&& forall|k: int| 0 <= k < v.len() ==> (a + b).contains(#[trigger] v[k])
}

proof fn lemma_sorted_pair<T: Named>(s: Seq<T>, i: int, j: int)
    requires
        sorted_names(s),
        0 <= i < j < s.len(),
    ensures
        lex_lt(s[i].name_view(), s[j].name_view()),
    decreases j - i,
{
    if j > i + 1 {
        lemma_sorted_pair(s, i, j - 1);
        assert(lex_lt(s[j - 1].name_view(), s[j].name_view()));
        lemma_lex_lt_transitive(s[i].name_view(), s[j - 1].name_view(), s[j].name_view());
    }
}

/// Two name-sorted sequences that hold the same names list them identically.
#[verifier::rlimit(60)]
proof fn lemma_same_names<T: Named>(s: Seq<T>, t: Seq<T>)
    requires
        sorted_names(s),
        sorted_names(t),
        forall|n: Seq<char>| has_name(s, n) <==> has_name(t, n),
    ensures
        s.len() == t.len(),
        forall|k: int| 0 <= k < s.len() ==> s[k].name_view() == t[k].name_view(),
    decreases s.len(),
{
    if s.len() == 0 {
        if t.len() > 0 {
            assert(has_name(t, t[0].name_view()));
        }
    } else {
        assert(has_name(s, s[0].name_view()));
        assert(t.len() > 0);
        let x = s[0].name_view();
        let y = t[0].name_view();
        assert(has_name(t, x));
        let j = choose|j: int| 0 <= j < t.len() && t[j].name_view() == x;
        assert(has_name(t, y));
        assert(has_name(s, y));
        let i = choose|i: int| 0 <= i < s.len() && s[i].name_view() == y;
        if j > 0 {
            lemma_sorted_pair(t, 0, j);
            if i > 0 {
                lemma_sorted_pair(s, 0, i);
                lemma_lex_lt_transitive(x, y, x);
            }
            lemma_lex_lt_irreflexive(x);
        }
        assert(x == y);
        let s1 = s.drop_first();
        let t1 = t.drop_first();
        assert forall|n: Seq<char>| has_name(s1, n) <==> (has_name(s, n) && n != x) by {
            if has_name(s1, n) {
                let k = choose|k: int| 0 <= k < s1.len() && s1[k].name_view() == n;
                assert(s[k + 1] == s1[k]);
                lemma_sorted_pair(s, 0, k + 1);
                lemma_lex_lt_irreflexive(x);
            }
            if has_name(s, n) && n != x {
                let k = choose|k: int| 0 <= k < s.len() && s[k].name_view() == n;
                assert(s1[k - 1] == s[k]);
            }
        }
        assert forall|n: Seq<char>| has_name(t1, n) <==> (has_name(t, n) && n != x) by {
            if has_name(t1, n) {
                let k = choose|k: int| 0 <= k < t1.len() && t1[k].name_view() == n;
                assert(t[k + 1] == t1[k]);
                lemma_sorted_pair(t, 0, k + 1);
                lemma_lex_lt_irreflexive(x);
            }
            if has_name(t, n) && n != x {
                let k = choose|k: int| 0 <= k < t.len() && t[k].name_view() == n;
                assert(t1[k - 1] == t[k]);
            }
        }
        assert(sorted_names(s1)) by {
            assert forall|k: int| 0 <= k && k + 1 < s1.len() implies lex_lt((#[trigger] s1[k]).name_view(), s1[k + 1].name_view()) by {
                assert(s1[k] == s[k + 1] && s1[k + 1] == s[k + 2]);
            }
        }
        assert(sorted_names(t1)) by {
            assert forall|k: int| 0 <= k && k + 1 < t1.len() implies lex_lt((#[trigger] t1[k]).name_view(), t1[k + 1].name_view()) by {
                assert(t1[k] == t[k + 1] && t1[k + 1] == t[k + 2]);
            }
        }
        lemma_same_names(s1, t1);
        assert forall|k: int| 0 <= k < s.len() implies s[k].name_view() == t[k].name_view() by {
            if k > 0 {
                assert(s[k] == s1[k - 1] && t[k] == t1[k - 1]);
            }
        }
    }
}

/// Merging is commutative: when no two same-named entities of the inputs
/// differ, merging `a` with `b` and `b` with `a` give results of one length
/// whose entries at each position carry the same name and are structurally
/// equal entities of the inputs.
pub proof fn lemma_merge_commutes<T: Entity>(a: Seq<T>, b: Seq<T>, r1: Seq<T>, r2: Seq<T>)
    requires
        !conflict(a + b),
        merged(a, b, r1),
        merged(b, a, r2),
    ensures
        r1.len() == r2.len(),
        forall|k: int| 0 <= k < r1.len() ==> r1[k].name_view() == r2[k].name_view(),
        forall|k: int| 0 <= k < r1.len() ==> (a + b).contains(#[trigger] r1[k]) && (a + b).contains(r2[k]),
        forall|k: int| 0 <= k < r1.len() ==> #[trigger] r1[k].same_spec(&r2[k]),
{
    let ab = a + b;
    let ba = b + a;
    assert forall|n: Seq<char>| has_name(r1, n) <==> has_name(r2, n) by {
        if has_name(r1, n) {
            let k = choose|k: int| 0 <= k < r1.len() && r1[k].name_view() == n;
            assert(ab.contains(r1[k]));
            let i = choose|i: int| 0 <= i < ab.len() && ab[i] == r1[k];
            let i2 = if i < a.len() { b.len() + i } else { i - a.len() };
            assert(ba[i2] == ab[i]);
            assert(has_name(r2, ba[i2].name_view()));
        }
        if has_name(r2, n) {
            let k = choose|k: int| 0 <= k < r2.len() && r2[k].name_view() == n;
            assert(ba.contains(r2[k]));
            let i = choose|i: int| 0 <= i < ba.len() && ba[i] == r2[k];
            let i2 = if i < b.len() { a.len() + i } else { i - b.len() };
            assert(ab[i2] == ba[i]);
            assert(has_name(r1, ab[i2].name_view()));
        }
    }
    lemma_same_names(r1, r2);
    assert forall|k: int| 0 <= k < r1.len() implies ab.contains(#[trigger] r1[k]) && ab.contains(r2[k]) by {
        assert(ba.contains(r2[k]));
        let i = choose|i: int| 0 <= i < ba.len() && ba[i] == r2[k];
        let i2 = if i < b.len() { a.len() + i } else { i - b.len() };
        assert(ab[i2] == ba[i]);
    }
    assert forall|k: int| 0 <= k < r1.len() implies #[trigger] r1[k].same_spec(&r2[k]) by {
        assert(ab.contains(r1[k]) && ab.contains(r2[k]));
        let i = choose|i: int| 0 <= i < ab.len() && ab[i] == r1[k];
        let j = choose|j: int| 0 <= j < ab.len() && ab[j] == r2[k];
        if i == j {
            r1[k].lemma_same_reflexive();
        } else if i < j {
            assert(ab[i].name_view() == ab[j].name_view());
        } else {
            assert(ab[j].name_view() == ab[i].name_view());
            assert(ab[j].same_spec(&ab[i]));
            ab[j].lemma_same_symmetric(&ab[i]);
        }
    }
}

/// Two documents define one name differently.
#[derive(Debug)]
pub struct MergeConflictError {
    pub name: String,
}

/// The index of the item with the given name, if any.
pub fn find_named<T: Named>(v: &Vec<T>, name: &str) -> (r: Option<usize>)
    ensures
        r matches Some(i) ==> i < v@.len() && v@[i as int].name_view() == name@,
        r is None ==> !has_name(v@, name@),
{
    let mut i: usize = 0;
    while i < v.len()
        invariant
            0 <= i <= v@.len(),
            forall|k: int| 0 <= k < i ==> v@[k].name_view() != name@,
        decreases v@.len() - i,
    {
        if crate::text::str_eq(v[i].name(), name) {
            return Some(i);
        }
        i = i + 1;
    }
    None
}

pub fn insert_by_name<T: Named>(v: &mut Vec<T>, x: T)
    requires
        sorted_names(old(v)@),
        !has_name(old(v)@, x.name_view()),
    ensures
        sorted_names(final(v)@),
        final(v)@.len() == old(v)@.len() + 1,
        forall|y: T| final(v)@.contains(y) <==> (old(v)@.contains(y) || y == x),
        names_unique(old(v)@) ==> names_unique(final(v)@),
{
    let ghost t0 = v@;
    let mut p: usize = 0;
    let mut stop = false;
    while p < v.len() && !stop
        invariant
            v@ == t0,
            0 <= p <= t0.len(),
            !has_name(t0, x.name_view()),
            forall|q: int| 0 <= q < p ==> lex_lt(t0[q].name_view(), x.name_view()),
            stop ==> p < t0.len() && lex_lt(x.name_view(), t0[p as int].name_view()),
        decreases t0.len() - p + if stop { 0int } else { 1int },
    {
        let c = compare_str(v[p].name(), x.name());
        if c == Ordering::Less {
            p = p + 1;
        } else {
            assert(t0[p as int].name_view() != x.name_view());
            stop = true;
        }
    }
    v.insert(p, x);
    let ghost t1 = v@;
    assert(t1 == t0.insert(p as int, x));
    assert forall|y: T| t1.contains(y) <==> (t0.contains(y) || y == x) by {
        if t1.contains(y) {
            let k = choose|k: int| 0 <= k < t1.len() && t1[k] == y;
            if k < p {
                assert(t0[k] == y);
            } else if k > p {
                assert(t0[k - 1] == y);
            }
        }
        if t0.contains(y) {
            let k = choose|k: int| 0 <= k < t0.len() && t0[k] == y;
            if k < p {
                assert(t1[k] == y);
            } else {
                assert(t1[k + 1] == y);
            }
        }
        if y == x {
            assert(t1[p as int] == y);
        }
    }
    assert forall|k: int| 0 <= k && k + 1 < t1.len() implies lex_lt((#[trigger] t1[k]).name_view(), t1[k + 1].name_view()) by {
        if k + 1 < p {
            assert(t1[k] == t0[k] && t1[k + 1] == t0[k + 1]);
        } else if k + 1 == p {
            assert(t1[k] == t0[k]);
        } else if k == p {
            assert(t1[k + 1] == t0[k]);
        } else {
            assert(t1[k] == t0[k - 1] && t1[k + 1] == t0[k]);
        }
    }
    assert(names_unique(t0) ==> names_unique(t1)) by {
        if names_unique(t0) {
        assert forall|a: int, b: int| 0 <= a < t1.len() && 0 <= b < t1.len() && a != b implies t1[a].name_view() != t1[b].name_view() by {
            if a != p && b != p {
                let a0 = if a < p { a } else { a - 1 };
                let b0 = if b < p { b } else { b - 1 };
                assert(t1[a] == t0[a0] && t1[b] == t0[b0]);
            } else {
                let o = if a == p { b } else { a };
                let o0 = if o < p { o } else { o - 1 };
                assert(t1[o] == t0[o0]);
                assert(t1[p as int] == x);
            }
        }
        }
    }
}

/// The union by name of two documents' entities, sorted by name. Every two
/// entities that share a name, in one document or across both, must be
/// structurally equal, else the merge fails; no normalisation is applied
/// before the comparison. Each name is kept once.
pub fn merge<T: Entity>(a: Vec<T>, b: Vec<T>) -> (r: Result<Vec<T>, MergeConflictError>)
    ensures
        r is Err <==> conflict(a@ + b@),
        r matches Err(e) ==> has_name(a@ + b@, e.name@),
        r matches Ok(v) ==> merged(a@, b@, v@),
{
    let ghost c0 = a@ + b@;
    let mut c = a;
    let mut rest = b;
    c.append(&mut rest);
    assert(c@ == c0);
    let mut i: usize = 0;
    while i < c.len()
        invariant
            c@ == c0,
            c0 == a@ + b@,
            0 <= i <= c0.len(),
            forall|x: int, y: int| 0 <= x < i && x < y < c0.len() && c0[x].name_view() == c0[y].name_view() ==> c0[x].same_spec(&c0[y]),
        decreases c0.len() - i,
    {
        let mut j: usize = i + 1;
        while j < c.len()
            invariant
                c@ == c0,
                c0 == a@ + b@,
                0 <= i < c0.len(),
                i + 1 <= j <= c0.len(),
                forall|x: int, y: int| 0 <= x < i && x < y < c0.len() && c0[x].name_view() == c0[y].name_view() ==> c0[x].same_spec(&c0[y]),
                forall|y: int| i < y < j && c0[i as int].name_view() == c0[y].name_view() ==> c0[i as int].same_spec(&c0[y]),
            decreases c0.len() - j,
        {
            if crate::text::str_eq(c[i].name(), c[j].name()) && !c[i].same_as(&c[j]) {
                let name = c[j].name().to_owned();
                proof {
                    assert(c0[i as int].name_view() == c0[j as int].name_view() && !c0[i as int].same_spec(&c0[j as int]));
                    assert(conflict(c0));
                    assert(name@ == c0[j as int].name_view());
                    assert(has_name(c0, name@));
                }
                return Err(MergeConflictError { name });
            }
            j = j + 1;
        }
        i = i + 1;
    }
    assert(!conflict(c0));
    let mut v: Vec<T> = Vec::new();
    while c.len() > 0
        invariant
            c@ == c0.take(c@.len() as int),
            c0 == a@ + b@,
            c@.len() <= c0.len(),
            sorted_names(v@),
            names_unique(v@),
            forall|k: int| 0 <= k < v@.len() ==> c0.contains(#[trigger] v@[k]),
            forall|x: int| c@.len() <= x < c0.len() ==> has_name(v@, #[trigger] c0[x].name_view()),
        decreases c@.len(),
    {
        let ghost n = c@.len() as int;
        let x = c.pop().unwrap();
        assert(x == c0[n - 1]);
        assert(c@ =~= c0.take(n - 1));
        if find_named(&v, x.name()).is_none() {
            let ghost v0 = v@;
            let ghost xx = x;
            insert_by_name(&mut v, x);
            proof {
                assert forall|k: int| 0 <= k < v@.len() implies c0.contains(#[trigger] v@[k]) by {
                    assert(v@.contains(v@[k]));
                    if v@[k] != xx {
                        assert(v0.contains(v@[k]));
                        let k0 = choose|k0: int| 0 <= k0 < v0.len() && v0[k0] == v@[k];
                        assert(c0.contains(v0[k0]));
                    } else {
                        assert(c0[n - 1] == xx);
                    }
                }
                assert forall|y: int| n - 1 <= y < c0.len() implies has_name(v@, #[trigger] c0[y].name_view()) by {
                    if y == n - 1 {
                        assert(v@.contains(xx));
                        let k = choose|k: int| 0 <= k < v@.len() && v@[k] == xx;
                    } else {
                        assert(has_name(v0, c0[y].name_view()));
                        let k0 = choose|k0: int| 0 <= k0 < v0.len() && v0[k0].name_view() == c0[y].name_view();
                        assert(v0.contains(v0[k0]));
                        let k = choose|k: int| 0 <= k < v@.len() && v@[k] == v0[k0];
                    }
                }
            }
        }
    }
    Ok(v)
}

/// Merges two documents: their materials and their groups, each by name.
pub fn merge_eyesight(a: Eyesight, b: Eyesight) -> (r: Result<Eyesight, MergeConflictError>)
    ensures
        r is Err <==> conflict(a.materials@ + b.materials@) || conflict(a.groups@ + b.groups@),
        r matches Ok(d) ==> sorted_names(d.materials@) && names_unique(d.materials@),
        r matches Ok(d) ==> sorted_names(d.groups@) && names_unique(d.groups@),
        r matches Ok(d) ==> forall|i: int| 0 <= i < (a.groups@ + b.groups@).len() ==> has_name(d.groups@, #[trigger] (a.groups@ + b.groups@)[i].name_view()),
        r matches Ok(d) ==> forall|k: int| 0 <= k < d.groups@.len() ==> (a.groups@ + b.groups@).contains(#[trigger] d.groups@[k]),
        r matches Ok(d) ==> forall|i: int| 0 <= i < (a.materials@ + b.materials@).len() ==> has_name(d.materials@, #[trigger] (a.materials@ + b.materials@)[i].name_view()),
        r matches Ok(d) ==> forall|k: int| 0 <= k < d.materials@.len() ==> (a.materials@ + b.materials@).contains(#[trigger] d.materials@[k]),
{
    let ghost (am, bm, ag, bg) = (a.materials@, b.materials@, a.groups@, b.groups@);
    let materials = match merge(a.materials, b.materials) {
        Ok(m) => m,
        Err(e) => {
            return Err(e);
        },
    };
    let groups = match merge(a.groups, b.groups) {
        Ok(g) => g,
        Err(e) => {
            return Err(e);
        },
    };
    Ok(Eyesight { materials, groups })
}

} // verus!
