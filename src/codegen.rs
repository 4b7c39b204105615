use vstd::prelude::*;
use crate::aliases::{input_alias, input_alias_of, output_alias, output_alias_of};
use crate::graph::{Link, Node};
use crate::interface::{Interface, InterfaceSocket};
use crate::socket::socket_class;
use crate::nodes::construct_of;
use crate::schedule::{find_node, unique_node_names};
use crate::text::{decimal, decimal_text, str_eq};

verus! {

pub open spec fn is_digit(c: char) -> bool {
    '0' <= c && c <= '9'
}

pub open spec fn all_digits(s: Seq<char>) -> bool {
    forall|i: int| 0 <= i < s.len() ==> is_digit(#[trigger] s[i])
}

/// The digits of an unsigned number, after an optional leading `+`.
pub open spec fn unsigned_digits(s: Seq<char>) -> Seq<char> {
    if s.len() > 0 && s[0] == '+' {
        s.drop_first()
    } else {
        s
    }
}

/// `d` without its leading zeros.
pub open spec fn strip_zeros(d: Seq<char>) -> Seq<char>
    decreases d.len(),
{
    if d.len() > 0 && d[0] == '0' {
        strip_zeros(d.drop_first())
    } else {
        d
    }
}

/// The canonical decimal text of `s` read as a non-negative integer of any
/// size (an optional `+`, then at least one digit), if it is one.
pub open spec fn parses_as_index(s: Seq<char>) -> Option<Seq<char>> {
    let d = unsigned_digits(s);
    if d.len() > 0 && all_digits(d) {
        if strip_zeros(d).len() == 0 {
            Some("0"@)
        } else {
            Some(strip_zeros(d))
        }
    } else {
        None
    }
}

/// The string as a quoted literal, with special characters escaped.
pub uninterp spec fn debug_quoted(s: Seq<char>) -> Seq<char>;

/// Relies on `<str as Debug>::fmt`: it writes the string in double quotes with
/// quotes, backslashes and control characters escaped.
#[verifier::external_body]
pub(crate) fn quote_str(s: &str) -> (r: String)
    ensures
        r@ == debug_quoted(s@),
{
    format!("{s:?}")
}

/// How a socket key is written: a non-negative integer as a bare index in
/// canonical decimal form, anything else as a quoted string.
pub open spec fn socket_key(s: Seq<char>) -> Seq<char> {
    match parses_as_index(s) {
        Some(n) => n,
        None => debug_quoted(s),
    }
}

/// Reads `s` as a non-negative integer and writes it in canonical form.
pub fn integer_key(s: &str) -> (r: Option<String>)
    ensures
        r matches Some(t) ==> parses_as_index(s@) == Some(t@),
        r is None ==> parses_as_index(s@) is None,
{
    let n = s.unicode_len();
    let start: usize = if n > 0 && s.get_char(0) == '+' { 1 } else { 0 };
    let ghost d = unsigned_digits(s@);
    assert(d =~= s@.skip(start as int));
    if start == n {
        return None;
    }
    let mut i: usize = start;
    while i < n
        invariant
            n == s@.len(),
            start <= i <= n,
            d == s@.skip(start as int),
            d == unsigned_digits(s@),
            all_digits(s@.subrange(start as int, i as int)),
        decreases n - i,
    {
        let c = s.get_char(i);
        if !('0' <= c && c <= '9') {
            assert(d[i - start] == c);
            assert(!is_digit(d[i - start]));
            return None;
        }
        assert forall|j: int| 0 <= j < i + 1 - start implies is_digit(#[trigger] s@.subrange(start as int, i + 1)[j]) by {
            if j < i - start {
                assert(s@.subrange(start as int, i + 1)[j] == s@.subrange(start as int, i as int)[j]);
            }
        }
        i = i + 1;
    }
    assert(s@.subrange(start as int, n as int) =~= d);
    let mut z: usize = start;
    while z < n && s.get_char(z) == '0'
        invariant
            n == s@.len(),
            start <= z <= n,
            strip_zeros(s@.skip(z as int)) == strip_zeros(d),
        decreases n - z,
    {
        assert(s@.skip(z as int).drop_first() =~= s@.skip(z + 1));
        z = z + 1;
    }
    if z == n {
        assert(s@.skip(z as int).len() == 0);
        proof {
            reveal_strlit("0");
        }
        Some("0".to_owned())
    } else {
        let rest = s.substring_char(z, n);
        assert(rest@ =~= s@.skip(z as int));
        Some(rest.to_owned())
    }
}

/// Writes a socket key: an integer index bare, a name quoted and escaped.
pub fn get_socket_key(s: &str) -> (r: String)
    ensures
        r@ == socket_key(s@),
{
    match integer_key(s) {
        Some(t) => t,
        None => quote_str(s),
    }
}

/// The name under which a construct's input socket is written.
pub open spec fn input_key(construct: Seq<char>, socket: Seq<char>) -> Seq<char> {
    match input_alias_of(construct, socket) {
        Some(a) => socket_key(a),
        None => socket_key(socket),
    }
}

/// The name under which a construct's output socket is written.
pub open spec fn output_key(construct: Seq<char>, socket: Seq<char>) -> Seq<char> {
    match output_alias_of(construct, socket) {
        Some(a) => socket_key(a),
        None => socket_key(socket),
    }
}

/// Resolves an input socket through the alias table and writes its key.
pub fn input_key_text(construct: &str, socket: &str) -> (r: String)
    ensures
        r@ == input_key(construct@, socket@),
{
    match input_alias(construct, socket) {
        Some(a) => get_socket_key(a),
        None => get_socket_key(socket),
    }
}

/// Resolves an output socket through the alias table and writes its key.
pub fn output_key_text(construct: &str, socket: &str) -> (r: String)
    ensures
        r@ == output_key(construct@, socket@),
{
    match output_alias(construct, socket) {
        Some(a) => get_socket_key(a),
        None => get_socket_key(socket),
    }
}

/// The entry of a node's input mapping that a link fills: the destination
/// key, then the source node indexed by the source key.
pub open spec fn wired_entry(
    dst_construct: Seq<char>,
    to_socket: Seq<char>,
    src_node: Seq<char>,
    src_construct: Seq<char>,
    from_socket: Seq<char>,
) -> Seq<char> {
    input_key(dst_construct, to_socket) + ": "@ + src_node + "["@ + output_key(src_construct, from_socket) + "]"@
}

/// Writes the input-mapping entry for one inbound link.
pub fn wired_input(
    dst_construct: &str,
    to_socket: &str,
    src_node: &str,
    src_construct: &str,
    from_socket: &str,
) -> (r: String)
    ensures
        r@ == wired_entry(dst_construct@, to_socket@, src_node@, src_construct@, from_socket@),
{
    let mut line = input_key_text(dst_construct, to_socket);
    line.append(": ");
    line.append(src_node);
    line.append("[");
    let key = output_key_text(src_construct, from_socket);
    line.append(key.as_str());
    line.append("]");
    line
}

/// The key of the socket that a link leaves, resolved through the output
/// aliases of the node it leaves; a link from an unknown node keeps its name.
pub open spec fn source_key(nodes: Seq<Node>, l: Link) -> Seq<char> {
    if exists|i: int| 0 <= i < nodes.len() && nodes[i].name@ == l.from_node@ {
        let i = choose|i: int| 0 <= i < nodes.len() && nodes[i].name@ == l.from_node@;
        output_key(construct_of(nodes[i].kind), l.from_socket@)
    } else {
        socket_key(l.from_socket@)
    }
}

/// The input-mapping entry that link `l` gives node `j`.
pub open spec fn link_entry(nodes: Seq<Node>, j: int, l: Link) -> Seq<char> {
    input_key(construct_of(nodes[j].kind), l.to_socket@) + ": "@ + l.from_node@ + "["@ + source_key(nodes, l) + "]"@
}

/// The entries for every link into node `j`, in link order.
pub open spec fn inbound_entries(nodes: Seq<Node>, links: Seq<Link>, j: int) -> Seq<Seq<char>>
    decreases links.len(),
{
    if links.len() == 0 {
        Seq::empty()
    } else {
        let rest = inbound_entries(nodes, links.drop_last(), j);
        if links.last().to_node@ == nodes[j].name@ {
            rest.push(link_entry(nodes, j, links.last()))
        } else {
            rest
        }
    }
}

/// Writes the input-mapping entries for the links into node `j`.
pub fn wired_inputs(nodes: &Vec<Node>, links: &Vec<Link>, j: usize) -> (r: Vec<String>)
    requires
        unique_node_names(nodes@),
        j < nodes@.len(),
    ensures
        r.deep_view() == inbound_entries(nodes@, links@, j as int),
{
    let mut r: Vec<String> = Vec::new();
    let dst = nodes[j].python_type();
    let mut l: usize = 0;
    while l < links.len()
        invariant
            unique_node_names(nodes@),
            j < nodes@.len(),
            dst@ == construct_of(nodes@[j as int].kind),
            0 <= l <= links@.len(),
            r.deep_view() == inbound_entries(nodes@, links@.take(l as int), j as int),
        decreases links@.len() - l,
    {
        let link = &links[l];
        assert(links@.take(l + 1).drop_last() =~= links@.take(l as int));
        assert(links@.take(l + 1).last() == link);
        if str_eq(link.to_node.as_str(), nodes[j].name.as_str()) {
            let entry = match find_node(nodes, link.from_node.as_str()) {
                Some(i) => {
                    proof {
                        let c = choose|c: int| 0 <= c < nodes@.len() && nodes@[c].name@ == link.from_node@;
                        assert(c == i);
                    }
                    wired_input(dst, link.to_socket.as_str(), link.from_node.as_str(), nodes[i].python_type(), link.from_socket.as_str())
                },
                None => {
                    let mut line = input_key_text(dst, link.to_socket.as_str());
                    line.append(": ");
                    line.append(link.from_node.as_str());
                    line.append("[");
                    let key = get_socket_key(link.from_socket.as_str());
                    line.append(key.as_str());
                    line.append("]");
                    line
                },
            };
            let ghost before = r.deep_view();
            r.push(entry);
            assert(r.deep_view() =~= before.push(entry@));
        }
        l = l + 1;
    }
    assert(links@.take(l as int) =~= links@);
    r
}

/// The declaration of one interface socket: `graph.input(...)` or
/// `graph.output(...)` with the socket's class and quoted name.
pub open spec fn declaration(output: bool, x: InterfaceSocket) -> Seq<char> {
    (if output { "graph.output(bpy.types."@ } else { "graph.input(bpy.types."@ }) + socket_class(x.data_type) + ", \""@
        + x.name@ + "\")"@
}

/// The declarations of a group's interface: every input, then every output.
pub open spec fn declarations(i: Interface) -> Seq<Seq<char>> {
    i.inputs@.map_values(|x: InterfaceSocket| declaration(false, x)) + i.outputs@.map_values(
        |x: InterfaceSocket| declaration(true, x),
    )
}

fn declaration_text(output: bool, x: &InterfaceSocket) -> (r: String)
    ensures
        r@ == declaration(output, *x),
{
    let mut line = if output {
        "graph.output(bpy.types.".to_owned()
    } else {
        "graph.input(bpy.types.".to_owned()
    };
    line.append(x.data_type.python_type());
    line.append(", \"");
    line.append(x.name.as_str());
    line.append("\")");
    line
}

/// Writes the declarations of a group's interface, inputs first.
pub fn interface_lines(i: &Interface) -> (r: Vec<String>)
    ensures
        r.deep_view() == declarations(*i),
{
    let mut lines: Vec<String> = Vec::new();
    let ghost ins = i.inputs@.map_values(|x: InterfaceSocket| declaration(false, x));
    let ghost outs = i.outputs@.map_values(|x: InterfaceSocket| declaration(true, x));
    let mut k: usize = 0;
    while k < i.inputs.len()
        invariant
            0 <= k <= i.inputs@.len(),
            ins == i.inputs@.map_values(|x: InterfaceSocket| declaration(false, x)),
            lines.deep_view() == ins.take(k as int),
        decreases i.inputs@.len() - k,
    {
        let line = declaration_text(false, &i.inputs[k]);
        let ghost before = lines.deep_view();
        lines.push(line);
        assert(lines.deep_view() =~= before.push(ins[k as int]));
        assert(ins.take(k + 1) =~= ins.take(k as int).push(ins[k as int]));
        k = k + 1;
    }
    assert(ins.take(k as int) =~= ins);
    let mut k: usize = 0;
    while k < i.outputs.len()
        invariant
            0 <= k <= i.outputs@.len(),
            outs == i.outputs@.map_values(|x: InterfaceSocket| declaration(true, x)),
            lines.deep_view() == ins + outs.take(k as int),
        decreases i.outputs@.len() - k,
    {
        let line = declaration_text(true, &i.outputs[k]);
        let ghost before = lines.deep_view();
        lines.push(line);
        assert(lines.deep_view() =~= before.push(outs[k as int]));
        assert(outs.take(k + 1) =~= outs.take(k as int).push(outs[k as int]));
        k = k + 1;
    }
    assert(outs.take(k as int) =~= outs);
    lines
}

/// The statement that places a node at layout coordinates `(x, y)`.
pub open spec fn location(var: Seq<char>, x: nat, y: nat) -> Seq<char> {
    var + ".node.location = ("@ + decimal(x) + ", "@ + decimal(y) + ")"@
}

/// Writes the statement that places a node; the coordinates are cosmetic.
pub fn location_line(var: &str, x: u128, y: u128) -> (r: String)
    ensures
        r@ == location(var@, x as nat, y as nat),
{
    let mut line = var.to_owned();
    line.append(".node.location = (");
    let xs = decimal_text(x);
    line.append(xs.as_str());
    line.append(", ");
    let ys = decimal_text(y);
    line.append(ys.as_str());
    line.append(")");
    line
}

} // verus!
